pub mod decimal;
pub mod money;
pub mod time;
pub mod text;
pub mod message;
pub mod parser;
pub mod pattern;
pub mod record;
pub mod process;
