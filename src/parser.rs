use vstd::prelude::*;

use crate::decimal::decimal_text;
use crate::decimal::parse_decimal;
use crate::decimal::Decimal;
use crate::money::iso_listed;
use crate::money::Currency;
use crate::money::Money;
use crate::message::TextMessage;
use crate::record::Record;
use crate::text::strip_commas;
use crate::text::trim;
use crate::text::trimmed;
use crate::text::without_commas;
use crate::time::local_time_text;
use crate::time::parse_local_time;
use crate::time::UtcTime;
use crate::pattern::capture_groups;
use crate::pattern::group_text;
use crate::pattern::pattern_matches;
use crate::pattern::pattern_valid;

verus! {

/// Whether a transaction brings money in or takes it out.
#[derive(Clone, Copy, Debug, PartialEq, Eq, Structural)]
pub enum Nature {
    Credit,
    Debit,
}

/// The parser that a failure came from.
#[derive(Clone, Copy, Debug, PartialEq, Eq, Structural)]
pub enum ParserKind {
    Currency,
    DateTime,
    Nature,
    Amount,
}

/// A captured text that its parser could not read.
#[derive(Debug)]
pub struct Error {
    pub kind: ParserKind,
    pub raw_text: String,
}

/// Why a field could not be had, in the model.
pub enum Fault {
    MissingGroup(Seq<char>),
    Invalid(ParserKind, Seq<char>),
}

/// Why a field could not be had: a group that the match does not hold (a fault of the
/// configuration), or a captured text that its parser rejects (a fault of the message).
#[derive(Debug)]
pub enum FieldError {
    MissingGroup(String),
    Invalid(Error),
}

impl FieldError {
    pub open spec fn fault(self) -> Fault {
        match self {
            FieldError::MissingGroup(g) => Fault::MissingGroup(g@),
            FieldError::Invalid(e) => Fault::Invalid(e.kind, e.raw_text@),
        }
    }
}

/// The text of an optional string.
pub open spec fn opt_view(o: Option<String>) -> Option<Seq<char>> {
    match o {
        Some(s) => Some(s@),
        None => None,
    }
}

/// Reads free text: the captured text without surrounding white space.
#[derive(Debug)]
pub struct StringParser;

impl StringParser {
    /// Never fails.
    pub fn parse(&self, raw: &str) -> (r: Result<String, Error>)
        ensures
            r matches Ok(s) && s@ == trimmed(raw@),
    {
        Ok(trim(raw))
    }
}

/// Reads an ISO 4217 currency code.
#[derive(Debug)]
pub struct CurrencyParser;

impl CurrencyParser {
    pub fn parse(&self, raw: &str) -> (r: Result<Currency, Error>)
        ensures
            match r {
                Ok(c) => iso_listed(raw@) && c.code@ == raw@,
                Err(e) => !iso_listed(raw@) && e.kind == ParserKind::Currency && e.raw_text@
                    == raw@,
            },
    {
        match Currency::find(raw) {
            Some(c) => Ok(c),
            None => Err(Error { kind: ParserKind::Currency, raw_text: raw.to_owned() }),
        }
    }
}

/// Reads the literal `Credit` or `Debit`, with case.
#[derive(Debug)]
pub struct NatureParser;

/// The nature that a text names, if it names one.
pub open spec fn nature_text(raw: Seq<char>) -> Option<Nature> {
    if raw == "Credit"@ {
        Some(Nature::Credit)
    } else if raw == "Debit"@ {
        Some(Nature::Debit)
    } else {
        None
    }
}

impl NatureParser {
    pub fn parse(&self, raw: &str) -> (r: Result<Nature, Error>)
        ensures
            match r {
                Ok(n) => nature_text(raw@) == Some(n),
                Err(e) => nature_text(raw@) is None && e.kind == ParserKind::Nature && e.raw_text@
                    == raw@,
            },
    {
        let text = raw.to_owned();
        if text == String::from_str("Credit") {
            Ok(Nature::Credit)
        } else if text == String::from_str("Debit") {
            Ok(Nature::Debit)
        } else {
            Err(Error { kind: ParserKind::Nature, raw_text: text })
        }
    }
}

/// Reads a local date and time with a `strftime`-style format, in a zone `utc_offset` seconds
/// east of UTC, and gives the instant in UTC. The second form appends `suffix` to the
/// captured text first, for formats that need a field the message leaves out.
#[derive(Debug)]
pub enum DateTimeParser {
    FormattedDateTime { format: String, utc_offset: i32 },
    FormattedDateTimeWithAppend { format: String, suffix: String, utc_offset: i32 },
}

impl DateTimeParser {
    /// The text handed to the date parser for the captured text `raw`.
    pub open spec fn input(self, raw: Seq<char>) -> Seq<char> {
        match self {
            DateTimeParser::FormattedDateTime { .. } => raw,
            DateTimeParser::FormattedDateTimeWithAppend { suffix, .. } => raw + suffix@,
        }
    }

    /// The instant read from the captured text `raw`, if any.
    pub open spec fn read(self, raw: Seq<char>) -> Option<UtcTime> {
        match self {
            DateTimeParser::FormattedDateTime { format, utc_offset } => local_time_text(
                self.input(raw),
                format@,
                utc_offset,
            ),
            DateTimeParser::FormattedDateTimeWithAppend { format, utc_offset, .. } =>
                local_time_text(self.input(raw), format@, utc_offset),
        }
    }

    pub fn parse(&self, raw: &str) -> (r: Result<UtcTime, Error>)
        ensures
            match r {
                Ok(t) => self.read(raw@) == Some(t) && t.wf(),
                Err(e) => self.read(raw@) is None && e.kind == ParserKind::DateTime
                    && e.raw_text@ == raw@,
            },
    {
        let parsed = match self {
            DateTimeParser::FormattedDateTime { format, utc_offset } => {
                parse_local_time(raw, format.as_str(), *utc_offset)
            },
            DateTimeParser::FormattedDateTimeWithAppend { format, suffix, utc_offset } => {
                let mut text = raw.to_owned();
                text.append(suffix.as_str());
                parse_local_time(text.as_str(), format.as_str(), *utc_offset)
            },
        };
        match parsed {
            Some(t) => Ok(t),
            None => Err(Error { kind: ParserKind::DateTime, raw_text: raw.to_owned() }),
        }
    }
}

/// The amount written in a captured text: digit-grouping commas are left out and the rest
/// is read as a decimal number.
pub open spec fn amount_text(raw: Seq<char>) -> Result<Decimal, Fault> {
    match decimal_text(without_commas(raw)) {
        Some(d) => Ok(d),
        None => Err(Fault::Invalid(ParserKind::Amount, raw)),
    }
}

pub fn parse_amount(raw: &str) -> (r: Result<Decimal, Error>)
    ensures
        match r {
            Ok(d) => amount_text(raw@) == Ok::<Decimal, Fault>(d) && d.wf(),
            Err(e) => amount_text(raw@) == Err::<Decimal, Fault>(e@),
        },
{
    let digits = strip_commas(raw);
    match parse_decimal(digits.as_str()) {
        Some(d) => Ok(d),
        None => Err(Error { kind: ParserKind::Amount, raw_text: raw.to_owned() }),
    }
}

impl View for Error {
    type V = Fault;

    open spec fn view(&self) -> Fault {
        Fault::Invalid(self.kind, self.raw_text@)
    }
}

/// Where the value of a field comes from: a constant of the configuration, or a named group
/// of the match read with a parser.
#[derive(Debug)]
pub enum Value<T, P> {
    Fixed(T),
    FromMatch { group: String, parser: P },
}

/// The group that a field reads, or the empty name for a constant.
pub open spec fn group_of<T, P>(v: Value<T, P>) -> Seq<char> {
    match v {
        Value::Fixed(_) => Seq::empty(),
        Value::FromMatch { group, .. } => group@,
    }
}

impl<T, P> Value<T, P> {
    pub fn group_name(&self) -> (r: String)
        ensures
            r@ == group_of(*self),
    {
        match self {
            Value::Fixed(_) => String::new(),
            Value::FromMatch { group, .. } => group.clone(),
        }
    }
}

/// A text field, from the captured text `c` of its group.
pub open spec fn text_field(v: Value<String, StringParser>, c: Option<Seq<char>>) -> Result<
    Seq<char>,
    Fault,
> {
    match v {
        Value::Fixed(s) => Ok(s@),
        Value::FromMatch { group, .. } => match c {
            None => Err(Fault::MissingGroup(group@)),
            Some(t) => Ok(trimmed(t)),
        },
    }
}

/// A currency field, as its code.
pub open spec fn currency_field(v: Value<Currency, CurrencyParser>, c: Option<Seq<char>>) -> Result<
    Seq<char>,
    Fault,
> {
    match v {
        Value::Fixed(cur) => Ok(cur.code@),
        Value::FromMatch { group, .. } => match c {
            None => Err(Fault::MissingGroup(group@)),
            Some(t) => if iso_listed(t) {
                Ok(t)
            } else {
                Err(Fault::Invalid(ParserKind::Currency, t))
            },
        },
    }
}

/// A nature field.
pub open spec fn nature_field(v: Value<Nature, NatureParser>, c: Option<Seq<char>>) -> Result<
    Nature,
    Fault,
> {
    match v {
        Value::Fixed(n) => Ok(n),
        Value::FromMatch { group, .. } => match c {
            None => Err(Fault::MissingGroup(group@)),
            Some(t) => match nature_text(t) {
                Some(n) => Ok(n),
                None => Err(Fault::Invalid(ParserKind::Nature, t)),
            },
        },
    }
}

/// A time field.
pub open spec fn time_field(v: Value<UtcTime, DateTimeParser>, c: Option<Seq<char>>) -> Result<
    UtcTime,
    Fault,
> {
    match v {
        Value::Fixed(t) => Ok(t),
        Value::FromMatch { group, parser } => match c {
            None => Err(Fault::MissingGroup(group@)),
            Some(raw) => match parser.read(raw) {
                Some(t) => Ok(t),
                None => Err(Fault::Invalid(ParserKind::DateTime, raw)),
            },
        },
    }
}

pub fn extract_text(v: &Value<String, StringParser>, c: &Option<String>) -> (r: Result<
    String,
    FieldError,
>)
    ensures
        match r {
            Ok(s) => text_field(*v, opt_view(*c)) == Ok::<Seq<char>, Fault>(s@),
            Err(e) => text_field(*v, opt_view(*c)) == Err::<Seq<char>, Fault>(e.fault()),
        },
{
    match v {
        Value::Fixed(s) => Ok(s.clone()),
        Value::FromMatch { group, parser } => match c {
            None => Err(FieldError::MissingGroup(group.clone())),
            Some(t) => match parser.parse(t.as_str()) {
                Ok(s) => Ok(s),
                Err(e) => Err(FieldError::Invalid(e)),
            },
        },
    }
}

pub fn extract_currency(v: &Value<Currency, CurrencyParser>, c: &Option<String>) -> (r: Result<
    Currency,
    FieldError,
>)
    ensures
        match r {
            Ok(cur) => currency_field(*v, opt_view(*c)) == Ok::<Seq<char>, Fault>(cur.code@),
            Err(e) => currency_field(*v, opt_view(*c)) == Err::<Seq<char>, Fault>(e.fault()),
        },
{
    match v {
        Value::Fixed(cur) => Ok(cur.duplicate()),
        Value::FromMatch { group, parser } => match c {
            None => Err(FieldError::MissingGroup(group.clone())),
            Some(t) => match parser.parse(t.as_str()) {
                Ok(cur) => Ok(cur),
                Err(e) => Err(FieldError::Invalid(e)),
            },
        },
    }
}

pub fn extract_nature(v: &Value<Nature, NatureParser>, c: &Option<String>) -> (r: Result<
    Nature,
    FieldError,
>)
    ensures
        match r {
            Ok(n) => nature_field(*v, opt_view(*c)) == Ok::<Nature, Fault>(n),
            Err(e) => nature_field(*v, opt_view(*c)) == Err::<Nature, Fault>(e.fault()),
        },
{
    match v {
        Value::Fixed(n) => Ok(*n),
        Value::FromMatch { group, parser } => match c {
            None => Err(FieldError::MissingGroup(group.clone())),
            Some(t) => match parser.parse(t.as_str()) {
                Ok(n) => Ok(n),
                Err(e) => Err(FieldError::Invalid(e)),
            },
        },
    }
}

pub fn extract_time(v: &Value<UtcTime, DateTimeParser>, c: &Option<String>) -> (r: Result<
    UtcTime,
    FieldError,
>)
    ensures
        match r {
            Ok(t) => time_field(*v, opt_view(*c)) == Ok::<UtcTime, Fault>(t) && (v is Fixed
                || t.wf()),
            Err(e) => time_field(*v, opt_view(*c)) == Err::<UtcTime, Fault>(e.fault()),
        },
{
    match v {
        Value::Fixed(t) => Ok(*t),
        Value::FromMatch { group, parser } => match c {
            None => Err(FieldError::MissingGroup(group.clone())),
            Some(raw) => match parser.parse(raw.as_str()) {
                Ok(t) => Ok(t),
                Err(e) => Err(FieldError::Invalid(e)),
            },
        },
    }
}

/// How the fields of a record are read.
#[derive(Debug)]
pub struct ValuesConfig {
    pub nature: Value<Nature, NatureParser>,
    pub account: Value<String, StringParser>,
    pub amount: Value<String, StringParser>,
    pub currency: Value<Currency, CurrencyParser>,
    pub source: Value<String, StringParser>,
    pub time: Value<UtcTime, DateTimeParser>,
}

impl ValuesConfig {
    /// A constant time is a valid instant.
    pub open spec fn wf(self) -> bool {
        self.time matches Value::Fixed(t) ==> t.wf()
    }

    /// The groups that the fields read, in the order nature, account, amount, currency,
    /// source, time (the empty name for a constant field).
    pub open spec fn groups(self) -> Seq<Seq<char>> {
        seq![
            group_of(self.nature),
            group_of(self.account),
            group_of(self.amount),
            group_of(self.currency),
            group_of(self.source),
            group_of(self.time),
        ]
    }

    pub fn group_names(&self) -> (r: Vec<String>)
        ensures
            r@.len() == 6,
            forall|i: int| 0 <= i < 6 ==> #[trigger] r@[i]@ == self.groups()[i],
    {
        let mut r: Vec<String> = Vec::new();
        r.push(self.nature.group_name());
        r.push(self.account.group_name());
        r.push(self.amount.group_name());
        r.push(self.currency.group_name());
        r.push(self.source.group_name());
        r.push(self.time.group_name());
        r
    }
}

/// The fields of a record, in the model.
pub struct Fields {
    pub nature: Nature,
    pub account: Seq<char>,
    pub amount: Decimal,
    pub currency: Seq<char>,
    pub source: Seq<char>,
    pub time: UtcTime,
}

/// The fields that `vals` reads from the captured texts `caps` (one for each field, in the
/// order of `groups`), or the first fault, taking the fields in the order nature, account,
/// amount text, currency, amount value, source, time.
pub open spec fn fields_of(vals: ValuesConfig, caps: Seq<Option<Seq<char>>>) -> Result<Fields, Fault> {
    match nature_field(vals.nature, caps[0]) {
        Err(f) => Err(f),
        Ok(nature) => match text_field(vals.account, caps[1]) {
            Err(f) => Err(f),
            Ok(account) => match text_field(vals.amount, caps[2]) {
                Err(f) => Err(f),
                Ok(amount_raw) => match currency_field(vals.currency, caps[3]) {
                    Err(f) => Err(f),
                    Ok(currency) => match amount_text(amount_raw) {
                        Err(f) => Err(f),
                        Ok(amount) => match text_field(vals.source, caps[4]) {
                            Err(f) => Err(f),
                            Ok(source) => match time_field(vals.time, caps[5]) {
                                Err(f) => Err(f),
                                Ok(time) => Ok(
                                    Fields { nature, account, amount, currency, source, time },
                                ),
                            },
                        },
                    },
                },
            },
        },
    }
}

/// A pattern with named groups, and how a record is read from a match of it.
#[derive(Debug)]
pub struct Matcher {
    pub id: String,
    pub pattern: String,
    pub values: ValuesConfig,
}

/// `rec` holds the fields `f`, read from `msg` by `m`.
pub open spec fn record_of(rec: Record, m: Matcher, msg: TextMessage, f: Fields) -> bool {
    &&& rec.matcher_id@ == m.id@
    &&& rec.message_id == msg.id
    &&& rec.nature == f.nature
    &&& rec.account@ == f.account
    &&& rec.amount.amount == f.amount
    &&& rec.amount.currency.code@ == f.currency
    &&& rec.source@ == f.source
    &&& rec.time == f.time
}

/// Builds the record that `matcher` reads from `msg`, given the captured texts of its groups
/// (one for each field, in the order of `ValuesConfig::groups`).
pub fn parse_record(matcher: &Matcher, captures: &Vec<Option<String>>, msg: &TextMessage) -> (r: Result<Record, FieldError>)
    requires
        captures@.len() == 6,
        matcher.values.wf(),
    ensures
        match r {
            Ok(rec) => {
                &&& fields_of(matcher.values, captures@.map_values(|c: Option<String>| opt_view(c))) matches Ok(f)
                &&& record_of(rec, *matcher, *msg, f)
                &&& rec.wf()
            },
            Err(e) => fields_of(matcher.values, captures@.map_values(|c: Option<String>| opt_view(c)))
                == Err::<Fields, Fault>(e.fault()),
        },
{
    let ghost caps = captures@.map_values(|c: Option<String>| opt_view(c));
    assert(caps[0] == opt_view(captures@[0]));
    assert(caps[1] == opt_view(captures@[1]));
    assert(caps[2] == opt_view(captures@[2]));
    assert(caps[3] == opt_view(captures@[3]));
    assert(caps[4] == opt_view(captures@[4]));
    assert(caps[5] == opt_view(captures@[5]));
    let values = &matcher.values;
    let nature = extract_nature(&values.nature, &captures[0])?;
    let account = extract_text(&values.account, &captures[1])?;
    let amount_raw = extract_text(&values.amount, &captures[2])?;
    let currency = extract_currency(&values.currency, &captures[3])?;
    let amount = match parse_amount(amount_raw.as_str()) {
        Ok(d) => d,
        Err(e) => {
            return Err(FieldError::Invalid(e));
        },
    };
    let source = extract_text(&values.source, &captures[4])?;
    let time = extract_time(&values.time, &captures[5])?;
    Ok(Record {
        matcher_id: matcher.id.clone(),
        message_id: msg.id,
        nature,
        account,
        amount: Money::from_decimal(amount, currency),
        source,
        time,
    })
}

/// A message that a matcher matched but whose fields could not be read.
#[derive(Debug)]
pub struct Diagnostic {
    pub message_id: u32,
    pub text: String,
    pub matcher_id: String,
    pub error: Error,
}

/// What one message comes to.
#[derive(Debug)]
pub enum Resolution {
    NoMatch,
    Parsed(Record),
    Failed(Diagnostic),
}

/// A fault of the matcher configuration: it stops the run.
#[derive(Debug)]
pub enum ConfigError {
    InvalidPattern { matcher_id: String },
    MissingGroup { matcher_id: String, group: String },
}

/// Every matcher of `ms` has a valid configuration of values.
pub open spec fn matchers_wf(ms: Seq<Matcher>) -> bool {
    forall|i: int| 0 <= i < ms.len() ==> (#[trigger] ms[i]).values.wf()
}

/// The captured texts of the groups that `m` reads, in the match of its pattern in `text`.
pub open spec fn captures_of(m: Matcher, text: Seq<char>) -> Seq<Option<Seq<char>>> {
    m.values.groups().map_values(|g: Seq<char>| group_text(m.pattern@, text, g))
}

/// The first index from `from` on whose matcher has an invalid pattern or matches `text`;
/// the length of `ms` where there is none.
pub open spec fn first_hit(ms: Seq<Matcher>, text: Seq<char>, from: int) -> int
    decreases ms.len() - from,
{
    if from < 0 || from >= ms.len() {
        ms.len() as int
    } else if !pattern_valid(ms[from].pattern@) || pattern_matches(ms[from].pattern@, text) {
        from
    } else {
        first_hit(ms, text, from + 1)
    }
}

/// What a message comes to, in the model.
pub enum Outcome {
    NoMatch,
    Parsed(int, Fields),
    Failed(int, ParserKind, Seq<char>),
    InvalidPattern(int),
    MissingGroup(int, Seq<char>),
}

/// What the message text `text` comes to under the matchers `ms`: the first matcher that
/// matches decides, and the later ones are never tried.
pub open spec fn outcome(ms: Seq<Matcher>, text: Seq<char>) -> Outcome {
    let i = first_hit(ms, text, 0);
    if i >= ms.len() {
        Outcome::NoMatch
    } else if !pattern_valid(ms[i].pattern@) {
        Outcome::InvalidPattern(i)
    } else {
        match fields_of(ms[i].values, captures_of(ms[i], text)) {
            Ok(f) => Outcome::Parsed(i, f),
            Err(Fault::MissingGroup(g)) => Outcome::MissingGroup(i, g),
            Err(Fault::Invalid(k, t)) => Outcome::Failed(i, k, t),
        }
    }
}

/// `r` is what `msg` comes to under `ms`.
pub open spec fn resolves_to(r: Result<Resolution, ConfigError>, ms: Seq<Matcher>, msg: TextMessage) -> bool {
    match outcome(ms, msg.text@) {
        Outcome::NoMatch => r matches Ok(Resolution::NoMatch),
        Outcome::Parsed(i, f) => r matches Ok(Resolution::Parsed(rec)) && record_of(rec, ms[i], msg, f)
            && rec.wf(),
        Outcome::Failed(i, k, t) => r matches Ok(Resolution::Failed(d)) && d.message_id == msg.id
            && d.text@ == msg.text@ && d.matcher_id@ == ms[i].id@ && d.error.kind == k
            && d.error.raw_text@ == t,
        Outcome::InvalidPattern(i) => r matches Err(ConfigError::InvalidPattern { matcher_id })
            && matcher_id@ == ms[i].id@,
        Outcome::MissingGroup(i, g) => r matches Err(ConfigError::MissingGroup { matcher_id, group })
            && matcher_id@ == ms[i].id@ && group@ == g,
    }
}

/// Resolves messages against an ordered list of matchers.
pub struct RecordParser<'a> {
    pub matchers: &'a Vec<Matcher>,
}

impl<'a> RecordParser<'a> {
    pub fn new(matchers: &'a Vec<Matcher>) -> (r: RecordParser<'a>)
        ensures
            r.matchers@ == matchers@,
    {
        RecordParser { matchers }
    }

    /// Resolves one message: the first matcher whose pattern matches it reads the record.
    pub fn parse(&self, msg: &TextMessage) -> (r: Result<Resolution, ConfigError>)
        requires
            matchers_wf(self.matchers@),
        ensures
            resolves_to(r, self.matchers@, *msg),
    {
        let ghost ms = self.matchers@;
        let ghost text = msg.text@;
        let n = self.matchers.len();
        let mut i: usize = 0;
        while i < n
            invariant
                0 <= i <= n,
                n == ms.len(),
                ms == self.matchers@,
                text == msg.text@,
                matchers_wf(ms),
                first_hit(ms, text, 0) == first_hit(ms, text, i as int),
            decreases n - i,
        {
            let m = &self.matchers[i];
            let names = m.values.group_names();
            match capture_groups(m.pattern.as_str(), msg.text.as_str(), &names) {
                None => {
                    return Err(ConfigError::InvalidPattern { matcher_id: m.id.clone() });
                },
                Some(None) => {
                    i += 1;
                },
                Some(Some(caps)) => {
                    assert(caps@.map_values(|c: Option<String>| opt_view(c)) =~= captures_of(
                        *m,
                        text,
                    ));
                    assert(ms[i as int].values.wf());
                    return match parse_record(m, &caps, msg) {
                        Ok(rec) => Ok(Resolution::Parsed(rec)),
                        Err(FieldError::MissingGroup(group)) => Err(
                            ConfigError::MissingGroup { matcher_id: m.id.clone(), group },
                        ),
                        Err(FieldError::Invalid(error)) => Ok(
                            Resolution::Failed(
                                Diagnostic {
                                    message_id: msg.id,
                                    text: msg.text.clone(),
                                    matcher_id: m.id.clone(),
                                    error,
                                },
                            ),
                        ),
                    };
                },
            }
        }
        Ok(Resolution::NoMatch)
    }
}

proof fn lemma_first_hit_skips(ms: Seq<Matcher>, text: Seq<char>, from: int, to: int)
    requires
        0 <= from <= to <= ms.len(),
        forall|j: int|
            from <= j < to ==> pattern_valid((#[trigger] ms[j]).pattern@) && !pattern_matches(
                ms[j].pattern@,
                text,
            ),
    ensures
        first_hit(ms, text, from) == first_hit(ms, text, to),
    decreases to - from,
{
    if from < to {
        lemma_first_hit_skips(ms, text, from + 1, to);
    }
}

proof fn lemma_first_hit_bounds(ms: Seq<Matcher>, text: Seq<char>, from: int)
    requires
        0 <= from <= ms.len(),
    ensures
        from <= first_hit(ms, text, from) <= ms.len(),
    decreases ms.len() - from,
{
    if from < ms.len() {
        lemma_first_hit_bounds(ms, text, from + 1);
    }
}

proof fn lemma_first_hit_prefix(ms: Seq<Matcher>, text: Seq<char>, n: int, from: int)
    requires
        0 <= from <= n < ms.len(),
        first_hit(ms, text, from) <= n,
    ensures
        first_hit(ms.take(n + 1), text, from) == first_hit(ms, text, from),
    decreases n - from,
{
    lemma_first_hit_bounds(ms, text, from + 1);
    if first_hit(ms, text, from) != from {
        lemma_first_hit_prefix(ms, text, n, from + 1);
    }
}

/// A message that no pattern matches (all of them valid) comes to no record.
pub proof fn lemma_unmatched_message_dropped(ms: Seq<Matcher>, text: Seq<char>)
    requires
        forall|i: int|
            0 <= i < ms.len() ==> pattern_valid((#[trigger] ms[i]).pattern@) && !pattern_matches(
                ms[i].pattern@,
                text,
            ),
    ensures
        outcome(ms, text) is NoMatch,
{
    lemma_first_hit_skips(ms, text, 0, ms.len() as int);
}

/// First match wins: where the matcher `i` is the first whose pattern matches, the matchers
/// after it change nothing of what the message comes to, and it is read with the plan of
/// matcher `i`.
pub proof fn lemma_first_match_wins(ms: Seq<Matcher>, text: Seq<char>, i: int)
    requires
        0 <= i < ms.len(),
        forall|j: int|
            0 <= j < i ==> pattern_valid((#[trigger] ms[j]).pattern@) && !pattern_matches(
                ms[j].pattern@,
                text,
            ),
        pattern_valid(ms[i].pattern@),
        pattern_matches(ms[i].pattern@, text),
    ensures
        outcome(ms, text) == outcome(ms.take(i + 1), text),
        outcome(ms, text) == match fields_of(ms[i].values, captures_of(ms[i], text)) {
            Ok(f) => Outcome::Parsed(i, f),
            Err(Fault::MissingGroup(g)) => Outcome::MissingGroup(i, g),
            Err(Fault::Invalid(k, t)) => Outcome::Failed(i, k, t),
        },
{
    lemma_first_hit_skips(ms, text, 0, i);
    lemma_first_hit_prefix(ms, text, i, 0);
    assert(ms.take(i + 1)[i] == ms[i]);
}

} // verus!
