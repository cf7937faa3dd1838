use finny::decimal::Decimal;
use finny::message::TextMessage;
use finny::money::Currency;
use finny::parser::parse_amount;
use finny::parser::ConfigError;
use finny::parser::CurrencyParser;
use finny::parser::DateTimeParser;
use finny::parser::Matcher;
use finny::parser::Nature;
use finny::parser::NatureParser;
use finny::parser::ParserKind;
use finny::parser::RecordParser;
use finny::parser::Resolution;
use finny::parser::StringParser;
use finny::parser::Value;
use finny::parser::ValuesConfig;
use finny::record::Record;
use finny::time::UtcTime;

fn noon() -> UtcTime {
    UtcTime { year: 2023, month: 1, day: 5, hour: 12, minute: 0, second: 0, nanosecond: 0 }
}

fn has_value(d: &Decimal, whole: i128) -> bool {
    d.mantissa == whole * 10i128.pow(d.scale)
}

fn fixed_amount_matcher(id: &str, pattern: &str, amount: &str) -> Matcher {
    Matcher {
        id: id.to_string(),
        pattern: pattern.to_string(),
        values: ValuesConfig {
            nature: Value::Fixed(Nature::Debit),
            account: Value::Fixed("acct".to_string()),
            amount: Value::Fixed(amount.to_string()),
            currency: Value::Fixed(Currency::find("PKR").unwrap()),
            source: Value::Fixed("shop".to_string()),
            time: Value::Fixed(noon()),
        },
    }
}

fn captured_amount_matcher(id: &str, pattern: &str) -> Matcher {
    Matcher {
        id: id.to_string(),
        pattern: pattern.to_string(),
        values: ValuesConfig {
            nature: Value::Fixed(Nature::Debit),
            account: Value::Fixed("acct".to_string()),
            amount: Value::FromMatch { group: "amount".to_string(), parser: StringParser },
            currency: Value::Fixed(Currency::find("PKR").unwrap()),
            source: Value::Fixed("shop".to_string()),
            time: Value::Fixed(noon()),
        },
    }
}

fn card_matcher() -> Matcher {
    Matcher {
        id: "card-used".to_string(),
        pattern: r"card (?P<card>\d+) used for (?P<currency>[A-Z]+) (?P<amount>[0-9,.]+) at (?P<location>.+) on (?P<datetime>\d\d/\d\d/\d\d \d\d:\d\d)\. (?P<nature>\w+)".to_string(),
        values: ValuesConfig {
            nature: Value::FromMatch { group: "nature".to_string(), parser: NatureParser },
            account: Value::FromMatch { group: "card".to_string(), parser: StringParser },
            amount: Value::FromMatch { group: "amount".to_string(), parser: StringParser },
            currency: Value::FromMatch { group: "currency".to_string(), parser: CurrencyParser },
            source: Value::FromMatch { group: "location".to_string(), parser: StringParser },
            time: Value::FromMatch {
                group: "datetime".to_string(),
                parser: DateTimeParser::FormattedDateTimeWithAppend {
                    format: "%d/%m/%y %H:%M:%S".to_string(),
                    suffix: ":00".to_string(),
                    utc_offset: 5 * 3600,
                },
            },
        },
    }
}

fn message(id: u32, text: &str) -> TextMessage {
    TextMessage { id, text: text.to_string(), time: noon() }
}

#[test]
fn first_matching_matcher_wins() {
    let matchers = vec![
        fixed_amount_matcher("first", r"X \d+", "100"),
        fixed_amount_matcher("second", r"X \d+", "999"),
    ];
    let parser = RecordParser::new(&matchers);
    match parser.parse(&message(1, "X 100")) {
        Ok(Resolution::Parsed(rec)) => {
            assert!(has_value(&rec.amount.amount, 100));
            assert_eq!(rec.matcher_id, "first");
        }
        other => panic!("unexpected resolution: {:?}", other),
    }
}

#[test]
fn unmatched_message_gives_no_record() {
    let matchers = vec![captured_amount_matcher("m", r"X (?P<amount>\d+)")];
    let parser = RecordParser::new(&matchers);
    assert!(matches!(parser.parse(&message(1, "nothing here")), Ok(Resolution::NoMatch)));
}

#[test]
fn batch_keeps_order_and_drops_unmatched() {
    let matchers = vec![captured_amount_matcher("m", r"X (?P<amount>\d+)")];
    let messages = vec![
        message(1, "X 10"),
        message(2, "hello"),
        message(3, "X 30"),
        message(4, "Y 5"),
    ];
    let batch = Record::parse_messages(&matchers, &messages).unwrap();
    assert!(batch.records.len() <= messages.len());
    assert_eq!(batch.records.len(), 2);
    assert_eq!(batch.records[0].message_id, 1);
    assert!(has_value(&batch.records[0].amount.amount, 10));
    assert_eq!(batch.records[1].message_id, 3);
    assert!(has_value(&batch.records[1].amount.amount, 30));
    assert!(batch.failures.is_empty());
}

#[test]
fn full_message_is_read_into_a_record() {
    let matchers = vec![card_matcher()];
    let parser = RecordParser::new(&matchers);
    let text = "card 4321 used for USD 1,234.50 at  NETFLIX.COM  on 05/01/23 10:30. Debit";
    match parser.parse(&message(7, text)) {
        Ok(Resolution::Parsed(rec)) => {
            assert_eq!(rec.message_id, 7);
            assert_eq!(rec.matcher_id, "card-used");
            assert_eq!(rec.nature, Nature::Debit);
            assert_eq!(rec.account, "4321");
            assert_eq!(rec.source, "NETFLIX.COM");
            assert_eq!(rec.amount.currency.code, "USD");
            assert_eq!(rec.amount.amount.mantissa, 123450);
            assert_eq!(rec.amount.amount.scale, 2);
            assert_eq!(
                (rec.time.year, rec.time.month, rec.time.day, rec.time.hour, rec.time.minute),
                (2023, 1, 5, 5, 30)
            );
        }
        other => panic!("unexpected resolution: {:?}", other),
    }
}

#[test]
fn unknown_currency_is_reported() {
    let matchers = vec![card_matcher()];
    let messages = vec![message(
        3,
        "card 4321 used for XYZ 10 at SHOP on 05/01/23 10:30. Debit",
    )];
    let batch = Record::parse_messages(&matchers, &messages).unwrap();
    assert!(batch.records.is_empty());
    assert_eq!(batch.failures.len(), 1);
    let d = &batch.failures[0];
    assert_eq!(d.message_id, 3);
    assert_eq!(d.matcher_id, "card-used");
    assert_eq!(d.error.kind, ParserKind::Currency);
    assert_eq!(d.error.raw_text, "XYZ");
}

#[test]
fn bad_date_is_reported() {
    let matchers = vec![card_matcher()];
    let parser = RecordParser::new(&matchers);
    let text = "card 4321 used for USD 10 at SHOP on 45/13/23 10:30. Debit";
    match parser.parse(&message(1, text)) {
        Ok(Resolution::Failed(d)) => {
            assert_eq!(d.error.kind, ParserKind::DateTime);
            assert_eq!(d.error.raw_text, "45/13/23 10:30");
        }
        other => panic!("unexpected resolution: {:?}", other),
    }
}

#[test]
fn unknown_nature_is_reported() {
    let matchers = vec![card_matcher()];
    let parser = RecordParser::new(&matchers);
    let text = "card 4321 used for USD 10 at SHOP on 05/01/23 10:30. debit";
    match parser.parse(&message(1, text)) {
        Ok(Resolution::Failed(d)) => {
            assert_eq!(d.error.kind, ParserKind::Nature);
            assert_eq!(d.error.raw_text, "debit");
        }
        other => panic!("unexpected resolution: {:?}", other),
    }
}

#[test]
fn unreadable_amount_is_reported() {
    let matchers = vec![captured_amount_matcher("m", r"X (?P<amount>\S+)")];
    let parser = RecordParser::new(&matchers);
    match parser.parse(&message(1, "X ten")) {
        Ok(Resolution::Failed(d)) => {
            assert_eq!(d.error.kind, ParserKind::Amount);
            assert_eq!(d.error.raw_text, "ten");
            assert_eq!(d.text, "X ten");
        }
        other => panic!("unexpected resolution: {:?}", other),
    }
}

#[test]
fn missing_group_is_a_configuration_error() {
    let matchers = vec![captured_amount_matcher("m", r"X (?P<value>\d+)")];
    let messages = vec![message(1, "X 10")];
    match Record::parse_messages(&matchers, &messages) {
        Err(ConfigError::MissingGroup { matcher_id, group }) => {
            assert_eq!(matcher_id, "m");
            assert_eq!(group, "amount");
        }
        other => panic!("unexpected result: {:?}", other),
    }
}

#[test]
fn invalid_pattern_is_a_configuration_error() {
    let matchers = vec![captured_amount_matcher("broken", r"X (?P<amount>\d+")];
    let parser = RecordParser::new(&matchers);
    match parser.parse(&message(1, "X 10")) {
        Err(ConfigError::InvalidPattern { matcher_id }) => assert_eq!(matcher_id, "broken"),
        other => panic!("unexpected result: {:?}", other),
    }
}

#[test]
fn string_parser_trims() {
    assert_eq!(StringParser.parse("  Gym \t").unwrap(), "Gym");
}

#[test]
fn nature_parser_is_exact() {
    assert_eq!(NatureParser.parse("Credit").unwrap(), Nature::Credit);
    assert_eq!(NatureParser.parse("Debit").unwrap(), Nature::Debit);
    assert!(NatureParser.parse("CREDIT").is_err());
}

#[test]
fn currency_parser_looks_codes_up() {
    assert_eq!(CurrencyParser.parse("PKR").unwrap().code, "PKR");
    let err = CurrencyParser.parse("ZZZ").unwrap_err();
    assert_eq!(err.kind, ParserKind::Currency);
}

#[test]
fn date_parser_converts_to_utc() {
    let p = DateTimeParser::FormattedDateTime {
        format: "%d-%m-%y %H:%M".to_string(),
        utc_offset: 5 * 3600,
    };
    let t = p.parse("05-01-23 03:15").unwrap();
    assert_eq!((t.year, t.month, t.day, t.hour, t.minute), (2023, 1, 4, 22, 15));
}

#[test]
fn amount_drops_grouping_commas() {
    let d = parse_amount("1,000.25").unwrap();
    assert_eq!((d.mantissa, d.scale), (100025, 2));
    assert!(parse_amount("abc").is_err());
}
