use finny::decimal::Decimal;
use finny::money::Currency;
use finny::money::Money;
use finny::parser::Nature;
use finny::process::calculate_total;
use finny::process::filter_in_sources;
use finny::process::filter_out_sources;
use finny::process::fuzzy_filter_in_sources;
use finny::process::get_subscriptions;
use finny::process::group;
use finny::process::group_totals;
use finny::process::normalize_amount;
use finny::process::normalize_record;
use finny::process::normalized_currency;
use finny::process::standard_rates;
use finny::process::NormalizeError;
use finny::process::RateTable;
use finny::record::Record;
use finny::time::UtcTime;

fn currency(code: &str) -> Currency {
    Currency::find(code).unwrap()
}

fn dec(whole: i128) -> Decimal {
    Decimal { mantissa: whole, scale: 0 }
}

fn has_value(d: &Decimal, whole: i128) -> bool {
    d.mantissa == whole * 10i128.pow(d.scale)
}

fn at(year: i32, month: u32, day: u32, hour: u32) -> UtcTime {
    UtcTime { year, month, day, hour, minute: 0, second: 0, nanosecond: 0 }
}

fn record(source: &str, nature: Nature, amount: Decimal, code: &str, time: UtcTime) -> Record {
    Record {
        matcher_id: "m".to_string(),
        message_id: 1,
        nature,
        account: "acct".to_string(),
        amount: Money::from_decimal(amount, currency(code)),
        source: source.to_string(),
        time,
    }
}

fn usd_to_pkr() -> RateTable {
    let mut table = RateTable::new();
    table.set_rate(currency("USD"), currency("PKR"), dec(237));
    table
}

#[test]
fn debit_turns_negative_and_credit_stays_positive() {
    let usd = currency("USD");
    let table = RateTable::new();
    let debit = record("A", Nature::Debit, dec(50), "USD", at(2023, 1, 1, 0));
    let credit = record("A", Nature::Credit, dec(50), "USD", at(2023, 1, 1, 0));
    let d = normalize_record(&debit, &usd, &table).unwrap();
    let c = normalize_record(&credit, &usd, &table).unwrap();
    assert!(has_value(&d.amount, -50));
    assert!(has_value(&c.amount, 50));
    assert_eq!(d.currency.code, "USD");
}

#[test]
fn dollars_convert_to_rupees() {
    let money = Money::from_decimal(dec(10), currency("USD"));
    let result = normalize_amount(&money, &currency("PKR"), &usd_to_pkr()).unwrap();
    assert!(has_value(&result.amount, 2370));
    assert_eq!(result.currency.code, "PKR");
}

#[test]
fn same_currency_is_unchanged() {
    let money = Money::from_decimal(Decimal { mantissa: 1234, scale: 2 }, currency("PKR"));
    let result = normalize_amount(&money, &currency("PKR"), &RateTable::new()).unwrap();
    assert_eq!((result.amount.mantissa, result.amount.scale), (1234, 2));
}

#[test]
fn missing_rate_is_named() {
    let money = Money::from_decimal(dec(10), currency("EUR"));
    match normalize_amount(&money, &currency("PKR"), &usd_to_pkr()) {
        Err(NormalizeError::MissingRate { from, to }) => {
            assert_eq!(from, "EUR");
            assert_eq!(to, "PKR");
        }
        other => panic!("unexpected result: {:?}", other),
    }
}

#[test]
fn oversized_product_overflows() {
    let huge = Decimal { mantissa: 79228162514264337593543950335, scale: 0 };
    let money = Money::from_decimal(huge, currency("USD"));
    assert!(matches!(
        normalize_amount(&money, &currency("PKR"), &usd_to_pkr()),
        Err(NormalizeError::Overflow)
    ));
}

#[test]
fn standard_rates_convert_sgd() {
    let money = Money::from_decimal(dec(2), currency("SGD"));
    let result = normalize_amount(&money, &normalized_currency(), &standard_rates()).unwrap();
    assert!(has_value(&result.amount, 316));
    assert_eq!(result.currency.code, "PKR");
}

#[test]
fn set_rate_replaces_the_old_rate() {
    let mut table = usd_to_pkr();
    table.set_rate(currency("USD"), currency("PKR"), dec(280));
    assert_eq!(table.rates.len(), 1);
    let money = Money::from_decimal(dec(1), currency("USD"));
    let result = normalize_amount(&money, &currency("PKR"), &table).unwrap();
    assert!(has_value(&result.amount, 280));
}

fn sample() -> Vec<Record> {
    vec![
        record("A", Nature::Credit, dec(100), "PKR", at(2023, 1, 1, 0)),
        record("A", Nature::Debit, dec(30), "PKR", at(2023, 1, 2, 0)),
        record("B", Nature::Credit, dec(5), "PKR", at(2023, 1, 3, 0)),
    ]
}

#[test]
fn group_totals_and_grand_total() {
    let records = sample();
    let pkr = currency("PKR");
    let table = RateTable::new();
    let totals = group_totals(&records, &pkr, &table).unwrap();
    assert_eq!(totals.len(), 2);
    assert_eq!(totals[0].0, "A");
    assert!(has_value(&totals[0].1.amount, 70));
    assert_eq!(totals[1].0, "B");
    assert!(has_value(&totals[1].1.amount, 5));
    let total = calculate_total(&records, &pkr, &table).unwrap();
    assert!(has_value(&total.amount, 75));
    assert_eq!(total.currency.code, "PKR");
}

#[test]
fn total_of_nothing_is_zero() {
    let total = calculate_total(&Vec::new(), &currency("PKR"), &RateTable::new()).unwrap();
    assert!(has_value(&total.amount, 0));
    assert_eq!(total.currency.code, "PKR");
}

#[test]
fn total_converts_each_record() {
    let records = vec![
        record("A", Nature::Debit, dec(10), "USD", at(2023, 1, 1, 0)),
        record("B", Nature::Credit, Decimal { mantissa: 50, scale: 1 }, "PKR", at(2023, 1, 1, 0)),
    ];
    let total = calculate_total(&records, &currency("PKR"), &usd_to_pkr()).unwrap();
    assert!(has_value(&total.amount, -2365));
}

#[test]
fn total_fails_on_missing_rate() {
    let records = vec![record("A", Nature::Debit, dec(10), "EUR", at(2023, 1, 1, 0))];
    assert!(matches!(
        calculate_total(&records, &currency("PKR"), &usd_to_pkr()),
        Err(NormalizeError::MissingRate { .. })
    ));
}

#[test]
fn grouping_keeps_order_within_groups() {
    let records = vec![
        record("B", Nature::Debit, dec(1), "PKR", at(2023, 1, 1, 0)),
        record("A", Nature::Debit, dec(2), "PKR", at(2023, 1, 2, 0)),
        record("B", Nature::Debit, dec(3), "PKR", at(2023, 1, 3, 0)),
    ];
    let groups = group(&records);
    assert_eq!(groups.len(), 2);
    assert_eq!(groups[0].0, "B");
    assert_eq!(groups[0].1.len(), 2);
    assert!(has_value(&groups[0].1[0].amount.amount, 1));
    assert!(has_value(&groups[0].1[1].amount.amount, 3));
    assert_eq!(groups[1].0, "A");
    assert_eq!(groups[1].1.len(), 1);
}

#[test]
fn fuzzy_filter_ignores_case() {
    let records = vec![
        record("NETFLIX.COM", Nature::Debit, dec(1), "PKR", at(2023, 1, 1, 0)),
        record("Spotify", Nature::Debit, dec(2), "PKR", at(2023, 1, 1, 0)),
    ];
    let kept = fuzzy_filter_in_sources(&records, &vec!["netflix".to_string()]);
    assert_eq!(kept.len(), 1);
    assert_eq!(kept[0].source, "NETFLIX.COM");
}

#[test]
fn exact_filters_are_case_sensitive() {
    let records = vec![
        record("Gym", Nature::Debit, dec(1), "PKR", at(2023, 1, 1, 0)),
        record("gym", Nature::Debit, dec(2), "PKR", at(2023, 1, 1, 0)),
        record("Shop", Nature::Debit, dec(3), "PKR", at(2023, 1, 1, 0)),
    ];
    let sources = vec!["Gym".to_string()];
    let kept = filter_in_sources(&records, &sources);
    assert_eq!(kept.len(), 1);
    assert_eq!(kept[0].source, "Gym");
    let rest = filter_out_sources(&records, &sources);
    assert_eq!(rest.len(), 2);
    assert_eq!(rest[0].source, "gym");
    assert_eq!(rest[1].source, "Shop");
}

fn gym(amount: Decimal, month: u32, day: u32, hour: u32) -> Record {
    record("Gym", Nature::Debit, amount, "PKR", at(2023, month, day, hour))
}

#[test]
fn monthly_charges_make_a_subscription() {
    let records = vec![gym(dec(20), 1, 5, 9), gym(dec(20), 2, 5, 9), gym(dec(20), 3, 5, 9)];
    let subs = get_subscriptions(&records);
    assert_eq!(subs.len(), 1);
    assert_eq!(subs[0].source, "Gym");
    assert!(has_value(&subs[0].amount.amount, 20));
    assert_eq!(subs[0].amount.currency.code, "PKR");
    assert_eq!(subs[0].charge_date, 5);
}

#[test]
fn a_different_amount_breaks_the_subscription() {
    let records = vec![
        gym(dec(20), 1, 5, 9),
        gym(Decimal { mantissa: 2001, scale: 2 }, 2, 5, 9),
        gym(dec(20), 3, 5, 9),
    ];
    assert!(get_subscriptions(&records).is_empty());
}

#[test]
fn equal_values_at_other_scales_still_match() {
    let records = vec![gym(dec(20), 1, 5, 9), gym(Decimal { mantissa: 2000, scale: 2 }, 2, 5, 9)];
    assert_eq!(get_subscriptions(&records).len(), 1);
}

#[test]
fn a_single_charge_is_no_subscription() {
    let records = vec![gym(dec(20), 1, 5, 9)];
    assert!(get_subscriptions(&records).is_empty());
}

#[test]
fn two_charges_on_one_date_are_no_subscription() {
    let records = vec![gym(dec(20), 1, 5, 9), gym(dec(20), 1, 5, 18), gym(dec(20), 2, 5, 9)];
    assert!(get_subscriptions(&records).is_empty());
}

#[test]
fn subscription_takes_the_earliest_charge() {
    let records = vec![
        gym(Decimal { mantissa: 2000, scale: 2 }, 3, 5, 9),
        gym(dec(20), 1, 5, 9),
        gym(dec(20), 2, 5, 9),
    ];
    let subs = get_subscriptions(&records);
    assert_eq!(subs.len(), 1);
    assert_eq!((subs[0].amount.amount.mantissa, subs[0].amount.amount.scale), (20, 0));
}

#[test]
fn different_days_of_month_are_no_subscription() {
    let records = vec![gym(dec(20), 1, 5, 9), gym(dec(20), 2, 6, 9)];
    assert!(get_subscriptions(&records).is_empty());
}
