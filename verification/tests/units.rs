use solparse::args;
use solparse::config::{construct_url, Cluster, Command};
use solparse::err::ParseError;
use solparse::num::{parse_decimal, parse_u64, Decimal};
use solparse::text::{chars_string, normalize_time_vec, normalize_ws, str_chars};
use solparse::transaction::{normalize_url, section_kind, sort_accounts, IxAccountContext, SectionKind};

fn ctx(addr: &str) -> IxAccountContext {
    IxAccountContext { address: addr.to_string(), attributes: None }
}

#[test]
fn sorting_orders_account_pair_labels_by_ordinal() {
    let input = vec![
        ("Account #3".to_string(), ctx("C")),
        ("Account #1".to_string(), ctx("A")),
        ("Account #2".to_string(), ctx("B")),
    ];
    let sorted = sort_accounts(input).expect("all ordinals parse");
    let labels: Vec<&str> = sorted.iter().map(|(l, _)| l.as_str()).collect();
    assert_eq!(labels, vec!["Account #1", "Account #2", "Account #3"]);
    assert_eq!(sorted[0].1.address, "A");
    assert_eq!(sorted[2].1.address, "C");
}

#[test]
fn sorting_orders_any_input_order_the_same_way() {
    let perms = [[1usize, 2, 3], [1, 3, 2], [2, 1, 3], [2, 3, 1], [3, 1, 2], [3, 2, 1]];
    for perm in perms {
        let input: Vec<(String, IxAccountContext)> = perm
            .iter()
            .map(|n| (format!("Account #{}", n), ctx(&format!("A{}", n))))
            .collect();
        let sorted = sort_accounts(input).expect("all ordinals parse");
        let labels: Vec<String> = sorted.iter().map(|(l, _)| l.clone()).collect();
        assert_eq!(labels, vec!["Account #1", "Account #2", "Account #3"]);
    }
}

#[test]
fn label_without_ordinal_is_an_ordinal_error() {
    let input = vec![
        ("Account #1".to_string(), ctx("A")),
        ("Account #x".to_string(), ctx("B")),
    ];
    let e = sort_accounts(input).expect_err("bad ordinal");
    assert_eq!(e, ParseError::OrdinalParse { label: "Account #x".to_string() });
}

#[test]
fn relative_urls_gain_the_explorer_origin() {
    assert_eq!(normalize_url("/address/ABC"), "https://explorer.solana.com/address/ABC");
}

#[test]
fn normalizing_twice_changes_nothing() {
    let once = normalize_url("/address/ABC");
    let twice = normalize_url(&once);
    assert_eq!(once, twice);
    assert_eq!(normalize_url("http://other.example/x"), "http://other.example/x");
    assert_eq!(normalize_url("https://other.example/x"), "https://other.example/x");
}

#[test]
fn urls_are_built_per_cluster_and_command() {
    assert_eq!(
        construct_url(&Cluster::Mainnet, &Command::Transaction, "Tx1"),
        "https://explorer.solana.com/tx/Tx1"
    );
    assert_eq!(
        construct_url(&Cluster::Devnet, &Command::Account, "Acc1"),
        "https://explorer.solana.com/address/Acc1?cluster=devnet"
    );
    assert_eq!(
        construct_url(&Cluster::Testnet, &Command::Account, "Acc1"),
        "https://explorer.solana.com/address/Acc1?cluster=mainnet-beta"
    );
}

#[test]
fn command_line_urls_match_the_config_ones() {
    assert_eq!(
        args::construct_url(&Cluster::Mainnet, &args::Command::Account { tx_limit: 5 }, "Acc1"),
        "https://explorer.solana.com/address/Acc1"
    );
    assert_eq!(
        args::construct_url(&Cluster::Devnet, &args::Command::Transaction, "Tx1"),
        "https://explorer.solana.com/tx/Tx1?cluster=devnet"
    );
}

#[test]
fn integers_parse_exactly() {
    assert_eq!(parse_u64(&str_chars("0")), Some(0));
    assert_eq!(parse_u64(&str_chars("007")), Some(7));
    assert_eq!(parse_u64(&str_chars("1234")), Some(1234));
    assert_eq!(parse_u64(&str_chars("18446744073709551615")), Some(u64::MAX));
    assert_eq!(parse_u64(&str_chars("18446744073709551616")), None);
    assert_eq!(parse_u64(&str_chars("")), None);
    assert_eq!(parse_u64(&str_chars("1,234")), None);
    assert_eq!(parse_u64(&str_chars("12a")), None);
}

#[test]
fn decimals_parse_exactly() {
    assert_eq!(
        parse_decimal(&str_chars("1.5")),
        Some(Decimal { neg: false, mantissa: 15, scale: 1 })
    );
    assert_eq!(
        parse_decimal(&str_chars("0.000005")),
        Some(Decimal { neg: false, mantissa: 5, scale: 6 })
    );
    assert_eq!(
        parse_decimal(&str_chars("-1.5")),
        Some(Decimal { neg: true, mantissa: 15, scale: 1 })
    );
    assert_eq!(
        parse_decimal(&str_chars("+2")),
        Some(Decimal { neg: false, mantissa: 2, scale: 0 })
    );
    assert_eq!(
        parse_decimal(&str_chars("7.")),
        Some(Decimal { neg: false, mantissa: 7, scale: 0 })
    );
    assert_eq!(
        parse_decimal(&str_chars(".5")),
        Some(Decimal { neg: false, mantissa: 5, scale: 1 })
    );
    assert_eq!(parse_decimal(&str_chars(".")), None);
    assert_eq!(parse_decimal(&str_chars("")), None);
    assert_eq!(parse_decimal(&str_chars("1.2.3")), None);
    assert_eq!(parse_decimal(&str_chars("1,5")), None);
}

#[test]
fn whitespace_runs_collapse_and_trim() {
    let out = normalize_ws(&str_chars("  a \t b\u{a0}\n c  "));
    assert_eq!(chars_string(&out), "a b c");
}

#[test]
fn iso_instants_are_rewritten() {
    let out = normalize_time_vec(&str_chars("1970-01-01T00:00:10Z"));
    assert_eq!(chars_string(&out), "1970-01-01 00:00:10");
    let kept = normalize_time_vec(&str_chars("yesterday"));
    assert_eq!(chars_string(&kept), "yesterday");
}

#[test]
fn characters_round_trip_through_strings() {
    assert_eq!(chars_string(&str_chars("héllo")), "héllo");
    assert_eq!(chars_string(&Vec::new()), "");
}

#[test]
fn error_details_carry_their_text() {
    assert_eq!(ParseError::NotFound { what: "w".to_string() }.detail(), "w");
    assert_eq!(ParseError::MissingAttribute { what: "m".to_string() }.detail(), "m");
    assert_eq!(ParseError::UnexpectedFormat { what: "u".to_string() }.detail(), "u");
    assert_eq!(ParseError::OrdinalParse { label: "l".to_string() }.detail(), "l");
    assert_eq!(ParseError::Transient { message: "t".to_string() }.detail(), "t");
}

#[test]
fn section_titles_dispatch_as_documented() {
    let kind = |s: &str| section_kind(&str_chars(s));
    assert_eq!(kind("Overview"), SectionKind::Overview);
    assert_eq!(kind("Account Input(s)"), SectionKind::AccountInputs);
    assert_eq!(kind("Token Balances"), SectionKind::TokenBalances);
    assert_eq!(kind("Program Instruction Logs"), SectionKind::Unsupported);
    assert_eq!(kind("Serum Program: SettleFunds"), SectionKind::Instruction);
}

#[test]
fn ordinals_come_from_after_the_last_hash() {
    let input = vec![
        ("Extra #note #2".to_string(), ctx("B")),
        ("Account #1".to_string(), ctx("A")),
    ];
    let sorted = sort_accounts(input).expect("ordinals parse");
    assert_eq!(sorted[0].1.address, "A");
    assert_eq!(sorted[1].1.address, "B");
}

#[test]
fn label_without_any_hash_is_an_ordinal_error() {
    let input = vec![("first".to_string(), ctx("A"))];
    let e = sort_accounts(input).expect_err("no ordinal");
    assert_eq!(e, ParseError::OrdinalParse { label: "first".to_string() });
}
