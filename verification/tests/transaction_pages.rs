use solparse::num::Decimal;
use solparse::transaction::{transaction_from_html, Transaction};

fn overview_card() -> String {
    let rows = [
        ("Signature", "<td class=\"font-monospace\">Sig1</td>"),
        ("Result", "<td><span class=\"bg-success-soft\">Success</span></td>"),
        ("Timestamp", "<td class=\"font-monospace\">1970-01-01T00:00:10Z</td>"),
        ("Confirmation Status", "<td class=\"text-lg-end\">Finalized</td>"),
        ("Confirmations", "<td class=\"text-lg-end\">32/32</td>"),
        ("Slot", "<td><a href=\"#\">1,234</a></td>"),
        ("Recent Blockhash", "<td class=\"text-lg-end\">Hash1</td>"),
        ("Fee", "<td class=\"font-monospace\">0.000005</td>"),
        ("Version", "<td class=\"text-lg-end\">legacy</td>"),
    ];
    let mut body = String::new();
    for (label, cell) in rows {
        body.push_str(&format!("<tr><td>{}</td>{}</tr>", label, cell));
    }
    format!(
        "<div class=\"card\"><h3 class=\"card-header-title\">Overview</h3>\
         <table class=\"list\"><tbody>{}</tbody></table></div>",
        body
    )
}

fn account_inputs_card() -> String {
    let row = |idx: usize, addr: &str, sign: &str, amount: &str, attrs: &str| {
        let amount_span = if amount.is_empty() {
            String::new()
        } else {
            format!("<span class=\"font-monospace\">{}</span>", amount)
        };
        format!(
            "<tr><td>{}</td><td><a href=\"#\">{}</a></td>\
             <td><span class=\"badge\">{}</span>{}</td>\
             <td><span class=\"font-monospace\">2,000.5 SOL</span></td>\
             <td>{}</td></tr>",
            idx, addr, sign, amount_span, attrs
        )
    };
    let badges = "<span class=\"me-1\">Writable</span><span class=\"me-1\">Signer</span>\
                  <span class=\"me-1\">Writable</span>";
    format!(
        "<div class=\"card\"><h3 class=\"card-header-title\">Account Input(s)</h3>\
         <table class=\"list\"><tbody>{}{}{}{}</tbody></table></div>",
        row(1, "Addr1", "+", "1.5", badges),
        row(2, "Addr2", "0", "1.5", ""),
        row(3, "Addr3", "-", "1.5", ""),
        row(4, "Token Program", "+", "", ""),
    )
}

fn token_balances_card() -> String {
    "<div class=\"card\"><h3 class=\"card-header-title\">Token Balances</h3>\
     <table class=\"list\"><tbody>\
     <tr><td><a href=\"#\">TokAcc</a></td>\
     <td><a href=\"/address/ABC\">Wrapped SOL</a></td>\
     <td><span>-1.5</span></td>\
     <td>12.25 tokens</td></tr>\
     </tbody></table></div>"
        .to_string()
}

fn instruction_card() -> String {
    let acct = |label: &str, addr: &str, badge: &str| {
        let b = if badge.is_empty() {
            String::new()
        } else {
            format!("<span class=\"badge\">{}</span>", badge)
        };
        format!(
            "<tr><td><span class=\"me-2\">{}</span></td><td><a href=\"#\">{}</a>{}</td></tr>",
            label, addr, b
        )
    };
    format!(
        "<div class=\"card\"><h3 class=\"card-header-title\">System Program: Transfer</h3>\
         <table class=\"list\"><tbody>\
         <tr><td>Program</td><td><a href=\"#\">System Program</a></td></tr>\
         {}{}{}\
         <tr><td><span class=\"me-2\">Transfer Amount</span></td>\
         <td><span class=\"font-monospace\">1.5 SOL</span></td></tr>\
         <tr><td>Instruction Data (Hex)</td>\
         <td class=\"text-lg-end\"><p class=\"mb-0\"><span>dead</span><span>beef\u{2003}deadbeef</span></p></td></tr>\
         </tbody></table></div>",
        acct("Account #3", "Addr3", "Writable"),
        acct("Account #1", "Addr1", ""),
        acct("Account #2", "Addr2", "Signer"),
    )
}

fn skipped_cards() -> String {
    // A recognized-but-unsupported section, and a decorative card inside a
    // nested-card container: both must be passed over without an error.
    "<div class=\"card\"><h3 class=\"card-header-title\">Program Instruction Logs</h3></div>\
     <div class=\"inner-cards\"><div class=\"card\"><p>decoration without a title</p></div></div>"
        .to_string()
}

fn full_page() -> String {
    format!(
        "<html><body>{}{}{}{}{}</body></html>",
        overview_card(),
        account_inputs_card(),
        token_balances_card(),
        instruction_card(),
        skipped_cards()
    )
}

fn parse_full() -> Transaction {
    transaction_from_html(&full_page()).expect("the fixture page must parse")
}

#[test]
fn overview_fields_are_copied_verbatim() {
    let t = parse_full();
    assert_eq!(t.overview.signature, "Sig1");
    assert_eq!(t.overview.result, "Success");
    assert_eq!(t.overview.confirmation_status, "Finalized");
    assert_eq!(t.overview.confirmations, "32/32");
    assert_eq!(t.overview.recent_blockhash, "Hash1");
    assert_eq!(t.overview.transaction_version, "legacy");
}

#[test]
fn overview_slot_is_separator_stripped() {
    let t = parse_full();
    assert_eq!(t.overview.slot, 1234);
}

#[test]
fn overview_fee_is_exact() {
    let t = parse_full();
    assert_eq!(t.overview.fee, Decimal { neg: false, mantissa: 5, scale: 6 });
}

#[test]
fn overview_timestamp_is_normalized() {
    let t = parse_full();
    assert_eq!(t.overview.timestamp, "1970-01-01 00:00:10");
}

#[test]
fn plus_sign_gives_positive_delta() {
    let t = parse_full();
    assert_eq!(t.account_inputs[0].sol_change, Decimal { neg: false, mantissa: 15, scale: 1 });
}

#[test]
fn zero_sign_gives_positive_delta() {
    let t = parse_full();
    assert_eq!(t.account_inputs[1].sol_change, Decimal { neg: false, mantissa: 15, scale: 1 });
}

#[test]
fn minus_sign_gives_negative_delta() {
    let t = parse_full();
    assert_eq!(t.account_inputs[2].sol_change, Decimal { neg: true, mantissa: 15, scale: 1 });
}

#[test]
fn missing_amount_defaults_to_zero() {
    let t = parse_full();
    assert_eq!(t.account_inputs[3].sol_change, Decimal { neg: false, mantissa: 0, scale: 0 });
}

#[test]
fn post_balance_strips_separators_and_units() {
    let t = parse_full();
    assert_eq!(
        t.account_inputs[0].post_balance,
        Decimal { neg: false, mantissa: 20005, scale: 1 }
    );
}

#[test]
fn attribute_badges_are_deduplicated_in_order() {
    let t = parse_full();
    assert_eq!(t.account_inputs[0].attributes, vec!["Writable".to_string(), "Signer".to_string()]);
}

#[test]
fn program_word_in_address_adds_attribute() {
    let t = parse_full();
    assert_eq!(t.account_inputs[3].address, "Token Program");
    assert_eq!(t.account_inputs[3].attributes, vec!["Program".to_string()]);
}

#[test]
fn token_url_is_made_absolute() {
    let t = parse_full();
    let tokens = t.token_balances.expect("the fixture has a token card");
    assert_eq!(tokens[0].token_url, "https://explorer.solana.com/address/ABC");
    assert_eq!(tokens[0].address, "TokAcc");
    assert_eq!(tokens[0].token_name, "Wrapped SOL");
    assert_eq!(tokens[0].change, Decimal { neg: true, mantissa: 15, scale: 1 });
    assert_eq!(tokens[0].post_balance, "12.25 tokens");
}

#[test]
fn instruction_accounts_are_sorted_by_ordinal() {
    let t = parse_full();
    let ix = &t.instructions[0];
    assert_eq!(ix.description, "System Program: Transfer");
    assert_eq!(ix.program, "System Program");
    let labels: Vec<&str> = ix.accounts.iter().map(|(l, _)| l.as_str()).collect();
    assert_eq!(labels, vec!["Account #1", "Account #2", "Account #3"]);
    assert_eq!(ix.accounts[0].1.address, "Addr1");
    assert_eq!(ix.accounts[0].1.attributes, None);
    assert_eq!(ix.accounts[2].1.attributes, Some(vec!["Writable".to_string()]));
}

#[test]
fn instruction_scalar_fields_are_kept() {
    let t = parse_full();
    let ix = &t.instructions[0];
    assert_eq!(ix.additional_info.len(), 1);
    assert_eq!(ix.additional_info[0].0, "Transfer Amount");
    assert_eq!(ix.additional_info[0].1, "1.5 SOL");
}

#[test]
fn duplicated_hex_payload_is_halved() {
    let t = parse_full();
    assert_eq!(t.instructions[0].hex.as_deref(), Some("deadbeef"));
}

#[test]
fn unsupported_and_nested_cards_are_skipped() {
    let t = parse_full();
    assert_eq!(t.instructions.len(), 1);
}

#[test]
fn reparsing_the_same_page_is_deterministic() {
    let page = full_page();
    let t1 = transaction_from_html(&page).expect("parse");
    let t2 = transaction_from_html(&page).expect("parse");
    assert_eq!(t1, t2);
}

#[test]
fn zero_account_input_rows_yield_empty_sequence() {
    let page = format!(
        "<html><body>{}<div class=\"card\">\
         <h3 class=\"card-header-title\">Account Input(s)</h3>\
         <table class=\"list\"><tbody></tbody></table></div></body></html>",
        overview_card()
    );
    let t = transaction_from_html(&page).expect("parse");
    assert_eq!(t.account_inputs.len(), 0);
}

#[test]
fn instruction_without_accounts_skips_the_sort() {
    let page = format!(
        "<html><body>{}<div class=\"card\">\
         <h3 class=\"card-header-title\">Unknown Program</h3>\
         <table class=\"list\"><tbody>\
         <tr><td>Program</td><td><a href=\"#\">Prog</a></td></tr>\
         </tbody></table></div></body></html>",
        overview_card()
    );
    let t = transaction_from_html(&page).expect("parse");
    assert_eq!(t.instructions[0].accounts.len(), 0);
    assert_eq!(t.instructions[0].hex, None);
}

#[test]
fn odd_hex_payload_is_reported() {
    let page = format!(
        "<html><body>{}<div class=\"card\">\
         <h3 class=\"card-header-title\">Unknown Program</h3>\
         <table class=\"list\"><tbody>\
         <tr><td>Program</td><td><a href=\"#\">Prog</a></td></tr>\
         <tr><td>Instruction Data (Hex)</td>\
         <td class=\"text-lg-end\"><p class=\"mb-0\"><span>abc</span></p></td></tr>\
         </tbody></table></div></body></html>",
        overview_card()
    );
    let e = transaction_from_html(&page).expect_err("odd payload must be surfaced");
    assert_eq!(e.detail(), "instruction data: odd payload length");
}

#[test]
fn absent_token_card_is_none_not_empty() {
    let page = format!("<html><body>{}</body></html>", overview_card());
    let t = transaction_from_html(&page).expect("parse");
    assert_eq!(t.token_balances, None);
    assert_eq!(t.account_inputs.len(), 0);
    assert_eq!(t.instructions.len(), 0);
}

#[test]
fn missing_overview_section_is_an_error() {
    let page = "<html><body><div class=\"card\">\
                <h3 class=\"card-header-title\">Token Balances</h3>\
                <table class=\"list\"><tbody></tbody></table></div></body></html>";
    let e = transaction_from_html(page).expect_err("no overview");
    assert_eq!(e.detail(), "transaction overview section");
}

#[test]
fn the_last_overview_card_wins() {
    let replaced = overview_card().replace("Sig1", "Sig0");
    let page = format!("<html><body>{}{}</body></html>", replaced, overview_card());
    let t = transaction_from_html(&page).expect("parse");
    assert_eq!(t.overview.signature, "Sig1");
}

#[test]
fn a_card_without_a_title_is_an_error() {
    let page = format!(
        "<html><body>{}<div class=\"card\"><p>no header</p></div></body></html>",
        overview_card()
    );
    let e = transaction_from_html(&page).expect_err("title missing");
    assert_eq!(e.detail(), "section title: .card-header-title");
}

#[test]
fn account_input_row_without_sign_badge_is_an_error() {
    let page = format!(
        "<html><body>{}<div class=\"card\">\
         <h3 class=\"card-header-title\">Account Input(s)</h3>\
         <table class=\"list\"><tbody>\
         <tr><td>1</td><td><a href=\"#\">Addr</a></td><td>nothing</td>\
         <td><span class=\"font-monospace\">1</span></td><td></td></tr>\
         </tbody></table></div></body></html>",
        overview_card()
    );
    let e = transaction_from_html(&page).expect_err("sign badge missing");
    assert_eq!(e.detail(), "account input change sign: .badge");
}
