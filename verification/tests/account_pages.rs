use solparse::account::account_from_html;
use solparse::num::Decimal;

fn detail_rows() -> String {
    "<div class=\"table-responsive\"><table><tbody>\
     <tr><td>Address</td><td class=\"font-monospace\"><span>Addr1</span></td></tr>\
     <tr><td>Balance</td><td class=\"font-monospace\">1.5</td></tr>\
     <tr><td>Data Size</td><td class=\"text-lg-end\">165 B</td></tr>\
     <tr><td>Owner</td><td class=\"font-monospace\"><a href=\"#\">OwnerProg</a></td></tr>\
     <tr><td>Executable</td><td class=\"text-lg-end\">Yes</td></tr>\
     </tbody></table></div>"
        .to_string()
}

fn tx_row(sig: &str, block: &str, ts: &str, status: &str) -> String {
    format!(
        "<tr><td><a href=\"#\">{}</a></td><td><a href=\"#\">{}</a></td>\
         <td><time datetime=\"{}\">then</time></td><td>age</td>\
         <td><span>{}</span></td></tr>",
        sig, block, ts, status
    )
}

fn page(executable: &str, rows: &str) -> String {
    let details = detail_rows().replace(">Yes<", &format!(">{}<", executable));
    format!(
        "<html><body>{}\
         <table><tbody class=\"list\"><tr><td>tokens table</td></tr></tbody></table>\
         <table><tbody class=\"list\">{}</tbody></table>\
         </body></html>",
        details, rows
    )
}

#[test]
fn account_fixed_fields_parse() {
    let rows = tx_row("Sig1", "4,567", "10", "Success");
    let a = account_from_html(&page("Yes", &rows), 10).expect("parse");
    assert_eq!(a.address, "Addr1");
    assert_eq!(a.balance, Decimal { neg: false, mantissa: 15, scale: 1 });
    assert_eq!(a.data_size, 165);
    assert_eq!(a.owner, "OwnerProg");
    assert!(a.executable);
}

#[test]
fn executable_flag_is_case_insensitive() {
    let rows = tx_row("Sig1", "1", "0", "Success");
    let a = account_from_html(&page("nO", &rows), 10).expect("parse");
    assert!(!a.executable);
}

#[test]
fn executable_flag_rejects_other_values() {
    let rows = tx_row("Sig1", "1", "0", "Success");
    let e = account_from_html(&page("maybe", &rows), 10).expect_err("bad flag");
    assert_eq!(e.detail(), "account executable: yes or no");
}

#[test]
fn recent_transaction_rows_parse() {
    let rows = tx_row("Sig1", "4,567", "10", "Success");
    let a = account_from_html(&page("Yes", &rows), 10).expect("parse");
    assert_eq!(a.recent_transactions.len(), 1);
    let t = &a.recent_transactions[0];
    assert_eq!(t.signature, "Sig1");
    assert_eq!(t.block, 4567);
    assert_eq!(t.time, "1970-01-01 00:00:10");
    assert_eq!(t.result, "Success");
}

#[test]
fn unix_timestamps_render_as_utc_instants() {
    let rows = tx_row("Sig1", "1", "1700000000", "Success");
    let a = account_from_html(&page("Yes", &rows), 10).expect("parse");
    assert_eq!(a.recent_transactions[0].time, "2023-11-14 22:13:20");
}

#[test]
fn negative_timestamps_render_before_the_epoch() {
    let rows = tx_row("Sig1", "1", "-1", "Success");
    let a = account_from_html(&page("Yes", &rows), 10).expect("parse");
    assert_eq!(a.recent_transactions[0].time, "1969-12-31 23:59:59");
}

#[test]
fn recent_transactions_respect_the_limit() {
    let rows = format!(
        "{}{}{}",
        tx_row("Sig1", "1", "0", "Success"),
        tx_row("Sig2", "2", "1", "Success"),
        tx_row("Sig3", "3", "2", "Success")
    );
    let a = account_from_html(&page("Yes", &rows), 2).expect("parse");
    assert_eq!(a.recent_transactions.len(), 2);
    assert_eq!(a.recent_transactions[1].signature, "Sig2");
}

#[test]
fn zero_limit_collects_no_transactions() {
    let rows = tx_row("Sig1", "1", "0", "Success");
    let a = account_from_html(&page("Yes", &rows), 0).expect("parse");
    assert_eq!(a.recent_transactions.len(), 0);
}

#[test]
fn bad_block_number_is_reported() {
    let rows = tx_row("Sig1", "soon", "0", "Success");
    let e = account_from_html(&page("Yes", &rows), 10).expect_err("bad block");
    assert_eq!(e.detail(), "recent transaction block: integer");
}

#[test]
fn missing_datetime_attribute_is_reported() {
    let rows = "<tr><td><a href=\"#\">Sig</a></td><td><a href=\"#\">1</a></td>\
                <td><time>then</time></td><td>age</td><td><span>ok</span></td></tr>";
    let e = account_from_html(&page("Yes", rows), 10).expect_err("no datetime");
    assert_eq!(e.detail(), "recent transaction time: datetime");
}

#[test]
fn out_of_range_timestamp_is_reported() {
    let rows = tx_row("Sig1", "1", "9223372036854775807", "Success");
    let e = account_from_html(&page("Yes", &rows), 10).expect_err("out of range");
    assert_eq!(e.detail(), "recent transaction time: out of range");
}
