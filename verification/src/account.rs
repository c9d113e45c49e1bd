use vstd::prelude::*;
use crate::dom::{
    Dom, DomNodeV, NodeTestV, tests_v, find_nodes, first_node, children_of, text_of, node_attr,
    first_text, by_class, by_tag,
};
use crate::err::{ParseError, ParseErrorV, rdv, opt_v};
use crate::num::{Decimal, spec_parse_u64, spec_parse_i64, spec_parse_decimal, parse_u64, parse_i64,
    parse_decimal};
use crate::text::{str_chars, chars_string, strip_commas, strip_commas_vec, first_token,
    first_token_vec, lower_seq, to_lower, seq_eq_str};

verus! {

/// One row of the account page's recent-transaction table.
#[derive(Debug, Clone, PartialEq, Eq)]
pub struct Transaction {
    pub signature: String,
    pub block: u64,
    /// `YYYY-MM-DD HH:MM:SS`, UTC, derived from the row's Unix timestamp.
    pub time: String,
    pub result: String,
}

#[verifier::ext_equal]
pub struct TransactionV {
    pub signature: Seq<char>,
    pub block: u64,
    pub time: Seq<char>,
    pub result: Seq<char>,
}

impl View for Transaction {
    type V = TransactionV;

    open spec fn view(&self) -> TransactionV {
        TransactionV {
            signature: self.signature@,
            block: self.block,
            time: self.time@,
            result: self.result@,
        }
    }
}

impl DeepView for Transaction {
    type V = TransactionV;

    open spec fn deep_view(&self) -> TransactionV {
        self.view()
    }
}

/// The fixed fields of an account page plus its recent transactions.
#[derive(Debug, Clone, PartialEq, Eq)]
pub struct AccountDetails {
    pub address: String,
    pub balance: Decimal,
    pub owner: String,
    /// A unit-less byte count.
    pub data_size: u64,
    pub executable: bool,
    /// In page order, at most as many as the caller asked for.
    pub recent_transactions: Vec<Transaction>,
}

#[verifier::ext_equal]
pub struct AccountDetailsV {
    pub address: Seq<char>,
    pub balance: Decimal,
    pub owner: Seq<char>,
    pub data_size: u64,
    pub executable: bool,
    pub recent_transactions: Seq<TransactionV>,
}

impl View for AccountDetails {
    type V = AccountDetailsV;

    open spec fn view(&self) -> AccountDetailsV {
        AccountDetailsV {
            address: self.address@,
            balance: self.balance,
            owner: self.owner@,
            data_size: self.data_size,
            executable: self.executable,
            recent_transactions: self.recent_transactions.deep_view(),
        }
    }
}

impl DeepView for AccountDetails {
    type V = AccountDetailsV;

    open spec fn deep_view(&self) -> AccountDetailsV {
        self.view()
    }
}

/// The `%Y-%m-%d %H:%M:%S` UTC rendering of a Unix timestamp, `None` when
/// the timestamp lies outside the supported range; a function of the
/// timestamp alone.
pub uninterp spec fn utc_datetime_of(ts: i64) -> Option<Seq<char>>;

/// Relies on chrono's `DateTime::<Utc>::from_timestamp` and its `format`:
/// the rendered instant depends on the timestamp alone, and out-of-range
/// timestamps give `None`.
#[verifier::external_body]
fn format_unix_timestamp(ts: i64) -> (r: Option<String>)
    ensures
        opt_v(r) == utc_datetime_of(ts),
{
    chrono::DateTime::<chrono::Utc>::from_timestamp(ts, 0).map(
        |dt| dt.format("%Y-%m-%d %H:%M:%S").to_string(),
    )
}

pub open spec fn sel_td() -> Seq<NodeTestV> {
    seq![NodeTestV::Tag("td"@)]
}

/// What one recent-transaction row parses to: signature and block anchors,
/// the block separator-stripped, the time from the `datetime` attribute of a
/// `time` element rendered as a UTC instant, and the status cell's first
/// child text.
pub open spec fn spec_tx_row(d: Seq<DomNodeV>, row: usize) -> Result<TransactionV, ParseErrorV> {
    let tds = find_nodes(d, Some(row), sel_td());
    if tds.len() < 5 {
        Err(ParseErrorV::NotFound { what: "recent transaction row: td cells"@ })
    } else {
        let sig = first_text(d, tds[0], seq![NodeTestV::Tag("a"@)]);
        if sig is None {
            Err(ParseErrorV::NotFound { what: "recent transaction signature: a"@ })
        } else {
            let block_txt = first_text(d, tds[1], seq![NodeTestV::Tag("a"@)]);
            if block_txt is None {
                Err(ParseErrorV::NotFound { what: "recent transaction block: a"@ })
            } else {
                let block = spec_parse_u64(strip_commas(block_txt.unwrap()));
                if block is None {
                    Err(ParseErrorV::UnexpectedFormat { what: "recent transaction block: integer"@ })
                } else {
                    match first_node(d, Some(tds[2]), seq![NodeTestV::Tag("time"@)]) {
                        None => Err(
                            ParseErrorV::NotFound { what: "recent transaction time: time"@ },
                        ),
                        Some(tnode) => {
                            let dt = node_attr(d, tnode as int, "datetime"@);
                            if dt is None {
                                Err(
                                    ParseErrorV::MissingAttribute {
                                        what: "recent transaction time: datetime"@,
                                    },
                                )
                            } else {
                                let ts = spec_parse_i64(dt.unwrap());
                                if ts is None {
                                    Err(
                                        ParseErrorV::UnexpectedFormat {
                                            what: "recent transaction time: integer"@,
                                        },
                                    )
                                } else {
                                    let time = utc_datetime_of(ts.unwrap());
                                    if time is None {
                                        Err(
                                            ParseErrorV::UnexpectedFormat {
                                                what: "recent transaction time: out of range"@,
                                            },
                                        )
                                    } else {
                                        let kids = children_of(d, tds[4] as int);
                                        if kids.len() < 1 {
                                            Err(
                                                ParseErrorV::NotFound {
                                                    what: "recent transaction result: first child"@,
                                                },
                                            )
                                        } else {
                                            Ok(
                                                TransactionV {
                                                    signature: sig.unwrap(),
                                                    block: block.unwrap(),
                                                    time: time.unwrap(),
                                                    result: text_of(d, kids[0] as int),
                                                },
                                            )
                                        }
                                    }
                                }
                            }
                        },
                    }
                }
            }
        }
    }
}

/// The recent-transaction rows from `k` on, stopping once `limit` rows have
/// been collected.
pub open spec fn spec_tx_rows_from(
    d: Seq<DomNodeV>,
    rows: Seq<usize>,
    k: int,
    limit: usize,
    acc: Seq<TransactionV>,
) -> Result<Seq<TransactionV>, ParseErrorV>
    decreases rows.len() - k,
{
    if acc.len() >= limit || k < 0 || k >= rows.len() {
        Ok(acc)
    } else {
        match spec_tx_row(d, rows[k]) {
            Ok(v) => spec_tx_rows_from(d, rows, k + 1, limit, acc.push(v)),
            Err(e) => Err(e),
        }
    }
}

/// The collected rows never exceed the caller's limit.
pub proof fn lemma_recent_limit(
    d: Seq<DomNodeV>,
    rows: Seq<usize>,
    k: int,
    limit: usize,
    acc: Seq<TransactionV>,
)
    requires
        acc.len() <= limit,
    ensures
        (spec_tx_rows_from(d, rows, k, limit, acc) matches Ok(v) ==> v.len() <= limit),
    decreases rows.len() - k,
{
    if !(acc.len() >= limit || k < 0 || k >= rows.len()) {
        match spec_tx_row(d, rows[k]) {
            Ok(v) => {
                lemma_recent_limit(d, rows, k + 1, limit, acc.push(v));
            },
            Err(_) => {},
        }
    }
}

/// What a whole account page parses to: five fixed rows through their own
/// selectors, then the second list's rows as recent transactions, up to the
/// caller's limit.
pub open spec fn spec_parse_account(d: Seq<DomNodeV>, txns_limit: usize) -> Result<
    AccountDetailsV,
    ParseErrorV,
> {
    let rows = find_nodes(
        d,
        None,
        seq![NodeTestV::ClassWord("table-responsive"@), NodeTestV::Tag("tr"@)],
    );
    if rows.len() < 5 {
        Err(ParseErrorV::NotFound { what: "account rows: .table-responsive tr"@ })
    } else {
        let address = first_text(
            d,
            rows[0],
            seq![NodeTestV::ClassWord("font-monospace"@), NodeTestV::Tag("span"@)],
        );
        if address is None {
            Err(ParseErrorV::NotFound { what: "account address: .font-monospace span"@ })
        } else {
            let bal_txt = first_text(d, rows[1], seq![NodeTestV::ClassWord("font-monospace"@)]);
            if bal_txt is None {
                Err(ParseErrorV::NotFound { what: "account balance: .font-monospace"@ })
            } else {
                let balance = spec_parse_decimal(bal_txt.unwrap());
                if balance is None {
                    Err(ParseErrorV::UnexpectedFormat { what: "account balance: decimal"@ })
                } else {
                    let size_txt = first_text(
                        d,
                        rows[2],
                        seq![NodeTestV::ClassWord("text-lg-end"@)],
                    );
                    if size_txt is None {
                        Err(ParseErrorV::NotFound { what: "account data size: .text-lg-end"@ })
                    } else {
                        let data_size = spec_parse_u64(
                            strip_commas(first_token(size_txt.unwrap())),
                        );
                        if data_size is None {
                            Err(
                                ParseErrorV::UnexpectedFormat {
                                    what: "account data size: integer"@,
                                },
                            )
                        } else {
                            let owner = first_text(
                                d,
                                rows[3],
                                seq![
                                    NodeTestV::ClassWord("font-monospace"@),
                                    NodeTestV::Tag("a"@),
                                ],
                            );
                            if owner is None {
                                Err(
                                    ParseErrorV::NotFound {
                                        what: "account owner: .font-monospace a"@,
                                    },
                                )
                            } else {
                                let ex_txt = first_text(
                                    d,
                                    rows[4],
                                    seq![NodeTestV::ClassWord("text-lg-end"@)],
                                );
                                if ex_txt is None {
                                    Err(
                                        ParseErrorV::NotFound {
                                            what: "account executable: .text-lg-end"@,
                                        },
                                    )
                                } else {
                                    let low = lower_seq(ex_txt.unwrap());
                                    if !(low == "yes"@ || low == "no"@) {
                                        Err(
                                            ParseErrorV::UnexpectedFormat {
                                                what: "account executable: yes or no"@,
                                            },
                                        )
                                    } else {
                                        let lists = find_nodes(
                                            d,
                                            None,
                                            seq![NodeTestV::ClassWord("list"@)],
                                        );
                                        if lists.len() < 2 {
                                            Err(
                                                ParseErrorV::NotFound {
                                                    what: "recent transactions: .list"@,
                                                },
                                            )
                                        } else {
                                            let txrows = children_of(d, lists[1] as int);
                                            match spec_tx_rows_from(
                                                d,
                                                txrows,
                                                0,
                                                txns_limit,
                                                Seq::empty(),
                                            ) {
                                                Err(e) => Err(e),
                                                Ok(txs) => Ok(
                                                    AccountDetailsV {
                                                        address: address.unwrap(),
                                                        balance: balance.unwrap(),
                                                        owner: owner.unwrap(),
                                                        data_size: data_size.unwrap(),
                                                        executable: low == "yes"@,
                                                        recent_transactions: txs,
                                                    },
                                                ),
                                            }
                                        }
                                    }
                                }
                            }
                        }
                    }
                }
            }
        }
    }
}

fn parse_tx_row(dom: &Dom, row: usize) -> (r: Result<Transaction, ParseError>)
    ensures
        rdv(r) == spec_tx_row(dom@, row),
{
    let p_td = vec![by_tag("td")];
    proof {
        assert(tests_v(p_td@) =~= sel_td());
    }
    let p_a = vec![by_tag("a")];
    proof {
        assert(tests_v(p_a@) =~= seq![NodeTestV::Tag("a"@)]);
    }
    let tds = dom.find_in(Some(row), &p_td);
    if tds.len() < 5 {
        return Err(ParseError::NotFound { what: "recent transaction row: td cells".to_owned() });
    }
    let sig = match dom.text_first(tds[0], &p_a) {
        Some(t) => t,
        None => {
            return Err(ParseError::NotFound { what: "recent transaction signature: a".to_owned() });
        },
    };
    let block_txt = match dom.text_first(tds[1], &p_a) {
        Some(t) => t,
        None => {
            return Err(ParseError::NotFound { what: "recent transaction block: a".to_owned() });
        },
    };
    let block_digits = strip_commas_vec(&block_txt);
    let block = match parse_u64(&block_digits) {
        Some(v) => v,
        None => {
            return Err(
                ParseError::UnexpectedFormat { what: "recent transaction block: integer".to_owned() },
            );
        },
    };
    let p_time = vec![by_tag("time")];
    proof {
        assert(tests_v(p_time@) =~= seq![NodeTestV::Tag("time"@)]);
    }
    let tnode = match dom.find_first(Some(tds[2]), &p_time) {
        Some(n) => n,
        None => {
            return Err(ParseError::NotFound { what: "recent transaction time: time".to_owned() });
        },
    };
    let dt_name = str_chars("datetime");
    let dt = match dom.attr(tnode, &dt_name) {
        Some(v) => v,
        None => {
            return Err(
                ParseError::MissingAttribute { what: "recent transaction time: datetime".to_owned() },
            );
        },
    };
    let dt_chars = str_chars(dt.as_str());
    let ts = match parse_i64(&dt_chars) {
        Some(v) => v,
        None => {
            return Err(
                ParseError::UnexpectedFormat { what: "recent transaction time: integer".to_owned() },
            );
        },
    };
    let time = match format_unix_timestamp(ts) {
        Some(t) => t,
        None => {
            return Err(
                ParseError::UnexpectedFormat {
                    what: "recent transaction time: out of range".to_owned(),
                },
            );
        },
    };
    let kids = dom.children(tds[4]);
    if kids.len() < 1 {
        return Err(
            ParseError::NotFound { what: "recent transaction result: first child".to_owned() },
        );
    }
    let res = dom.text(kids[0]);
    Ok(
        Transaction {
            signature: chars_string(&sig),
            block,
            time,
            result: chars_string(&res),
        },
    )
}

/// Reads a whole account page snapshot, collecting at most `txns_limit`
/// recent transactions.
pub fn parse_account(dom: &Dom, txns_limit: usize) -> (r: Result<AccountDetails, ParseError>)
    ensures
        rdv(r) == spec_parse_account(dom@, txns_limit),
{
    let p_table_tr = vec![by_class("table-responsive"), by_tag("tr")];
    proof {
        assert(tests_v(p_table_tr@) =~= seq![
            NodeTestV::ClassWord("table-responsive"@),
            NodeTestV::Tag("tr"@),
        ]);
    }
    let rows = dom.find_in(None, &p_table_tr);
    if rows.len() < 5 {
        return Err(ParseError::NotFound { what: "account rows: .table-responsive tr".to_owned() });
    }
    let p_mono_span = vec![by_class("font-monospace"), by_tag("span")];
    proof {
        assert(tests_v(p_mono_span@) =~= seq![
            NodeTestV::ClassWord("font-monospace"@),
            NodeTestV::Tag("span"@),
        ]);
    }
    let address = match dom.text_first(rows[0], &p_mono_span) {
        Some(t) => t,
        None => {
            return Err(
                ParseError::NotFound { what: "account address: .font-monospace span".to_owned() },
            );
        },
    };
    let p_mono = vec![by_class("font-monospace")];
    proof {
        assert(tests_v(p_mono@) =~= seq![NodeTestV::ClassWord("font-monospace"@)]);
    }
    let bal_txt = match dom.text_first(rows[1], &p_mono) {
        Some(t) => t,
        None => {
            return Err(
                ParseError::NotFound { what: "account balance: .font-monospace".to_owned() },
            );
        },
    };
    let balance = match parse_decimal(&bal_txt) {
        Some(v) => v,
        None => {
            return Err(
                ParseError::UnexpectedFormat { what: "account balance: decimal".to_owned() },
            );
        },
    };
    let p_end = vec![by_class("text-lg-end")];
    proof {
        assert(tests_v(p_end@) =~= seq![NodeTestV::ClassWord("text-lg-end"@)]);
    }
    let size_txt = match dom.text_first(rows[2], &p_end) {
        Some(t) => t,
        None => {
            return Err(
                ParseError::NotFound { what: "account data size: .text-lg-end".to_owned() },
            );
        },
    };
    let size_tok = first_token_vec(&size_txt);
    let size_digits = strip_commas_vec(&size_tok);
    let data_size = match parse_u64(&size_digits) {
        Some(v) => v,
        None => {
            return Err(
                ParseError::UnexpectedFormat { what: "account data size: integer".to_owned() },
            );
        },
    };
    let p_mono_a = vec![by_class("font-monospace"), by_tag("a")];
    proof {
        assert(tests_v(p_mono_a@) =~= seq![
            NodeTestV::ClassWord("font-monospace"@),
            NodeTestV::Tag("a"@),
        ]);
    }
    let owner = match dom.text_first(rows[3], &p_mono_a) {
        Some(t) => t,
        None => {
            return Err(
                ParseError::NotFound { what: "account owner: .font-monospace a".to_owned() },
            );
        },
    };
    let ex_txt = match dom.text_first(rows[4], &p_end) {
        Some(t) => t,
        None => {
            return Err(
                ParseError::NotFound { what: "account executable: .text-lg-end".to_owned() },
            );
        },
    };
    let low = to_lower(&ex_txt);
    let is_yes = seq_eq_str(&low, "yes");
    let is_no = seq_eq_str(&low, "no");
    if !(is_yes || is_no) {
        return Err(
            ParseError::UnexpectedFormat { what: "account executable: yes or no".to_owned() },
        );
    }
    let p_list = vec![by_class("list")];
    proof {
        assert(tests_v(p_list@) =~= seq![NodeTestV::ClassWord("list"@)]);
    }
    let lists = dom.find_in(None, &p_list);
    if lists.len() < 2 {
        return Err(ParseError::NotFound { what: "recent transactions: .list".to_owned() });
    }
    let txrows = dom.children(lists[1]);
    let mut txs: Vec<Transaction> = Vec::new();
    proof {
        assert(txs.deep_view() =~= Seq::<TransactionV>::empty());
    }
    let mut failure: Option<ParseError> = None;
    let mut k: usize = 0;
    while k < txrows.len() && txs.len() < txns_limit && failure.is_none()
        invariant
            k <= txrows@.len(),
            txs@.len() <= txns_limit,
            failure is None ==> spec_tx_rows_from(dom@, txrows@, 0, txns_limit, Seq::empty())
                == spec_tx_rows_from(dom@, txrows@, k as int, txns_limit, txs.deep_view()),
            (failure matches Some(e) ==> spec_tx_rows_from(dom@, txrows@, 0, txns_limit, Seq::empty())
                == Err::<Seq<TransactionV>, ParseErrorV>(e@)),
        decreases txrows@.len() - k + (if failure is None {
            1int
        } else {
            0int
        }),
    {
        let ghost txv = txs.deep_view();
        match parse_tx_row(dom, txrows[k]) {
            Ok(v) => {
                txs.push(v);
                k = k + 1;
                proof {
                    assert(txs.deep_view() =~= txv.push(txs@[txs@.len() - 1].deep_view()));
                }
            },
            Err(e) => {
                failure = Some(e);
            },
        }
    }
    if let Some(e) = failure {
        return Err(e);
    }
    Ok(
        AccountDetails {
            address: chars_string(&address),
            balance,
            owner: chars_string(&owner),
            data_size,
            executable: is_yes,
            recent_transactions: txs,
        },
    )
}

/// Reads an account page from its HTML source text.
pub fn account_from_html(html: &str, txns_limit: usize) -> (r: Result<AccountDetails, ParseError>)
    ensures
        rdv(r) == spec_parse_account(crate::dom::dom_nodes_of(html@), txns_limit),
{
    let dom = crate::dom::dom_from_html(html);
    parse_account(&dom, txns_limit)
}

} // verus!
