use vstd::prelude::*;
use vstd::string::StringExecFns;
use crate::dom::{
    Dom, DomNodeV, NodeTest, NodeTestV, tests_v, find_nodes, first_node, children_of, text_of,
    node_attr, gparent, has_class, first_text, by_class, by_tag,
};
use crate::err::{ParseError, ParseErrorV, rdv};
use crate::num::{Decimal, spec_parse_u64, spec_parse_decimal, parse_u64, parse_decimal};
use crate::text::{
    is_prefix, str_chars, chars_string, strip_commas, strip_commas_vec, strip_blank,
    strip_blank_vec, first_token, first_token_vec, norm_ws, normalize_ws, contains_word,
    contains_sub, has_prefix, seq_eq_str, contains_word_vec, contains_sub_vec,
};

verus! {

/// The fixed summary card of a transaction page.
#[derive(Debug, Clone, PartialEq, Eq)]
pub struct TxOverview {
    pub signature: String,
    pub result: String,
    pub timestamp: String,
    pub confirmation_status: String,
    pub confirmations: String,
    pub slot: u64,
    pub recent_blockhash: String,
    pub fee: Decimal,
    pub transaction_version: String,
}

#[verifier::ext_equal]
pub struct TxOverviewV {
    pub signature: Seq<char>,
    pub result: Seq<char>,
    pub timestamp: Seq<char>,
    pub confirmation_status: Seq<char>,
    pub confirmations: Seq<char>,
    pub slot: u64,
    pub recent_blockhash: Seq<char>,
    pub fee: Decimal,
    pub transaction_version: Seq<char>,
}

impl View for TxOverview {
    type V = TxOverviewV;

    open spec fn view(&self) -> TxOverviewV {
        TxOverviewV {
            signature: self.signature@,
            result: self.result@,
            timestamp: self.timestamp@,
            confirmation_status: self.confirmation_status@,
            confirmations: self.confirmations@,
            slot: self.slot,
            recent_blockhash: self.recent_blockhash@,
            fee: self.fee,
            transaction_version: self.transaction_version@,
        }
    }
}

impl DeepView for TxOverview {
    type V = TxOverviewV;

    open spec fn deep_view(&self) -> TxOverviewV {
        self.view()
    }
}

/// One row of the "Account Input(s)" card.
#[derive(Debug, Clone, PartialEq, Eq)]
pub struct TxAccountInput {
    pub address: String,
    /// The badge texts of the row, first occurrence of each kept, plus
    /// "Program" when the address text carries that word.
    pub attributes: Vec<String>,
    pub sol_change: Decimal,
    pub post_balance: Decimal,
}

#[verifier::ext_equal]
pub struct TxAccountInputV {
    pub address: Seq<char>,
    pub attributes: Seq<Seq<char>>,
    pub sol_change: Decimal,
    pub post_balance: Decimal,
}

impl View for TxAccountInput {
    type V = TxAccountInputV;

    open spec fn view(&self) -> TxAccountInputV {
        TxAccountInputV {
            address: self.address@,
            attributes: self.attributes.deep_view(),
            sol_change: self.sol_change,
            post_balance: self.post_balance,
        }
    }
}

impl DeepView for TxAccountInput {
    type V = TxAccountInputV;

    open spec fn deep_view(&self) -> TxAccountInputV {
        self.view()
    }
}

/// One row of the "Token Balances" card.
#[derive(Debug, Clone, PartialEq, Eq)]
pub struct TokenAccountInfo {
    pub address: String,
    pub token_name: String,
    pub token_url: String,
    pub change: Decimal,
    /// Kept as the page shows it: observed representations vary too much to
    /// canonicalize.
    pub post_balance: String,
}

#[verifier::ext_equal]
pub struct TokenAccountInfoV {
    pub address: Seq<char>,
    pub token_name: Seq<char>,
    pub token_url: Seq<char>,
    pub change: Decimal,
    pub post_balance: Seq<char>,
}

impl View for TokenAccountInfo {
    type V = TokenAccountInfoV;

    open spec fn view(&self) -> TokenAccountInfoV {
        TokenAccountInfoV {
            address: self.address@,
            token_name: self.token_name@,
            token_url: self.token_url@,
            change: self.change,
            post_balance: self.post_balance@,
        }
    }
}

impl DeepView for TokenAccountInfo {
    type V = TokenAccountInfoV;

    open spec fn deep_view(&self) -> TokenAccountInfoV {
        self.view()
    }
}

/// One account reference inside an instruction card.
#[derive(Debug, Clone, PartialEq, Eq)]
pub struct IxAccountContext {
    pub address: String,
    /// `None` when the row carried no badges at all, as distinct from an
    /// empty badge list.
    pub attributes: Option<Vec<String>>,
}

#[verifier::ext_equal]
pub struct IxAccountContextV {
    pub address: Seq<char>,
    pub attributes: Option<Seq<Seq<char>>>,
}

impl View for IxAccountContext {
    type V = IxAccountContextV;

    open spec fn view(&self) -> IxAccountContextV {
        IxAccountContextV { address: self.address@, attributes: self.attributes.deep_view() }
    }
}

impl DeepView for IxAccountContext {
    type V = IxAccountContextV;

    open spec fn deep_view(&self) -> IxAccountContextV {
        self.view()
    }
}

/// One instruction card: its header, program, labelled account references,
/// scalar fields, and the optional raw hex payload.
#[derive(Debug, Clone, PartialEq, Eq)]
pub struct Instruction {
    pub description: String,
    pub program: String,
    pub accounts: Vec<(String, IxAccountContext)>,
    /// Label-to-value pairs in first-appearance order; a repeated label
    /// overwrites the earlier value, so keys stay unique.
    pub additional_info: Vec<(String, String)>,
    pub hex: Option<String>,
}

#[verifier::ext_equal]
pub struct InstructionV {
    pub description: Seq<char>,
    pub program: Seq<char>,
    pub accounts: Seq<(Seq<char>, IxAccountContextV)>,
    pub additional_info: Seq<(Seq<char>, Seq<char>)>,
    pub hex: Option<Seq<char>>,
}

impl View for Instruction {
    type V = InstructionV;

    open spec fn view(&self) -> InstructionV {
        InstructionV {
            description: self.description@,
            program: self.program@,
            accounts: self.accounts.deep_view(),
            additional_info: self.additional_info.deep_view(),
            hex: self.hex.deep_view(),
        }
    }
}

impl DeepView for Instruction {
    type V = InstructionV;

    open spec fn deep_view(&self) -> InstructionV {
        self.view()
    }
}

/// A whole parsed transaction page.
#[derive(Debug, Clone, PartialEq, Eq)]
pub struct Transaction {
    pub overview: TxOverview,
    /// `None` when the page has no "Token Balances" card at all, as distinct
    /// from an empty one.
    pub token_balances: Option<Vec<TokenAccountInfo>>,
    pub account_inputs: Vec<TxAccountInput>,
    pub instructions: Vec<Instruction>,
}

#[verifier::ext_equal]
pub struct TransactionV {
    pub overview: TxOverviewV,
    pub token_balances: Option<Seq<TokenAccountInfoV>>,
    pub account_inputs: Seq<TxAccountInputV>,
    pub instructions: Seq<InstructionV>,
}

impl View for Transaction {
    type V = TransactionV;

    open spec fn view(&self) -> TransactionV {
        TransactionV {
            overview: self.overview@,
            token_balances: self.token_balances.deep_view(),
            account_inputs: self.account_inputs.deep_view(),
            instructions: self.instructions.deep_view(),
        }
    }
}

impl DeepView for Transaction {
    type V = TransactionV;

    open spec fn deep_view(&self) -> TransactionV {
        self.view()
    }
}

// --- Selector shorthands ----------------------------------------------------

pub open spec fn sel_class(c: Seq<char>) -> Seq<NodeTestV> {
    seq![NodeTestV::ClassWord(c)]
}

pub open spec fn sel_tag(t: Seq<char>) -> Seq<NodeTestV> {
    seq![NodeTestV::Tag(t)]
}

pub open spec fn sel_list_tr() -> Seq<NodeTestV> {
    seq![NodeTestV::ClassWord("list"@), NodeTestV::Tag("tr"@)]
}

pub open spec fn sel_spans() -> Seq<NodeTestV> {
    seq![
        NodeTestV::ClassWord("text-lg-end"@),
        NodeTestV::ClassWord("mb-0"@),
        NodeTestV::Tag("span"@),
    ]
}

fn path_class(c: &str) -> (p: Vec<NodeTest>)
    ensures
        tests_v(p@) == sel_class(c@),
{
    let p = vec![by_class(c)];
    proof {
        assert(tests_v(p@) =~= sel_class(c@));
    }
    p
}

fn path_tag(t: &str) -> (p: Vec<NodeTest>)
    ensures
        tests_v(p@) == sel_tag(t@),
{
    let p = vec![by_tag(t)];
    proof {
        assert(tests_v(p@) =~= sel_tag(t@));
    }
    p
}

fn path_list_tr() -> (p: Vec<NodeTest>)
    ensures
        tests_v(p@) == sel_list_tr(),
{
    let p = vec![by_class("list"), by_tag("tr")];
    proof {
        assert(tests_v(p@) =~= sel_list_tr());
    }
    p
}

fn path_spans() -> (p: Vec<NodeTest>)
    ensures
        tests_v(p@) == sel_spans(),
{
    let p = vec![by_class("text-lg-end"), by_class("mb-0"), by_tag("span")];
    proof {
        assert(tests_v(p@) =~= sel_spans());
    }
    p
}

// --- Token URL normalization ------------------------------------------------

/// A token URL made absolute: already-absolute URLs are kept as they are,
/// anything else is prefixed with the explorer origin. Applying it twice is
/// the same as applying it once.
pub open spec fn spec_normalize_url(u: Seq<char>) -> Seq<char> {
    if is_prefix("https://"@, u) || is_prefix("http://"@, u) {
        u
    } else {
        "https://explorer.solana.com"@ + u
    }
}

pub fn normalize_url(url: &str) -> (r: String)
    ensures
        r@ == spec_normalize_url(url@),
{
    let uc = str_chars(url);
    let p1 = str_chars("https://");
    let p2 = str_chars("http://");
    if has_prefix(&uc, &p1) || has_prefix(&uc, &p2) {
        url.to_owned()
    } else {
        let mut r = "https://explorer.solana.com".to_owned();
        r.append(url);
        r
    }
}

/// Normalizing a token URL twice gives the same URL as normalizing it once.
pub proof fn lemma_normalize_url_idempotent(u: Seq<char>)
    ensures
        spec_normalize_url(spec_normalize_url(u)) == spec_normalize_url(u),
{
    if !(is_prefix("https://"@, u) || is_prefix("http://"@, u)) {
        let r = "https://explorer.solana.com"@ + u;
        reveal_strlit("https://");
        reveal_strlit("https://explorer.solana.com");
        assert(r.subrange(0, 8) =~= "https://"@);
        assert(is_prefix("https://"@, r));
    }
}

// --- Ordinal labels and the account sort -------------------------------------

/// Index of the last `#` at or before position `k`, or -1.
pub open spec fn last_hash(s: Seq<char>, k: int) -> int
    decreases k + 1,
{
    if k < 0 || k >= s.len() {
        -1
    } else if s[k] == '#' {
        k
    } else {
        last_hash(s, k - 1)
    }
}

/// The ordinal of a label of the shape "Name #N": the integer after the last
/// `#`, outer whitespace ignored; the whole label when no `#` occurs.
pub open spec fn spec_ordinal(s: Seq<char>) -> Option<u64> {
    let h = last_hash(s, s.len() - 1);
    spec_parse_u64(norm_ws(s.subrange(h + 1, s.len() as int)))
}

pub fn ordinal_of(s: &Vec<char>) -> (r: Option<u64>)
    ensures
        r == spec_ordinal(s@),
{
    let mut h: usize = s.len();
    while h > 0 && s[h - 1] != '#'
        invariant
            h <= s@.len(),
            last_hash(s@, s@.len() - 1) == last_hash(s@, h - 1),
        decreases h,
    {
        h = h - 1;
    }
    proof {
        if h == 0 {
            assert(last_hash(s@, -1) == -1);
        } else {
            assert(last_hash(s@, h - 1) == h - 1);
        }
    }
    let tail = crate::text::sub_vec(s, h, s.len());
    let tn = normalize_ws(&tail);
    parse_u64(&tn)
}

/// First position in `s` whose key exceeds `key`, scanning from `j`.
pub open spec fn insert_pos<T>(s: Seq<(u64, T)>, key: u64, j: int) -> int
    decreases s.len() - j,
{
    if 0 <= j < s.len() {
        if s[j].0 > key {
            j
        } else {
            insert_pos(s, key, j + 1)
        }
    } else {
        s.len() as int
    }
}

/// Stable insertion sort over keyed items: each item is inserted before the
/// first strictly greater key.
pub open spec fn sort_keyed<T>(items: Seq<(u64, T)>, k: int) -> Seq<(u64, T)>
    decreases k,
{
    if k <= 0 {
        Seq::empty()
    } else {
        let pre = sort_keyed(items, k - 1);
        let x = items[k - 1];
        pre.insert(insert_pos(pre, x.0, 0), x)
    }
}

/// The ordinals of the labels from position `k` on, appended to `acc`, or
/// the first label that has none.
pub open spec fn spec_keyed_from(
    s: Seq<(Seq<char>, IxAccountContextV)>,
    k: int,
    acc: Seq<(u64, (Seq<char>, IxAccountContextV))>,
) -> Result<Seq<(u64, (Seq<char>, IxAccountContextV))>, ParseErrorV>
    decreases s.len() - k,
{
    if k < 0 || k >= s.len() {
        Ok(acc)
    } else {
        match spec_ordinal(s[k].0) {
            Some(n) => spec_keyed_from(s, k + 1, acc.push((n, s[k]))),
            None => Err(ParseErrorV::OrdinalParse { label: s[k].0 }),
        }
    }
}

/// What sorting a labelled account list means: every label yields its
/// ordinal and the pairs are stably sorted by it; the first label without an
/// ordinal is the error.
pub open spec fn spec_sort_accounts(s: Seq<(Seq<char>, IxAccountContextV)>) -> Result<
    Seq<(Seq<char>, IxAccountContextV)>,
    ParseErrorV,
> {
    match spec_keyed_from(s, 0, Seq::empty()) {
        Ok(keyed) => Ok(
            sort_keyed(keyed, keyed.len() as int).map_values(
                |p: (u64, (Seq<char>, IxAccountContextV))| p.1,
            ),
        ),
        Err(e) => Err(e),
    }
}

pub open spec fn keyed_pairs_v(s: Seq<(u64, (String, IxAccountContext))>) -> Seq<
    (u64, (Seq<char>, IxAccountContextV)),
> {
    s.map_values(|p: (u64, (String, IxAccountContext))| (p.0, p.1.deep_view()))
}

/// Orders instruction account pairs by the ordinal in their "Name #N"
/// labels, stably; fails on the first label without a parseable ordinal.
pub fn sort_accounts(accounts: Vec<(String, IxAccountContext)>) -> (r: Result<
    Vec<(String, IxAccountContext)>,
    ParseError,
>)
    ensures
        rdv(r) == spec_sort_accounts(accounts.deep_view()),
{
    let ghost sv = accounts.deep_view();
    let n = accounts.len();
    let mut keys: Vec<u64> = Vec::new();
    proof {
        assert(Seq::new(0nat, |x: int| (keys@[x], sv[x])) =~= Seq::<
            (u64, (Seq<char>, IxAccountContextV)),
        >::empty());
    }
    let mut i: usize = 0;
    while i < n
        invariant
            i <= n,
            n == accounts@.len(),
            sv == accounts.deep_view(),
            sv.len() == n,
            keys@.len() == i,
            spec_keyed_from(sv, 0, Seq::empty()) == spec_keyed_from(
                sv,
                i as int,
                Seq::new(i as nat, |x: int| (keys@[x], sv[x])),
            ),
        decreases n - i,
    {
        let label = str_chars(accounts[i].0.as_str());
        proof {
            assert(accounts@[i as int].deep_view() == sv[i as int]);
            assert(label@ == sv[i as int].0);
            if i == 0 {
                assert(Seq::new(0nat, |x: int| (keys@[x], sv[x])) =~= Seq::<
                    (u64, (Seq<char>, IxAccountContextV)),
                >::empty());
            }
        }
        match ordinal_of(&label) {
            Some(ord) => {
                let ghost keysold = keys@;
                let ghost iold = i as int;
                keys.push(ord);
                i = i + 1;
                proof {
                    assert(Seq::new(iold as nat, |x: int| (keysold[x], sv[x])) =~= Seq::new(
                        iold as nat,
                        |x: int| (keys@[x], sv[x]),
                    ));
                    assert(Seq::new(i as nat, |x: int| (keys@[x], sv[x])) =~= Seq::new(
                        iold as nat,
                        |x: int| (keys@[x], sv[x]),
                    ).push((keys@[iold], sv[iold])));
                }
            },
            None => {
                proof {
                    assert(spec_keyed_from(
                        sv,
                        i as int,
                        Seq::new(i as nat, |x: int| (keys@[x], sv[x])),
                    ) == Err::<Seq<(u64, (Seq<char>, IxAccountContextV))>, ParseErrorV>(
                        ParseErrorV::OrdinalParse { label: sv[i as int].0 },
                    ));
                }
                return Err(ParseError::OrdinalParse { label: accounts[i].0.clone() });
            },
        }
    }
    proof {
        if n == 0 {
            assert(Seq::new(0nat, |x: int| (keys@[x], sv[x])) =~= Seq::<
                (u64, (Seq<char>, IxAccountContextV)),
            >::empty());
        }
    }
    let ghost keyedv = Seq::new(n as nat, |x: int| (keys@[x], sv[x]));
    let mut kin = accounts;
    proof {
        assert forall|x: int| 0 <= x < n implies #[trigger] kin@[x].deep_view() == sv[x] by {
            assert(kin.deep_view()[x] == kin@[x].deep_view());
        }
    }
    let mut out: Vec<(u64, (String, IxAccountContext))> = Vec::new();
    proof {
        assert(keyed_pairs_v(out@) =~= sort_keyed(keyedv, 0));
    }
    let mut k: usize = 0;
    while k < n
        invariant
            k <= n,
            n - k == kin@.len(),
            n == keys@.len(),
            keyedv.len() == n,
            keyedv == Seq::new(n as nat, |x: int| (keys@[x], sv[x])),
            forall|x: int| 0 <= x < n - k ==> #[trigger] kin@[x].deep_view() == sv[k + x],
            keyed_pairs_v(out@) == sort_keyed(keyedv, k as int),
            out@.len() == k,
        decreases n - k,
    {
        let pair = kin.remove(0);
        let key = keys[k];
        let item = (key, pair);
        proof {
            assert((item.0, item.1.deep_view()) == keyedv[k as int]);
            assert(forall|x: int|
                0 <= x < kin@.len() ==> #[trigger] kin@[x].deep_view() == sv[k + 1 + x]);
        }
        let ghost prev = keyed_pairs_v(out@);
        let mut p: usize = 0;
        while p < out.len() && out[p].0 <= key
            invariant
                p <= out@.len(),
                prev == keyed_pairs_v(out@),
                insert_pos(prev, key, 0) == insert_pos(prev, key, p as int),
            decreases out@.len() - p,
        {
            proof {
                assert(prev[p as int] == (out@[p as int].0, out@[p as int].1.deep_view()));
            }
            p = p + 1;
        }
        proof {
            if (p as int) < prev.len() {
                assert(prev[p as int] == (out@[p as int].0, out@[p as int].1.deep_view()));
                assert(insert_pos(prev, key, p as int) == p as int);
            } else {
                assert(insert_pos(prev, key, p as int) == prev.len());
            }
            lemma_insert_pos_bounds(prev, key, 0);
        }
        out.insert(p, item);
        k = k + 1;
        proof {
            assert(keyed_pairs_v(out@) =~= prev.insert(insert_pos(prev, key, 0), keyedv[k - 1]));
        }
    }
    let ghost sorted = sort_keyed(keyedv, n as int);
    proof {
        lemma_sort_keyed_len(keyedv, n as int);
    }
    let mut out2 = out;
    proof {
        assert forall|x: int|
            0 <= x < n implies (out2@[x].0, #[trigger] out2@[x].1.deep_view()) == sorted[x] by {
            assert(keyed_pairs_v(out2@)[x] == (out2@[x].0, out2@[x].1.deep_view()));
        }
    }
    let mut r: Vec<(String, IxAccountContext)> = Vec::new();
    let mut q: usize = 0;
    while q < n
        invariant
            q <= n,
            n - q == out2@.len(),
            sorted.len() == n,
            forall|x: int|
                0 <= x < n - q ==> (out2@[x].0, #[trigger] out2@[x].1.deep_view()) == sorted[q + x],
            r@.len() == q,
            forall|x: int| 0 <= x < q ==> #[trigger] r@[x].deep_view() == sorted[x].1,
        decreases n - q,
    {
        let ghost o2 = out2@;
        let item = out2.remove(0);
        proof {
            assert((item.0, item.1.deep_view()) == sorted[q as int]);
            assert forall|x: int|
                0 <= x < out2@.len() implies (out2@[x].0, #[trigger] out2@[x].1.deep_view())
                == sorted[q + 1 + x] by {
                assert(out2@[x] == o2[x + 1]);
                assert((o2[x + 1].0, o2[x + 1].1.deep_view()) == sorted[q + 1 + x]);
            }
        }
        r.push(item.1);
        q = q + 1;
    }
    proof {
        assert(r.deep_view() =~= sorted.map_values(
            |p: (u64, (Seq<char>, IxAccountContextV))| p.1,
        ));
    }
    Ok(r)
}

// --- The Section Classifier ---------------------------------------------------

/// How the classifier dispatches one card, by its exact header title.
/// `Unsupported` marks a recognized section that is deliberately skipped —
/// distinct from a missing selector, so callers can tell partial coverage
/// from failure.
#[derive(Debug, Clone, Copy, PartialEq, Eq, Structural)]
pub enum SectionKind {
    Overview,
    AccountInputs,
    TokenBalances,
    Unsupported,
    Instruction,
}

/// The dispatch table of the classifier, title to parser.
pub open spec fn spec_section_kind(title: Seq<char>) -> SectionKind {
    if title == "Overview"@ {
        SectionKind::Overview
    } else if title == "Account Input(s)"@ {
        SectionKind::AccountInputs
    } else if title == "Token Balances"@ {
        SectionKind::TokenBalances
    } else if title == "Program Instruction Logs"@ {
        SectionKind::Unsupported
    } else {
        SectionKind::Instruction
    }
}

/// Classifies one card title.
pub fn section_kind(title: &Vec<char>) -> (r: SectionKind)
    ensures
        r == spec_section_kind(title@),
{
    if seq_eq_str(title, "Overview") {
        SectionKind::Overview
    } else if seq_eq_str(title, "Account Input(s)") {
        SectionKind::AccountInputs
    } else if seq_eq_str(title, "Token Balances") {
        SectionKind::TokenBalances
    } else if seq_eq_str(title, "Program Instruction Logs") {
        SectionKind::Unsupported
    } else {
        SectionKind::Instruction
    }
}

/// A card is processed unless its immediate parent is a nested-card
/// container.
pub open spec fn keep_card(d: Seq<DomNodeV>, j: usize) -> bool {
    match gparent(d, j as int) {
        Some(p) => !has_class(d, p as int, "inner-cards"@),
        None => true,
    }
}

fn card_kept(dom: &Dom, j: usize) -> (r: bool)
    ensures
        r == keep_card(dom@, j),
{
    match dom.guarded_parent(j) {
        Some(p) => {
            let ic = str_chars("inner-cards");
            proof {
                reveal_strlit("inner-cards");
            }
            !dom.node_has_class(p, &ic)
        },
        None => true,
    }
}

/// The card walk from position `k` on, given what earlier cards produced:
/// each card is dispatched by its exact header title; "Program Instruction
/// Logs" is skipped as unsupported, an unknown title is an instruction; the
/// last Overview wins, and a missing one is an error at the end.
pub open spec fn spec_tx_cards(
    d: Seq<DomNodeV>,
    cards: Seq<usize>,
    k: int,
    ov: Option<TxOverviewV>,
    inputs: Seq<TxAccountInputV>,
    tokens: Option<Seq<TokenAccountInfoV>>,
    instrs: Seq<InstructionV>,
) -> Result<TransactionV, ParseErrorV>
    decreases cards.len() - k,
{
    if k < 0 || k >= cards.len() {
        match ov {
            Some(o) => Ok(
                TransactionV {
                    overview: o,
                    token_balances: tokens,
                    account_inputs: inputs,
                    instructions: instrs,
                },
            ),
            None => Err(ParseErrorV::NotFound { what: "transaction overview section"@ }),
        }
    } else {
        let card = cards[k];
        if !keep_card(d, card) {
            spec_tx_cards(d, cards, k + 1, ov, inputs, tokens, instrs)
        } else {
            match first_text(d, card, sel_class("card-header-title"@)) {
                None => Err(ParseErrorV::NotFound { what: "section title: .card-header-title"@ }),
                Some(title) => match spec_section_kind(title) {
                    SectionKind::Overview => match spec_parse_overview(d, card) {
                        Ok(o) => spec_tx_cards(d, cards, k + 1, Some(o), inputs, tokens, instrs),
                        Err(e) => Err(e),
                    },
                    SectionKind::AccountInputs => match spec_parse_account_inputs(d, card) {
                        Ok(v) => spec_tx_cards(d, cards, k + 1, ov, v, tokens, instrs),
                        Err(e) => Err(e),
                    },
                    SectionKind::TokenBalances => match spec_parse_token_balances(d, card) {
                        Ok(v) => spec_tx_cards(d, cards, k + 1, ov, inputs, Some(v), instrs),
                        Err(e) => Err(e),
                    },
                    SectionKind::Unsupported => spec_tx_cards(
                        d,
                        cards,
                        k + 1,
                        ov,
                        inputs,
                        tokens,
                        instrs,
                    ),
                    SectionKind::Instruction => match spec_parse_instruction(d, card) {
                        Ok(ix) => spec_tx_cards(d, cards, k + 1, ov, inputs, tokens, instrs.push(ix)),
                        Err(e) => Err(e),
                    },
                },
            }
        }
    }
}

/// What a whole transaction page parses to: every card outside nested-card
/// containers, in document order.
pub open spec fn spec_parse_transaction(d: Seq<DomNodeV>) -> Result<TransactionV, ParseErrorV> {
    spec_tx_cards(
        d,
        find_nodes(d, None, sel_class("card"@)),
        0,
        None,
        Seq::empty(),
        None,
        Seq::empty(),
    )
}

/// Parsing is a function of the document alone: two results of parsing the
/// same document are the same record.
pub proof fn lemma_parse_transaction_deterministic(
    r1: Result<TransactionV, ParseErrorV>,
    r2: Result<TransactionV, ParseErrorV>,
    d: Seq<DomNodeV>,
)
    requires
        r1 == spec_parse_transaction(d),
        r2 == spec_parse_transaction(d),
    ensures
        r1 == r2,
{
}

/// Reads a whole transaction page snapshot.
pub fn parse_transaction(dom: &Dom) -> (r: Result<Transaction, ParseError>)
    ensures
        rdv(r) == spec_parse_transaction(dom@),
{
    let p_card = path_class("card");
    let p_title = path_class("card-header-title");
    let cards = dom.find_in(None, &p_card);
    let mut ov: Option<TxOverview> = None;
    let mut inputs: Vec<TxAccountInput> = Vec::new();
    let mut tokens: Option<Vec<TokenAccountInfo>> = None;
    let mut instrs: Vec<Instruction> = Vec::new();
    proof {
        assert(inputs.deep_view() =~= Seq::<TxAccountInputV>::empty());
        assert(instrs.deep_view() =~= Seq::<InstructionV>::empty());
    }
    let mut k: usize = 0;
    while k < cards.len()
        invariant
            k <= cards@.len(),
            cards@ == find_nodes(dom@, None, sel_class("card"@)),
            tests_v(p_title@) == sel_class("card-header-title"@),
            spec_parse_transaction(dom@) == spec_tx_cards(
                dom@,
                cards@,
                k as int,
                ov.deep_view(),
                inputs.deep_view(),
                tokens.deep_view(),
                instrs.deep_view(),
            ),
        decreases cards@.len() - k,
    {
        let card = cards[k];
        if card_kept(dom, card) {
            let title = match dom.text_first(card, &p_title) {
                Some(t) => t,
                None => {
                    return Err(
                        ParseError::NotFound { what: "section title: .card-header-title".to_owned() },
                    );
                },
            };
            match section_kind(&title) {
                SectionKind::Overview => {
                    match parse_overview(dom, card) {
                        Ok(o) => {
                            ov = Some(o);
                        },
                        Err(e) => {
                            return Err(e);
                        },
                    }
                },
                SectionKind::AccountInputs => {
                    match parse_account_inputs(dom, card) {
                        Ok(v) => {
                            inputs = v;
                        },
                        Err(e) => {
                            return Err(e);
                        },
                    }
                },
                SectionKind::TokenBalances => {
                    match parse_token_balances(dom, card) {
                        Ok(v) => {
                            tokens = Some(v);
                        },
                        Err(e) => {
                            return Err(e);
                        },
                    }
                },
                SectionKind::Unsupported => {
                    // Recognized but intentionally unsupported: skipped, not an error.
                },
                SectionKind::Instruction => {
                    match parse_instruction(dom, card) {
                        Ok(ix) => {
                            let ghost iv = instrs.deep_view();
                            instrs.push(ix);
                            proof {
                                assert(instrs.deep_view() =~= iv.push(
                                    instrs@[instrs@.len() - 1].deep_view(),
                                ));
                            }
                        },
                        Err(e) => {
                            return Err(e);
                        },
                    }
                },
            }
        }
        k = k + 1;
    }
    match ov {
        Some(o) => Ok(
            Transaction {
                overview: o,
                token_balances: tokens,
                account_inputs: inputs,
                instructions: instrs,
            },
        ),
        None => Err(ParseError::NotFound { what: "transaction overview section".to_owned() }),
    }
}

/// Reads a transaction page from its HTML source text.
pub fn transaction_from_html(html: &str) -> (r: Result<Transaction, ParseError>)
    ensures
        rdv(r) == spec_parse_transaction(crate::dom::dom_nodes_of(html@)),
{
    let dom = crate::dom::dom_from_html(html);
    parse_transaction(&dom)
}

/// The position an item is inserted at lies inside the sequence.
pub proof fn lemma_insert_pos_bounds<T>(s: Seq<(u64, T)>, key: u64, j: int)
    requires
        0 <= j <= s.len(),
    ensures
        j <= insert_pos(s, key, j) <= s.len(),
    decreases s.len() - j,
{
    if j < s.len() && !(s[j].0 > key) {
        lemma_insert_pos_bounds(s, key, j + 1);
    }
}

/// Sorting keeps the number of items.
pub proof fn lemma_sort_keyed_len<T>(items: Seq<(u64, T)>, k: int)
    ensures
        sort_keyed(items, k).len() == (if k <= 0 {
            0int
        } else {
            k
        }),
    decreases k,
{
    if k > 0 {
        lemma_sort_keyed_len(items, k - 1);
        lemma_insert_pos_bounds(sort_keyed(items, k - 1), items[k - 1].0, 0);
    }
}

/// Keys never decrease along the sequence.
pub open spec fn keys_sorted<T>(s: Seq<(u64, T)>) -> bool {
    forall|i: int, j: int| 0 <= i <= j < s.len() ==> #[trigger] s[i].0 <= #[trigger] s[j].0
}

/// Everything before the insertion position has a key at most `key`, and the
/// element at the position, if any, a strictly greater one.
pub proof fn lemma_insert_pos_prefix<T>(s: Seq<(u64, T)>, key: u64, j: int)
    requires
        0 <= j <= s.len(),
    ensures
        forall|i: int| j <= i < insert_pos(s, key, j) ==> #[trigger] s[i].0 <= key,
        insert_pos(s, key, j) < s.len() ==> s[insert_pos(s, key, j)].0 > key,
    decreases s.len() - j,
{
    if j < s.len() && !(s[j].0 > key) {
        lemma_insert_pos_prefix(s, key, j + 1);
    }
}

/// Inserting at the insertion position keeps the keys sorted.
pub proof fn lemma_sorted_insert<T>(s: Seq<(u64, T)>, x: (u64, T))
    requires
        keys_sorted(s),
    ensures
        keys_sorted(s.insert(insert_pos(s, x.0, 0), x)),
{
    let p = insert_pos(s, x.0, 0);
    lemma_insert_pos_bounds(s, x.0, 0);
    lemma_insert_pos_prefix(s, x.0, 0);
    s.insert_ensures(p, x);
    let t = s.insert(p, x);
    assert forall|i: int, j: int| 0 <= i <= j < t.len() implies #[trigger] t[i].0 <= #[trigger] t[
        j
    ].0 by {
        if i < p {
            assert(t[i] == s[i]);
        } else if i == p {
            assert(t[i] == x);
        } else {
            assert(t[i] == s[i - 1]);
        }
        if j < p {
            assert(t[j] == s[j]);
        } else if j == p {
            assert(t[j] == x);
        } else {
            assert(t[j] == s[j - 1]);
        }
        if i < p && j == p {
            assert(s[i].0 <= x.0);
        } else if i == p && j > p {
            assert(p <= j - 1 < s.len());
            assert(s[p].0 > x.0);
            assert(s[p].0 <= s[j - 1].0);
        }
    }
}

/// The sort leaves the keys in nondecreasing order.
pub proof fn lemma_sort_keyed_sorted<T>(items: Seq<(u64, T)>, k: int)
    ensures
        keys_sorted(sort_keyed(items, k)),
    decreases k,
{
    if k <= 0 {
        assert(sort_keyed(items, k) =~= Seq::<(u64, T)>::empty());
    } else {
        lemma_sort_keyed_sorted(items, k - 1);
        lemma_sorted_insert(sort_keyed(items, k - 1), items[k - 1]);
    }
}

/// Inserting anywhere adds exactly that element to the multiset.
pub proof fn lemma_insert_multiset<T>(s: Seq<T>, p: int, x: T)
    requires
        0 <= p <= s.len(),
    ensures
        s.insert(p, x).to_multiset() == s.to_multiset().insert(x),
{
    broadcast use vstd::seq_lib::group_to_multiset_ensures;

    let a = s.subrange(0, p);
    let b = s.subrange(p, s.len() as int);
    vstd::seq_lib::lemma_multiset_commutative(a.push(x), b);
    vstd::seq_lib::lemma_multiset_commutative(a, b);
    assert(a + b =~= s);
    assert(s.insert(p, x).to_multiset() =~= s.to_multiset().insert(x));
}

/// The sort permutes the items: the multisets agree.
pub proof fn lemma_sort_keyed_multiset<T>(items: Seq<(u64, T)>, k: int)
    requires
        0 <= k <= items.len(),
    ensures
        sort_keyed(items, k).to_multiset() == items.take(k).to_multiset(),
    decreases k,
{
    broadcast use vstd::seq_lib::group_to_multiset_ensures;

    if k <= 0 {
        assert(sort_keyed(items, k) =~= Seq::<(u64, T)>::empty());
        assert(items.take(0) =~= Seq::<(u64, T)>::empty());
    } else {
        lemma_sort_keyed_multiset(items, k - 1);
        lemma_sort_keyed_len(items, k - 1);
        let pre = sort_keyed(items, k - 1);
        let x = items[k - 1];
        lemma_insert_pos_bounds(pre, x.0, 0);
        lemma_insert_multiset(pre, insert_pos(pre, x.0, 0), x);
        assert(items.take(k) =~= items.take(k - 1).push(x));
    }
}

/// Every item of the sorted sequence is an item of the input.
pub proof fn lemma_sort_keyed_elems<T>(items: Seq<(u64, T)>, k: int)
    requires
        0 <= k <= items.len(),
    ensures
        forall|i: int|
            0 <= i < sort_keyed(items, k).len() ==> items.contains(
                #[trigger] sort_keyed(items, k)[i],
            ),
    decreases k,
{
    if k > 0 {
        lemma_sort_keyed_elems(items, k - 1);
        lemma_sort_keyed_len(items, k - 1);
        let pre = sort_keyed(items, k - 1);
        let x = items[k - 1];
        let p = insert_pos(pre, x.0, 0);
        lemma_insert_pos_bounds(pre, x.0, 0);
        pre.insert_ensures(p, x);
        let t = sort_keyed(items, k);
        assert forall|i: int| 0 <= i < t.len() implies items.contains(#[trigger] t[i]) by {
            if i < p {
                assert(t[i] == pre[i]);
            } else if i == p {
                assert(t[i] == items[k - 1]);
            } else {
                assert(t[i] == pre[i - 1]);
            }
        }
    }
}

/// Every item of the input ends up in the sorted sequence.
pub proof fn lemma_sort_keyed_elems_rev<T>(items: Seq<(u64, T)>, k: int)
    requires
        0 <= k <= items.len(),
    ensures
        forall|y: int| 0 <= y < k ==> sort_keyed(items, k).contains(#[trigger] items[y]),
    decreases k,
{
    if k > 0 {
        lemma_sort_keyed_elems_rev(items, k - 1);
        lemma_sort_keyed_len(items, k - 1);
        let pre = sort_keyed(items, k - 1);
        let x = items[k - 1];
        let p = insert_pos(pre, x.0, 0);
        lemma_insert_pos_bounds(pre, x.0, 0);
        pre.insert_ensures(p, x);
        let t = sort_keyed(items, k);
        assert forall|y: int| 0 <= y < k implies t.contains(#[trigger] items[y]) by {
            if y == k - 1 {
                assert(t[p] == items[y]);
            } else {
                let i = choose|i: int| 0 <= i < pre.len() && pre[i] == items[y];
                if i < p {
                    assert(t[i] == items[y]);
                } else {
                    assert(t[i + 1] == items[y]);
                }
            }
        }
    }
}

/// The keyed walk decorates each pair with its own label's ordinal, in
/// order.
pub proof fn lemma_keyed_shape(
    s: Seq<(Seq<char>, IxAccountContextV)>,
    k: int,
    acc: Seq<(u64, (Seq<char>, IxAccountContextV))>,
    keyed: Seq<(u64, (Seq<char>, IxAccountContextV))>,
)
    requires
        0 <= k <= s.len(),
        spec_keyed_from(s, k, acc) == Ok::<_, ParseErrorV>(keyed),
        acc.len() == k,
        forall|y: int| 0 <= y < k ==> #[trigger] acc[y].1 == s[y] && spec_ordinal(s[y].0) == Some(
            acc[y].0,
        ),
    ensures
        keyed.len() == s.len(),
        forall|y: int| 0 <= y < s.len() ==> #[trigger] keyed[y].1 == s[y] && spec_ordinal(s[y].0)
            == Some(keyed[y].0),
    decreases s.len() - k,
{
    if k < s.len() {
        match spec_ordinal(s[k].0) {
            Some(n) => {
                let acc2 = acc.push((n, s[k]));
                assert forall|y: int|
                    0 <= y < k + 1 implies #[trigger] acc2[y].1 == s[y] && spec_ordinal(s[y].0)
                    == Some(acc2[y].0) by {
                    if y < k {
                        assert(acc2[y] == acc[y]);
                    } else {
                        assert(acc2[y] == (n, s[k]));
                    }
                }
                assert(acc2.len() == k + 1);
                assert(spec_keyed_from(s, k + 1, acc2) == Ok::<_, ParseErrorV>(keyed));
                assert(forall|y: int|
                    0 <= y < k + 1 ==> #[trigger] acc2[y].1 == s[y] && spec_ordinal(s[y].0)
                        == Some(acc2[y].0));
                lemma_keyed_shape(s, k + 1, acc2, keyed);
            },
            None => {},
        }
    }
}

/// What sorting promises (the ordering law): when every label carries an
/// ordinal, the result is a permutation of the input whose ordinals never
/// decrease — "Account #1" before "Account #2" before "Account #3",
/// whatever the input order.
pub proof fn lemma_sort_accounts_ordered(s: Seq<(Seq<char>, IxAccountContextV)>)
    ensures
        (spec_sort_accounts(s) matches Ok(v) ==> {
            &&& v.len() == s.len()
            &&& (forall|i: int, j: int|
                0 <= i <= j < v.len() ==> (#[trigger] spec_ordinal(v[i].0)) is Some && (
                #[trigger] spec_ordinal(v[j].0)) is Some && spec_ordinal(v[i].0).unwrap()
                    <= spec_ordinal(v[j].0).unwrap())
            &&& (forall|e: (Seq<char>, IxAccountContextV)| #[trigger] v.contains(e) ==> s.contains(e))
            &&& (forall|y: int| 0 <= y < s.len() ==> v.contains(#[trigger] s[y]))
        }),
{
    broadcast use vstd::seq_lib::group_to_multiset_ensures;

    if spec_sort_accounts(s) is Ok {
        let keyed = spec_keyed_from(s, 0, Seq::empty())->Ok_0;
        lemma_keyed_shape(s, 0, Seq::empty(), keyed);
        let n = keyed.len() as int;
        let sorted = sort_keyed(keyed, n);
        lemma_sort_keyed_len(keyed, n);
        lemma_sort_keyed_sorted(keyed, n);
        lemma_sort_keyed_multiset(keyed, n);
        assert(keyed.take(n) =~= keyed);
        let v = spec_sort_accounts(s)->Ok_0;
        assert(v == sorted.map_values(|p: (u64, (Seq<char>, IxAccountContextV))| p.1));
        lemma_sort_keyed_elems(keyed, n);
        assert forall|i: int| 0 <= i < n implies spec_ordinal(#[trigger] sorted[i].1.0) == Some(
            sorted[i].0,
        ) && keyed.contains(sorted[i]) by {
            assert(keyed.contains(sorted[i]));
            let y = choose|y: int| 0 <= y < keyed.len() && keyed[y] == sorted[i];
            assert(spec_ordinal(keyed[y].1.0) == Some(keyed[y].0));
        }
        assert forall|i: int, j: int|
            0 <= i <= j < v.len() implies (#[trigger] spec_ordinal(v[i].0)) is Some && (
        #[trigger] spec_ordinal(v[j].0)) is Some && spec_ordinal(v[i].0).unwrap() <= spec_ordinal(
            v[j].0,
        ).unwrap() by {
            assert(v[i] == sorted[i].1);
            assert(v[j] == sorted[j].1);
            assert(sorted[i].0 <= sorted[j].0);
        }
        assert forall|e: (Seq<char>, IxAccountContextV)| #[trigger] v.contains(e) implies s.contains(
            e,
        ) by {
            let i = choose|i: int| 0 <= i < v.len() && v[i] == e;
            assert(v[i] == sorted[i].1);
            assert(keyed.contains(sorted[i]));
            let y = choose|y: int| 0 <= y < keyed.len() && keyed[y] == sorted[i];
            assert(keyed[y].1 == s[y]);
            assert(s[y] == e);
        }
        lemma_sort_keyed_elems_rev(keyed, n);
        assert forall|y: int| 0 <= y < s.len() implies v.contains(#[trigger] s[y]) by {
            assert(sorted.contains(keyed[y]));
            let i = choose|i: int| 0 <= i < sorted.len() && sorted[i] == keyed[y];
            assert(v[i] == sorted[i].1);
            assert(v[i] == s[y]);
            assert(v.contains(v[i]));
        }
    }
}

// --- The Overview parser ----------------------------------------------------

/// What the fixed nine-row Overview card parses to, row-index-bound selectors
/// and all; slot is separator-stripped, the timestamp normalized, the fee an
/// exact decimal.
pub open spec fn spec_parse_overview(d: Seq<DomNodeV>, card: usize) -> Result<
    TxOverviewV,
    ParseErrorV,
> {
    let rows = find_nodes(d, Some(card), sel_list_tr());
    if rows.len() < 9 {
        Err(ParseErrorV::NotFound { what: "overview rows: .list tr"@ })
    } else {
        let sig = first_text(d, rows[0], sel_class("font-monospace"@));
        let res = first_text(d, rows[1], sel_class("bg-success-soft"@));
        let ts = first_text(d, rows[2], sel_class("font-monospace"@));
        let cst = first_text(d, rows[3], sel_class("text-lg-end"@));
        let cnf = first_text(d, rows[4], sel_class("text-lg-end"@));
        let slt = first_text(d, rows[5], sel_tag("a"@));
        let rbh = first_text(d, rows[6], sel_class("text-lg-end"@));
        let fee = first_text(d, rows[7], sel_class("font-monospace"@));
        let ver = first_text(d, rows[8], sel_class("text-lg-end"@));
        if sig is None {
            Err(ParseErrorV::NotFound { what: "overview signature: .font-monospace"@ })
        } else if res is None {
            Err(ParseErrorV::NotFound { what: "overview result: .bg-success-soft"@ })
        } else if ts is None {
            Err(ParseErrorV::NotFound { what: "overview timestamp: .font-monospace"@ })
        } else if cst is None {
            Err(ParseErrorV::NotFound { what: "overview confirmation status: .text-lg-end"@ })
        } else if cnf is None {
            Err(ParseErrorV::NotFound { what: "overview confirmations: .text-lg-end"@ })
        } else if slt is None {
            Err(ParseErrorV::NotFound { what: "overview slot: a"@ })
        } else if rbh is None {
            Err(ParseErrorV::NotFound { what: "overview recent blockhash: .text-lg-end"@ })
        } else if fee is None {
            Err(ParseErrorV::NotFound { what: "overview fee: .font-monospace"@ })
        } else if ver is None {
            Err(ParseErrorV::NotFound { what: "overview transaction version: .text-lg-end"@ })
        } else {
            let slot = spec_parse_u64(strip_commas(slt.unwrap()));
            let feev = spec_parse_decimal(fee.unwrap());
            if slot is None {
                Err(ParseErrorV::UnexpectedFormat { what: "overview slot: integer"@ })
            } else if feev is None {
                Err(ParseErrorV::UnexpectedFormat { what: "overview fee: decimal"@ })
            } else {
                Ok(
                    TxOverviewV {
                        signature: sig.unwrap(),
                        result: res.unwrap(),
                        timestamp: crate::text::normalize_time(ts.unwrap()),
                        confirmation_status: cst.unwrap(),
                        confirmations: cnf.unwrap(),
                        slot: slot.unwrap(),
                        recent_blockhash: rbh.unwrap(),
                        fee: feev.unwrap(),
                        transaction_version: ver.unwrap(),
                    },
                )
            }
        }
    }
}

/// Reads the Overview card: nine fixed rows, each through its own selector.
pub fn parse_overview(dom: &Dom, card: usize) -> (r: Result<TxOverview, ParseError>)
    ensures
        rdv(r) == spec_parse_overview(dom@, card),
{
    let p_rows = path_list_tr();
    let p_mono = path_class("font-monospace");
    let p_ok = path_class("bg-success-soft");
    let p_end = path_class("text-lg-end");
    let p_a = path_tag("a");
    let rows = dom.find_in(Some(card), &p_rows);
    if rows.len() < 9 {
        return Err(ParseError::NotFound { what: "overview rows: .list tr".to_owned() });
    }
    let sig = match dom.text_first(rows[0], &p_mono) {
        Some(t) => t,
        None => {
            return Err(
                ParseError::NotFound { what: "overview signature: .font-monospace".to_owned() },
            );
        },
    };
    let res = match dom.text_first(rows[1], &p_ok) {
        Some(t) => t,
        None => {
            return Err(
                ParseError::NotFound { what: "overview result: .bg-success-soft".to_owned() },
            );
        },
    };
    let ts = match dom.text_first(rows[2], &p_mono) {
        Some(t) => t,
        None => {
            return Err(
                ParseError::NotFound { what: "overview timestamp: .font-monospace".to_owned() },
            );
        },
    };
    let cst = match dom.text_first(rows[3], &p_end) {
        Some(t) => t,
        None => {
            return Err(
                ParseError::NotFound {
                    what: "overview confirmation status: .text-lg-end".to_owned(),
                },
            );
        },
    };
    let cnf = match dom.text_first(rows[4], &p_end) {
        Some(t) => t,
        None => {
            return Err(
                ParseError::NotFound { what: "overview confirmations: .text-lg-end".to_owned() },
            );
        },
    };
    let slt = match dom.text_first(rows[5], &p_a) {
        Some(t) => t,
        None => {
            return Err(ParseError::NotFound { what: "overview slot: a".to_owned() });
        },
    };
    let rbh = match dom.text_first(rows[6], &p_end) {
        Some(t) => t,
        None => {
            return Err(
                ParseError::NotFound {
                    what: "overview recent blockhash: .text-lg-end".to_owned(),
                },
            );
        },
    };
    let fee = match dom.text_first(rows[7], &p_mono) {
        Some(t) => t,
        None => {
            return Err(ParseError::NotFound { what: "overview fee: .font-monospace".to_owned() });
        },
    };
    let ver = match dom.text_first(rows[8], &p_end) {
        Some(t) => t,
        None => {
            return Err(
                ParseError::NotFound {
                    what: "overview transaction version: .text-lg-end".to_owned(),
                },
            );
        },
    };
    let slot_digits = strip_commas_vec(&slt);
    let slot = match parse_u64(&slot_digits) {
        Some(v) => v,
        None => {
            return Err(ParseError::UnexpectedFormat { what: "overview slot: integer".to_owned() });
        },
    };
    let feev = match parse_decimal(&fee) {
        Some(v) => v,
        None => {
            return Err(ParseError::UnexpectedFormat { what: "overview fee: decimal".to_owned() });
        },
    };
    let tsn = crate::text::normalize_time_vec(&ts);
    let o = TxOverview {
        signature: chars_string(&sig),
        result: chars_string(&res),
        timestamp: chars_string(&tsn),
        confirmation_status: chars_string(&cst),
        confirmations: chars_string(&cnf),
        slot,
        recent_blockhash: chars_string(&rbh),
        fee: feev,
        transaction_version: chars_string(&ver),
    };
    Ok(o)
}

// --- The Account-Input parser -----------------------------------------------

/// The normalized texts of the listed nodes, first `k` of them.
pub open spec fn node_texts(d: Seq<DomNodeV>, ns: Seq<usize>, k: int) -> Seq<Seq<char>>
    decreases k,
{
    if k <= 0 {
        Seq::empty()
    } else {
        node_texts(d, ns, k - 1).push(text_of(d, ns[k - 1] as int))
    }
}

/// Duplicates dropped, first occurrence of each item kept, first `k` items.
pub open spec fn dedup_upto(s: Seq<Seq<char>>, k: int) -> Seq<Seq<char>>
    decreases k,
{
    if k <= 0 {
        Seq::empty()
    } else {
        let pre = dedup_upto(s, k - 1);
        if pre.contains(s[k - 1]) {
            pre
        } else {
            pre.push(s[k - 1])
        }
    }
}

/// The magnitude with the badge glyph's sign applied: `+` and `0` keep the
/// magnitude as it is, any other glyph negates it.
pub open spec fn signed_delta(g: char, m: Decimal) -> Decimal {
    Decimal {
        neg: if g == '+' || g == '0' {
            m.neg
        } else {
            !m.neg
        },
        mantissa: m.mantissa,
        scale: m.scale,
    }
}

/// The sign rule: a `+` or `0` badge glyph leaves the magnitude untouched,
/// any other glyph flips its sign; the digits never change.
pub proof fn lemma_sign_rule(g: char, m: Decimal)
    ensures
        (g == '+' || g == '0') ==> signed_delta(g, m) == m,
        !(g == '+' || g == '0') ==> signed_delta(g, m) == (Decimal {
            neg: !m.neg,
            mantissa: m.mantissa,
            scale: m.scale,
        }),
{
}

/// What one Account-Input row parses to: the ordinal cell is skipped, the
/// address is the second cell's first anchor, the signed delta combines the
/// badge glyph with the monospace magnitude (a literal zero when absent),
/// the post balance is the first token separator-stripped, and the attribute
/// badges form a set, "Program" added when the address text carries it.
pub open spec fn spec_input_row(d: Seq<DomNodeV>, row: usize) -> Result<
    TxAccountInputV,
    ParseErrorV,
> {
    let cells = children_of(d, row as int);
    if cells.len() < 5 {
        Err(ParseErrorV::NotFound { what: "account input row: cells"@ })
    } else {
        let address = first_text(d, cells[1], sel_tag("a"@));
        if address is None {
            Err(ParseErrorV::NotFound { what: "account input address: a"@ })
        } else {
            let sign = first_text(d, cells[2], sel_class("badge"@));
            if sign is None {
                Err(ParseErrorV::NotFound { what: "account input change sign: .badge"@ })
            } else if sign.unwrap().len() == 0 {
                Err(ParseErrorV::UnexpectedFormat { what: "account input change sign: empty"@ })
            } else {
                let mag_txt = match first_text(d, cells[2], sel_class("font-monospace"@)) {
                    Some(t) => t,
                    None => "0"@,
                };
                let mag = spec_parse_decimal(mag_txt);
                if mag is None {
                    Err(ParseErrorV::UnexpectedFormat { what: "account input change: decimal"@ })
                } else {
                    let post_txt = first_text(d, cells[3], sel_class("font-monospace"@));
                    if post_txt is None {
                        Err(
                            ParseErrorV::NotFound {
                                what: "account input post balance: .font-monospace"@,
                            },
                        )
                    } else {
                        let post = spec_parse_decimal(
                            strip_commas(first_token(post_txt.unwrap())),
                        );
                        if post is None {
                            Err(
                                ParseErrorV::UnexpectedFormat {
                                    what: "account input post balance: decimal"@,
                                },
                            )
                        } else {
                            let badges = find_nodes(d, Some(cells[4]), sel_class("me-1"@));
                            let base = dedup_upto(
                                node_texts(d, badges, badges.len() as int),
                                badges.len() as int,
                            );
                            let addr = address.unwrap();
                            let attrs = if contains_word(addr, "Program"@) && !base.contains(
                                "Program"@,
                            ) {
                                base.push("Program"@)
                            } else {
                                base
                            };
                            Ok(
                                TxAccountInputV {
                                    address: addr,
                                    attributes: attrs,
                                    sol_change: signed_delta(sign.unwrap()[0], mag.unwrap()),
                                    post_balance: post.unwrap(),
                                },
                            )
                        }
                    }
                }
            }
        }
    }
}

/// The Account-Input rows from position `k` on, appended to `acc`.
pub open spec fn spec_inputs_from(
    d: Seq<DomNodeV>,
    rows: Seq<usize>,
    k: int,
    acc: Seq<TxAccountInputV>,
) -> Result<Seq<TxAccountInputV>, ParseErrorV>
    decreases rows.len() - k,
{
    if k < 0 || k >= rows.len() {
        Ok(acc)
    } else {
        match spec_input_row(d, rows[k]) {
            Ok(v) => spec_inputs_from(d, rows, k + 1, acc.push(v)),
            Err(e) => Err(e),
        }
    }
}

/// What the whole Account-Input card parses to: its rows in page order; no
/// rows give the empty sequence, not an error.
pub open spec fn spec_parse_account_inputs(d: Seq<DomNodeV>, card: usize) -> Result<
    Seq<TxAccountInputV>,
    ParseErrorV,
> {
    spec_inputs_from(d, find_nodes(d, Some(card), sel_list_tr()), 0, Seq::empty())
}

/// The listed texts: one per node, in order.
pub proof fn lemma_node_texts(d: Seq<DomNodeV>, ns: Seq<usize>, k: int)
    ensures
        node_texts(d, ns, k).len() == (if k <= 0 {
            0int
        } else {
            k
        }),
        forall|x: int| 0 <= x < k ==> node_texts(d, ns, k)[x] == text_of(d, #[trigger] ns[x] as int),
    decreases k,
{
    if k > 0 {
        lemma_node_texts(d, ns, k - 1);
    }
}

/// A card with no Account-Input rows parses to the empty sequence, never an
/// error.
pub proof fn lemma_no_input_rows_is_empty(d: Seq<DomNodeV>, card: usize)
    requires
        find_nodes(d, Some(card), sel_list_tr()).len() == 0,
    ensures
        spec_parse_account_inputs(d, card) == Ok::<Seq<TxAccountInputV>, ParseErrorV>(
            Seq::empty(),
        ),
{
}

/// Whether `s` occurs among the strings of `v`.
fn contains_string(v: &Vec<String>, s: &String) -> (r: bool)
    ensures
        r == v.deep_view().contains(s@),
{
    let mut x: usize = 0;
    while x < v.len()
        invariant
            x <= v@.len(),
            forall|y: int| 0 <= y < x ==> v.deep_view()[y] != s@,
        decreases v@.len() - x,
    {
        proof {
            assert(v.deep_view()[x as int] == v@[x as int]@);
        }
        if v[x] == *s {
            proof {
                assert(v.deep_view().contains(s@));
            }
            return true;
        }
        x = x + 1;
    }
    proof {
        if v.deep_view().contains(s@) {
            let y = choose|y: int|
                0 <= y < v.deep_view().len() && v.deep_view()[y] == s@;
            assert(false);
        }
    }
    false
}

fn parse_input_row(dom: &Dom, row: usize) -> (r: Result<TxAccountInput, ParseError>)
    ensures
        rdv(r) == spec_input_row(dom@, row),
{
    let cells = dom.children(row);
    if cells.len() < 5 {
        return Err(ParseError::NotFound { what: "account input row: cells".to_owned() });
    }
    let p_a = path_tag("a");
    let p_badge = path_class("badge");
    let p_mono = path_class("font-monospace");
    let p_me1 = path_class("me-1");
    let address = match dom.text_first(cells[1], &p_a) {
        Some(t) => t,
        None => {
            return Err(ParseError::NotFound { what: "account input address: a".to_owned() });
        },
    };
    let sign = match dom.text_first(cells[2], &p_badge) {
        Some(t) => t,
        None => {
            return Err(
                ParseError::NotFound { what: "account input change sign: .badge".to_owned() },
            );
        },
    };
    if sign.len() == 0 {
        return Err(
            ParseError::UnexpectedFormat { what: "account input change sign: empty".to_owned() },
        );
    }
    let mag_txt = match dom.text_first(cells[2], &p_mono) {
        Some(t) => t,
        None => str_chars("0"),
    };
    let mag = match parse_decimal(&mag_txt) {
        Some(v) => v,
        None => {
            return Err(
                ParseError::UnexpectedFormat { what: "account input change: decimal".to_owned() },
            );
        },
    };
    let post_txt = match dom.text_first(cells[3], &p_mono) {
        Some(t) => t,
        None => {
            return Err(
                ParseError::NotFound {
                    what: "account input post balance: .font-monospace".to_owned(),
                },
            );
        },
    };
    let post_tok = first_token_vec(&post_txt);
    let post_digits = strip_commas_vec(&post_tok);
    let post = match parse_decimal(&post_digits) {
        Some(v) => v,
        None => {
            return Err(
                ParseError::UnexpectedFormat {
                    what: "account input post balance: decimal".to_owned(),
                },
            );
        },
    };
    let badges = dom.find_in(Some(cells[4]), &p_me1);
    let ghost texts = node_texts(dom@, badges@, badges@.len() as int);
    proof {
        lemma_node_texts(dom@, badges@, badges@.len() as int);
    }
    let mut attrs: Vec<String> = Vec::new();
    let mut j: usize = 0;
    while j < badges.len()
        invariant
            j <= badges@.len(),
            texts == node_texts(dom@, badges@, badges@.len() as int),
            texts.len() == badges@.len(),
            forall|x: int|
                0 <= x < badges@.len() ==> node_texts(dom@, badges@, badges@.len() as int)[x]
                    == text_of(dom@, #[trigger] badges@[x] as int),
            attrs.deep_view() == dedup_upto(texts, j as int),
        decreases badges@.len() - j,
    {
        let t = dom.text(badges[j]);
        let ts = chars_string(&t);
        let seen = contains_string(&attrs, &ts);
        proof {
            assert(texts[j as int] == text_of(dom@, badges@[j as int] as int));
            assert(ts@ == texts[j as int]);
        }
        if !seen {
            attrs.push(ts);
            proof {
                assert(attrs.deep_view() =~= dedup_upto(texts, j as int).push(texts[j as int]));
            }
        }
        j = j + 1;
    }
    let prog = str_chars("Program");
    proof {
        reveal_strlit("Program");
    }
    let has_prog_word = contains_word_vec(&address, &prog);
    let prog_string = chars_string(&prog);
    let have_attr = contains_string(&attrs, &prog_string);
    let ghost base = attrs.deep_view();
    if has_prog_word && !have_attr {
        attrs.push(prog_string);
        proof {
            assert(attrs.deep_view() =~= base.push("Program"@));
        }
    }
    let g = sign[0];
    let neg = if g == '+' || g == '0' {
        mag.neg
    } else {
        !mag.neg
    };
    let delta = Decimal { neg, mantissa: mag.mantissa, scale: mag.scale };
    Ok(
        TxAccountInput {
            address: chars_string(&address),
            attributes: attrs,
            sol_change: delta,
            post_balance: post,
        },
    )
}

/// Reads every row of the Account Input(s) card, in page order.
pub fn parse_account_inputs(dom: &Dom, card: usize) -> (r: Result<Vec<TxAccountInput>, ParseError>)
    ensures
        rdv(r) == spec_parse_account_inputs(dom@, card),
{
    let p_rows = path_list_tr();
    let rows = dom.find_in(Some(card), &p_rows);
    let mut acc: Vec<TxAccountInput> = Vec::new();
    proof {
        assert(acc.deep_view() =~= Seq::<TxAccountInputV>::empty());
    }
    let mut k: usize = 0;
    while k < rows.len()
        invariant
            k <= rows@.len(),
            spec_parse_account_inputs(dom@, card) == spec_inputs_from(
                dom@,
                rows@,
                k as int,
                acc.deep_view(),
            ),
        decreases rows@.len() - k,
    {
        let ghost accv = acc.deep_view();
        match parse_input_row(dom, rows[k]) {
            Ok(v) => {
                acc.push(v);
                k = k + 1;
                proof {
                    assert(acc.deep_view() =~= accv.push(acc@[acc@.len() - 1].deep_view()));
                }
            },
            Err(e) => {
                return Err(e);
            },
        }
    }
    Ok(acc)
}

// --- The Token-Balance parser -----------------------------------------------

/// What one Token-Balance row parses to: first anchor of the first cell as
/// address, the second cell's anchor as name and absolute URL, the third
/// cell's first child as exact decimal change, the fourth cell's raw text.
pub open spec fn spec_token_row(d: Seq<DomNodeV>, row: usize) -> Result<
    TokenAccountInfoV,
    ParseErrorV,
> {
    let cells = children_of(d, row as int);
    if cells.len() < 4 {
        Err(ParseErrorV::NotFound { what: "token balance row: cells"@ })
    } else {
        let address = first_text(d, cells[0], sel_tag("a"@));
        if address is None {
            Err(ParseErrorV::NotFound { what: "token balance address: a"@ })
        } else {
            match first_node(d, Some(cells[1]), sel_tag("a"@)) {
                None => Err(ParseErrorV::NotFound { what: "token balance token: a"@ }),
                Some(tok) => {
                    let url = node_attr(d, tok as int, "href"@);
                    if url is None {
                        Err(ParseErrorV::MissingAttribute { what: "token balance url: href"@ })
                    } else {
                        let kids = children_of(d, cells[2] as int);
                        if kids.len() < 1 {
                            Err(
                                ParseErrorV::NotFound {
                                    what: "token balance change: first child"@,
                                },
                            )
                        } else {
                            let change = spec_parse_decimal(text_of(d, kids[0] as int));
                            if change is None {
                                Err(
                                    ParseErrorV::UnexpectedFormat {
                                        what: "token balance change: decimal"@,
                                    },
                                )
                            } else {
                                Ok(
                                    TokenAccountInfoV {
                                        address: address.unwrap(),
                                        token_name: text_of(d, tok as int),
                                        token_url: spec_normalize_url(url.unwrap()),
                                        change: change.unwrap(),
                                        post_balance: text_of(d, cells[3] as int),
                                    },
                                )
                            }
                        }
                    }
                }
            }
        }
    }
}

pub open spec fn spec_tokens_from(
    d: Seq<DomNodeV>,
    rows: Seq<usize>,
    k: int,
    acc: Seq<TokenAccountInfoV>,
) -> Result<Seq<TokenAccountInfoV>, ParseErrorV>
    decreases rows.len() - k,
{
    if k < 0 || k >= rows.len() {
        Ok(acc)
    } else {
        match spec_token_row(d, rows[k]) {
            Ok(v) => spec_tokens_from(d, rows, k + 1, acc.push(v)),
            Err(e) => Err(e),
        }
    }
}

/// What the whole Token-Balances card parses to: its rows in page order.
pub open spec fn spec_parse_token_balances(d: Seq<DomNodeV>, card: usize) -> Result<
    Seq<TokenAccountInfoV>,
    ParseErrorV,
> {
    spec_tokens_from(d, find_nodes(d, Some(card), sel_list_tr()), 0, Seq::empty())
}

fn parse_token_row(dom: &Dom, row: usize) -> (r: Result<TokenAccountInfo, ParseError>)
    ensures
        rdv(r) == spec_token_row(dom@, row),
{
    let cells = dom.children(row);
    if cells.len() < 4 {
        return Err(ParseError::NotFound { what: "token balance row: cells".to_owned() });
    }
    let p_a = path_tag("a");
    let address = match dom.text_first(cells[0], &p_a) {
        Some(t) => t,
        None => {
            return Err(ParseError::NotFound { what: "token balance address: a".to_owned() });
        },
    };
    let tok = match dom.find_first(Some(cells[1]), &p_a) {
        Some(n) => n,
        None => {
            return Err(ParseError::NotFound { what: "token balance token: a".to_owned() });
        },
    };
    let href = str_chars("href");
    let url = match dom.attr(tok, &href) {
        Some(u) => u,
        None => {
            return Err(
                ParseError::MissingAttribute { what: "token balance url: href".to_owned() },
            );
        },
    };
    let kids = dom.children(cells[2]);
    if kids.len() < 1 {
        return Err(ParseError::NotFound { what: "token balance change: first child".to_owned() });
    }
    let change_txt = dom.text(kids[0]);
    let change = match parse_decimal(&change_txt) {
        Some(v) => v,
        None => {
            return Err(
                ParseError::UnexpectedFormat { what: "token balance change: decimal".to_owned() },
            );
        },
    };
    let name = dom.text(tok);
    let post = dom.text(cells[3]);
    Ok(
        TokenAccountInfo {
            address: chars_string(&address),
            token_name: chars_string(&name),
            token_url: normalize_url(url.as_str()),
            change,
            post_balance: chars_string(&post),
        },
    )
}

// --- The Instruction parser -------------------------------------------------

/// The normalized texts of the listed nodes, concatenated.
pub open spec fn concat_texts(d: Seq<DomNodeV>, ns: Seq<usize>, k: int) -> Seq<char>
    decreases k,
{
    if k <= 0 {
        Seq::empty()
    } else {
        concat_texts(d, ns, k - 1) + text_of(d, ns[k - 1] as int)
    }
}

/// Whether the first two whitespace-delimited words of `t` are exactly
/// "Instruction Data"; on normalized text that is a prefix check plus a
/// boundary check.
pub open spec fn is_ix_data_label(t: Seq<char>) -> bool {
    is_prefix("Instruction Data"@, t) && (t.len() == "Instruction Data"@.len() || t[
        "Instruction Data"@.len() as int
    ] == ' ')
}

fn ix_data_label(t: &Vec<char>) -> (r: bool)
    ensures
        r == is_ix_data_label(t@),
{
    let p = str_chars("Instruction Data");
    if has_prefix(t, &p) {
        t.len() == p.len() || t[p.len()] == ' '
    } else {
        false
    }
}

/// The map with `key` bound to `val`: an existing binding is overwritten in
/// place, a new one appended, so keys stay unique and in first-appearance
/// order.
pub open spec fn upsert(
    m: Seq<(Seq<char>, Seq<char>)>,
    key: Seq<char>,
    val: Seq<char>,
    j: int,
) -> Seq<(Seq<char>, Seq<char>)>
    decreases m.len() - j,
{
    if 0 <= j < m.len() {
        if m[j].0 == key {
            m.update(j, (key, val))
        } else {
            upsert(m, key, val, j + 1)
        }
    } else {
        m.push((key, val))
    }
}

fn upsert_pair(m: &mut Vec<(String, String)>, key: String, val: String)
    ensures
        final(m).deep_view() == upsert(old(m).deep_view(), key@, val@, 0),
{
    let ghost dv = old(m).deep_view();
    let mut j: usize = 0;
    while j < m.len()
        invariant
            j <= m@.len(),
            m@ == old(m)@,
            dv == old(m).deep_view(),
            upsert(dv, key@, val@, 0) == upsert(dv, key@, val@, j as int),
        decreases m@.len() - j,
    {
        proof {
            assert(dv[j as int] == (m@[j as int].0@, m@[j as int].1@));
        }
        if m[j].0 == key {
            let ghost jv = j as int;
            m.set(j, (key, val));
            proof {
                assert(m.deep_view() =~= dv.update(jv, (key@, val@)));
                assert(upsert(dv, key@, val@, jv) == dv.update(jv, (key@, val@)));
            }
            return ;
        }
        j = j + 1;
    }
    m.push((key, val));
    proof {
        assert(m.deep_view() =~= dv.push((key@, val@)));
    }
}

/// One step of the instruction row walk, from row `k` on, with the accounts
/// and scalar fields collected so far: the terminal "Instruction Data" row
/// ends the walk with the first half of the de-duplicated hex payload; an
/// anchor row appends a labelled account; any other row stores a scalar
/// field.
pub open spec fn spec_ix_rows(
    d: Seq<DomNodeV>,
    rows: Seq<usize>,
    k: int,
    accounts: Seq<(Seq<char>, IxAccountContextV)>,
    info: Seq<(Seq<char>, Seq<char>)>,
) -> Result<
    (Seq<(Seq<char>, IxAccountContextV)>, Seq<(Seq<char>, Seq<char>)>, Option<Seq<char>>),
    ParseErrorV,
>
    decreases rows.len() - k,
{
    if k < 0 || k >= rows.len() {
        Ok((accounts, info, None))
    } else {
        let row = rows[k];
        let cells = children_of(d, row as int);
        if cells.len() < 1 {
            Err(ParseErrorV::NotFound { what: "instruction row: cells"@ })
        } else {
            let head = text_of(d, cells[0] as int);
            if is_ix_data_label(head) {
                let spans = find_nodes(d, Some(row), sel_spans());
                let payload = strip_blank(concat_texts(d, spans, spans.len() as int));
                if payload.len() % 2 == 1 {
                    Err(
                        ParseErrorV::UnexpectedFormat {
                            what: "instruction data: odd payload length"@,
                        },
                    )
                } else {
                    Ok(
                        (
                            accounts,
                            info,
                            Some(payload.subrange(0, payload.len() as int / 2)),
                        ),
                    )
                }
            } else {
                let label = match first_text(d, cells[0], sel_class("me-2"@)) {
                    Some(t) => t,
                    None => head,
                };
                match first_node(d, Some(row), sel_tag("a"@)) {
                    Some(anode) => {
                        let badges = find_nodes(d, Some(row), sel_class("badge"@));
                        let batts = node_texts(d, badges, badges.len() as int);
                        let ctx = IxAccountContextV {
                            address: text_of(d, anode as int),
                            attributes: if batts.len() == 0 {
                                None
                            } else {
                                Some(batts)
                            },
                        };
                        spec_ix_rows(d, rows, k + 1, accounts.push((label, ctx)), info)
                    },
                    None => {
                        match first_text(d, row, sel_class("font-monospace"@)) {
                            Some(value) => spec_ix_rows(
                                d,
                                rows,
                                k + 1,
                                accounts,
                                upsert(info, label, value, 0),
                            ),
                            None => Err(
                                ParseErrorV::NotFound {
                                    what: "instruction field value: .font-monospace"@,
                                },
                            ),
                        }
                    },
                }
            }
        }
    }
}

/// What an instruction card parses to: header text, program anchor, the row
/// walk, and the ordinal sort applied exactly when the first account label
/// carries "Account #".
pub open spec fn spec_parse_instruction(d: Seq<DomNodeV>, card: usize) -> Result<
    InstructionV,
    ParseErrorV,
> {
    let desc = first_text(d, card, sel_class("card-header-title"@));
    if desc is None {
        Err(ParseErrorV::NotFound { what: "instruction description: .card-header-title"@ })
    } else {
        let rows = find_nodes(d, Some(card), sel_list_tr());
        if rows.len() < 1 {
            Err(ParseErrorV::NotFound { what: "instruction program row: .list tr"@ })
        } else {
            let prog = first_text(d, rows[0], sel_tag("a"@));
            if prog is None {
                Err(ParseErrorV::NotFound { what: "instruction program: a"@ })
            } else {
                match spec_ix_rows(d, rows, 1, Seq::empty(), Seq::empty()) {
                    Err(e) => Err(e),
                    Ok((accounts, info, hex)) => {
                        if accounts.len() > 0 && contains_sub(accounts[0].0, "Account #"@) {
                            match spec_sort_accounts(accounts) {
                                Ok(sorted) => Ok(
                                    InstructionV {
                                        description: desc.unwrap(),
                                        program: prog.unwrap(),
                                        accounts: sorted,
                                        additional_info: info,
                                        hex,
                                    },
                                ),
                                Err(e) => Err(e),
                            }
                        } else {
                            Ok(
                                InstructionV {
                                    description: desc.unwrap(),
                                    program: prog.unwrap(),
                                    accounts,
                                    additional_info: info,
                                    hex,
                                },
                            )
                        }
                    },
                }
            }
        }
    }
}

/// An instruction whose walk found no account pairs skips the ordinal sort
/// and still succeeds.
pub proof fn lemma_no_accounts_skips_sort(
    d: Seq<DomNodeV>,
    card: usize,
    info: Seq<(Seq<char>, Seq<char>)>,
    hex: Option<Seq<char>>,
)
    requires
        first_text(d, card, sel_class("card-header-title"@)) is Some,
        find_nodes(d, Some(card), sel_list_tr()).len() >= 1,
        first_text(d, find_nodes(d, Some(card), sel_list_tr())[0], sel_tag("a"@)) is Some,
        spec_ix_rows(d, find_nodes(d, Some(card), sel_list_tr()), 1, Seq::empty(), Seq::empty())
            == Ok::<
            (Seq<(Seq<char>, IxAccountContextV)>, Seq<(Seq<char>, Seq<char>)>, Option<Seq<char>>),
            ParseErrorV,
        >((Seq::empty(), info, hex)),
    ensures
        spec_parse_instruction(d, card) matches Ok(ix) && ix.accounts == Seq::<
            (Seq<char>, IxAccountContextV),
        >::empty(),
{
}

/// Reads one instruction card.
pub fn parse_instruction(dom: &Dom, card: usize) -> (r: Result<Instruction, ParseError>)
    ensures
        rdv(r) == spec_parse_instruction(dom@, card),
{
    let p_title = path_class("card-header-title");
    let description = match dom.text_first(card, &p_title) {
        Some(t) => t,
        None => {
            return Err(
                ParseError::NotFound {
                    what: "instruction description: .card-header-title".to_owned(),
                },
            );
        },
    };
    let p_rows = path_list_tr();
    let rows = dom.find_in(Some(card), &p_rows);
    if rows.len() < 1 {
        return Err(ParseError::NotFound { what: "instruction program row: .list tr".to_owned() });
    }
    let p_a = path_tag("a");
    let program = match dom.text_first(rows[0], &p_a) {
        Some(t) => t,
        None => {
            return Err(ParseError::NotFound { what: "instruction program: a".to_owned() });
        },
    };
    let p_me2 = path_class("me-2");
    let p_badge = path_class("badge");
    let p_mono = path_class("font-monospace");
    let p_sp = path_spans();
    let mut accounts: Vec<(String, IxAccountContext)> = Vec::new();
    let mut info: Vec<(String, String)> = Vec::new();
    let mut hex: Option<String> = None;
    let mut halted = false;
    proof {
        assert(accounts.deep_view() =~= Seq::<(Seq<char>, IxAccountContextV)>::empty());
        assert(info.deep_view() =~= Seq::<(Seq<char>, Seq<char>)>::empty());
    }
    let mut k: usize = 1;
    while k < rows.len() && !halted
        invariant
            1 <= k <= rows@.len(),
            rows@ == find_nodes(dom@, Some(card), sel_list_tr()),
            rows@.len() >= 1,
            first_text(dom@, card, sel_class("card-header-title"@)) == Some(description@),
            first_text(dom@, rows@[0], sel_tag("a"@)) == Some(program@),
            tests_v(p_me2@) == sel_class("me-2"@),
            tests_v(p_badge@) == sel_class("badge"@),
            tests_v(p_mono@) == sel_class("font-monospace"@),
            tests_v(p_sp@) == sel_spans(),
            tests_v(p_a@) == sel_tag("a"@),
            !halted ==> hex is None && spec_ix_rows(dom@, rows@, 1, Seq::empty(), Seq::empty())
                == spec_ix_rows(dom@, rows@, k as int, accounts.deep_view(), info.deep_view()),
            halted ==> spec_ix_rows(dom@, rows@, 1, Seq::empty(), Seq::empty()) == Ok::<
                (
                    Seq<(Seq<char>, IxAccountContextV)>,
                    Seq<(Seq<char>, Seq<char>)>,
                    Option<Seq<char>>,
                ),
                ParseErrorV,
            >((accounts.deep_view(), info.deep_view(), hex.deep_view())),
        decreases rows@.len() - k + (if halted {
            0int
        } else {
            1int
        }),
    {
        let row = rows[k];
        let cells = dom.children(row);
        if cells.len() < 1 {
            proof {
                assert(spec_parse_instruction(dom@, card) == Err::<InstructionV, ParseErrorV>(
                    ParseErrorV::NotFound { what: "instruction row: cells"@ },
                ));
            }
            return Err(ParseError::NotFound { what: "instruction row: cells".to_owned() });
        }
        let head = dom.text(cells[0]);
        if ix_data_label(&head) {
            let spans = dom.find_in(Some(row), &p_sp);
            let mut data: Vec<char> = Vec::new();
            proof {
                assert(data@ =~= concat_texts(dom@, spans@, 0));
            }
            let mut j: usize = 0;
            while j < spans.len()
                invariant
                    j <= spans@.len(),
                    data@ == concat_texts(dom@, spans@, j as int),
                decreases spans@.len() - j,
            {
                let mut chunk = dom.text(spans[j]);
                data.append(&mut chunk);
                j = j + 1;
            }
            let payload = strip_blank_vec(&data);
            if payload.len() % 2 == 1 {
                proof {
                    assert(spec_parse_instruction(dom@, card) == Err::<InstructionV, ParseErrorV>(
                        ParseErrorV::UnexpectedFormat {
                            what: "instruction data: odd payload length"@,
                        },
                    ));
                }
                return Err(
                    ParseError::UnexpectedFormat {
                        what: "instruction data: odd payload length".to_owned(),
                    },
                );
            }
            let mid = payload.len() / 2;
            let half = crate::text::sub_vec(&payload, 0, mid);
            hex = Some(chars_string(&half));
            halted = true;
        } else {
            let label = match dom.text_first(cells[0], &p_me2) {
                Some(t) => t,
                None => head,
            };
            match dom.find_first(Some(row), &p_a) {
                Some(anode) => {
                    let addr = dom.text(anode);
                    let bnodes = dom.find_in(Some(row), &p_badge);
                    let mut batts: Vec<String> = Vec::new();
                    proof {
                        assert(batts.deep_view() =~= node_texts(dom@, bnodes@, 0));
                    }
                    let mut b: usize = 0;
                    while b < bnodes.len()
                        invariant
                            b <= bnodes@.len(),
                            batts.deep_view() == node_texts(dom@, bnodes@, b as int),
                            batts@.len() == b,
                        decreases bnodes@.len() - b,
                    {
                        let ghost bv = batts.deep_view();
                        let t = dom.text(bnodes[b]);
                        batts.push(chars_string(&t));
                        b = b + 1;
                        proof {
                            assert(batts.deep_view() =~= bv.push(
                                text_of(dom@, bnodes@[b - 1] as int),
                            ));
                        }
                    }
                    let attributes = if batts.len() == 0 {
                        None
                    } else {
                        Some(batts)
                    };
                    let ctx = IxAccountContext { address: chars_string(&addr), attributes };
                    let ghost accv = accounts.deep_view();
                    accounts.push((chars_string(&label), ctx));
                    k = k + 1;
                    proof {
                        assert(accounts.deep_view() =~= accv.push(
                            accounts@[accounts@.len() - 1].deep_view(),
                        ));
                    }
                },
                None => {
                    let value = match dom.text_first(row, &p_mono) {
                        Some(t) => t,
                        None => {
                            proof {
                                assert(spec_parse_instruction(dom@, card) == Err::<
                                    InstructionV,
                                    ParseErrorV,
                                >(
                                    ParseErrorV::NotFound {
                                        what: "instruction field value: .font-monospace"@,
                                    },
                                ));
                            }
                            return Err(
                                ParseError::NotFound {
                                    what: "instruction field value: .font-monospace".to_owned(),
                                },
                            );
                        },
                    };
                    upsert_pair(&mut info, chars_string(&label), chars_string(&value));
                    k = k + 1;
                },
            }
        }
    }
    let ghost accv = accounts.deep_view();
    let ghost infov = info.deep_view();
    proof {
        assert(spec_ix_rows(dom@, rows@, 1, Seq::empty(), Seq::empty()) == Ok::<
            (Seq<(Seq<char>, IxAccountContextV)>, Seq<(Seq<char>, Seq<char>)>, Option<Seq<char>>),
            ParseErrorV,
        >((accv, infov, hex.deep_view())));
    }
    let do_sort = if accounts.len() > 0 {
        let l0 = str_chars(accounts[0].0.as_str());
        let pat = str_chars("Account #");
        proof {
            reveal_strlit("Account #");
            assert(accounts@[0].deep_view() == accv[0]);
        }
        contains_sub_vec(&l0, &pat)
    } else {
        false
    };
    let sorted = if do_sort {
        match sort_accounts(accounts) {
            Ok(s) => s,
            Err(e) => {
                return Err(e);
            },
        }
    } else {
        accounts
    };
    Ok(
        Instruction {
            description: chars_string(&description),
            program: chars_string(&program),
            accounts: sorted,
            additional_info: info,
            hex,
        },
    )
}

/// Reads every row of the Token Balances card, in page order.
pub fn parse_token_balances(dom: &Dom, card: usize) -> (r: Result<
    Vec<TokenAccountInfo>,
    ParseError,
>)
    ensures
        rdv(r) == spec_parse_token_balances(dom@, card),
{
    let p_rows = path_list_tr();
    let rows = dom.find_in(Some(card), &p_rows);
    let mut acc: Vec<TokenAccountInfo> = Vec::new();
    proof {
        assert(acc.deep_view() =~= Seq::<TokenAccountInfoV>::empty());
    }
    let mut k: usize = 0;
    while k < rows.len()
        invariant
            k <= rows@.len(),
            spec_parse_token_balances(dom@, card) == spec_tokens_from(
                dom@,
                rows@,
                k as int,
                acc.deep_view(),
            ),
        decreases rows@.len() - k,
    {
        let ghost accv = acc.deep_view();
        match parse_token_row(dom, rows[k]) {
            Ok(v) => {
                acc.push(v);
                k = k + 1;
                proof {
                    assert(acc.deep_view() =~= accv.push(acc@[acc@.len() - 1].deep_view()));
                }
            },
            Err(e) => {
                return Err(e);
            },
        }
    }
    Ok(acc)
}

} // verus!
