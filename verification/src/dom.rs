use vstd::prelude::*;
use crate::text::{contains_word, str_chars, seq_eq_str, normalize_ws, norm_ws};

verus! {

/// The payload of one document node.
#[derive(Debug, Clone, PartialEq, Eq)]
pub enum NodeData {
    /// An element: its tag name and its attributes in document order.
    Element { tag: String, attrs: Vec<(String, String)> },
    /// A text node.
    TextNode { content: String },
    /// A comment or any other node the extractors ignore.
    Inert,
}

/// The mathematical value of a [`NodeData`].
#[verifier::ext_equal]
pub enum NodeDataV {
    Element { tag: Seq<char>, attrs: Seq<(Seq<char>, Seq<char>)> },
    TextNode { content: Seq<char> },
    Inert,
}

pub open spec fn attr_pair_view(p: (String, String)) -> (Seq<char>, Seq<char>) {
    (p.0@, p.1@)
}

impl View for NodeData {
    type V = NodeDataV;

    open spec fn view(&self) -> NodeDataV {
        match self {
            NodeData::Element { tag, attrs } => NodeDataV::Element {
                tag: tag@,
                attrs: attrs@.map_values(|p: (String, String)| attr_pair_view(p)),
            },
            NodeData::TextNode { content } => NodeDataV::TextNode { content: content@ },
            NodeData::Inert => NodeDataV::Inert,
        }
    }
}

/// One node of a document: the index of its parent, which is always smaller
/// than the node's own index, and its payload.
#[derive(Debug, Clone, PartialEq, Eq)]
pub struct DomNode {
    pub parent: Option<usize>,
    pub data: NodeData,
}

#[verifier::ext_equal]
pub struct DomNodeV {
    pub parent: Option<usize>,
    pub data: NodeDataV,
}

impl View for DomNode {
    type V = DomNodeV;

    open spec fn view(&self) -> DomNodeV {
        DomNodeV { parent: self.parent, data: self.data@ }
    }
}

/// An immutable snapshot of a rendered page: nodes in document (pre-)order,
/// children standing after their parents, each node naming its parent by
/// index. Index order is document order.
#[derive(Debug, Clone, PartialEq, Eq)]
pub struct Dom {
    pub nodes: Vec<DomNode>,
}

impl View for Dom {
    type V = Seq<DomNodeV>;

    open spec fn view(&self) -> Seq<DomNodeV> {
        self.nodes@.map_values(|n: DomNode| n@)
    }
}

/// The parent index of `j`, kept only when it is smaller than `j` so every
/// walk toward the root terminates.
pub open spec fn gparent(d: Seq<DomNodeV>, j: int) -> Option<usize> {
    if 0 <= j < d.len() {
        match d[j].parent {
            Some(q) => if (q as int) < j {
                Some(q)
            } else {
                None
            },
            None => None,
        }
    } else {
        None
    }
}

/// Whether `a` is a proper ancestor of `j`.
pub open spec fn is_anc(d: Seq<DomNodeV>, a: int, j: int) -> bool
    decreases j,
{
    match gparent(d, j) {
        Some(p) => (p as int) == a || is_anc(d, a, p as int),
        None => false,
    }
}

/// First match in the attribute list at or after position `j`.
pub open spec fn attr_from(
    attrs: Seq<(Seq<char>, Seq<char>)>,
    name: Seq<char>,
    j: int,
) -> Option<Seq<char>>
    decreases attrs.len() - j,
{
    if 0 <= j < attrs.len() {
        if attrs[j].0 == name {
            Some(attrs[j].1)
        } else {
            attr_from(attrs, name, j + 1)
        }
    } else {
        None
    }
}

/// The value of attribute `name` on node `i`: its first binding, and only on
/// element nodes.
pub open spec fn node_attr(d: Seq<DomNodeV>, i: int, name: Seq<char>) -> Option<Seq<char>> {
    if 0 <= i < d.len() {
        match d[i].data {
            NodeDataV::Element { attrs, .. } => attr_from(attrs, name, 0),
            _ => None,
        }
    } else {
        None
    }
}

/// Whether node `i` carries the nonempty `c` as one whitespace-delimited
/// word of its `class` attribute.
pub open spec fn has_class(d: Seq<DomNodeV>, i: int, c: Seq<char>) -> bool {
    c.len() >= 1 && match node_attr(d, i, "class"@) {
        Some(v) => contains_word(v, c),
        None => false,
    }
}

/// The text-node contents under `root` (itself included), concatenated in
/// document order, from index `k` on.
pub open spec fn gather_text(d: Seq<DomNodeV>, root: int, k: int) -> Seq<char>
    decreases d.len() - k,
{
    if !(0 <= k < d.len()) {
        Seq::empty()
    } else {
        (if k == root || is_anc(d, root, k) {
            match d[k].data {
                NodeDataV::TextNode { content } => content,
                _ => Seq::empty(),
            }
        } else {
            Seq::empty()
        }) + gather_text(d, root, k + 1)
    }
}

/// The combined text of a node: its text-node descendants in document order,
/// whitespace-normalized.
pub open spec fn text_of(d: Seq<DomNodeV>, root: int) -> Seq<char> {
    norm_ws(gather_text(d, root, root))
}

/// One step of a selector: by tag name or by `class` word.
#[derive(Debug, Clone, PartialEq, Eq)]
pub enum NodeTest {
    ByTag(String),
    ByClass(String),
}

/// The mathematical value of a [`NodeTest`].
#[verifier::ext_equal]
pub enum NodeTestV {
    Tag(Seq<char>),
    ClassWord(Seq<char>),
}

impl View for NodeTest {
    type V = NodeTestV;

    open spec fn view(&self) -> NodeTestV {
        match self {
            NodeTest::ByTag(s) => NodeTestV::Tag(s@),
            NodeTest::ByClass(c) => NodeTestV::ClassWord(c@),
        }
    }
}

/// A selector path seen through the views of its steps.
pub open spec fn tests_v(path: Seq<NodeTest>) -> Seq<NodeTestV> {
    path.map_values(|t: NodeTest| t@)
}

/// Whether node `i` satisfies one selector step.
pub open spec fn test_matches(d: Seq<DomNodeV>, i: int, t: NodeTestV) -> bool {
    if 0 <= i < d.len() {
        match t {
            NodeTestV::Tag(s) => match d[i].data {
                NodeDataV::Element { tag, .. } => tag == s,
                _ => false,
            },
            NodeTestV::ClassWord(c) => has_class(d, i, c),
        }
    } else {
        false
    }
}

/// A measure for walks up the parent chain: strictly decreases with each
/// guarded parent step.
pub open spec fn opt_rank(p: Option<usize>) -> int {
    match p {
        Some(x) => x as int + 1,
        None => 0,
    }
}

/// Whether, walking from node `p` up the parent chain, the first `m` steps of
/// `path` can all be matched in order, innermost step last.
pub open spec fn up_match(d: Seq<DomNodeV>, p: Option<usize>, path: Seq<NodeTestV>, m: int) -> bool
    decreases opt_rank(p), m,
{
    if m <= 0 {
        true
    } else {
        match p {
            Some(pi) => {
                let prev = gparent(d, pi as int);
                (test_matches(d, pi as int, path[m - 1]) && up_match(d, prev, path, m - 1))
                    || up_match(d, prev, path, m)
            },
            None => false,
        }
    }
}

/// Whether node `j` matches the innermost step of `path` and has ancestors
/// matching the outer steps, outermost first.
pub open spec fn path_match(d: Seq<DomNodeV>, j: int, path: Seq<NodeTestV>) -> bool {
    path.len() >= 1 && 0 <= j < d.len() && test_matches(d, j, path[path.len() - 1]) && up_match(
        d,
        gparent(d, j),
        path,
        path.len() - 1,
    )
}

/// Whether `j` is inside the search scope: everywhere for a whole-document
/// search, a proper descendant of the root for a scoped one.
pub open spec fn in_scope(d: Seq<DomNodeV>, root: Option<usize>, j: int) -> bool {
    match root {
        None => true,
        Some(r) => is_anc(d, r as int, j),
    }
}

/// The nodes among the first `k` that are in scope and match `path`, in
/// document order.
pub open spec fn find_upto(
    d: Seq<DomNodeV>,
    root: Option<usize>,
    path: Seq<NodeTestV>,
    k: int,
) -> Seq<usize>
    decreases k,
{
    if k <= 0 {
        Seq::empty()
    } else {
        find_upto(d, root, path, k - 1) + if in_scope(d, root, k - 1) && path_match(
            d,
            k - 1,
            path,
        ) {
            seq![(k - 1) as usize]
        } else {
            Seq::empty()
        }
    }
}

/// All nodes in scope matching `path`, in document order.
pub open spec fn find_nodes(d: Seq<DomNodeV>, root: Option<usize>, path: Seq<NodeTestV>) -> Seq<
    usize,
> {
    find_upto(d, root, path, d.len() as int)
}

/// The first node in scope matching `path`, in document order.
pub open spec fn first_node(d: Seq<DomNodeV>, root: Option<usize>, path: Seq<NodeTestV>) -> Option<
    usize,
> {
    let f = find_nodes(d, root, path);
    if f.len() > 0 {
        Some(f[0])
    } else {
        None
    }
}

/// The children of `i` among the first `k` nodes, in document order.
pub open spec fn children_upto(d: Seq<DomNodeV>, i: int, k: int) -> Seq<usize>
    decreases k,
{
    if k <= 0 {
        Seq::empty()
    } else {
        children_upto(d, i, k - 1) + if gparent(d, k - 1) == Some(i as usize) && 0 <= i {
            seq![(k - 1) as usize]
        } else {
            Seq::empty()
        }
    }
}

/// The children of node `i`, in document order.
pub open spec fn children_of(d: Seq<DomNodeV>, i: int) -> Seq<usize> {
    children_upto(d, i, d.len() as int)
}

impl Dom {
    pub open spec fn spec_len(&self) -> usize {
        self.nodes@.len() as usize
    }

    #[verifier::when_used_as_spec(spec_len)]
    pub fn len(&self) -> (n: usize)
        ensures
            n == self@.len(),
    {
        self.nodes.len()
    }

    /// Whether `a` is a proper ancestor of `j`.
    pub fn is_ancestor(&self, a: usize, j: usize) -> (r: bool)
        ensures
            r == is_anc(self@, a as int, j as int),
        decreases j,
    {
        if j >= self.nodes.len() {
            false
        } else {
            match self.nodes[j].parent {
                Some(p) => p < j && (p == a || self.is_ancestor(a, p)),
                None => false,
            }
        }
    }

    pub fn guarded_parent(&self, j: usize) -> (r: Option<usize>)
        ensures
            r == gparent(self@, j as int),
    {
        if j >= self.nodes.len() {
            None
        } else {
            match self.nodes[j].parent {
                Some(p) => if p < j {
                    Some(p)
                } else {
                    None
                },
                None => None,
            }
        }
    }

    /// The value of attribute `name` on node `i`, if `i` is an element that
    /// carries it.
    pub fn attr(&self, i: usize, name: &Vec<char>) -> (r: Option<String>)
        ensures
            crate::err::opt_v(r) == node_attr(self@, i as int, name@),
    {
        if i >= self.nodes.len() {
            return None;
        }
        match &self.nodes[i].data {
            NodeData::Element { attrs, .. } => {
                let ghost av = (match self@[i as int].data {
                    NodeDataV::Element { attrs: a2, .. } => a2,
                    _ => Seq::empty(),
                });
                let mut j: usize = 0;
                while j < attrs.len()
                    invariant
                        j <= attrs@.len(),
                        av == attrs@.map_values(|p: (String, String)| attr_pair_view(p)),
                        node_attr(self@, i as int, name@) == attr_from(av, name@, 0),
                        attr_from(av, name@, 0) == attr_from(av, name@, j as int),
                    decreases attrs@.len() - j,
                {
                    if seq_eq_str(name, attrs[j].0.as_str()) {
                        proof {
                            assert(av[j as int] == attr_pair_view(attrs@[j as int]));
                            assert(av[j as int].0 == name@);
                            assert(attr_from(av, name@, j as int) == Some(av[j as int].1));
                        }
                        return Some(attrs[j].1.clone());
                    }
                    j = j + 1;
                }
                None
            },
            _ => None,
        }
    }

    /// Whether node `i` carries `c` as a word of its `class` attribute.
    pub fn node_has_class(&self, i: usize, c: &Vec<char>) -> (r: bool)
        requires
            c@.len() >= 1,
        ensures
            r == has_class(self@, i as int, c@),
    {
        let cls = str_chars("class");
        match self.attr(i, &cls) {
            Some(v) => {
                let vc = str_chars(v.as_str());
                crate::text::contains_word_vec(&vc, c)
            },
            None => false,
        }
    }

    fn test_node(&self, i: usize, t: &NodeTest) -> (r: bool)
        ensures
            r == test_matches(self@, i as int, t@),
    {
        if i >= self.nodes.len() {
            return false;
        }
        match t {
            NodeTest::ByTag(s) => {
                match &self.nodes[i].data {
                    NodeData::Element { tag, .. } => {
                        let tv = str_chars(tag.as_str());
                        seq_eq_str(&tv, s.as_str())
                    },
                    _ => false,
                }
            },
            NodeTest::ByClass(c) => {
                let cw = str_chars(c.as_str());
                if cw.len() == 0 {
                    false
                } else {
                    self.node_has_class(i, &cw)
                }
            },
        }
    }

    fn up_match_steps(&self, p: Option<usize>, path: &Vec<NodeTest>, m: usize) -> (r: bool)
        requires
            m <= path@.len(),
        ensures
            r == up_match(self@, p, tests_v(path@), m as int),
        decreases opt_rank(p), m,
    {
        if m == 0 {
            true
        } else {
            match p {
                Some(pi) => {
                    let prev = self.guarded_parent(pi);
                    proof {
                        assert(opt_rank(prev) <= pi as int);
                        assert(tests_v(path@)[m - 1] == path@[m - 1]@);
                    }
                    let hit = self.test_node(pi, &path[m - 1]) && self.up_match_steps(
                        prev,
                        path,
                        m - 1,
                    );
                    if hit {
                        true
                    } else {
                        self.up_match_steps(prev, path, m)
                    }
                },
                None => false,
            }
        }
    }

    /// Whether node `j` matches `path`: the innermost step at `j` itself,
    /// the outer steps on ancestors in order.
    pub fn matches_path(&self, j: usize, path: &Vec<NodeTest>) -> (r: bool)
        ensures
            r == path_match(self@, j as int, tests_v(path@)),
    {
        if path.len() == 0 || j >= self.nodes.len() {
            return false;
        }
        proof {
            assert(tests_v(path@)[path@.len() - 1] == path@[path@.len() - 1]@);
        }
        if !self.test_node(j, &path[path.len() - 1]) {
            return false;
        }
        let prev = self.guarded_parent(j);
        self.up_match_steps(prev, path, path.len() - 1)
    }

    /// Every node inside `root` (or the whole document) matching `path`, in
    /// document order.
    pub fn find_in(&self, root: Option<usize>, path: &Vec<NodeTest>) -> (r: Vec<usize>)
        ensures
            r@ == find_nodes(self@, root, tests_v(path@)),
    {
        let mut r: Vec<usize> = Vec::new();
        let mut k: usize = 0;
        while k < self.nodes.len()
            invariant
                k <= self@.len(),
                r@ == find_upto(self@, root, tests_v(path@), k as int),
            decreases self@.len() - k,
        {
            let scoped = match root {
                None => true,
                Some(rt) => self.is_ancestor(rt, k),
            };
            if scoped && self.matches_path(k, path) {
                r.push(k);
            }
            k = k + 1;
            proof {
                assert(r@ =~= find_upto(self@, root, tests_v(path@), k as int));
            }
        }
        r
    }

    /// The first node inside `root` matching `path`, in document order.
    pub fn find_first(&self, root: Option<usize>, path: &Vec<NodeTest>) -> (r: Option<usize>)
        ensures
            r == first_node(self@, root, tests_v(path@)),
    {
        let all = self.find_in(root, path);
        if all.len() > 0 {
            Some(all[0])
        } else {
            None
        }
    }

    /// The children of node `i`, in document order.
    pub fn children(&self, i: usize) -> (r: Vec<usize>)
        ensures
            r@ == children_of(self@, i as int),
    {
        let mut r: Vec<usize> = Vec::new();
        let mut k: usize = 0;
        while k < self.nodes.len()
            invariant
                k <= self@.len(),
                r@ == children_upto(self@, i as int, k as int),
            decreases self@.len() - k,
        {
            let gp = self.guarded_parent(k);
            if let Some(q) = gp {
                if q == i {
                    r.push(k);
                }
            }
            k = k + 1;
            proof {
                assert(r@ =~= children_upto(self@, i as int, k as int));
            }
        }
        r
    }

    /// The concatenated text of `root`'s text descendants, normalized.
    pub fn text(&self, root: usize) -> (r: Vec<char>)
        ensures
            r@ == text_of(self@, root as int),
    {
        let mut raw: Vec<char> = Vec::new();
        proof {
            assert(Seq::<char>::empty() + gather_text(self@, root as int, root as int)
                =~= gather_text(self@, root as int, root as int));
        }
        let mut k: usize = root;
        while k < self.nodes.len()
            invariant
                root <= k,
                gather_text(self@, root as int, root as int) == raw@ + gather_text(
                    self@,
                    root as int,
                    k as int,
                ),
            decreases self@.len() - k,
        {
            let ghost raw_old = raw@;
            let ghost k_old = k as int;
            let in_tree = k == root || self.is_ancestor(root, k);
            if in_tree {
                match &self.nodes[k].data {
                    NodeData::TextNode { content } => {
                        let mut chunk = str_chars(content.as_str());
                        raw.append(&mut chunk);
                    },
                    _ => {},
                }
            }
            k = k + 1;
            proof {
                assert(raw@ + gather_text(self@, root as int, k as int) =~= raw_old + gather_text(
                    self@,
                    root as int,
                    k_old,
                ));
            }
        }
        proof {
            assert(raw@ + gather_text(self@, root as int, k as int) =~= raw@);
        }
        normalize_ws(&raw)
    }
}

/// The normalized text of the first node under `root` matching `path`.
pub open spec fn first_text(d: Seq<DomNodeV>, root: usize, path: Seq<NodeTestV>) -> Option<
    Seq<char>,
> {
    match first_node(d, Some(root), path) {
        Some(n) => Some(text_of(d, n as int)),
        None => None,
    }
}

impl Dom {
    /// The normalized text of the first node under `root` matching `path`.
    pub fn text_first(&self, root: usize, path: &Vec<NodeTest>) -> (r: Option<Vec<char>>)
        ensures
            crate::err::opt_v(r) == first_text(self@, root, tests_v(path@)),
    {
        match self.find_first(Some(root), path) {
            Some(n) => Some(self.text(n)),
            None => None,
        }
    }
}

/// A selector step matching elements whose `class` attribute carries `s`.
pub fn by_class(s: &str) -> (t: NodeTest)
    ensures
        t@ == NodeTestV::ClassWord(s@),
{
    NodeTest::ByClass(s.to_owned())
}

/// A selector step matching elements with tag name `s`.
pub fn by_tag(s: &str) -> (t: NodeTest)
    ensures
        t@ == NodeTestV::Tag(s@),
{
    NodeTest::ByTag(s.to_owned())
}

// --- Bringing a page snapshot in through the `select` HTML parser ---------

#[verifier::external_type_specification]
#[verifier::external_body]
pub struct ExDocument(select::document::Document);

/// What a `select` document's node table holds, node by node, as the values
/// this library's [`Dom`] stores for them.
pub uninterp spec fn doc_nodes(doc: select::document::Document) -> Seq<DomNodeV>;

/// What `select`'s HTML parse of given source text holds; the parse is a
/// function of the source text alone.
pub uninterp spec fn dom_nodes_of(html: Seq<char>) -> Seq<DomNodeV>;

/// Relies on `select::document::Document::from(&str)`: parses HTML into a
/// table of nodes in document pre-order, each holding its parent's index.
#[verifier::external_body]
fn parse_document(html: &str) -> (doc: select::document::Document)
    ensures
        doc_nodes(doc) == dom_nodes_of(html@),
{
    select::document::Document::from(html)
}

/// Relies on `Document::nodes`: how many nodes the document holds.
#[verifier::external_body]
fn doc_len(doc: &select::document::Document) -> (n: usize)
    ensures
        n == doc_nodes(*doc).len(),
{
    doc.nodes.len()
}

/// Relies on `select::node::Raw::parent`: the parent index of node `i`.
#[verifier::external_body]
fn doc_parent(doc: &select::document::Document, i: usize) -> (r: Option<usize>)
    requires
        i < doc_nodes(*doc).len(),
    ensures
        r == doc_nodes(*doc)[i as int].parent,
{
    doc.nodes[i].parent
}

/// Relies on `select::node::Data`: the local tag name of an element node,
/// `None` for text and comment nodes.
#[verifier::external_body]
fn doc_tag(doc: &select::document::Document, i: usize) -> (r: Option<String>)
    requires
        i < doc_nodes(*doc).len(),
    ensures
        (match doc_nodes(*doc)[i as int].data {
            NodeDataV::Element { tag, .. } => r matches Some(s) && s@ == tag,
            _ => r is None,
        }),
{
    match &doc.nodes[i].data {
        select::node::Data::Element(name, _) => Some(name.local.to_string()),
        _ => None,
    }
}

/// Relies on `select::node::Data`: the contents of a text node, `None` for
/// element and comment nodes.
#[verifier::external_body]
fn doc_text(doc: &select::document::Document, i: usize) -> (r: Option<String>)
    requires
        i < doc_nodes(*doc).len(),
    ensures
        (match doc_nodes(*doc)[i as int].data {
            NodeDataV::TextNode { content } => r matches Some(s) && s@ == content,
            _ => r is None,
        }),
{
    match &doc.nodes[i].data {
        select::node::Data::Text(t) => Some(t.to_string()),
        _ => None,
    }
}

/// Relies on `select::node::Data`: how many attributes element `i` carries.
#[verifier::external_body]
fn doc_attr_count(doc: &select::document::Document, i: usize) -> (n: usize)
    requires
        i < doc_nodes(*doc).len(),
    ensures
        (match doc_nodes(*doc)[i as int].data {
            NodeDataV::Element { attrs, .. } => n == attrs.len(),
            _ => n == 0,
        }),
{
    match &doc.nodes[i].data {
        select::node::Data::Element(_, attrs) => attrs.len(),
        _ => 0,
    }
}

/// Relies on `select::node::Data`: the `j`th attribute of element `i`, local
/// name and value.
#[verifier::external_body]
fn doc_attr_at(doc: &select::document::Document, i: usize, j: usize) -> (r: (String, String))
    requires
        i < doc_nodes(*doc).len(),
        (match doc_nodes(*doc)[i as int].data {
            NodeDataV::Element { attrs, .. } => j < attrs.len(),
            _ => false,
        }),
    ensures
        (match doc_nodes(*doc)[i as int].data {
            NodeDataV::Element { attrs, .. } => j < attrs.len() && r.0@ == attrs[j as int].0
                && r.1@ == attrs[j as int].1,
            _ => true,
        }),
{
    if let select::node::Data::Element(_, attrs) = &doc.nodes[i].data {
        (attrs[j].0.local.to_string(), attrs[j].1.to_string())
    } else {
        (String::new(), String::new())
    }
}

/// A [`Dom`] built from HTML source text through the `select` parser: node
/// by node, parent, tag, attributes and text carried over unchanged.
pub fn dom_from_html(html: &str) -> (d: Dom)
    ensures
        d@ == dom_nodes_of(html@),
{
    let doc = parse_document(html);
    let n = doc_len(&doc);
    let mut nodes: Vec<DomNode> = Vec::new();
    let mut i: usize = 0;
    while i < n
        invariant
            i <= n,
            n == doc_nodes(doc).len(),
            nodes@.len() == i,
            forall|k: int| 0 <= k < i ==> #[trigger] nodes@[k]@ == doc_nodes(doc)[k],
        decreases n - i,
    {
        let parent = doc_parent(&doc, i);
        let ghost mav = (match doc_nodes(doc)[i as int].data {
            NodeDataV::Element { attrs: a2, .. } => a2,
            _ => Seq::empty(),
        });
        let data = match doc_tag(&doc, i) {
            Some(tag) => {
                let m = doc_attr_count(&doc, i);
                let mut attrs: Vec<(String, String)> = Vec::new();
                let mut j: usize = 0;
                while j < m
                    invariant
                        j <= m,
                        i < doc_nodes(doc).len(),
                        doc_nodes(doc)[i as int].data is Element,
                        mav == (match doc_nodes(doc)[i as int].data {
                            NodeDataV::Element { attrs: a2, .. } => a2,
                            _ => Seq::empty(),
                        }),
                        m == mav.len(),
                        attrs@.len() == j,
                        forall|x: int|
                            0 <= x < j ==> attr_pair_view(#[trigger] attrs@[x]) == mav[x],
                    decreases m - j,
                {
                    let p = doc_attr_at(&doc, i, j);
                    attrs.push(p);
                    j = j + 1;
                }
                proof {
                    assert(attrs@.map_values(|p: (String, String)| attr_pair_view(p)) =~= mav);
                }
                NodeData::Element { tag, attrs }
            },
            None => {
                match doc_text(&doc, i) {
                    Some(content) => NodeData::TextNode { content },
                    None => NodeData::Inert,
                }
            },
        };
        let node = DomNode { parent, data };
        proof {
            assert(node@ =~~= doc_nodes(doc)[i as int]);
        }
        nodes.push(node);
        i = i + 1;
    }
    let d = Dom { nodes };
    proof {
        assert(d@ =~~= doc_nodes(doc));
    }
    d
}

} // verus!
