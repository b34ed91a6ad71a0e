//! The parsed form of an HTML page as the scraping providers read it: the
//! nodes in the order the parser created them, each with its kind, parent and
//! children, and which elements a CSS selector matches. Parsing and selector
//! matching are done by the `scraper` crate; walking the tree is done here.
use vstd::prelude::*;
use std::collections::HashMap;
use scraper::{ElementRef, Html, Node, Selector};

verus! {

/// What a node is: an element (with its `href` attribute, if any), a text
/// node, or anything else (document root, comment, doctype, ...).
pub enum NodeKind {
    Element(Option<String>),
    Text(String),
    Other,
}

/// What a `NodeKind` holds, as plain sequences.
pub enum NodeKindView {
    Element(Option<Seq<char>>),
    Text(Seq<char>),
    Other,
}

/// A node of a parsed page: its kind, its parent, and its children in order,
/// all by position in `Dom::nodes`.
pub struct DomNode {
    pub kind: NodeKind,
    pub parent: Option<usize>,
    pub children: Vec<usize>,
}

/// What a `DomNode` holds, as plain values.
pub struct DomNodeView {
    pub kind: NodeKindView,
    pub parent: Option<int>,
    pub children: Seq<int>,
}

/// A parsed page: all its nodes, in the order in which the parser created
/// them (node 0 is the root).
pub struct Dom {
    pub nodes: Vec<DomNode>,
}

/// The positions held by a vector of positions.
pub open spec fn idx_view(v: Seq<usize>) -> Seq<int> {
    v.map_values(|x: usize| x as int)
}

impl View for NodeKind {
    type V = NodeKindView;

    open spec fn view(&self) -> NodeKindView {
        match self {
            NodeKind::Element(h) => NodeKindView::Element(
                match h {
                    Some(s) => Some(s@),
                    None => None,
                },
            ),
            NodeKind::Text(t) => NodeKindView::Text(t@),
            NodeKind::Other => NodeKindView::Other,
        }
    }
}

impl View for DomNode {
    type V = DomNodeView;

    open spec fn view(&self) -> DomNodeView {
        DomNodeView {
            kind: self.kind@,
            parent: match self.parent {
                Some(p) => Some(p as int),
                None => None,
            },
            children: idx_view(self.children@),
        }
    }
}

impl View for Dom {
    type V = Seq<DomNodeView>;

    open spec fn view(&self) -> Seq<DomNodeView> {
        self.nodes@.map_values(|n: DomNode| n@)
    }
}

/// The page that `scraper::Html::parse_fragment` builds from `html`, as plain values.
pub uninterp spec fn parsed_fragment(html: Seq<char>) -> Seq<DomNodeView>;

/// For each node of the page parsed from `html` (in creation order), whether
/// it is an element that the CSS selector `selector` matches; `None` when
/// `selector` does not parse.
pub uninterp spec fn selector_flags(html: Seq<char>, selector: Seq<char>) -> Option<Seq<bool>>;

/// Parses `html` with `scraper::Html::parse_fragment` and reads off every
/// node of the tree, in creation order: its kind (with the `href` of an
/// element, through `Element::attr`), its parent and its children, the
/// parser's node ids renumbered as positions. The result is the named
/// parse of `html`; what the parser builds is not spelled out here.
#[verifier::external_body]
pub(crate) fn parse_fragment(html: &str) -> (d: Dom)
    ensures
        d@ == parsed_fragment(html@),
{
    let doc = Html::parse_fragment(html);
    let pos: HashMap<_, usize> = doc.tree.nodes().enumerate().map(|(i, n)| (n.id(), i)).collect();
    let nodes = doc.tree.nodes().map(|n| DomNode {
        kind: match n.value() {
            Node::Element(e) => NodeKind::Element(e.attr("href").map(String::from)),
            Node::Text(t) => NodeKind::Text(t.to_string()),
            _ => NodeKind::Other,
        },
        parent: n.parent().map(|p| pos[&p.id()]),
        children: n.children().map(|c| pos[&c.id()]).collect(),
    }).collect();
    Dom { nodes }
}

/// Parses `html` with `scraper::Html::parse_fragment` and `selector` with
/// `scraper::Selector::parse`, and tells for each node, in creation order,
/// whether it is an element that the selector matches (`Selector::matches`).
/// The result is the named one; `None` when the selector does not parse.
#[verifier::external_body]
pub(crate) fn match_selector(html: &str, selector: &str) -> (r: Option<Vec<bool>>)
    ensures
        match r {
            Some(f) => selector_flags(html@, selector@) == Some(f@),
            None => selector_flags(html@, selector@) is None,
        },
{
    let doc = Html::parse_fragment(html);
    let sel = Selector::parse(selector).ok()?;
    Some(doc.tree.nodes().map(|n| ElementRef::wrap(n).is_some_and(|e| sel.matches(&e))).collect())
}

/// The nodes of the subtree of node `i` in document order (`i` first),
/// descending at most `fuel` levels.
pub open spec fn subtree(d: Seq<DomNodeView>, i: int, fuel: nat) -> Seq<int>
    decreases fuel, 0nat,
{
    if fuel == 0 || !(0 <= i < d.len()) {
        Seq::<int>::empty()
    } else {
        seq![i] + forest(d, d[i].children, (fuel - 1) as nat)
    }
}

/// The nodes of the subtrees of `cs`, one after the other.
pub open spec fn forest(d: Seq<DomNodeView>, cs: Seq<int>, fuel: nat) -> Seq<int>
    decreases fuel, cs.len(),
{
    if cs.len() == 0 {
        Seq::<int>::empty()
    } else {
        forest(d, cs.drop_last(), fuel) + subtree(d, cs.last(), fuel)
    }
}

/// The nodes under node `i` in document order, `i` first (no tree is deeper
/// than it has nodes).
pub open spec fn descendants(d: Seq<DomNodeView>, i: int) -> Seq<int> {
    subtree(d, i, d.len())
}

/// The nodes among `ns` that `flags` marks, in order.
pub open spec fn flagged(ns: Seq<int>, flags: Seq<bool>) -> Seq<int>
    decreases ns.len(),
{
    if ns.len() == 0 {
        Seq::<int>::empty()
    } else {
        let r = flagged(ns.drop_last(), flags);
        let n = ns.last();
        if 0 <= n < flags.len() && flags[n] {
            r.push(n)
        } else {
            r
        }
    }
}

/// The elements among the first `n` nodes that `flags` marks and that have
/// a parent, in creation order.
pub open spec fn select_page_upto(d: Seq<DomNodeView>, flags: Seq<bool>, n: nat) -> Seq<int>
    decreases n,
{
    if n == 0 {
        Seq::<int>::empty()
    } else {
        let r = select_page_upto(d, flags, (n - 1) as nat);
        let k = n - 1;
        if k < flags.len() && flags[k] && k < d.len() && d[k].parent is Some {
            r.push(k)
        } else {
            r
        }
    }
}

/// The elements of the whole page that `flags` marks, in creation order,
/// as `Html::select` yields them (it passes over nodes detached from the tree).
pub open spec fn select_page(d: Seq<DomNodeView>, flags: Seq<bool>) -> Seq<int> {
    select_page_upto(d, flags, d.len())
}

/// The elements strictly under node `scope` that `flags` marks, in document
/// order. With flags that `selector_flags` gives for a selector, this is
/// what `ElementRef::select` yields only when the selector has no `:scope`:
/// the flags are matched against the whole page, where `:scope` stands for
/// the root rather than for `scope`. No selector of this crate uses it.
pub open spec fn select_under(d: Seq<DomNodeView>, scope: int, flags: Seq<bool>) -> Seq<int> {
    let ds = descendants(d, scope);
    if ds.len() == 0 {
        Seq::<int>::empty()
    } else {
        flagged(ds.drop_first(), flags)
    }
}

/// The texts of the text nodes among `ns`, in order.
pub open spec fn texts_of(d: Seq<DomNodeView>, ns: Seq<int>) -> Seq<Seq<char>>
    decreases ns.len(),
{
    if ns.len() == 0 {
        Seq::<Seq<char>>::empty()
    } else {
        let r = texts_of(d, ns.drop_last());
        let n = ns.last();
        if 0 <= n < d.len() && d[n].kind is Text {
            r.push(d[n].kind->Text_0)
        } else {
            r
        }
    }
}

/// The texts under node `i`, in document order, as `ElementRef::text` yields them.
pub open spec fn element_texts(d: Seq<DomNodeView>, i: int) -> Seq<Seq<char>> {
    texts_of(d, descendants(d, i))
}

/// The concatenation of `ts`.
pub open spec fn concat(ts: Seq<Seq<char>>) -> Seq<char>
    decreases ts.len(),
{
    if ts.len() == 0 {
        Seq::<char>::empty()
    } else {
        concat(ts.drop_last()) + ts.last()
    }
}

/// Whether node `n` is an element.
pub open spec fn is_element(d: Seq<DomNodeView>, n: int) -> bool {
    0 <= n < d.len() && d[n].kind is Element
}

/// The elements among `ns`, in order.
pub open spec fn elements_of(d: Seq<DomNodeView>, ns: Seq<int>) -> Seq<int>
    decreases ns.len(),
{
    if ns.len() == 0 {
        Seq::<int>::empty()
    } else {
        let r = elements_of(d, ns.drop_last());
        if is_element(d, ns.last()) {
            r.push(ns.last())
        } else {
            r
        }
    }
}

/// The child elements of node `i`, in order.
pub open spec fn child_elements(d: Seq<DomNodeView>, i: int) -> Seq<int> {
    if 0 <= i < d.len() {
        elements_of(d, d[i].children)
    } else {
        Seq::<int>::empty()
    }
}

/// The `href` attribute of element `n`.
pub open spec fn href(d: Seq<DomNodeView>, n: int) -> Option<Seq<char>> {
    if 0 <= n < d.len() {
        match d[n].kind {
            NodeKindView::Element(h) => h,
            _ => None,
        }
    } else {
        None
    }
}

/// The first position of `x` in `s`, if any.
pub open spec fn position_of(s: Seq<int>, x: int) -> Option<int>
    decreases s.len(),
{
    if s.len() == 0 {
        None
    } else if s[0] == x {
        Some(0)
    } else {
        match position_of(s.drop_first(), x) {
            Some(k) => Some(k + 1),
            None => None,
        }
    }
}

/// The sibling `k` places after node `i` (`k` = 1 is the next one), if any.
pub open spec fn sibling_after(d: Seq<DomNodeView>, i: int, k: int) -> Option<int> {
    if 0 <= i < d.len() {
        match d[i].parent {
            Some(p) => if 0 <= p < d.len() {
                match position_of(d[p].children, i) {
                    Some(q) => if q + k < d[p].children.len() {
                        Some(d[p].children[q + k])
                    } else {
                        None
                    },
                    None => None,
                }
            } else {
                None
            },
            None => None,
        }
    } else {
        None
    }
}

fn subtree_into(d: &Dom, i: usize, fuel: usize, out: &mut Vec<usize>)
    ensures
        idx_view(final(out)@) == idx_view(old(out)@) + subtree(d@, i as int, fuel as nat),
    decreases fuel,
{
    if fuel == 0 || i >= d.nodes.len() {
        return;
    }
    let ghost start = idx_view(out@);
    out.push(i);
    assert(idx_view(out@) == start + seq![i as int]);
    let cs = &d.nodes[i].children;
    let ghost cv = idx_view(cs@);
    assert(cv == d@[i as int].children);
    let mut k: usize = 0;
    proof {
        assert(cv.take(0) == Seq::<int>::empty());
    }
    while k < cs.len()
        invariant
            k <= cs@.len(),
            fuel > 0,
            i < d.nodes@.len(),
            cs@ == d.nodes@[i as int].children@,
            cv == idx_view(cs@),
            idx_view(out@) == start + seq![i as int] + forest(d@, cv.take(k as int), (fuel - 1) as nat),
        decreases cs.len() - k,
    {
        assert(cv.take(k + 1).drop_last() == cv.take(k as int));
        assert(cv.take(k + 1).last() == cs@[k as int] as int);
        subtree_into(d, cs[k], fuel - 1, out);
        k += 1;
    }
    assert(cv.take(cs@.len() as int) == cv);
}

/// The nodes under node `i` in document order, `i` first.
pub fn descendants_of(d: &Dom, i: usize) -> (r: Vec<usize>)
    ensures
        idx_view(r@) == descendants(d@, i as int),
{
    let mut r: Vec<usize> = Vec::new();
    assert(idx_view(r@) == Seq::<int>::empty());
    subtree_into(d, i, d.nodes.len(), &mut r);
    r
}

fn flagged_from(ns: &Vec<usize>, from: usize, flags: &Vec<bool>) -> (r: Vec<usize>)
    requires
        from <= ns@.len(),
    ensures
        idx_view(r@) == flagged(idx_view(ns@).skip(from as int), flags@),
{
    let ghost nv = idx_view(ns@).skip(from as int);
    let mut r: Vec<usize> = Vec::new();
    let mut i: usize = from;
    proof {
        assert(nv.take(0) == Seq::<int>::empty());
        assert(idx_view(r@) == Seq::<int>::empty());
    }
    while i < ns.len()
        invariant
            from <= i <= ns@.len(),
            nv == idx_view(ns@).skip(from as int),
            idx_view(r@) == flagged(nv.take(i - from), flags@),
        decreases ns.len() - i,
    {
        assert(nv.take(i - from + 1).drop_last() == nv.take(i - from));
        assert(nv.take(i - from + 1).last() == ns@[i as int] as int);
        let n = ns[i];
        if n < flags.len() && flags[n] {
            let ghost before = r@;
            r.push(n);
            assert(idx_view(r@) == idx_view(before).push(n as int));
        }
        i += 1;
    }
    assert(nv.take(ns@.len() - from) == nv);
    r
}

/// The elements of the whole page that `flags` marks, in creation order.
pub fn select_page_exec(d: &Dom, flags: &Vec<bool>) -> (r: Vec<usize>)
    ensures
        idx_view(r@) == select_page(d@, flags@),
{
    let mut r: Vec<usize> = Vec::new();
    let mut i: usize = 0;
    proof {
        assert(idx_view(r@) == Seq::<int>::empty());
    }
    while i < d.nodes.len()
        invariant
            i <= d.nodes@.len(),
            idx_view(r@) == select_page_upto(d@, flags@, i as nat),
        decreases d.nodes.len() - i,
    {
        if i < flags.len() && flags[i] && d.nodes[i].parent.is_some() {
            let ghost before = r@;
            r.push(i);
            assert(idx_view(r@) == idx_view(before).push(i as int));
        }
        i += 1;
    }
    r
}

/// The elements strictly under node `scope` that `flags` marks, in document order.
pub fn select_under_exec(d: &Dom, scope: usize, flags: &Vec<bool>) -> (r: Vec<usize>)
    ensures
        idx_view(r@) == select_under(d@, scope as int, flags@),
{
    let ns = descendants_of(d, scope);
    if ns.len() == 0 {
        let r: Vec<usize> = Vec::new();
        assert(idx_view(r@) == Seq::<int>::empty());
        return r;
    }
    assert(idx_view(ns@).skip(1) == idx_view(ns@).drop_first());
    flagged_from(&ns, 1, flags)
}

/// The texts under node `i`, in document order.
pub fn element_texts_exec(d: &Dom, i: usize) -> (r: Vec<String>)
    ensures
        crate::text::strings_view(r@) == element_texts(d@, i as int),
{
    let ns = descendants_of(d, i);
    let ghost nv = idx_view(ns@);
    let mut r: Vec<String> = Vec::new();
    let mut k: usize = 0;
    proof {
        assert(nv.take(0) == Seq::<int>::empty());
        assert(crate::text::strings_view(r@) == Seq::<Seq<char>>::empty());
    }
    while k < ns.len()
        invariant
            k <= ns@.len(),
            nv == idx_view(ns@),
            crate::text::strings_view(r@) == texts_of(d@, nv.take(k as int)),
        decreases ns.len() - k,
    {
        assert(nv.take(k + 1).drop_last() == nv.take(k as int));
        assert(nv.take(k + 1).last() == ns@[k as int] as int);
        let n = ns[k];
        if n < d.nodes.len() {
            match &d.nodes[n].kind {
                NodeKind::Text(t) => {
                    let ghost before = r@;
                    r.push(t.clone());
                    assert(crate::text::strings_view(r@) == crate::text::strings_view(before).push(t@));
                },
                _ => {},
            }
        }
        k += 1;
    }
    assert(nv.take(ns@.len() as int) == nv);
    r
}

/// The first text under node `i`, if any.
pub fn first_text(d: &Dom, i: usize) -> (r: Option<String>)
    ensures
        match r {
            Some(t) => element_texts(d@, i as int).len() > 0 && t@ == element_texts(d@, i as int)[0],
            None => element_texts(d@, i as int).len() == 0,
        },
{
    let ts = element_texts_exec(d, i);
    if ts.len() > 0 {
        Some(ts[0].clone())
    } else {
        None
    }
}

/// The texts under node `i` joined together.
pub fn joined_text(d: &Dom, i: usize) -> (r: String)
    ensures
        r@ == concat(element_texts(d@, i as int)),
{
    let ts = element_texts_exec(d, i);
    let ghost tv = crate::text::strings_view(ts@);
    let mut r = String::new();
    let mut k: usize = 0;
    proof {
        assert(tv.take(0) == Seq::<Seq<char>>::empty());
    }
    while k < ts.len()
        invariant
            k <= ts@.len(),
            tv == crate::text::strings_view(ts@),
            r@ == concat(tv.take(k as int)),
        decreases ts.len() - k,
    {
        assert(tv.take(k + 1).drop_last() == tv.take(k as int));
        assert(tv.take(k + 1).last() == ts@[k as int]@);
        r.append(ts[k].as_str());
        k += 1;
    }
    assert(tv.take(ts@.len() as int) == tv);
    r
}

/// The child elements of node `i`, in order.
pub fn child_elements_exec(d: &Dom, i: usize) -> (r: Vec<usize>)
    ensures
        idx_view(r@) == child_elements(d@, i as int),
{
    let mut r: Vec<usize> = Vec::new();
    proof {
        assert(idx_view(r@) == Seq::<int>::empty());
    }
    if i >= d.nodes.len() {
        return r;
    }
    let cs = &d.nodes[i].children;
    let ghost cv = idx_view(cs@);
    assert(cv == d@[i as int].children);
    let mut k: usize = 0;
    proof {
        assert(cv.take(0) == Seq::<int>::empty());
    }
    while k < cs.len()
        invariant
            k <= cs@.len(),
            cv == idx_view(cs@),
            idx_view(r@) == elements_of(d@, cv.take(k as int)),
        decreases cs.len() - k,
    {
        assert(cv.take(k + 1).drop_last() == cv.take(k as int));
        assert(cv.take(k + 1).last() == cs@[k as int] as int);
        let n = cs[k];
        if n < d.nodes.len() {
            if let NodeKind::Element(_) = &d.nodes[n].kind {
                let ghost before = r@;
                r.push(n);
                assert(idx_view(r@) == idx_view(before).push(n as int));
            }
        }
        k += 1;
    }
    assert(cv.take(cs@.len() as int) == cv);
    r
}

/// The `href` attribute of element `n`.
pub fn href_of(d: &Dom, n: usize) -> (r: Option<String>)
    ensures
        crate::cheat_provider::opt_string_view(r) == href(d@, n as int),
{
    if n >= d.nodes.len() {
        return None;
    }
    match &d.nodes[n].kind {
        NodeKind::Element(Some(h)) => Some(h.clone()),
        _ => None,
    }
}

fn position_in(s: &Vec<usize>, x: usize) -> (r: Option<usize>)
    ensures
        match r {
            Some(k) => position_of(idx_view(s@), x as int) == Some(k as int),
            None => position_of(idx_view(s@), x as int) is None,
        },
{
    let mut k: usize = 0;
    proof {
        assert(idx_view(s@).skip(0) == idx_view(s@));
    }
    while k < s.len()
        invariant
            k <= s@.len(),
            position_of(idx_view(s@), x as int) == (match position_of(idx_view(s@).skip(k as int), x as int) {
                Some(q) => Some(q + k),
                None => None::<int>,
            }),
        decreases s.len() - k,
    {
        let ghost rest = idx_view(s@).skip(k as int);
        assert(rest[0] == s@[k as int] as int);
        assert(rest.drop_first() == idx_view(s@).skip(k + 1));
        if s[k] == x {
            return Some(k);
        }
        k += 1;
    }
    assert(idx_view(s@).skip(k as int).len() == 0);
    None
}

/// The sibling `k` places after node `i`, if any.
pub fn sibling_after_exec(d: &Dom, i: usize, k: usize) -> (r: Option<usize>)
    ensures
        match r {
            Some(n) => sibling_after(d@, i as int, k as int) == Some(n as int),
            None => sibling_after(d@, i as int, k as int) is None,
        },
{
    if i >= d.nodes.len() {
        return None;
    }
    let p = match d.nodes[i].parent {
        Some(p) => p,
        None => return None,
    };
    if p >= d.nodes.len() {
        return None;
    }
    let cs = &d.nodes[p].children;
    assert(idx_view(cs@) == d@[p as int].children);
    match position_in(cs, i) {
        Some(q) => {
            if k < cs.len() && q < cs.len() - k {
                Some(cs[q + k])
            } else {
                None
            }
        },
        None => None,
    }
}

} // verus!
