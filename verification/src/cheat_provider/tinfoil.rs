//! The Tinfoil provider: the page of a title lists its patches (build id and
//! patch name) in one table, and, under a "Cheats" heading, its cheats
//! (name, patch, ..., code lines) in another.
use vstd::prelude::*;
use crate::assoc::StrMap;
use crate::dom::{
    child_elements_exec, element_texts_exec, first_text, joined_text, match_selector, parse_fragment,
    select_page_exec, select_under_exec, sibling_after_exec, Dom, DomNodeView, NodeKind,
};
use super::{name_without_delimiters, skip_header_lines, Cheat, CheatMap, CheatMapView, CheatView};

verus! {

/// The provider of the Tinfoil site.
pub struct TinfoilProvider;

/// The rows of the patches table.
pub open spec fn patch_rows_selector() -> Seq<char> {
    "table.fixed > tbody > tr"@
}

/// The headings among which the "Cheats" heading is looked for.
pub open spec fn heading_selector() -> Seq<char> {
    "div > h4:nth-child(1)"@
}

/// The rows of the cheats table.
pub open spec fn cheat_rows_selector() -> Seq<char> {
    "table > tbody > tr"@
}

/// The code lines of a cheat.
pub open spec fn code_items_selector() -> Seq<char> {
    "ul > li"@
}

/// The title of the cheats section.
pub open spec fn cheats_heading() -> Seq<char> {
    "Cheats"@
}

/// The patch table: for each row (build id cell, patch cell, ...), the patch
/// name bound to the build id, a later row replacing an earlier one with the
/// same patch; `None` when a row has fewer than two cells.
pub open spec fn patches_of(d: Seq<DomNodeView>, rows: Seq<int>) -> Option<Seq<(Seq<char>, Seq<char>)>>
    decreases rows.len(),
{
    if rows.len() == 0 {
        Some(Seq::<(Seq<char>, Seq<char>)>::empty())
    } else {
        match patches_of(d, rows.drop_last()) {
            Some(acc) => {
                let cells = crate::dom::child_elements(d, rows.last());
                if cells.len() >= 2 {
                    Some(crate::assoc::insert_key(
                        acc,
                        crate::dom::concat(crate::dom::element_texts(d, cells[1])),
                        crate::dom::concat(crate::dom::element_texts(d, cells[0])),
                    ))
                } else {
                    None
                }
            },
            None => None,
        }
    }
}

/// The texts of the code items of a cheat, each joined.
pub open spec fn item_texts(d: Seq<DomNodeView>, items: Seq<int>) -> Seq<Seq<char>>
    decreases items.len(),
{
    if items.len() == 0 {
        Seq::<Seq<char>>::empty()
    } else {
        item_texts(d, items.drop_last()).push(crate::dom::concat(crate::dom::element_texts(d, items.last())))
    }
}

/// The cheats of the cheat rows: each row (name cell, patch cell, a third
/// cell, code cell) whose code (without leading title lines) is not empty
/// gives a cheat of the build that the patch belongs to; `None` when a row
/// lacks a cell, a name or a patch, or names a patch that the patch table
/// does not list.
pub open spec fn rows_cheats(
    d: Seq<DomNodeView>,
    rows: Seq<int>,
    items: Seq<bool>,
    patches: Seq<(Seq<char>, Seq<char>)>,
) -> Option<CheatMapView>
    decreases rows.len(),
{
    if rows.len() == 0 {
        Some(Seq::<(Seq<char>, Seq<CheatView>)>::empty())
    } else {
        match rows_cheats(d, rows.drop_last(), items, patches) {
            Some(acc) => {
                let cells = crate::dom::child_elements(d, rows.last());
                let names = crate::dom::element_texts(d, cells[0]);
                let patch_texts = crate::dom::element_texts(d, cells[1]);
                if cells.len() < 4 || names.len() == 0 || patch_texts.len() == 0 {
                    None
                } else {
                    let code = super::skip_header_like(
                        item_texts(d, crate::dom::select_under(d, cells[3], items)),
                    );
                    if code.len() == 0 {
                        Some(acc)
                    } else {
                        match crate::assoc::lookup(patches, patch_texts[0]) {
                            Some(build_id) => Some(super::add_cheats(
                                acc,
                                build_id,
                                seq![CheatView {
                                    name: super::clean_name(names[0], super::delimiters()),
                                    code: code,
                                    checked: false,
                                }],
                            )),
                            None => None,
                        }
                    }
                }
            },
            None => None,
        }
    }
}

/// The cheats on a parsed title page, by build, given which elements each
/// of the four selectors matches: `None` when the patch table is malformed,
/// when the last heading is not the "Cheats" heading or is not followed
/// (two siblings on) by an element, or when a cheat row is malformed.
pub open spec fn page_cheats(
    d: Seq<DomNodeView>,
    patch_rows: Seq<bool>,
    headings: Seq<bool>,
    cheat_rows: Seq<bool>,
    items: Seq<bool>,
) -> Option<CheatMapView> {
    match patches_of(d, crate::dom::select_page(d, patch_rows)) {
        Some(patches) => {
            let hs = crate::dom::select_page(d, headings);
            if hs.len() == 0 || !crate::dom::element_texts(d, hs.last()).contains(cheats_heading()) {
                None
            } else {
                match crate::dom::sibling_after(d, hs.last(), 2) {
                    Some(div) => if crate::dom::is_element(d, div) {
                        rows_cheats(d, crate::dom::select_under(d, div, cheat_rows), items, patches)
                    } else {
                        None
                    },
                    None => None,
                }
            }
        },
        None => None,
    }
}

/// The cheats on the title page `html`: the page and the four selectors as
/// `scraper` parses and matches them; `None` when a selector does not parse.
pub open spec fn html_cheats(html: Seq<char>) -> Option<CheatMapView> {
    match (
        crate::dom::selector_flags(html, patch_rows_selector()),
        crate::dom::selector_flags(html, heading_selector()),
        crate::dom::selector_flags(html, cheat_rows_selector()),
        crate::dom::selector_flags(html, code_items_selector()),
    ) {
        (Some(a), Some(b), Some(c), Some(e)) => page_cheats(crate::dom::parsed_fragment(html), a, b, c, e),
        _ => None,
    }
}

/// The URL of the page of title `title_id`.
pub open spec fn title_url(title_id: Seq<char>) -> Seq<char> {
    "https://tinfoil.io/Title/"@ + title_id
}

fn patches_exec(d: &Dom, rows: &Vec<usize>) -> (r: Option<StrMap<String>>)
    ensures
        match r {
            Some(m) => patches_of(d@, crate::dom::idx_view(rows@)) == Some(
                m@.map_values(|e: (Seq<char>, String)| (e.0, e.1@)),
            ),
            None => patches_of(d@, crate::dom::idx_view(rows@)) is None,
        },
{
    let ghost rv = crate::dom::idx_view(rows@);
    let mut m: StrMap<String> = StrMap::new();
    let mut i: usize = 0;
    proof {
        assert(rv.take(0) == Seq::<int>::empty());
        assert(m@.map_values(|e: (Seq<char>, String)| (e.0, e.1@)) == Seq::<(Seq<char>, Seq<char>)>::empty());
    }
    while i < rows.len()
        invariant
            i <= rows@.len(),
            rv == crate::dom::idx_view(rows@),
            patches_of(d@, rv.take(i as int)) == Some(m@.map_values(|e: (Seq<char>, String)| (e.0, e.1@))),
        decreases rows.len() - i,
    {
        assert(rv.take(i + 1).drop_last() == rv.take(i as int));
        assert(rv.take(i + 1).last() == rows@[i as int] as int);
        let cells = child_elements_exec(d, rows[i]);
        if cells.len() < 2 {
            proof {
                lemma_patches_none_prefix(d@, rv, i as int + 1);
            }
            return None;
        }
        let build_id = joined_text(d, cells[0]);
        let patch = joined_text(d, cells[1]);
        let ghost before = m@;
        let _ = m.entries();
        let ghost pk = patch@;
        let ghost bid = build_id;
        m.insert(patch, build_id);
        proof {
            lemma_insert_map_values(before, pk, bid);
        }
        i += 1;
    }
    assert(rv.take(rows@.len() as int) == rv);
    Some(m)
}

proof fn lemma_patches_none_prefix(d: Seq<DomNodeView>, rows: Seq<int>, n: int)
    requires
        0 <= n <= rows.len(),
        patches_of(d, rows.take(n)) is None,
    ensures
        patches_of(d, rows) is None,
    decreases rows.len(),
{
    if n == rows.len() {
        assert(rows.take(n) == rows);
    } else {
        assert(rows.drop_last().take(n) == rows.take(n));
        lemma_patches_none_prefix(d, rows.drop_last(), n);
    }
}

proof fn lemma_insert_map_values(s: Seq<(Seq<char>, String)>, k: Seq<char>, v: String)
    requires
        crate::assoc::distinct_keys(s),
    ensures
        crate::assoc::insert_key(s, k, v).map_values(|e: (Seq<char>, String)| (e.0, e.1@))
            == crate::assoc::insert_key(s.map_values(|e: (Seq<char>, String)| (e.0, e.1@)), k, v@),
{
    let f = |e: (Seq<char>, String)| (e.0, e.1@);
    let t = s.map_values(f);
    if crate::assoc::has_key(s, k) {
        let i = crate::assoc::key_index(s, k);
        assert(t[i].0 == k);
        assert(crate::assoc::distinct_keys(t)) by {
            assert forall|a: int, b: int| 0 <= a < b < t.len() implies #[trigger] t[a].0 != #[trigger] t[b].0 by {
                assert(s[a].0 != s[b].0);
            }
        }
        crate::assoc::lemma_key_index_unique(s, k, i);
        crate::assoc::lemma_key_index_unique(t, k, i);
        assert(crate::assoc::insert_key(s, k, v).map_values(f) =~= crate::assoc::insert_key(t, k, v@));
    } else {
        assert(!crate::assoc::has_key(t, k)) by {
            if crate::assoc::has_key(t, k) {
                let j = crate::assoc::key_index(t, k);
                assert(s[j].0 == k);
            }
        }
        assert(crate::assoc::insert_key(s, k, v).map_values(f) =~= crate::assoc::insert_key(t, k, v@));
    }
}

proof fn lemma_rows_none_prefix(
    d: Seq<DomNodeView>,
    rows: Seq<int>,
    items: Seq<bool>,
    patches: Seq<(Seq<char>, Seq<char>)>,
    n: int,
)
    requires
        0 <= n <= rows.len(),
        rows_cheats(d, rows.take(n), items, patches) is None,
    ensures
        rows_cheats(d, rows, items, patches) is None,
    decreases rows.len(),
{
    if n == rows.len() {
        assert(rows.take(n) == rows);
    } else {
        assert(rows.drop_last().take(n) == rows.take(n));
        lemma_rows_none_prefix(d, rows.drop_last(), items, patches, n);
    }
}

proof fn lemma_lookup_map_values(s: Seq<(Seq<char>, String)>, k: Seq<char>)
    requires
        crate::assoc::distinct_keys(s),
    ensures
        crate::assoc::lookup(s.map_values(|e: (Seq<char>, String)| (e.0, e.1@)), k) == (match crate::assoc::lookup(s, k) {
            Some(v) => Some(v@),
            None => None::<Seq<char>>,
        }),
{
    let t = s.map_values(|e: (Seq<char>, String)| (e.0, e.1@));
    assert(crate::assoc::distinct_keys(t)) by {
        assert forall|a: int, b: int| 0 <= a < b < t.len() implies #[trigger] t[a].0 != #[trigger] t[b].0 by {
            assert(s[a].0 != s[b].0);
        }
    }
    if crate::assoc::has_key(s, k) {
        let i = crate::assoc::key_index(s, k);
        crate::assoc::lemma_key_index_unique(s, k, i);
        assert(t[i].0 == k);
        crate::assoc::lemma_key_index_unique(t, k, i);
    } else {
        assert(!crate::assoc::has_key(t, k)) by {
            if crate::assoc::has_key(t, k) {
                let j = crate::assoc::key_index(t, k);
                assert(s[j].0 == k);
            }
        }
    }
}

fn item_texts_exec(d: &Dom, items: &Vec<usize>) -> (r: Vec<String>)
    ensures
        crate::text::strings_view(r@) == item_texts(d@, crate::dom::idx_view(items@)),
{
    let ghost iv = crate::dom::idx_view(items@);
    let mut r: Vec<String> = Vec::new();
    let mut i: usize = 0;
    proof {
        assert(iv.take(0) == Seq::<int>::empty());
        assert(crate::text::strings_view(r@) == Seq::<Seq<char>>::empty());
    }
    while i < items.len()
        invariant
            i <= items@.len(),
            iv == crate::dom::idx_view(items@),
            crate::text::strings_view(r@) == item_texts(d@, iv.take(i as int)),
        decreases items.len() - i,
    {
        assert(iv.take(i + 1).drop_last() == iv.take(i as int));
        assert(iv.take(i + 1).last() == items@[i as int] as int);
        let t = joined_text(d, items[i]);
        let ghost before = r@;
        r.push(t);
        assert(crate::text::strings_view(r@) == crate::text::strings_view(before).push(t@));
        i += 1;
    }
    assert(iv.take(items@.len() as int) == iv);
    r
}

fn rows_cheats_exec(d: &Dom, rows: &Vec<usize>, items: &Vec<bool>, patches: &StrMap<String>) -> (r: Option<CheatMap>)
    ensures
        match r {
            Some(m) => rows_cheats(
                d@,
                crate::dom::idx_view(rows@),
                items@,
                patches@.map_values(|e: (Seq<char>, String)| (e.0, e.1@)),
            ) == Some(m@),
            None => rows_cheats(
                d@,
                crate::dom::idx_view(rows@),
                items@,
                patches@.map_values(|e: (Seq<char>, String)| (e.0, e.1@)),
            ) is None,
        },
{
    let _ = patches.entries();
    let ghost pv = patches@.map_values(|e: (Seq<char>, String)| (e.0, e.1@));
    let ghost rv = crate::dom::idx_view(rows@);
    let mut result = CheatMap::new();
    let mut i: usize = 0;
    proof {
        assert(rv.take(0) == Seq::<int>::empty());
    }
    while i < rows.len()
        invariant
            i <= rows@.len(),
            rv == crate::dom::idx_view(rows@),
            pv == patches@.map_values(|e: (Seq<char>, String)| (e.0, e.1@)),
            crate::assoc::distinct_keys(patches@),
            rows_cheats(d@, rv.take(i as int), items@, pv) == Some(result@),
        decreases rows.len() - i,
    {
        assert(rv.take(i + 1).drop_last() == rv.take(i as int));
        assert(rv.take(i + 1).last() == rows@[i as int] as int);
        let cells = child_elements_exec(d, rows[i]);
        if cells.len() < 4 {
            proof {
                lemma_rows_none_prefix(d@, rv, items@, pv, i as int + 1);
            }
            return None;
        }
        let name = match first_text(d, cells[0]) {
            Some(n) => n,
            None => {
                proof {
                    lemma_rows_none_prefix(d@, rv, items@, pv, i as int + 1);
                }
                return None;
            },
        };
        let patch = match first_text(d, cells[1]) {
            Some(p) => p,
            None => {
                proof {
                    lemma_rows_none_prefix(d@, rv, items@, pv, i as int + 1);
                }
                return None;
            },
        };
        let selected = select_under_exec(d, cells[3], items);
        let texts = item_texts_exec(d, &selected);
        let code = skip_header_lines(&texts);
        if code.len() == 0 {
            i += 1;
            continue;
        }
        proof {
            lemma_lookup_map_values(patches@, patch@);
        }
        let build_id = match patches.get(&patch) {
            Some(b) => b.clone(),
            None => {
                proof {
                    lemma_rows_none_prefix(d@, rv, items@, pv, i as int + 1);
                }
                return None;
            },
        };
        let cheat = Cheat { name: name_without_delimiters(name.as_str()), code, checked: false };
        result.push_cheat(build_id, cheat);
        i += 1;
    }
    assert(rv.take(rows@.len() as int) == rv);
    Some(result)
}

fn has_text(ts: &Vec<String>, t: &String) -> (b: bool)
    ensures
        b == crate::text::strings_view(ts@).contains(t@),
{
    let mut k: usize = 0;
    while k < ts.len()
        invariant
            k <= ts@.len(),
            forall|j: int| 0 <= j < k ==> ts@[j]@ != t@,
        decreases ts.len() - k,
    {
        if ts[k] == *t {
            assert(crate::text::strings_view(ts@)[k as int] == t@);
            return true;
        }
        k += 1;
    }
    proof {
        if crate::text::strings_view(ts@).contains(t@) {
            let j = choose|j: int| 0 <= j < ts@.len() && crate::text::strings_view(ts@)[j] == t@;
            assert(ts@[j]@ == t@);
        }
    }
    false
}

impl TinfoilProvider {
    /// The URL of the page of title `title_id`.
    pub fn title_url(title_id: &str) -> (r: String)
        ensures
            r@ == title_url(title_id@),
    {
        let mut url = String::from_str("https://tinfoil.io/Title/");
        url.append(title_id);
        url
    }

    /// The cheats on a parsed title page, by build, given which elements
    /// each of the four selectors matches.
    pub fn cheats_from_parsed(
        d: &Dom,
        patch_rows: &Vec<bool>,
        headings: &Vec<bool>,
        cheat_rows: &Vec<bool>,
        items: &Vec<bool>,
    ) -> (r: Option<CheatMap>)
        ensures
            match r {
                Some(m) => page_cheats(d@, patch_rows@, headings@, cheat_rows@, items@) == Some(m@),
                None => page_cheats(d@, patch_rows@, headings@, cheat_rows@, items@) is None,
            },
    {
        let rows = select_page_exec(d, patch_rows);
        let patches = match patches_exec(d, &rows) {
            Some(p) => p,
            None => return None,
        };
        let hs = select_page_exec(d, headings);
        if hs.len() == 0 {
            return None;
        }
        let h = hs[hs.len() - 1];
        let heading = String::from_str("Cheats");
        if !has_text(&element_texts_exec(d, h), &heading) {
            return None;
        }
        let div = match sibling_after_exec(d, h, 2) {
            Some(n) => n,
            None => return None,
        };
        if div >= d.nodes.len() {
            return None;
        }
        match &d.nodes[div].kind {
            NodeKind::Element(_) => {},
            _ => return None,
        }
        let cheat_row_list = select_under_exec(d, div, cheat_rows);
        rows_cheats_exec(d, &cheat_row_list, items, &patches)
    }

    /// The cheats on the title page `html`, by build: the page parsed and
    /// the selectors matched by `scraper`.
    pub fn cheats_from_page(html: &str) -> (r: Option<CheatMap>)
        ensures
            match r {
                Some(m) => html_cheats(html@) == Some(m@),
                None => html_cheats(html@) is None,
            },
    {
        let d = parse_fragment(html);
        let patch_rows = match match_selector(html, "table.fixed > tbody > tr") {
            Some(f) => f,
            None => return None,
        };
        let headings = match match_selector(html, "div > h4:nth-child(1)") {
            Some(f) => f,
            None => return None,
        };
        let cheat_rows = match match_selector(html, "table > tbody > tr") {
            Some(f) => f,
            None => return None,
        };
        let items = match match_selector(html, "ul > li") {
            Some(f) => f,
            None => return None,
        };
        Self::cheats_from_parsed(&d, &patch_rows, &headings, &cheat_rows, &items)
    }
}


/// The heading consulted is the last one the heading selector matches,
/// whatever headings come before it: two heading matchings that end on the
/// same heading give the same cheats. When that last heading's texts do not
/// include "Cheats" the page gives no cheats; when they do, the patch table
/// reads, and the element two siblings on from the heading exists, the
/// cheats are those of the rows under that element.
pub proof fn law_last_heading_decides(
    d: Seq<DomNodeView>,
    patch_rows: Seq<bool>,
    headings: Seq<bool>,
    other_headings: Seq<bool>,
    cheat_rows: Seq<bool>,
    items: Seq<bool>,
)
    ensures
        ({
            let hs = crate::dom::select_page(d, headings);
            let gs = crate::dom::select_page(d, other_headings);
            hs.len() > 0 && gs.len() > 0 && hs.last() == gs.last() ==> page_cheats(d, patch_rows, headings, cheat_rows, items)
                == page_cheats(d, patch_rows, other_headings, cheat_rows, items)
        }),
        ({
            let hs = crate::dom::select_page(d, headings);
            hs.len() > 0 && !crate::dom::element_texts(d, hs.last()).contains("Cheats"@)
                ==> page_cheats(d, patch_rows, headings, cheat_rows, items) is None
        }),
        ({
            let hs = crate::dom::select_page(d, headings);
            hs.len() > 0 && crate::dom::element_texts(d, hs.last()).contains("Cheats"@)
                && patches_of(d, crate::dom::select_page(d, patch_rows)) is Some
                && crate::dom::sibling_after(d, hs.last(), 2) is Some
                && crate::dom::is_element(d, crate::dom::sibling_after(d, hs.last(), 2)->0)
                ==> page_cheats(d, patch_rows, headings, cheat_rows, items) == rows_cheats(
                    d,
                    crate::dom::select_under(d, crate::dom::sibling_after(d, hs.last(), 2)->0, cheat_rows),
                    items,
                    patches_of(d, crate::dom::select_page(d, patch_rows))->0,
                )
        }),
{
}


/// What one cheat row gives: `None` when it is malformed or names a patch
/// the patch table does not list; `Some(None)` when it has no code; else
/// the build id of its patch and its cheat.
pub open spec fn row_cheat(
    d: Seq<DomNodeView>,
    row: int,
    items: Seq<bool>,
    patches: Seq<(Seq<char>, Seq<char>)>,
) -> Option<Option<(Seq<char>, CheatView)>> {
    let cells = crate::dom::child_elements(d, row);
    let names = crate::dom::element_texts(d, cells[0]);
    let patch_texts = crate::dom::element_texts(d, cells[1]);
    if cells.len() < 4 || names.len() == 0 || patch_texts.len() == 0 {
        None
    } else {
        let code = super::skip_header_like(item_texts(d, crate::dom::select_under(d, cells[3], items)));
        if code.len() == 0 {
            Some(None)
        } else {
            match crate::assoc::lookup(patches, patch_texts[0]) {
                Some(b) => Some(Some((b, CheatView {
                    name: super::clean_name(names[0], super::delimiters()),
                    code: code,
                    checked: false,
                }))),
                None => None,
            }
        }
    }
}

/// Whether every cheat row can be read.
pub open spec fn all_rows_read(
    d: Seq<DomNodeView>,
    rows: Seq<int>,
    items: Seq<bool>,
    patches: Seq<(Seq<char>, Seq<char>)>,
) -> bool {
    forall|i: int| 0 <= i < rows.len() ==> (#[trigger] row_cheat(d, rows[i], items, patches)) is Some
}

/// What the rows add, in order: for each row with code, the build id of its
/// patch and its cheat.
pub open spec fn row_additions(
    d: Seq<DomNodeView>,
    rows: Seq<int>,
    items: Seq<bool>,
    patches: Seq<(Seq<char>, Seq<char>)>,
) -> Seq<(Seq<char>, Seq<CheatView>)>
    decreases rows.len(),
{
    if rows.len() == 0 {
        Seq::<(Seq<char>, Seq<CheatView>)>::empty()
    } else {
        let r = row_additions(d, rows.drop_last(), items, patches);
        match row_cheat(d, rows.last(), items, patches) {
            Some(Some(x)) => r.push((x.0, seq![x.1])),
            _ => r,
        }
    }
}

proof fn lemma_rows_cheats_add_all(
    d: Seq<DomNodeView>,
    rows: Seq<int>,
    items: Seq<bool>,
    patches: Seq<(Seq<char>, Seq<char>)>,
)
    ensures
        rows_cheats(d, rows, items, patches) == if all_rows_read(d, rows, items, patches) {
            Some(super::add_all(row_additions(d, rows, items, patches)))
        } else {
            None::<CheatMapView>
        },
        forall|j: int| 0 <= j < row_additions(d, rows, items, patches).len() ==> exists|p: int|
            0 <= p < patches.len() && patches[p].1 == (#[trigger] row_additions(d, rows, items, patches)[j]).0,
    decreases rows.len(),
{
    if rows.len() > 0 {
        let r0 = rows.drop_last();
        lemma_rows_cheats_add_all(d, r0, items, patches);
        assert(all_rows_read(d, rows, items, patches) == (all_rows_read(d, r0, items, patches)
            && row_cheat(d, rows.last(), items, patches) is Some)) by {
            if all_rows_read(d, rows, items, patches) {
                assert forall|i: int| 0 <= i < r0.len() implies (#[trigger] row_cheat(d, r0[i], items, patches)) is Some by {
                    assert(r0[i] == rows[i]);
                }
                assert(rows[rows.len() - 1] == rows.last());
            }
            if all_rows_read(d, r0, items, patches) && row_cheat(d, rows.last(), items, patches) is Some {
                assert forall|i: int| 0 <= i < rows.len() implies (#[trigger] row_cheat(d, rows[i], items, patches)) is Some by {
                    if i < r0.len() {
                        assert(r0[i] == rows[i]);
                    }
                }
            }
        }
        let r = row_additions(d, r0, items, patches);
        match row_cheat(d, rows.last(), items, patches) {
            Some(Some(x)) => {
                let y = (x.0, seq![x.1]);
                assert(r.push(y).drop_last() == r);
                let patch = crate::dom::element_texts(d, crate::dom::child_elements(d, rows.last())[1])[0];
                assert(crate::assoc::has_key(patches, patch));
                let p = crate::assoc::key_index(patches, patch);
                assert(patches[p].1 == x.0);
                assert forall|j: int| 0 <= j < r.push(y).len() implies exists|q: int|
                    0 <= q < patches.len() && patches[q].1 == (#[trigger] r.push(y)[j]).0 by {
                    if j < r.len() {
                        assert(r.push(y)[j] == r[j]);
                    } else {
                        assert(r.push(y)[j] == y);
                    }
                }
            },
            _ => {},
        }
    }
}

/// Reading the cheat rows: the cheats come out exactly when every row can
/// be read; then every build is the build id of some patch of the patch
/// table, the builds are distinct, and each holds the cheats of the rows
/// whose patch belongs to it, in row order.
pub proof fn law_rows_filed_by_patch(
    d: Seq<DomNodeView>,
    rows: Seq<int>,
    items: Seq<bool>,
    patches: Seq<(Seq<char>, Seq<char>)>,
    k: Seq<char>,
)
    ensures
        rows_cheats(d, rows, items, patches) is Some <==> all_rows_read(d, rows, items, patches),
        rows_cheats(d, rows, items, patches) matches Some(m) ==> crate::assoc::distinct_keys(m)
            && crate::assoc::lookup(m, k) == if super::mentions(row_additions(d, rows, items, patches), k) {
                Some(super::filed_under(row_additions(d, rows, items, patches), k))
            } else {
                None::<Seq<CheatView>>
            },
        rows_cheats(d, rows, items, patches) matches Some(m) ==> forall|b: int| 0 <= b < m.len() ==> exists|p: int|
            0 <= p < patches.len() && patches[p].1 == (#[trigger] m[b]).0,
{
    lemma_rows_cheats_add_all(d, rows, items, patches);
    let adds = row_additions(d, rows, items, patches);
    super::law_add_all(adds, k);
    if all_rows_read(d, rows, items, patches) {
        let m = super::add_all(adds);
        assert forall|b: int| 0 <= b < m.len() implies exists|p: int|
            0 <= p < patches.len() && patches[p].1 == (#[trigger] m[b]).0 by {
            super::law_add_all(adds, m[b].0);
            assert(crate::assoc::has_key(m, m[b].0));
            assert(super::mentions(adds, m[b].0));
            let j = choose|j: int| 0 <= j < adds.len() && #[trigger] adds[j].0 == m[b].0;
            assert(exists|p: int| 0 <= p < patches.len() && patches[p].1 == adds[j].0);
        }
    }
}

} // verus!
