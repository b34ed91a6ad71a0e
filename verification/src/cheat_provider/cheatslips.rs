//! The CheatSlips provider: the page of a game links its builds, the page of
//! a build links its cheat sources, and each sources page holds cheats as
//! tables (a name in bold, the code in a preformatted block).
use vstd::prelude::*;
use crate::dom::{
    child_elements_exec, first_text, href_of, match_selector, parse_fragment, select_page_exec,
    select_under_exec, Dom, DomNodeView,
};
use crate::text::{chars_of, string_of, to_uppercase};
use super::{code_lines, name_without_delimiters, Cheat, CheatMap, CheatMapView, CheatView};

verus! {

/// The provider of the CheatSlips site.
pub struct CheatSlipsProvider;

/// The links to the builds on a game page.
pub open spec fn build_links_selector() -> Seq<char> {
    "tr > td > a"@
}

/// The links to the cheat sources on a build page.
pub open spec fn source_links_selector() -> Seq<char> {
    ".text-secondary"@
}

/// The tables of cheats on a sources page.
pub open spec fn tbody_selector() -> Seq<char> {
    "tbody"@
}

/// The name of a cheat.
pub open spec fn strong_selector() -> Seq<char> {
    "strong"@
}

/// The code of a cheat.
pub open spec fn pre_selector() -> Seq<char> {
    "pre"@
}

/// The page of a game.
pub open spec fn game_url(title: Seq<char>) -> Seq<char> {
    "https://www.cheatslips.com/game/"@ + title
}

/// The page of a build of a game.
pub open spec fn build_url(title: Seq<char>, build_id: Seq<char>) -> Seq<char> {
    "https://www.cheatslips.com/game/"@ + title + "/"@ + build_id
}

/// The sources page of a cheat of a game.
pub open spec fn sources_url(title: Seq<char>, segment: Seq<char>) -> Seq<char> {
    "https://www.cheatslips.com/game/"@ + title + "/"@ + segment + "/sources"@
}

/// The part of `s` after its last `'/'` (all of `s` when it has none).
pub open spec fn after_last_slash(s: Seq<char>) -> Seq<char>
    decreases s.len(),
{
    if s.len() == 0 {
        s
    } else if s.last() == '/' {
        Seq::<char>::empty()
    } else {
        after_last_slash(s.drop_last()).push(s.last())
    }
}

/// The first texts of the elements `ns`, in order; `None` when one has no text.
pub open spec fn first_texts(d: Seq<DomNodeView>, ns: Seq<int>) -> Option<Seq<Seq<char>>>
    decreases ns.len(),
{
    if ns.len() == 0 {
        Some(Seq::<Seq<char>>::empty())
    } else {
        match first_texts(d, ns.drop_last()) {
            Some(r) => {
                let ts = crate::dom::element_texts(d, ns.last());
                if ts.len() > 0 {
                    Some(r.push(ts[0]))
                } else {
                    None
                }
            },
            None => None,
        }
    }
}

/// The last path segments of the `href`s of the elements `ns`, in order;
/// `None` when one has no `href`.
pub open spec fn href_segments(d: Seq<DomNodeView>, ns: Seq<int>) -> Option<Seq<Seq<char>>>
    decreases ns.len(),
{
    if ns.len() == 0 {
        Some(Seq::<Seq<char>>::empty())
    } else {
        match href_segments(d, ns.drop_last()) {
            Some(r) => match crate::dom::href(d, ns.last()) {
                Some(h) => Some(r.push(after_last_slash(h))),
                None => None,
            },
            None => None,
        }
    }
}

/// The cheats of the tables `tbodies` of a sources page: a table gives a
/// cheat named by the first text of the first bold element of its first
/// child, whose code is the non-empty trimmed lines of the first text of its
/// first preformatted block; a table without a non-empty such text or
/// without code gives none; `None` when a table has no child, its first
/// child no bold element, or that element no text.
pub open spec fn sources_cheats(
    d: Seq<DomNodeView>,
    tbodies: Seq<int>,
    strong: Seq<bool>,
    pre: Seq<bool>,
) -> Option<Seq<CheatView>>
    decreases tbodies.len(),
{
    if tbodies.len() == 0 {
        Some(Seq::<CheatView>::empty())
    } else {
        match sources_cheats(d, tbodies.drop_last(), strong, pre) {
            Some(acc) => {
                let t = tbodies.last();
                let children = crate::dom::child_elements(d, t);
                let strongs = crate::dom::select_under(d, children[0], strong);
                let names = crate::dom::element_texts(d, strongs[0]);
                if children.len() == 0 || strongs.len() == 0 || names.len() == 0 {
                    None
                } else {
                    let pres = crate::dom::select_under(d, t, pre);
                    let sources = crate::dom::element_texts(d, pres[0]);
                    if pres.len() == 0 || sources.len() == 0 || sources[0].len() == 0 {
                        Some(acc)
                    } else {
                        let code = super::code_lines_of(sources[0]);
                        if code.len() == 0 {
                            Some(acc)
                        } else {
                            Some(acc.push(CheatView {
                                name: super::clean_name(names[0], super::delimiters()),
                                code: code,
                                checked: false,
                            }))
                        }
                    }
                }
            },
            None => None,
        }
    }
}

/// The build ids that the game page `html` links, in page order.
pub open spec fn page_build_ids(html: Seq<char>) -> Option<Seq<Seq<char>>> {
    match crate::dom::selector_flags(html, build_links_selector()) {
        Some(f) => {
            let d = crate::dom::parsed_fragment(html);
            first_texts(d, crate::dom::select_page(d, f))
        },
        None => None,
    }
}

/// The source segments that the build page `html` links, in page order.
pub open spec fn page_segments(html: Seq<char>) -> Option<Seq<Seq<char>>> {
    match crate::dom::selector_flags(html, source_links_selector()) {
        Some(f) => {
            let d = crate::dom::parsed_fragment(html);
            href_segments(d, crate::dom::select_page(d, f))
        },
        None => None,
    }
}

/// The cheats on the sources page `html`, in page order.
pub open spec fn page_cheats(html: Seq<char>) -> Option<Seq<CheatView>> {
    match (
        crate::dom::selector_flags(html, tbody_selector()),
        crate::dom::selector_flags(html, strong_selector()),
        crate::dom::selector_flags(html, pre_selector()),
    ) {
        (Some(t), Some(s), Some(p)) => {
            let d = crate::dom::parsed_fragment(html);
            sources_cheats(d, crate::dom::select_page(d, t), s, p)
        },
        _ => None,
    }
}

/// `m` after the cheats gathered for build `build_id`: appended to the
/// build (named in upper case) when there is at least one.
pub open spec fn with_build(m: CheatMapView, build_id: Seq<char>, cheats: Seq<CheatView>) -> CheatMapView {
    if cheats.len() > 0 {
        super::add_cheats(m, crate::text::uppercase(build_id), cheats)
    } else {
        m
    }
}

/// The cheats on the sources pages `pages`, one page after the other;
/// `None` when a page cannot be read.
pub open spec fn pages_cheats(pages: Seq<Seq<char>>) -> Option<Seq<CheatView>>
    decreases pages.len(),
{
    if pages.len() == 0 {
        Some(Seq::<CheatView>::empty())
    } else {
        match (pages_cheats(pages.drop_last()), page_cheats(pages.last())) {
            (Some(a), Some(b)) => Some(a + b),
            _ => None,
        }
    }
}

/// The cheats of a game, build after build, each build given with the
/// sources pages it links: the cheats of its pages gathered under the build
/// id; `None` when a page cannot be read.
pub open spec fn builds_cheats(builds: Seq<(Seq<char>, Seq<Seq<char>>)>) -> Option<CheatMapView>
    decreases builds.len(),
{
    if builds.len() == 0 {
        Some(Seq::<(Seq<char>, Seq<CheatView>)>::empty())
    } else {
        match (builds_cheats(builds.drop_last()), pages_cheats(builds.last().1)) {
            (Some(m), Some(cs)) => Some(with_build(m, builds.last().0, cs)),
            _ => None,
        }
    }
}

/// The build ids and sources pages of `builds`, as plain values.
pub open spec fn builds_view(builds: Seq<(String, Vec<String>)>) -> Seq<(Seq<char>, Seq<Seq<char>>)> {
    builds.map_values(|b: (String, Vec<String>)| (b.0@, crate::text::strings_view(b.1@)))
}

proof fn lemma_pages_none_prefix(pages: Seq<Seq<char>>, n: int)
    requires
        0 <= n <= pages.len(),
        pages_cheats(pages.take(n)) is None,
    ensures
        pages_cheats(pages) is None,
    decreases pages.len(),
{
    if n == pages.len() {
        assert(pages.take(n) == pages);
    } else {
        assert(pages.drop_last().take(n) == pages.take(n));
        lemma_pages_none_prefix(pages.drop_last(), n);
    }
}

proof fn lemma_builds_none_prefix(builds: Seq<(Seq<char>, Seq<Seq<char>>)>, n: int)
    requires
        0 <= n <= builds.len(),
        builds_cheats(builds.take(n)) is None,
    ensures
        builds_cheats(builds) is None,
    decreases builds.len(),
{
    if n == builds.len() {
        assert(builds.take(n) == builds);
    } else {
        assert(builds.drop_last().take(n) == builds.take(n));
        lemma_builds_none_prefix(builds.drop_last(), n);
    }
}

proof fn lemma_first_texts_none_prefix(d: Seq<DomNodeView>, ns: Seq<int>, n: int)
    requires
        0 <= n <= ns.len(),
        first_texts(d, ns.take(n)) is None,
    ensures
        first_texts(d, ns) is None,
    decreases ns.len(),
{
    if n == ns.len() {
        assert(ns.take(n) == ns);
    } else {
        assert(ns.drop_last().take(n) == ns.take(n));
        lemma_first_texts_none_prefix(d, ns.drop_last(), n);
    }
}

proof fn lemma_href_segments_none_prefix(d: Seq<DomNodeView>, ns: Seq<int>, n: int)
    requires
        0 <= n <= ns.len(),
        href_segments(d, ns.take(n)) is None,
    ensures
        href_segments(d, ns) is None,
    decreases ns.len(),
{
    if n == ns.len() {
        assert(ns.take(n) == ns);
    } else {
        assert(ns.drop_last().take(n) == ns.take(n));
        lemma_href_segments_none_prefix(d, ns.drop_last(), n);
    }
}

proof fn lemma_sources_none_prefix(d: Seq<DomNodeView>, ns: Seq<int>, strong: Seq<bool>, pre: Seq<bool>, n: int)
    requires
        0 <= n <= ns.len(),
        sources_cheats(d, ns.take(n), strong, pre) is None,
    ensures
        sources_cheats(d, ns, strong, pre) is None,
    decreases ns.len(),
{
    if n == ns.len() {
        assert(ns.take(n) == ns);
    } else {
        assert(ns.drop_last().take(n) == ns.take(n));
        lemma_sources_none_prefix(d, ns.drop_last(), strong, pre, n);
    }
}

fn after_last_slash_chars(v: &Vec<char>) -> (r: Vec<char>)
    ensures
        r@ == after_last_slash(v@),
{
    let mut start: usize = v.len();
    proof {
        assert(v@.skip(v@.len() as int) == Seq::<char>::empty());
        assert(v@.take(v@.len() as int) == v@);
        assert(after_last_slash(v@) + Seq::<char>::empty() == after_last_slash(v@));
    }
    while start > 0 && v[start - 1] != '/'
        invariant
            start <= v@.len(),
            after_last_slash(v@) == after_last_slash(v@.take(start as int)) + v@.skip(start as int),
        decreases start,
    {
        let ghost t = v@.take(start as int);
        assert(t.drop_last() == v@.take(start - 1));
        assert(t.last() == v@[start - 1]);
        assert(v@.skip(start - 1) == seq![v@[start - 1]] + v@.skip(start as int));
        start -= 1;
    }
    proof {
        let t = v@.take(start as int);
        if start > 0 {
            assert(t.last() == v@[start - 1]);
        }
    }
    let mut r: Vec<char> = Vec::new();
    let mut k: usize = start;
    while k < v.len()
        invariant
            start <= k <= v@.len(),
            r@ == v@.subrange(start as int, k as int),
        decreases v.len() - k,
    {
        r.push(v[k]);
        assert(v@.subrange(start as int, k + 1) == v@.subrange(start as int, k as int).push(v@[k as int]));
        k += 1;
    }
    assert(v@.subrange(start as int, v@.len() as int) == v@.skip(start as int));
    r
}

impl CheatSlipsProvider {
    /// The page of game `title`.
    pub fn game_url(title: &str) -> (r: String)
        ensures
            r@ == game_url(title@),
    {
        let mut url = String::from_str("https://www.cheatslips.com/game/");
        url.append(title);
        url
    }

    /// The page of build `build_id` of game `title`.
    pub fn build_url(title: &str, build_id: &str) -> (r: String)
        ensures
            r@ == build_url(title@, build_id@),
    {
        let mut url = String::from_str("https://www.cheatslips.com/game/");
        url.append(title);
        url.append("/");
        url.append(build_id);
        url
    }

    /// The sources page `segment` of game `title`.
    pub fn sources_url(title: &str, segment: &str) -> (r: String)
        ensures
            r@ == sources_url(title@, segment@),
    {
        let mut url = String::from_str("https://www.cheatslips.com/game/");
        url.append(title);
        url.append("/");
        url.append(segment);
        url.append("/sources");
        url
    }

    /// The first texts of the elements `links` of a parsed page, in order;
    /// `None` when one has no text.
    pub fn first_texts_of(d: &Dom, links: &Vec<usize>) -> (r: Option<Vec<String>>)
        ensures
            match r {
                Some(v) => first_texts(d@, crate::dom::idx_view(links@)) == Some(crate::text::strings_view(v@)),
                None => first_texts(d@, crate::dom::idx_view(links@)) is None,
            },
    {
        let ghost lv = crate::dom::idx_view(links@);
        let mut r: Vec<String> = Vec::new();
        let mut i: usize = 0;
        proof {
            assert(lv.take(0) == Seq::<int>::empty());
            assert(crate::text::strings_view(r@) == Seq::<Seq<char>>::empty());
        }
        while i < links.len()
            invariant
                i <= links@.len(),
                lv == crate::dom::idx_view(links@),
                first_texts(d@, lv.take(i as int)) == Some(crate::text::strings_view(r@)),
            decreases links.len() - i,
        {
            assert(lv.take(i + 1).drop_last() == lv.take(i as int));
            assert(lv.take(i + 1).last() == links@[i as int] as int);
            match first_text(d, links[i]) {
                Some(t) => {
                    let ghost before = r@;
                    r.push(t);
                    assert(crate::text::strings_view(r@) == crate::text::strings_view(before).push(t@));
                },
                None => {
                    proof {
                        lemma_first_texts_none_prefix(d@, lv, i as int + 1);
                    }
                    return None;
                },
            }
            i += 1;
        }
        assert(lv.take(links@.len() as int) == lv);
        Some(r)
    }

    /// The last path segments of the `href`s of the elements `links` of a
    /// parsed page, in order; `None` when one has no `href`.
    pub fn href_segments_of(d: &Dom, links: &Vec<usize>) -> (r: Option<Vec<String>>)
        ensures
            match r {
                Some(v) => href_segments(d@, crate::dom::idx_view(links@)) == Some(crate::text::strings_view(v@)),
                None => href_segments(d@, crate::dom::idx_view(links@)) is None,
            },
    {
        let ghost lv = crate::dom::idx_view(links@);
        let mut r: Vec<String> = Vec::new();
        let mut i: usize = 0;
        proof {
            assert(lv.take(0) == Seq::<int>::empty());
            assert(crate::text::strings_view(r@) == Seq::<Seq<char>>::empty());
        }
        while i < links.len()
            invariant
                i <= links@.len(),
                lv == crate::dom::idx_view(links@),
                href_segments(d@, lv.take(i as int)) == Some(crate::text::strings_view(r@)),
            decreases links.len() - i,
        {
            assert(lv.take(i + 1).drop_last() == lv.take(i as int));
            assert(lv.take(i + 1).last() == links@[i as int] as int);
            match href_of(d, links[i]) {
                Some(h) => {
                    let seg = string_of(&after_last_slash_chars(&chars_of(h.as_str())));
                    let ghost before = r@;
                    r.push(seg);
                    assert(crate::text::strings_view(r@) == crate::text::strings_view(before).push(seg@));
                },
                None => {
                    proof {
                        lemma_href_segments_none_prefix(d@, lv, i as int + 1);
                    }
                    return None;
                },
            }
            i += 1;
        }
        assert(lv.take(links@.len() as int) == lv);
        Some(r)
    }

    /// The cheats of the tables `tbodies` of a parsed sources page, given
    /// which elements are bold and which preformatted.
    pub fn sources_cheats_of(d: &Dom, tbodies: &Vec<usize>, strong: &Vec<bool>, pre: &Vec<bool>) -> (r: Option<Vec<Cheat>>)
        ensures
            match r {
                Some(v) => sources_cheats(d@, crate::dom::idx_view(tbodies@), strong@, pre@) == Some(super::cheats_view(v@)),
                None => sources_cheats(d@, crate::dom::idx_view(tbodies@), strong@, pre@) is None,
            },
    {
        let ghost tv = crate::dom::idx_view(tbodies@);
        let mut r: Vec<Cheat> = Vec::new();
        let mut i: usize = 0;
        proof {
            assert(tv.take(0) == Seq::<int>::empty());
            assert(super::cheats_view(r@) == Seq::<CheatView>::empty());
        }
        while i < tbodies.len()
            invariant
                i <= tbodies@.len(),
                tv == crate::dom::idx_view(tbodies@),
                sources_cheats(d@, tv.take(i as int), strong@, pre@) == Some(super::cheats_view(r@)),
            decreases tbodies.len() - i,
        {
            assert(tv.take(i + 1).drop_last() == tv.take(i as int));
            assert(tv.take(i + 1).last() == tbodies@[i as int] as int);
            let t = tbodies[i];
            let children = child_elements_exec(d, t);
            if children.len() == 0 {
                proof {
                    lemma_sources_none_prefix(d@, tv, strong@, pre@, i as int + 1);
                }
                return None;
            }
            let strongs = select_under_exec(d, children[0], strong);
            if strongs.len() == 0 {
                proof {
                    lemma_sources_none_prefix(d@, tv, strong@, pre@, i as int + 1);
                }
                return None;
            }
            let name = match first_text(d, strongs[0]) {
                Some(n) => n,
                None => {
                    proof {
                        lemma_sources_none_prefix(d@, tv, strong@, pre@, i as int + 1);
                    }
                    return None;
                },
            };
            let pres = select_under_exec(d, t, pre);
            if pres.len() > 0 {
                match first_text(d, pres[0]) {
                    Some(source) => {
                        if !source.as_str().is_empty() {
                            let code = code_lines(source.as_str());
                            if code.len() > 0 {
                                let c = Cheat { name: name_without_delimiters(name.as_str()), code, checked: false };
                                let ghost before = r@;
                                r.push(c);
                                assert(super::cheats_view(r@) == super::cheats_view(before).push(c@));
                            }
                        }
                    },
                    None => {},
                }
            }
            i += 1;
        }
        assert(tv.take(tbodies@.len() as int) == tv);
        Some(r)
    }

    /// The build ids that the game page `html` links, in page order.
    pub fn build_ids_from_page(html: &str) -> (r: Option<Vec<String>>)
        ensures
            match r {
                Some(v) => page_build_ids(html@) == Some(crate::text::strings_view(v@)),
                None => page_build_ids(html@) is None,
            },
    {
        let d = parse_fragment(html);
        let flags = match match_selector(html, "tr > td > a") {
            Some(f) => f,
            None => return None,
        };
        let links = select_page_exec(&d, &flags);
        Self::first_texts_of(&d, &links)
    }

    /// The source segments that the build page `html` links, in page order.
    pub fn segments_from_page(html: &str) -> (r: Option<Vec<String>>)
        ensures
            match r {
                Some(v) => page_segments(html@) == Some(crate::text::strings_view(v@)),
                None => page_segments(html@) is None,
            },
    {
        let d = parse_fragment(html);
        let flags = match match_selector(html, ".text-secondary") {
            Some(f) => f,
            None => return None,
        };
        let links = select_page_exec(&d, &flags);
        Self::href_segments_of(&d, &links)
    }

    /// The cheats on the sources page `html`, in page order.
    pub fn cheats_from_page(html: &str) -> (r: Option<Vec<Cheat>>)
        ensures
            match r {
                Some(v) => page_cheats(html@) == Some(super::cheats_view(v@)),
                None => page_cheats(html@) is None,
            },
    {
        let d = parse_fragment(html);
        let t = match match_selector(html, "tbody") {
            Some(f) => f,
            None => return None,
        };
        let s = match match_selector(html, "strong") {
            Some(f) => f,
            None => return None,
        };
        let p = match match_selector(html, "pre") {
            Some(f) => f,
            None => return None,
        };
        let tbodies = select_page_exec(&d, &t);
        Self::sources_cheats_of(&d, &tbodies, &s, &p)
    }

    /// The cheats of a game from its fetched pages: for each build, in
    /// order, its id and the sources pages it links, in order. The cheats of
    /// a build's pages are gathered and added under the build id in upper
    /// case; `None` as soon as a page cannot be read.
    pub fn cheats_from_pages(builds: &Vec<(String, Vec<String>)>) -> (r: Option<CheatMap>)
        ensures
            match r {
                Some(m) => builds_cheats(builds_view(builds@)) == Some(m@),
                None => builds_cheats(builds_view(builds@)) is None,
            },
    {
        let ghost bv = builds_view(builds@);
        let mut result = CheatMap::new();
        let mut i: usize = 0;
        proof {
            assert(bv.take(0) == Seq::<(Seq<char>, Seq<Seq<char>>)>::empty());
        }
        while i < builds.len()
            invariant
                i <= builds.len(),
                bv == builds_view(builds@),
                bv.len() == builds.len(),
                builds_cheats(bv.take(i as int)) == Some(result@),
            decreases builds.len() - i,
        {
            let build_id = &builds[i].0;
            let pages = &builds[i].1;
            let ghost pv = crate::text::strings_view(pages@);
            proof {
                assert(bv[i as int] == (build_id@, pv));
                assert(bv.take(i + 1).drop_last() == bv.take(i as int));
                assert(bv.take(i + 1).last() == bv[i as int]);
                assert(pv.take(0) == Seq::<Seq<char>>::empty());
                assert(super::cheats_view(Seq::<Cheat>::empty()) == Seq::<CheatView>::empty());
            }
            let mut cheats: Vec<Cheat> = Vec::new();
            let mut j: usize = 0;
            while j < pages.len()
                invariant
                    j <= pages.len(),
                    pv == crate::text::strings_view(pages@),
                    pv.len() == pages.len(),
                    pages_cheats(pv.take(j as int)) == Some(super::cheats_view(cheats@)),
                    i < builds.len(),
                    bv == builds_view(builds@),
                    bv.len() == builds.len(),
                    bv.take(i + 1).drop_last() == bv.take(i as int),
                    bv.take(i + 1).last() == (build_id@, pv),
                    builds_cheats(bv.take(i as int)) == Some(result@),
                decreases pages.len() - j,
            {
                proof {
                    assert(pv[j as int] == pages@[j as int]@);
                    assert(pv.take(j + 1).drop_last() == pv.take(j as int));
                    assert(pv.take(j + 1).last() == pv[j as int]);
                }
                let mut found = match Self::cheats_from_page(pages[j].as_str()) {
                    Some(cs) => cs,
                    None => {
                        proof {
                            lemma_pages_none_prefix(pv, j + 1);
                            lemma_builds_none_prefix(bv, i + 1);
                        }
                        return None;
                    },
                };
                let ghost before = cheats@;
                let ghost added = found@;
                cheats.append(&mut found);
                proof {
                    assert(super::cheats_view(before + added) == super::cheats_view(before) + super::cheats_view(added));
                }
                j += 1;
            }
            proof {
                assert(pv.take(pages.len() as int) == pv);
            }
            Self::add_build(&mut result, build_id.as_str(), cheats);
            i += 1;
        }
        proof {
            assert(bv.take(builds.len() as int) == bv);
        }
        Some(result)
    }

    /// Adds the cheats gathered for build `build_id` to `result`, under the
    /// build id in upper case, when there is at least one.
    pub fn add_build(result: &mut CheatMap, build_id: &str, cheats: Vec<Cheat>)
        ensures
            final(result)@ == with_build(old(result)@, build_id@, super::cheats_view(cheats@)),
    {
        if cheats.len() > 0 {
            let id = to_uppercase(build_id);
            result.extend_build(id, cheats);
        }
    }
}


/// Whether every sources page of every build can be read.
pub open spec fn all_pages_read(builds: Seq<(Seq<char>, Seq<Seq<char>>)>) -> bool {
    forall|i: int| 0 <= i < builds.len() ==> (#[trigger] pages_cheats(builds[i].1)) is Some
}

/// What each build adds when its pages are read: its id in upper case and
/// the cheats of its pages, for a build whose pages hold at least one cheat.
pub open spec fn page_additions(builds: Seq<(Seq<char>, Seq<Seq<char>>)>) -> Seq<(Seq<char>, Seq<CheatView>)>
    decreases builds.len(),
{
    if builds.len() == 0 {
        Seq::<(Seq<char>, Seq<CheatView>)>::empty()
    } else {
        let r = page_additions(builds.drop_last());
        match pages_cheats(builds.last().1) {
            Some(cs) => if cs.len() > 0 {
                r.push((crate::text::uppercase(builds.last().0), cs))
            } else {
                r
            },
            None => r,
        }
    }
}

proof fn lemma_builds_cheats_add_all(builds: Seq<(Seq<char>, Seq<Seq<char>>)>)
    ensures
        builds_cheats(builds) == if all_pages_read(builds) {
            Some(super::add_all(page_additions(builds)))
        } else {
            None::<CheatMapView>
        },
    decreases builds.len(),
{
    if builds.len() > 0 {
        let b0 = builds.drop_last();
        lemma_builds_cheats_add_all(b0);
        assert(all_pages_read(builds) == (all_pages_read(b0) && pages_cheats(builds.last().1) is Some)) by {
            if all_pages_read(builds) {
                assert forall|i: int| 0 <= i < b0.len() implies (#[trigger] pages_cheats(b0[i].1)) is Some by {
                    assert(b0[i] == builds[i]);
                }
                assert(builds[builds.len() - 1] == builds.last());
            }
            if all_pages_read(b0) && pages_cheats(builds.last().1) is Some {
                assert forall|i: int| 0 <= i < builds.len() implies (#[trigger] pages_cheats(builds[i].1)) is Some by {
                    if i < b0.len() {
                        assert(b0[i] == builds[i]);
                    }
                }
            }
        }
        let r = page_additions(b0);
        match pages_cheats(builds.last().1) {
            Some(cs) => if cs.len() > 0 {
                let x = (crate::text::uppercase(builds.last().0), cs);
                assert(r.push(x).drop_last() == r);
            },
            None => {},
        }
    }
}

/// Reading a game's pages: the cheats come out exactly when every sources
/// page can be read, and then the builds are distinct and each holds, under
/// its id in upper case, the cheats of the pages of the builds with that
/// id, in order; a build whose pages hold no cheat is left out.
pub proof fn law_pages_filed_by_build(builds: Seq<(Seq<char>, Seq<Seq<char>>)>, k: Seq<char>)
    ensures
        builds_cheats(builds) is Some <==> all_pages_read(builds),
        builds_cheats(builds) matches Some(m) ==> crate::assoc::distinct_keys(m)
            && crate::assoc::lookup(m, k) == if super::mentions(page_additions(builds), k) {
                Some(super::filed_under(page_additions(builds), k))
            } else {
                None::<Seq<CheatView>>
            },
{
    lemma_builds_cheats_add_all(builds);
    super::law_add_all(page_additions(builds), k);
}


/// The cheats of two runs of sources pages are those of the first run
/// followed by those of the second, and fail when either fails.
pub proof fn law_pages_cheats_concat(a: Seq<Seq<char>>, b: Seq<Seq<char>>)
    ensures
        pages_cheats(a + b) == match (pages_cheats(a), pages_cheats(b)) {
            (Some(x), Some(y)) => Some(x + y),
            _ => None::<Seq<CheatView>>,
        },
    decreases b.len(),
{
    if b.len() == 0 {
        assert(a + b == a);
        match pages_cheats(a) {
            Some(x) => assert(x + Seq::<CheatView>::empty() == x),
            None => {},
        }
    } else {
        law_pages_cheats_concat(a, b.drop_last());
        assert((a + b).drop_last() == a + b.drop_last());
        assert((a + b).last() == b.last());
        match (pages_cheats(a), pages_cheats(b.drop_last()), page_cheats(b.last())) {
            (Some(x), Some(y), Some(z)) => assert(x + y + z == x + (y + z)),
            _ => {},
        }
    }
}

} // verus!
