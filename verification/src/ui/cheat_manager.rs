//! The cheat manager: the selected title, the chosen source and build, the
//! cheats fetched for the title, and the cheat files that installing writes.
use vstd::prelude::*;
use crate::cheat_provider::{Cheat, CheatMap, CheatProvider, CheatSource, CheatView, CheatMapView};
use crate::text::push_char;
use crate::tinfoil::TinfoilTitle;

verus! {

/// What the cheat manager shows and acts on.
pub struct CheatManager {
    pub title: Option<TinfoilTitle>,
    pub cheat_source: CheatSource,
    pub build_id: Option<String>,
    pub cheats: Option<CheatMap>,
}

/// The URL of the icon of title `id`.
pub open spec fn icon_url(id: Seq<char>) -> Seq<char> {
    "https://tinfoil.io/ti/"@ + id + "/235/235"@
}

/// The cheats shown for `build_id`: those of that build (none if the build
/// is unknown), or those of every build when no build is chosen; as
/// (build position, cheat position) pairs, in order.
pub open spec fn shown_cheats(m: CheatMapView, build_id: Option<Seq<char>>) -> Seq<(int, int)> {
    match build_id {
        Some(id) => if crate::assoc::has_key(m, id) {
            build_positions(crate::assoc::key_index(m, id), m[crate::assoc::key_index(m, id)].1.len())
        } else {
            Seq::<(int, int)>::empty()
        },
        None => all_positions(m),
    }
}

/// The positions of the `n` cheats of build `b`.
pub open spec fn build_positions(b: int, n: nat) -> Seq<(int, int)> {
    Seq::new(n, |c: int| (b, c))
}

/// The positions of all cheats, build after build.
pub open spec fn all_positions(m: CheatMapView) -> Seq<(int, int)>
    decreases m.len(),
{
    if m.len() == 0 {
        Seq::<(int, int)>::empty()
    } else {
        all_positions(m.drop_last()) + build_positions(m.len() - 1, m.last().1.len())
    }
}

/// The map after "select all" / "deselect all": the cheats of the chosen
/// build if there is one and it is known, else the cheats of every build.
pub open spec fn toggled(m: CheatMapView, build_id: Option<Seq<char>>, checked: bool) -> CheatMapView {
    match build_id {
        Some(id) => if crate::assoc::has_key(m, id) {
            crate::cheat_provider::build_with_checked(m, crate::assoc::key_index(m, id), checked)
        } else {
            crate::cheat_provider::all_with_checked(m, checked)
        },
        None => crate::cheat_provider::all_with_checked(m, checked),
    }
}

/// The view of an optional string.
pub open spec fn opt_view(o: Option<String>) -> Option<Seq<char>> {
    crate::cheat_provider::opt_string_view(o)
}

/// Code lines, each followed by a newline.
pub open spec fn code_text(code: Seq<Seq<char>>) -> Seq<char> {
    crate::text::text_of_lines(code)
}

/// A cheat as a cheat file holds it: `[name]` on a line, then its code lines.
pub open spec fn cheat_text(c: CheatView) -> Seq<char> {
    seq!['['] + c.name + seq![']', '\n'] + code_text(c.code)
}

/// The selected cheats of a build as one cheat file, each followed by an empty line.
pub open spec fn together_text(cs: Seq<CheatView>) -> Seq<char>
    decreases cs.len(),
{
    if cs.len() == 0 {
        Seq::<char>::empty()
    } else {
        let r = together_text(cs.drop_last());
        if cs.last().checked {
            r + cheat_text(cs.last()) + seq!['\n']
        } else {
            r
        }
    }
}

/// The name of the cheat file of build `b`.
pub open spec fn file_name(b: Seq<char>) -> Seq<char> {
    b + seq!['.', 't', 'x', 't']
}

/// The files written when installing the selected cheats together: one per
/// build (file name and content), in build order.
pub open spec fn together_files(m: CheatMapView) -> Seq<(Seq<char>, Seq<char>)> {
    m.map_values(|e: (Seq<char>, Seq<CheatView>)| (file_name(e.0), together_text(e.1)))
}

/// The files of the selected cheats of build `b`, one per cheat (directory
/// named after the cheat, file name, content).
pub open spec fn separate_build_files(b: Seq<char>, cs: Seq<CheatView>) -> Seq<(Seq<char>, Seq<char>, Seq<char>)>
    decreases cs.len(),
{
    if cs.len() == 0 {
        Seq::<(Seq<char>, Seq<char>, Seq<char>)>::empty()
    } else {
        let r = separate_build_files(b, cs.drop_last());
        if cs.last().checked {
            r.push((cs.last().name, file_name(b), cheat_text(cs.last())))
        } else {
            r
        }
    }
}

/// The files written when installing the selected cheats separately, build
/// after build.
pub open spec fn separate_files(m: CheatMapView) -> Seq<(Seq<char>, Seq<char>, Seq<char>)>
    decreases m.len(),
{
    if m.len() == 0 {
        Seq::<(Seq<char>, Seq<char>, Seq<char>)>::empty()
    } else {
        separate_files(m.drop_last()) + separate_build_files(m.last().0, m.last().1)
    }
}

impl Default for CheatManager {
    fn default() -> (m: Self)
        ensures
            m.title is None,
            m.cheat_source == CheatSource::Blawar,
            m.build_id is None,
            m.cheats is None,
    {
        CheatManager { title: None, cheat_source: CheatSource::Blawar, build_id: None, cheats: None }
    }
}

fn append_code(s: &mut String, code: &Vec<String>)
    ensures
        final(s)@ == old(s)@ + code_text(crate::text::strings_view(code@)),
{
    let ghost start = s@;
    let ghost cv = crate::text::strings_view(code@);
    let mut i: usize = 0;
    proof {
        assert(cv.take(0) == Seq::<Seq<char>>::empty());
        assert(start + code_text(Seq::<Seq<char>>::empty()) == start);
    }
    while i < code.len()
        invariant
            i <= code@.len(),
            cv == crate::text::strings_view(code@),
            s@ == start + code_text(cv.take(i as int)),
        decreases code.len() - i,
    {
        assert(cv.take(i + 1).drop_last() == cv.take(i as int));
        assert(cv.take(i + 1).last() == code@[i as int]@);
        s.append(code[i].as_str());
        push_char(s, '\n');
        assert(s@ == start + code_text(cv.take(i + 1)));
        i += 1;
    }
    assert(cv.take(code@.len() as int) == cv);
}

fn append_cheat(s: &mut String, c: &Cheat)
    ensures
        final(s)@ == old(s)@ + cheat_text(c@),
{
    let ghost start = s@;
    push_char(s, '[');
    s.append(c.name.as_str());
    push_char(s, ']');
    push_char(s, '\n');
    append_code(s, &c.code);
    assert(s@ == start + cheat_text(c@));
}

fn file_name_of(b: &String) -> (r: String)
    ensures
        r@ == file_name(b@),
{
    let mut r = b.clone();
    push_char(&mut r, '.');
    push_char(&mut r, 't');
    push_char(&mut r, 'x');
    push_char(&mut r, 't');
    assert(r@ == file_name(b@));
    r
}

fn together_text_of(cs: &Vec<Cheat>) -> (r: String)
    ensures
        r@ == together_text(crate::cheat_provider::cheats_view(cs@)),
{
    let ghost cv = crate::cheat_provider::cheats_view(cs@);
    let mut r = String::new();
    let mut i: usize = 0;
    proof {
        assert(cv.take(0) == Seq::<CheatView>::empty());
    }
    while i < cs.len()
        invariant
            i <= cs@.len(),
            cv == crate::cheat_provider::cheats_view(cs@),
            r@ == together_text(cv.take(i as int)),
        decreases cs.len() - i,
    {
        assert(cv.take(i + 1).drop_last() == cv.take(i as int));
        assert(cv.take(i + 1).last() == cs@[i as int]@);
        if cs[i].checked {
            append_cheat(&mut r, &cs[i]);
            push_char(&mut r, '\n');
        }
        i += 1;
    }
    assert(cv.take(cs@.len() as int) == cv);
    r
}

fn separate_build_files_of(b: &String, cs: &Vec<Cheat>, out: &mut Vec<(String, String, String)>)
    ensures
        final(out)@.map_values(|x: (String, String, String)| (x.0@, x.1@, x.2@))
            == old(out)@.map_values(|x: (String, String, String)| (x.0@, x.1@, x.2@))
            + separate_build_files(b@, crate::cheat_provider::cheats_view(cs@)),
{
    let ghost start = out@.map_values(|x: (String, String, String)| (x.0@, x.1@, x.2@));
    let ghost cv = crate::cheat_provider::cheats_view(cs@);
    let mut i: usize = 0;
    proof {
        assert(cv.take(0) == Seq::<CheatView>::empty());
        assert(start + separate_build_files(b@, Seq::<CheatView>::empty()) == start);
    }
    while i < cs.len()
        invariant
            i <= cs@.len(),
            cv == crate::cheat_provider::cheats_view(cs@),
            out@.map_values(|x: (String, String, String)| (x.0@, x.1@, x.2@)) == start
                + separate_build_files(b@, cv.take(i as int)),
        decreases cs.len() - i,
    {
        assert(cv.take(i + 1).drop_last() == cv.take(i as int));
        assert(cv.take(i + 1).last() == cs@[i as int]@);
        if cs[i].checked {
            let mut text = String::new();
            append_cheat(&mut text, &cs[i]);
            let ghost before = out@;
            let item = (cs[i].name.clone(), file_name_of(b), text);
            out.push(item);
            assert(out@.map_values(|x: (String, String, String)| (x.0@, x.1@, x.2@)) == before.map_values(
                |x: (String, String, String)| (x.0@, x.1@, x.2@),
            ).push((item.0@, item.1@, item.2@)));
        }
        i += 1;
    }
    assert(cv.take(cs@.len() as int) == cv);
}

impl CheatManager {
    /// Shows title `title`: a title other than the current one replaces it,
    /// forgets the chosen build and the fetched cheats, and asks for its icon
    /// (the returned URL); the current title again changes nothing.
    pub fn set_title(&mut self, title: TinfoilTitle) -> (icon: Option<String>)
        ensures
            if old(self).title matches Some(t) && t.id@ == title.id@ {
                *final(self) == *old(self) && icon is None
            } else {
                &&& final(self).title == Some(title)
                &&& final(self).cheat_source == old(self).cheat_source
                &&& final(self).build_id is None
                &&& final(self).cheats is None
                &&& icon matches Some(u) && u@ == icon_url(title.id@)
            },
    {
        let same = match &self.title {
            Some(t) => t.id == title.id,
            None => false,
        };
        if same {
            return None;
        }
        let mut url = String::from_str("https://tinfoil.io/ti/");
        url.append(title.id.as_str());
        url.append("/235/235");
        self.title = Some(title);
        self.build_id = None;
        self.cheats = None;
        Some(url)
    }

    /// Starts fetching the cheats of the current title: forgets the chosen
    /// build and gives the provider of the chosen source with the title's
    /// name and id.
    pub fn begin_fetch(&mut self) -> (r: (CheatProvider, String, String))
        requires
            old(self).title is Some,
        ensures
            crate::cheat_provider::provides(old(self).cheat_source, r.0),
            r.1@ == old(self).title->0.name@,
            r.2@ == old(self).title->0.id@,
            final(self).build_id is None,
            final(self).title == old(self).title,
            final(self).cheat_source == old(self).cheat_source,
            final(self).cheats == old(self).cheats,
    {
        self.build_id = None;
        let provider = self.cheat_source.provider();
        match &self.title {
            Some(t) => (provider, t.name.clone(), t.id.clone()),
            None => (provider, String::new(), String::new()),
        }
    }

    /// Takes the result of a fetch: an empty result counts as none.
    pub fn receive_cheats(&mut self, result: Option<CheatMap>)
        ensures
            final(self).cheats == (match result {
                Some(m) => if m@.len() > 0 {
                    Some(m)
                } else {
                    None::<CheatMap>
                },
                None => None::<CheatMap>,
            }),
            final(self).title == old(self).title,
            final(self).cheat_source == old(self).cheat_source,
            final(self).build_id == old(self).build_id,
    {
        self.cheats = match result {
            Some(m) => if m.is_empty() {
                None
            } else {
                Some(m)
            },
            None => None,
        };
    }

    /// Selects (or deselects) all cheats: those of the chosen build if it is
    /// known, else those of every build.
    pub fn toggle_all_cheats(&mut self, checked: bool)
        ensures
            final(self).title == old(self).title,
            final(self).cheat_source == old(self).cheat_source,
            final(self).build_id == old(self).build_id,
            match old(self).cheats {
                Some(m) => final(self).cheats matches Some(n) && n@ == toggled(
                    m@,
                    opt_view(old(self).build_id),
                    checked,
                ),
                None => final(self).cheats is None,
            },
    {
        let pos = match (&self.cheats, &self.build_id) {
            (Some(m), Some(id)) => m.position(id),
            _ => None,
        };
        match &mut self.cheats {
            Some(m) => {
                match pos {
                    Some(i) => {
                        m.set_checked_build(i, checked);
                    },
                    None => m.set_checked_all(checked),
                }
            },
            None => {},
        }
    }

    /// The cheats shown in the table, as (build position, cheat position) pairs.
    pub fn shown_cheats(&self) -> (r: Vec<(usize, usize)>)
        ensures
            r@.map_values(|p: (usize, usize)| (p.0 as int, p.1 as int)) == (match self.cheats {
                Some(m) => shown_cheats(m@, opt_view(self.build_id)),
                None => Seq::<(int, int)>::empty(),
            }),
    {
        let mut r: Vec<(usize, usize)> = Vec::new();
        proof {
            assert(r@.map_values(|p: (usize, usize)| (p.0 as int, p.1 as int)) == Seq::<(int, int)>::empty());
        }
        let m = match &self.cheats {
            Some(m) => m,
            None => return r,
        };
        let entries = m.entries();
        let ghost mv = m@;
        match &self.build_id {
            Some(id) => {
                match m.position(id) {
                    Some(b) => {
                        push_positions(&mut r, b, entries[b].1.len());
                        assert(entries@[b as int].1@.len() == mv[b as int].1.len());
                    },
                    None => {},
                }
            },
            None => {
                let mut b: usize = 0;
                proof {
                    assert(mv.take(0) == Seq::<(Seq<char>, Seq<CheatView>)>::empty());
                }
                while b < entries.len()
                    invariant
                        b <= entries@.len(),
                        mv == entries@.map_values(|e: (String, Vec<Cheat>)| (e.0@, crate::cheat_provider::cheats_view(e.1@))),
                        r@.map_values(|p: (usize, usize)| (p.0 as int, p.1 as int)) == all_positions(mv.take(b as int)),
                    decreases entries.len() - b,
                {
                    assert(mv.take(b + 1).drop_last() == mv.take(b as int));
                    assert(mv.take(b + 1).last() == mv[b as int]);
                    assert(entries@[b as int].1@.len() == mv[b as int].1.len());
                    push_positions(&mut r, b, entries[b].1.len());
                    b += 1;
                }
                assert(mv.take(entries@.len() as int) == mv);
            },
        }
        r
    }

    /// The cheat files written when installing the selected cheats together:
    /// one file per build, named after the build, holding its selected cheats.
    pub fn together_files(cheats: &CheatMap) -> (r: Vec<(String, String)>)
        ensures
            r@.map_values(|x: (String, String)| (x.0@, x.1@)) == together_files(cheats@),
    {
        let entries = cheats.entries();
        let mut r: Vec<(String, String)> = Vec::new();
        let mut i: usize = 0;
        while i < entries.len()
            invariant
                i <= entries@.len(),
                r@.len() == i,
                forall|k: int| 0 <= k < i ==> (#[trigger] r@[k]).0@ == file_name(entries@[k].0@)
                    && r@[k].1@ == together_text(crate::cheat_provider::cheats_view(entries@[k].1@)),
            decreases entries.len() - i,
        {
            let name = file_name_of(&entries[i].0);
            let text = together_text_of(&entries[i].1);
            r.push((name, text));
            i += 1;
        }
        assert(r@.map_values(|x: (String, String)| (x.0@, x.1@)) =~= together_files(cheats@));
        r
    }

    /// The cheat files written when installing the selected cheats
    /// separately: one file per selected cheat (directory named after the
    /// cheat, file named after the build, the cheat as content).
    pub fn separate_files(cheats: &CheatMap) -> (r: Vec<(String, String, String)>)
        ensures
            r@.map_values(|x: (String, String, String)| (x.0@, x.1@, x.2@)) == separate_files(cheats@),
    {
        let entries = cheats.entries();
        let ghost mv = cheats@;
        let mut r: Vec<(String, String, String)> = Vec::new();
        let mut i: usize = 0;
        proof {
            assert(mv.take(0) == Seq::<(Seq<char>, Seq<CheatView>)>::empty());
            assert(r@.map_values(|x: (String, String, String)| (x.0@, x.1@, x.2@)) == Seq::<(Seq<char>, Seq<char>, Seq<char>)>::empty());
        }
        while i < entries.len()
            invariant
                i <= entries@.len(),
                mv == entries@.map_values(|e: (String, Vec<Cheat>)| (e.0@, crate::cheat_provider::cheats_view(e.1@))),
                r@.map_values(|x: (String, String, String)| (x.0@, x.1@, x.2@)) == separate_files(mv.take(i as int)),
            decreases entries.len() - i,
        {
            assert(mv.take(i + 1).drop_last() == mv.take(i as int));
            assert(mv.take(i + 1).last() == mv[i as int]);
            separate_build_files_of(&entries[i].0, &entries[i].1, &mut r);
            i += 1;
        }
        assert(mv.take(entries@.len() as int) == mv);
        r
    }
}

fn push_positions(r: &mut Vec<(usize, usize)>, b: usize, n: usize)
    ensures
        final(r)@.map_values(|p: (usize, usize)| (p.0 as int, p.1 as int)) == old(r)@.map_values(
            |p: (usize, usize)| (p.0 as int, p.1 as int),
        ) + build_positions(b as int, n as nat),
{
    let ghost start = r@.map_values(|p: (usize, usize)| (p.0 as int, p.1 as int));
    let mut c: usize = 0;
    while c < n
        invariant
            c <= n,
            r@.map_values(|p: (usize, usize)| (p.0 as int, p.1 as int)) == start + build_positions(b as int, c as nat),
        decreases n - c,
    {
        let ghost before = r@;
        r.push((b, c));
        assert(r@.map_values(|p: (usize, usize)| (p.0 as int, p.1 as int)) == before.map_values(
            |p: (usize, usize)| (p.0 as int, p.1 as int),
        ).push((b as int, c as int)));
        assert(build_positions(b as int, (c + 1) as nat) == build_positions(b as int, c as nat).push((b as int, c as int)));
        c += 1;
    }
}

/// "Select all" / "deselect all": the builds and the names and code of all
/// cheats stay as they are; every cheat of the chosen build, if it is known,
/// else of every build, gets the new selection; the others keep theirs.
pub proof fn law_toggle_all(m: CheatMapView, build_id: Option<Seq<char>>, checked: bool)
    ensures
        ({
            let t = toggled(m, build_id, checked);
            let all = !(build_id matches Some(id) && crate::assoc::has_key(m, id));
            &&& t.len() == m.len()
            &&& forall|b: int| 0 <= b < m.len() ==> (#[trigger] t[b]).0 == m[b].0 && t[b].1.len() == m[b].1.len()
            &&& forall|b: int, c: int| 0 <= b < m.len() && 0 <= c < m[b].1.len() ==> {
                &&& (#[trigger] t[b].1[c]).name == m[b].1[c].name
                &&& t[b].1[c].code == m[b].1[c].code
                &&& t[b].1[c].checked == (if all || b == crate::assoc::key_index(m, build_id->0) {
                    checked
                } else {
                    m[b].1[c].checked
                })
            }
        }),
{
}

/// The lines of the cheat file that installing `cs` together writes: for
/// each selected cheat its header, its code lines, and an empty line.
pub open spec fn together_lines(cs: Seq<CheatView>) -> Seq<Seq<char>>
    decreases cs.len(),
{
    if cs.len() == 0 {
        Seq::<Seq<char>>::empty()
    } else {
        let r = together_lines(cs.drop_last());
        let c = cs.last();
        if c.checked {
            r + (seq![crate::cheat_provider::header_line(c.name)] + c.code + seq![Seq::<char>::empty()])
        } else {
            r
        }
    }
}

/// The selected cheats of `cs`, in order, as reading them back gives them.
pub open spec fn selected_cheats(cs: Seq<CheatView>) -> Seq<CheatView>
    decreases cs.len(),
{
    if cs.len() == 0 {
        Seq::<CheatView>::empty()
    } else {
        let r = selected_cheats(cs.drop_last());
        if cs.last().checked {
            r.push(crate::cheat_provider::unchecked(cs.last()))
        } else {
            r
        }
    }
}

proof fn lemma_cheat_text_lines(c: CheatView)
    ensures
        cheat_text(c) == crate::text::text_of_lines(seq![crate::cheat_provider::header_line(c.name)] + c.code),
{
    let h = crate::cheat_provider::header_line(c.name);
    crate::text::lemma_text_of_lines_concat(seq![h], c.code);
    assert(seq![h].drop_last() == Seq::<Seq<char>>::empty());
    assert(seq![h].last() == h);
    assert(crate::text::text_of_lines(Seq::<Seq<char>>::empty()) == Seq::<char>::empty());
    assert(Seq::<char>::empty() + h + seq!['\n'] == h + seq!['\n']);
    assert(crate::text::text_of_lines(seq![h]) == h + seq!['\n']);
    assert(cheat_text(c) == h + seq!['\n'] + crate::text::text_of_lines(c.code));
}

proof fn lemma_together_text_lines(cs: Seq<CheatView>)
    ensures
        together_text(cs) == crate::text::text_of_lines(together_lines(cs)),
    decreases cs.len(),
{
    if cs.len() > 0 {
        lemma_together_text_lines(cs.drop_last());
        let c = cs.last();
        if c.checked {
            let h = crate::cheat_provider::header_line(c.name);
            let e = Seq::<char>::empty();
            lemma_cheat_text_lines(c);
            crate::text::lemma_text_of_lines_concat(seq![h] + c.code, seq![e]);
            assert(seq![e].drop_last() == Seq::<Seq<char>>::empty());
            assert(seq![e].last() == e);
            assert(crate::text::text_of_lines(Seq::<Seq<char>>::empty()) == Seq::<char>::empty());
            assert(Seq::<char>::empty() + e + seq!['\n'] == seq!['\n']);
            assert(crate::text::text_of_lines(seq![e]) == seq!['\n']);
            crate::text::lemma_text_of_lines_concat(together_lines(cs.drop_last()), seq![h] + c.code + seq![e]);
        }
    }
}

proof fn lemma_together_lines_plain(cs: Seq<CheatView>)
    requires
        forall|i: int| 0 <= i < cs.len() && (#[trigger] cs[i]).checked ==> crate::cheat_provider::writable_cheat(cs[i]),
    ensures
        forall|j: int| 0 <= j < together_lines(cs).len() ==> crate::text::no_newline(#[trigger] together_lines(cs)[j])
            && crate::text::strip_cr(together_lines(cs)[j]) == together_lines(cs)[j],
    decreases cs.len(),
{
    if cs.len() > 0 {
        lemma_together_lines_plain(cs.drop_last());
        let c = cs.last();
        assert(cs[cs.len() - 1] == c);
        if c.checked {
            let h = crate::cheat_provider::header_line(c.name);
            let block = seq![h] + c.code + seq![Seq::<char>::empty()];
            let r = together_lines(cs.drop_last());
            assert forall|j: int| 0 <= j < block.len() implies crate::text::no_newline(#[trigger] block[j])
                && crate::text::strip_cr(block[j]) == block[j] by {
                if j == 0 {
                    assert(block[j] == h);
                    assert(crate::text::no_newline(h));
                } else if j <= c.code.len() {
                    assert(block[j] == c.code[j - 1]);
                    let l = c.code[j - 1];
                    assert(crate::cheat_provider::well_formed_code_line(l));
                    crate::text::lemma_trim_shape(l);
                } else {
                    assert(block[j] == Seq::<char>::empty());
                }
            }
            assert forall|j: int| 0 <= j < (r + block).len() implies crate::text::no_newline(#[trigger] (r + block)[j])
                && crate::text::strip_cr((r + block)[j]) == (r + block)[j] by {
                if j < r.len() {
                    assert((r + block)[j] == r[j]);
                } else {
                    assert((r + block)[j] == block[j - r.len()]);
                }
            }
        }
    }
}

proof fn lemma_read_together(cs: Seq<CheatView>)
    requires
        forall|i: int| 0 <= i < cs.len() && (#[trigger] cs[i]).checked ==> crate::cheat_provider::writable_cheat(cs[i]),
    ensures
        ({
            let st = crate::cheat_provider::parse_from(crate::cheat_provider::initial_state(), together_lines(cs));
            &&& crate::cheat_provider::flush(st) == selected_cheats(cs)
            &&& (st.name is None ==> st.code.len() == 0)
        }),
    decreases cs.len(),
{
    let init = crate::cheat_provider::initial_state();
    if cs.len() == 0 {
        assert(crate::cheat_provider::parse_from(init, Seq::<Seq<char>>::empty()) == init);
    } else {
        lemma_read_together(cs.drop_last());
        let c = cs.last();
        assert(cs[cs.len() - 1] == c);
        if c.checked {
            let h = crate::cheat_provider::header_line(c.name);
            let e = Seq::<char>::empty();
            let r = together_lines(cs.drop_last());
            let s1 = crate::cheat_provider::parse_from(init, r);
            crate::cheat_provider::lemma_parse_from_concat(init, r, seq![h] + c.code + seq![e]);
            crate::cheat_provider::lemma_parse_from_concat(s1, seq![h] + c.code, seq![e]);
            crate::cheat_provider::lemma_read_cheat(s1, c);
            let s2 = crate::cheat_provider::parse_from(s1, seq![h] + c.code);
            assert(seq![e].drop_last() == Seq::<Seq<char>>::empty());
            assert(crate::cheat_provider::parse_from(s2, Seq::<Seq<char>>::empty()) == s2);
            assert(crate::text::trim(e) == e);
            assert(crate::cheat_provider::header_name(e) is None);
            assert(crate::cheat_provider::parse_from(s2, seq![e]) == s2);
        }
    }
}

/// A file written by "install together" reads back as the selected cheats,
/// in order and not selected, when every selected cheat can be written
/// (trimmed name without newline, and well-formed code lines without newline).
pub proof fn law_together_file_reads_back(cs: Seq<CheatView>)
    requires
        forall|i: int| 0 <= i < cs.len() && (#[trigger] cs[i]).checked ==> crate::cheat_provider::writable_cheat(cs[i]),
    ensures
        crate::cheat_provider::parse_cheats(together_text(cs)) == selected_cheats(cs),
{
    lemma_together_text_lines(cs);
    lemma_together_lines_plain(cs);
    crate::text::lemma_lines_of_text(together_lines(cs));
    lemma_read_together(cs);
}

/// A file written by "install separately" reads back as its cheat, not
/// selected, when the cheat can be written.
pub proof fn law_separate_file_reads_back(c: CheatView)
    requires
        crate::cheat_provider::writable_cheat(c),
    ensures
        crate::cheat_provider::parse_cheats(cheat_text(c)) == seq![crate::cheat_provider::unchecked(c)],
{
    let cs = seq![CheatView { name: c.name, code: c.code, checked: true }];
    let x = cs[0];
    assert(cs.drop_last() == Seq::<CheatView>::empty());
    assert(cs.last() == x);
    assert(Seq::<Seq<char>>::empty() + (seq![crate::cheat_provider::header_line(c.name)] + c.code) == seq![crate::cheat_provider::header_line(c.name)] + c.code);
    let ls = seq![crate::cheat_provider::header_line(c.name)] + c.code;
    lemma_cheat_text_lines(c);
    assert forall|j: int| 0 <= j < ls.len() implies crate::text::no_newline(#[trigger] ls[j]) && crate::text::strip_cr(ls[j]) == ls[j] by {
        if j == 0 {
            assert(ls[j] == crate::cheat_provider::header_line(c.name));
        } else {
            assert(ls[j] == c.code[j - 1]);
            crate::text::lemma_trim_shape(c.code[j - 1]);
        }
    }
    crate::text::lemma_lines_of_text(ls);
    let init = crate::cheat_provider::initial_state();
    crate::cheat_provider::lemma_read_cheat(init, c);
    assert(crate::cheat_provider::flush(init) == Seq::<CheatView>::empty());
}


/// A cheat file holding all of `cs`: each cheat as `[name]` and its code
/// lines, each followed by an empty line.
pub open spec fn cheats_file_text(cs: Seq<CheatView>) -> Seq<char>
    decreases cs.len(),
{
    if cs.len() == 0 {
        Seq::<char>::empty()
    } else {
        cheats_file_text(cs.drop_last()) + cheat_text(cs.last()) + seq!['\n']
    }
}

/// `c`, selected.
pub open spec fn selected(c: CheatView) -> CheatView {
    CheatView { name: c.name, code: c.code, checked: true }
}

proof fn lemma_all_selected(cs: Seq<CheatView>)
    ensures
        together_text(cs.map_values(|c: CheatView| selected(c))) == cheats_file_text(cs),
        selected_cheats(cs.map_values(|c: CheatView| selected(c)))
            == cs.map_values(|c: CheatView| crate::cheat_provider::unchecked(c)),
    decreases cs.len(),
{
    let ck = cs.map_values(|c: CheatView| selected(c));
    if cs.len() > 0 {
        lemma_all_selected(cs.drop_last());
        assert(ck.drop_last() == cs.drop_last().map_values(|c: CheatView| selected(c)));
        assert(ck.last() == selected(cs.last()));
        assert(cheat_text(ck.last()) == cheat_text(cs.last()));
        assert(cs.map_values(|c: CheatView| crate::cheat_provider::unchecked(c))
            == cs.drop_last().map_values(|c: CheatView| crate::cheat_provider::unchecked(c)).push(
                crate::cheat_provider::unchecked(cs.last()),
            ));
        assert(crate::cheat_provider::unchecked(ck.last()) == crate::cheat_provider::unchecked(cs.last()));
    } else {
        assert(ck == Seq::<CheatView>::empty());
        assert(cs.map_values(|c: CheatView| crate::cheat_provider::unchecked(c)) == Seq::<CheatView>::empty());
    }
}

/// A cheat file holding writable cheats reads back as those cheats, in
/// order, with the same names and code, not selected.
pub proof fn law_cheats_file_reads_back(cs: Seq<CheatView>)
    requires
        forall|i: int| 0 <= i < cs.len() ==> crate::cheat_provider::writable_cheat(#[trigger] cs[i]),
    ensures
        crate::cheat_provider::parse_cheats(cheats_file_text(cs))
            == cs.map_values(|c: CheatView| crate::cheat_provider::unchecked(c)),
{
    let ck = cs.map_values(|c: CheatView| selected(c));
    assert forall|i: int| 0 <= i < ck.len() && (#[trigger] ck[i]).checked implies crate::cheat_provider::writable_cheat(ck[i]) by {
        assert(ck[i] == selected(cs[i]));
        assert(crate::cheat_provider::writable_cheat(cs[i]));
    }
    lemma_all_selected(cs);
    law_together_file_reads_back(ck);
}


/// Installing together writes one file per build, in build order: the file
/// of build `i` is named after that build with `.txt`, and reads back as
/// exactly the selected cheats of that build, in order and not selected,
/// when every selected cheat can be written.
pub proof fn law_together_files_per_build(m: CheatMapView)
    requires
        forall|b: int, c: int| 0 <= b < m.len() && 0 <= c < m[b].1.len() && (#[trigger] m[b].1[c]).checked
            ==> crate::cheat_provider::writable_cheat(m[b].1[c]),
    ensures
        together_files(m).len() == m.len(),
        forall|i: int| 0 <= i < m.len() ==> (#[trigger] together_files(m)[i]).0 == m[i].0 + seq!['.', 't', 'x', 't']
            && crate::cheat_provider::parse_cheats(together_files(m)[i].1) == selected_cheats(m[i].1),
{
    assert forall|i: int| 0 <= i < m.len() implies (#[trigger] together_files(m)[i]).0 == m[i].0 + seq!['.', 't', 'x', 't']
        && crate::cheat_provider::parse_cheats(together_files(m)[i].1) == selected_cheats(m[i].1) by {
        let cs = m[i].1;
        assert forall|c: int| 0 <= c < cs.len() && (#[trigger] cs[c]).checked implies crate::cheat_provider::writable_cheat(cs[c]) by {
            assert(m[i].1[c] == cs[c]);
        }
        law_together_file_reads_back(cs);
    }
}


/// Installing the cheats of one build separately writes one file per
/// selected cheat, in order: the `j`-th file sits in a directory named after
/// the `j`-th selected cheat, is named after the build with `.txt`, and
/// reads back as exactly that cheat, not selected, when every selected
/// cheat can be written.
pub proof fn law_separate_build_files(b: Seq<char>, cs: Seq<CheatView>)
    requires
        forall|c: int| 0 <= c < cs.len() && (#[trigger] cs[c]).checked ==> crate::cheat_provider::writable_cheat(cs[c]),
    ensures
        separate_build_files(b, cs).len() == selected_cheats(cs).len(),
        forall|j: int| 0 <= j < separate_build_files(b, cs).len() ==> {
            let f = #[trigger] separate_build_files(b, cs)[j];
            &&& f.0 == selected_cheats(cs)[j].name
            &&& f.1 == b + seq!['.', 't', 'x', 't']
            &&& crate::cheat_provider::parse_cheats(f.2) == seq![selected_cheats(cs)[j]]
        },
    decreases cs.len(),
{
    if cs.len() > 0 {
        let c0 = cs.drop_last();
        assert forall|c: int| 0 <= c < c0.len() && (#[trigger] c0[c]).checked implies crate::cheat_provider::writable_cheat(c0[c]) by {
            assert(c0[c] == cs[c]);
        }
        law_separate_build_files(b, c0);
        let x = cs.last();
        assert(cs[cs.len() - 1] == x);
        if x.checked {
            law_separate_file_reads_back(x);
        }
    }
}

/// Installing separately treats the builds one after the other: the files
/// of two runs of builds are those of the first run followed by those of
/// the second, and the files of one build are those of its cheats.
pub proof fn law_separate_files_by_build(m1: CheatMapView, m2: CheatMapView, e: (Seq<char>, Seq<CheatView>))
    ensures
        separate_files(m1 + m2) == separate_files(m1) + separate_files(m2),
        separate_files(seq![e]) == separate_build_files(e.0, e.1),
    decreases m2.len(),
{
    if m2.len() == 0 {
        assert(m1 + m2 == m1);
        assert(separate_files(m1) + separate_files(m2) == separate_files(m1));
    } else {
        law_separate_files_by_build(m1, m2.drop_last(), e);
        assert((m1 + m2).drop_last() == m1 + m2.drop_last());
        assert((m1 + m2).last() == m2.last());
        assert(separate_files(m1) + separate_files(m2.drop_last()) + separate_build_files(m2.last().0, m2.last().1)
            == separate_files(m1) + (separate_files(m2.drop_last()) + separate_build_files(m2.last().0, m2.last().1)));
    }
    let none = Seq::<(Seq<char>, Seq<CheatView>)>::empty();
    assert(seq![e].drop_last() == none);
    assert(seq![e].last() == e);
    assert(separate_files(none) + separate_build_files(e.0, e.1) == separate_build_files(e.0, e.1));
}


/// Whether position `p` comes before position `q`: an earlier build, or the
/// same build and an earlier cheat.
pub open spec fn before(p: (int, int), q: (int, int)) -> bool {
    p.0 < q.0 || (p.0 == q.0 && p.1 < q.1)
}

proof fn lemma_all_positions(m: CheatMapView)
    ensures
        all_positions(m).len() == crate::cheat_provider::total_cheats(m),
        forall|j: int| 0 <= j < all_positions(m).len() ==> {
            let p = #[trigger] all_positions(m)[j];
            0 <= p.0 < m.len() && 0 <= p.1 < m[p.0].1.len()
        },
        forall|j: int, k: int| 0 <= j < k < all_positions(m).len() ==> before(
            #[trigger] all_positions(m)[j],
            #[trigger] all_positions(m)[k],
        ),
    decreases m.len(),
{
    if m.len() > 0 {
        let m0 = m.drop_last();
        lemma_all_positions(m0);
        let a = all_positions(m0);
        let b = build_positions(m.len() - 1, m.last().1.len());
        let s = a + b;
        assert forall|j: int| 0 <= j < s.len() implies {
            let p = #[trigger] s[j];
            0 <= p.0 < m.len() && 0 <= p.1 < m[p.0].1.len()
        } by {
            if j < a.len() {
                assert(s[j] == a[j]);
                assert(m[a[j].0] == m0[a[j].0]);
            } else {
                assert(s[j] == b[j - a.len()]);
            }
        }
        assert forall|j: int, k: int| 0 <= j < k < s.len() implies before(#[trigger] s[j], #[trigger] s[k]) by {
            if k < a.len() {
                assert(s[j] == a[j] && s[k] == a[k]);
            } else if j < a.len() {
                assert(s[j] == a[j]);
                assert(s[k] == b[k - a.len()]);
            } else {
                assert(s[j] == b[j - a.len()] && s[k] == b[k - a.len()]);
            }
        }
    }
}

/// The cheats shown: with a build chosen, exactly the cheats of that build,
/// each once and in order (none when the build is unknown); with no build
/// chosen, every cheat of every build, each once, build after build and in
/// order within a build.
pub proof fn law_shown_cheats(m: CheatMapView, id: Seq<char>)
    ensures
        crate::assoc::has_key(m, id) ==> ({
            let s = shown_cheats(m, Some(id));
            &&& s.len() == crate::assoc::lookup(m, id)->0.len()
            &&& forall|j: int| 0 <= j < s.len() ==> 0 <= (#[trigger] s[j]).0 < m.len() && m[s[j].0].0 == id && s[j].1 == j
        }),
        !crate::assoc::has_key(m, id) ==> shown_cheats(m, Some(id)).len() == 0,
        shown_cheats(m, None).len() == crate::cheat_provider::total_cheats(m),
        forall|j: int| 0 <= j < shown_cheats(m, None).len() ==> {
            let p = #[trigger] shown_cheats(m, None)[j];
            0 <= p.0 < m.len() && 0 <= p.1 < m[p.0].1.len()
        },
        forall|j: int, k: int| 0 <= j < k < shown_cheats(m, None).len() ==> before(
            #[trigger] shown_cheats(m, None)[j],
            #[trigger] shown_cheats(m, None)[k],
        ),
{
    lemma_all_positions(m);
    if crate::assoc::has_key(m, id) {
        let b = crate::assoc::key_index(m, id);
        assert(0 <= b < m.len() && m[b].0 == id);
    }
}

} // verus!
