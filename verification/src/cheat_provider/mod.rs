//! Cheats, the per-build collection of cheats that every provider returns,
//! the cheat-file format that the emulators read, and the choice of provider.
pub mod gbatemp;
pub mod github;
pub mod blawar;
pub mod cheatslips;
pub mod hamlet;
pub mod tinfoil;

use vstd::prelude::*;
use crate::assoc::{distinct_keys, has_key, key_index, lemma_key_index_unique, lookup};
use self::blawar::BlawarProvider;
use self::cheatslips::CheatSlipsProvider;
use self::github::GithubProvider;
use self::hamlet::HamletProvider;
use self::tinfoil::TinfoilProvider;
use crate::text::{chars_of, lines_of, string_of, trim_chars, trim_matches_chars};

verus! {

/// One cheat: its name, its code lines, and whether the user selected it.
pub struct Cheat {
    pub name: String,
    pub code: Vec<String>,
    pub checked: bool,
}

/// What a `Cheat` holds, as plain sequences.
pub struct CheatView {
    pub name: Seq<char>,
    pub code: Seq<Seq<char>>,
    pub checked: bool,
}

impl View for Cheat {
    type V = CheatView;

    open spec fn view(&self) -> CheatView {
        CheatView {
            name: self.name@,
            code: crate::text::strings_view(self.code@),
            checked: self.checked,
        }
    }
}

/// The views of a sequence of cheats.
pub open spec fn cheats_view(v: Seq<Cheat>) -> Seq<CheatView> {
    v.map_values(|c: Cheat| c@)
}

/// What a `CheatMap` holds: build ids with their cheats, in the order in
/// which the builds were first added.
pub type CheatMapView = Seq<(Seq<char>, Seq<CheatView>)>;

/// `s` after appending `cs` to the cheats of build `k`, adding the build
/// (last) when it is not present yet; with `cs` empty this only makes sure
/// that the build is present.
pub open spec fn add_cheats(s: CheatMapView, k: Seq<char>, cs: Seq<CheatView>) -> CheatMapView {
    if has_key(s, k) {
        let i = key_index(s, k);
        s.update(i, (k, s[i].1 + cs))
    } else {
        s.push((k, cs))
    }
}

/// The number of cheats over all builds.
pub open spec fn total_cheats(s: CheatMapView) -> nat
    decreases s.len(),
{
    if s.len() == 0 {
        0
    } else {
        total_cheats(s.drop_last()) + s.last().1.len()
    }
}

/// Cheats grouped by build id.
pub struct CheatMap {
    entries: Vec<(String, Vec<Cheat>)>,
}

impl View for CheatMap {
    type V = CheatMapView;

    closed spec fn view(&self) -> CheatMapView {
        self.entries@.map_values(|e: (String, Vec<Cheat>)| (e.0@, cheats_view(e.1@)))
    }
}

impl CheatMap {
    #[verifier::type_invariant]
    spec fn builds_distinct(&self) -> bool {
        distinct_keys(self@)
    }

    /// A map with no builds.
    pub fn new() -> (m: Self)
        ensures
            m@ == Seq::<(Seq<char>, Seq<CheatView>)>::empty(),
    {
        let m = CheatMap { entries: Vec::new() };
        assert(m@ =~= Seq::<(Seq<char>, Seq<CheatView>)>::empty());
        m
    }

    /// The number of builds.
    pub fn len(&self) -> (n: usize)
        ensures
            n == self@.len(),
    {
        self.entries.len()
    }

    /// Whether there are no builds.
    pub fn is_empty(&self) -> (b: bool)
        ensures
            b == (self@.len() == 0),
    {
        self.entries.len() == 0
    }

    /// Every build id paired with its cheats, in order.
    pub fn entries(&self) -> (e: &Vec<(String, Vec<Cheat>)>)
        ensures
            e@.map_values(|e: (String, Vec<Cheat>)| (e.0@, cheats_view(e.1@))) == self@,
    {
        &self.entries
    }

    /// The position of build `build_id`, if present.
    pub fn position(&self, build_id: &String) -> (r: Option<usize>)
        ensures
            match r {
                Some(i) => i < self@.len() && self@[i as int].0 == build_id@ && has_key(
                    self@,
                    build_id@,
                ) && key_index(self@, build_id@) == i,
                None => !has_key(self@, build_id@),
            },
    {
        proof {
            use_type_invariant(self);
        }
        let mut i: usize = 0;
        while i < self.entries.len()
            invariant
                i <= self.entries@.len(),
                distinct_keys(self@),
                forall|j: int| 0 <= j < i ==> self@[j].0 != build_id@,
            decreases self.entries.len() - i,
        {
            if self.entries[i].0 == *build_id {
                proof {
                    lemma_key_index_unique(self@, build_id@, i as int);
                }
                return Some(i);
            }
            i += 1;
        }
        None
    }

    /// The cheats of build `build_id`, if present.
    pub fn get(&self, build_id: &String) -> (r: Option<&Vec<Cheat>>)
        ensures
            match r {
                Some(v) => lookup(self@, build_id@) == Some(cheats_view(v@)),
                None => lookup(self@, build_id@) is None,
            },
    {
        proof {
            use_type_invariant(self);
        }
        match self.position(build_id) {
            Some(i) => {
                proof {
                    lemma_key_index_unique(self@, build_id@, i as int);
                }
                Some(&self.entries[i].1)
            },
            None => None,
        }
    }

    /// Appends `cheats` to the cheats of build `build_id`, adding the build
    /// when it is not present yet.
    pub fn extend_build(&mut self, build_id: String, cheats: Vec<Cheat>)
        ensures
            final(self)@ == add_cheats(old(self)@, build_id@, cheats_view(cheats@)),
    {
        proof {
            use_type_invariant(&*self);
        }
        let ghost old_view = self@;
        let mut entries: Vec<(String, Vec<Cheat>)> = Vec::new();
        std::mem::swap(&mut entries, &mut self.entries);
        let ghost ev = entries@.map_values(|e: (String, Vec<Cheat>)| (e.0@, cheats_view(e.1@)));
        assert(ev == old_view);
        let pos = find_build(&entries, &build_id);
        if let Some(i) = pos {
            proof {
                lemma_key_index_unique(old_view, build_id@, i as int);
            }
            let (k, mut list) = entries.remove(i);
            assert(k@ == build_id@);
            let ghost old_list = cheats_view(list@);
            let mut more = cheats;
            let ghost added = cheats_view(more@);
            list.append(&mut more);
            assert(cheats_view(list@) == old_list + added);
            entries.insert(i, (k, list));
            let ghost nv = entries@.map_values(|e: (String, Vec<Cheat>)| (e.0@, cheats_view(e.1@)));
            assert(nv == old_view.update(i as int, (build_id@, old_list + added)));
            self.entries = entries;
        } else {
            let ghost added = cheats_view(cheats@);
            entries.push((build_id, cheats));
            let ghost nv = entries@.map_values(|e: (String, Vec<Cheat>)| (e.0@, cheats_view(e.1@)));
            assert(nv == old_view.push((build_id@, added)));
            assert(!has_key(old_view, build_id@));
            self.entries = entries;
        }
    }

    /// Appends `cheat` to the cheats of build `build_id`, adding the build
    /// when it is not present yet.
    pub fn push_cheat(&mut self, build_id: String, cheat: Cheat)
        ensures
            final(self)@ == add_cheats(old(self)@, build_id@, seq![cheat@]),
    {
        let mut v: Vec<Cheat> = Vec::new();
        v.push(cheat);
        assert(cheats_view(v@) == seq![cheat@]);
        self.extend_build(build_id, v);
    }

    /// Makes sure that build `build_id` is present, with no cheats if it is new.
    pub fn ensure_build(&mut self, build_id: String)
        ensures
            final(self)@ == add_cheats(old(self)@, build_id@, Seq::<CheatView>::empty()),
    {
        let v: Vec<Cheat> = Vec::new();
        assert(cheats_view(v@) == Seq::<CheatView>::empty());
        self.extend_build(build_id, v);
    }
}

fn find_build(entries: &Vec<(String, Vec<Cheat>)>, k: &String) -> (r: Option<usize>)
    ensures
        match r {
            Some(i) => i < entries@.len() && entries@[i as int].0@ == k@,
            None => forall|j: int| 0 <= j < entries@.len() ==> entries@[j].0@ != k@,
        },
{
    let mut i: usize = 0;
    while i < entries.len()
        invariant
            i <= entries@.len(),
            forall|j: int| 0 <= j < i ==> entries@[j].0@ != k@,
        decreases entries.len() - i,
    {
        if entries[i].0 == *k {
            return Some(i);
        }
        i += 1;
    }
    None
}

/// The name in a cheat-file header line `[name]`, trimmed; `None` for any
/// other (already trimmed) line.
pub open spec fn header_name(t: Seq<char>) -> Option<Seq<char>> {
    if t.len() >= 2 && t[0] == '[' && t.last() == ']' {
        Some(crate::text::trim(t.subrange(1, t.len() - 1)))
    } else {
        None
    }
}

/// Where the reading of a cheat file stands: the cheats finished so far, the
/// name of the cheat being read, and the code lines read for it.
pub struct ParseState {
    pub cheats: Seq<CheatView>,
    pub name: Option<Seq<char>>,
    pub code: Seq<Seq<char>>,
}

/// The finished cheats, with the cheat being read added when it has a name
/// and at least one code line.
pub open spec fn flush(st: ParseState) -> Seq<CheatView> {
    match st.name {
        Some(n) => if st.code.len() > 0 {
            st.cheats.push(CheatView { name: n, code: st.code, checked: false })
        } else {
            st.cheats
        },
        None => st.cheats,
    }
}

/// Reading one trimmed line: a header starts a new cheat (finishing the one
/// being read); a non-empty line after some header is a code line; any
/// other line is ignored.
pub open spec fn parse_step(st: ParseState, t: Seq<char>) -> ParseState {
    match header_name(t) {
        Some(n) => ParseState {
            cheats: flush(st),
            name: Some(n),
            code: if st.name is Some {
                Seq::<Seq<char>>::empty()
            } else {
                st.code
            },
        },
        None => if t.len() > 0 && st.name is Some {
            ParseState { cheats: st.cheats, name: st.name, code: st.code.push(t) }
        } else {
            st
        },
    }
}

/// The state before reading anything.
pub open spec fn initial_state() -> ParseState {
    ParseState { cheats: Seq::<CheatView>::empty(), name: None, code: Seq::<Seq<char>>::empty() }
}

/// The state after reading the lines `ls`, each trimmed, from state `st`.
pub open spec fn parse_from(st: ParseState, ls: Seq<Seq<char>>) -> ParseState
    decreases ls.len(),
{
    if ls.len() == 0 {
        st
    } else {
        parse_step(parse_from(st, ls.drop_last()), crate::text::trim(ls.last()))
    }
}

/// The state after reading the lines `ls`, each trimmed.
pub open spec fn parse_lines(ls: Seq<Seq<char>>) -> ParseState {
    parse_from(initial_state(), ls)
}

/// The cheats in a cheat file: each `[name]` header line followed by its
/// non-empty code lines; a cheat with no code line is left out.
pub open spec fn parse_cheats(content: Seq<char>) -> Seq<CheatView> {
    flush(parse_lines(crate::text::lines(content)))
}

/// The view of an optional string.
pub open spec fn opt_string_view(o: Option<String>) -> Option<Seq<char>> {
    match o {
        Some(s) => Some(s@),
        None => None,
    }
}

fn header_name_chars(t: &Vec<char>) -> (r: Option<Vec<char>>)
    ensures
        match r {
            Some(n) => header_name(t@) == Some(n@),
            None => header_name(t@) is None,
        },
{
    let n = t.len();
    if n >= 2 && t[0] == '[' && t[n - 1] == ']' {
        let mut inner: Vec<char> = Vec::new();
        let mut k: usize = 1;
        while k < n - 1
            invariant
                1 <= k <= n - 1,
                n == t.len(),
                inner@ == t@.subrange(1, k as int),
            decreases n - 1 - k,
        {
            inner.push(t[k]);
            assert(t@.subrange(1, k + 1) == t@.subrange(1, k as int).push(t@[k as int]));
            k += 1;
        }
        Some(trim_chars(&inner))
    } else {
        None
    }
}

fn finish_cheats(cheats: Vec<Cheat>, name: Option<String>, code: Vec<String>) -> (r: Vec<Cheat>)
    ensures
        cheats_view(r@) == flush(
            ParseState {
                cheats: cheats_view(cheats@),
                name: opt_string_view(name),
                code: crate::text::strings_view(code@),
            },
        ),
{
    let mut cheats = cheats;
    match name {
        Some(n) => {
            if code.len() > 0 {
                let c = Cheat { name: n, code, checked: false };
                cheats.push(c);
                assert(cheats_view(cheats@) == cheats_view(cheats@.drop_last()).push(c@));
            }
        },
        None => {},
    }
    cheats
}

/// Reads a cheat file: every `[name]` header line starts a cheat, and the
/// non-empty lines after it, trimmed, are its code; a cheat without code is
/// dropped.
pub fn parse_cheat_file(content: &str) -> (r: Vec<Cheat>)
    ensures
        cheats_view(r@) == parse_cheats(content@),
{
    let v = chars_of(content);
    let ls = lines_of(&v);
    let ghost lv = crate::text::char_vecs_view(ls@);
    let mut cheats: Vec<Cheat> = Vec::new();
    let mut current_name: Option<String> = None;
    let mut current_code: Vec<String> = Vec::new();
    let mut i: usize = 0;
    proof {
        assert(lv.take(0) == Seq::<Seq<char>>::empty());
        assert(cheats_view(cheats@) == Seq::<CheatView>::empty());
        assert(crate::text::strings_view(current_code@) == Seq::<Seq<char>>::empty());
    }
    while i < ls.len()
        invariant
            i <= ls@.len(),
            lv == crate::text::char_vecs_view(ls@),
            parse_lines(lv.take(i as int)) == (ParseState {
                cheats: cheats_view(cheats@),
                name: opt_string_view(current_name),
                code: crate::text::strings_view(current_code@),
            }),
        decreases ls.len() - i,
    {
        let ghost st = parse_lines(lv.take(i as int));
        assert(lv.take(i + 1).drop_last() == lv.take(i as int));
        assert(lv.take(i + 1).last() == ls@[i as int]@);
        let trimmed = trim_chars(&ls[i]);
        match header_name_chars(&trimmed) {
            Some(name) => {
                if current_name.is_some() {
                    cheats = finish_cheats(cheats, current_name, current_code);
                    current_code = Vec::new();
                    assert(crate::text::strings_view(current_code@) == Seq::<Seq<char>>::empty());
                }
                current_name = Some(string_of(&name));
            },
            None => {
                if trimmed.len() > 0 && current_name.is_some() {
                    let ghost old_code = current_code@;
                    let line = string_of(&trimmed);
                    current_code.push(line);
                    assert(crate::text::strings_view(current_code@) == crate::text::strings_view(
                        old_code,
                    ).push(trimmed@));
                }
            },
        }
        i += 1;
    }
    proof {
        assert(lv.take(ls@.len() as int) == lv);
    }
    finish_cheats(cheats, current_name, current_code)
}

/// The lines of `ls`, trimmed, with the lines left empty dropped.
pub open spec fn nonempty_trimmed(ls: Seq<Seq<char>>) -> Seq<Seq<char>>
    decreases ls.len(),
{
    if ls.len() == 0 {
        Seq::<Seq<char>>::empty()
    } else {
        let r = nonempty_trimmed(ls.drop_last());
        let t = crate::text::trim(ls.last());
        if t.len() > 0 {
            r.push(t)
        } else {
            r
        }
    }
}

/// Whether line `l` begins with `'['` or `'{'`, as the title and attribution
/// lines in front of cheat code do.
pub open spec fn is_header_like(l: Seq<char>) -> bool {
    l.len() > 0 && (l[0] == '[' || l[0] == '{')
}

/// `ls` without its leading header-like lines.
pub open spec fn skip_header_like(ls: Seq<Seq<char>>) -> Seq<Seq<char>>
    decreases ls.len(),
{
    if ls.len() > 0 && is_header_like(ls[0]) {
        skip_header_like(ls.drop_first())
    } else {
        ls
    }
}

/// The code lines of a cheat source: its lines, trimmed, the empty ones dropped.
pub open spec fn code_lines_of(source: Seq<char>) -> Seq<Seq<char>> {
    nonempty_trimmed(crate::text::lines(source))
}

/// The code of a cheat source whose first lines may repeat the cheat's
/// title: its code lines without the leading header-like ones.
pub open spec fn cheat_code_of(source: Seq<char>) -> Seq<Seq<char>> {
    skip_header_like(code_lines_of(source))
}

/// The brackets that enclose a cheat name.
pub open spec fn brackets() -> Seq<char> {
    seq!['[', ']']
}

/// The brackets and braces that enclose a cheat name or attribution.
pub open spec fn delimiters() -> Seq<char> {
    seq!['[', ']', '{', '}']
}

/// A cheat name: `name` without enclosing characters of `set`, then trimmed.
pub open spec fn clean_name(name: Seq<char>, set: Seq<char>) -> Seq<char> {
    crate::text::trim(crate::text::trim_matches(name, set))
}

fn nonempty_trimmed_chars(ls: &Vec<Vec<char>>) -> (r: Vec<Vec<char>>)
    ensures
        crate::text::char_vecs_view(r@) == nonempty_trimmed(crate::text::char_vecs_view(ls@)),
{
    let ghost lv = crate::text::char_vecs_view(ls@);
    let mut r: Vec<Vec<char>> = Vec::new();
    let mut i: usize = 0;
    proof {
        assert(lv.take(0) == Seq::<Seq<char>>::empty());
        assert(crate::text::char_vecs_view(r@) == Seq::<Seq<char>>::empty());
    }
    while i < ls.len()
        invariant
            i <= ls@.len(),
            lv == crate::text::char_vecs_view(ls@),
            crate::text::char_vecs_view(r@) == nonempty_trimmed(lv.take(i as int)),
        decreases ls.len() - i,
    {
        assert(lv.take(i + 1).drop_last() == lv.take(i as int));
        assert(lv.take(i + 1).last() == ls@[i as int]@);
        let t = trim_chars(&ls[i]);
        if t.len() > 0 {
            let ghost before = r@;
            r.push(t);
            assert(crate::text::char_vecs_view(r@) == crate::text::char_vecs_view(before).push(t@));
        }
        i += 1;
    }
    assert(lv.take(ls@.len() as int) == lv);
    r
}

fn skip_header_like_chars(ls: Vec<Vec<char>>) -> (r: Vec<Vec<char>>)
    ensures
        crate::text::char_vecs_view(r@) == skip_header_like(crate::text::char_vecs_view(ls@)),
{
    let ghost lv = crate::text::char_vecs_view(ls@);
    let mut j: usize = 0;
    proof {
        assert(lv.skip(0) == lv);
    }
    while j < ls.len() && ls[j].len() > 0 && (ls[j][0] == '[' || ls[j][0] == '{')
        invariant
            j <= ls@.len(),
            lv == crate::text::char_vecs_view(ls@),
            skip_header_like(lv) == skip_header_like(lv.skip(j as int)),
        decreases ls.len() - j,
    {
        assert(lv.skip(j as int)[0] == ls@[j as int]@);
        assert(lv.skip(j as int).drop_first() == lv.skip(j + 1));
        j += 1;
    }
    proof {
        if j < ls.len() {
            assert(lv.skip(j as int)[0] == ls@[j as int]@);
        }
    }
    let mut r: Vec<Vec<char>> = Vec::new();
    let mut k: usize = j;
    let mut ls = ls;
    proof {
        assert(crate::text::char_vecs_view(r@) == Seq::<Seq<char>>::empty());
    }
    while k < ls.len()
        invariant
            j <= k <= ls@.len(),
            lv == crate::text::char_vecs_view(ls@),
            crate::text::char_vecs_view(r@) == lv.subrange(j as int, k as int),
        decreases ls.len() - k,
    {
        let ghost before = r@;
        r.push(ls[k].clone());
        assert(crate::text::char_vecs_view(r@) == crate::text::char_vecs_view(before).push(ls@[k as int]@));
        assert(lv.subrange(j as int, k + 1) == lv.subrange(j as int, k as int).push(lv[k as int]));
        k += 1;
    }
    assert(lv.subrange(j as int, ls@.len() as int) == lv.skip(j as int));
    r
}

fn strings_of(ls: &Vec<Vec<char>>) -> (r: Vec<String>)
    ensures
        crate::text::strings_view(r@) == crate::text::char_vecs_view(ls@),
{
    let mut r: Vec<String> = Vec::new();
    let mut i: usize = 0;
    while i < ls.len()
        invariant
            i <= ls@.len(),
            crate::text::strings_view(r@) == crate::text::char_vecs_view(ls@.take(i as int)),
        decreases ls.len() - i,
    {
        let ghost before = r@;
        r.push(string_of(&ls[i]));
        assert(crate::text::strings_view(r@) == crate::text::strings_view(before).push(ls@[i as int]@));
        assert(ls@.take(i + 1) == ls@.take(i as int).push(ls@[i as int]));
        assert(crate::text::char_vecs_view(ls@.take(i + 1)) == crate::text::char_vecs_view(ls@.take(i as int)).push(ls@[i as int]@));
        i += 1;
    }
    assert(ls@.take(ls@.len() as int) == ls@);
    r
}

/// The code lines of a cheat source: its lines, trimmed, the empty ones dropped.
pub fn code_lines(source: &str) -> (r: Vec<String>)
    ensures
        crate::text::strings_view(r@) == code_lines_of(source@),
{
    let v = chars_of(source);
    let ls = lines_of(&v);
    let t = nonempty_trimmed_chars(&ls);
    strings_of(&t)
}

/// The code of a cheat source whose first lines may repeat the cheat's
/// title: its code lines without the leading ones that begin with `'['` or `'{'`.
pub fn cheat_code(source: &str) -> (r: Vec<String>)
    ensures
        crate::text::strings_view(r@) == cheat_code_of(source@),
{
    let v = chars_of(source);
    let ls = lines_of(&v);
    let t = nonempty_trimmed_chars(&ls);
    let k = skip_header_like_chars(t);
    strings_of(&k)
}

/// Lines (as strings) without the leading ones that begin with `'['` or `'{'`.
pub fn skip_header_lines(lines: &Vec<String>) -> (r: Vec<String>)
    ensures
        crate::text::strings_view(r@) == skip_header_like(crate::text::strings_view(lines@)),
{
    let mut vs: Vec<Vec<char>> = Vec::new();
    let mut i: usize = 0;
    while i < lines.len()
        invariant
            i <= lines@.len(),
            crate::text::char_vecs_view(vs@) == crate::text::strings_view(lines@.take(i as int)),
        decreases lines.len() - i,
    {
        let ghost before = vs@;
        vs.push(chars_of(lines[i].as_str()));
        assert(crate::text::char_vecs_view(vs@) == crate::text::char_vecs_view(before).push(lines@[i as int]@));
        assert(lines@.take(i + 1) == lines@.take(i as int).push(lines@[i as int]));
        assert(crate::text::strings_view(lines@.take(i + 1)) == crate::text::strings_view(lines@.take(i as int)).push(lines@[i as int]@));
        i += 1;
    }
    assert(lines@.take(lines@.len() as int) == lines@);
    let k = skip_header_like_chars(vs);
    strings_of(&k)
}

/// A cheat name without enclosing `[` and `]`, trimmed.
pub fn name_without_brackets(name: &str) -> (r: String)
    ensures
        r@ == clean_name(name@, brackets()),
{
    let set = ['[', ']'];
    assert(set@ == brackets());
    let v = chars_of(name);
    let m = trim_matches_chars(&v, &set);
    let t = trim_chars(&m);
    string_of(&t)
}

/// A cheat name without enclosing `[`, `]`, `{` and `}`, trimmed.
pub fn name_without_delimiters(name: &str) -> (r: String)
    ensures
        r@ == clean_name(name@, delimiters()),
{
    let set = ['[', ']', '{', '}'];
    assert(set@ == delimiters());
    let v = chars_of(name);
    let m = trim_matches_chars(&v, &set);
    let t = trim_chars(&m);
    string_of(&t)
}

/// The sites that cheats can be fetched from.
#[derive(PartialEq, Eq, Structural, Clone, Copy, Debug, Default)]
pub enum CheatSource {
    #[default]
    Blawar,
    Chansey,
    CheatSlips,
    GbaTemp,
    Hamlet,
    Ibnux,
    Tinfoil,
}

/// The name shown for each source.
pub open spec fn source_name(s: CheatSource) -> Seq<char> {
    match s {
        CheatSource::Blawar => "Blawar"@,
        CheatSource::Chansey => "Chansey"@,
        CheatSource::CheatSlips => "CheatSlips"@,
        CheatSource::GbaTemp => "GbaTemp"@,
        CheatSource::Hamlet => "Hamlet"@,
        CheatSource::Ibnux => "Ibnux"@,
        CheatSource::Tinfoil => "Tinfoil"@,
    }
}

/// The listing URL template of the GitHub mirror of the Chansey cheats.
pub open spec fn chansey_template() -> Seq<char> {
    "https://api.github.com/repos/ChanseyIsTheBest/NX-60FPS-RES-GFX-Cheats/contents/titles/{}/cheats"@
}

/// The listing URL template of the GitHub mirror of the GBAtemp cheats.
pub open spec fn gbatemp_template() -> Seq<char> {
    "https://api.github.com/repos/exefer/gbatemp-matias3ds-cheats/contents/titles/{}/cheats"@
}

/// The listing URL template of the GitHub mirror of the ibnux cheats.
pub open spec fn ibnux_template() -> Seq<char> {
    "https://api.github.com/repos/ibnux/switch-cheat/contents/atmosphere/titles/{}/cheats"@
}

/// Whether `p` is the provider of source `s`: the three GitHub mirrors
/// (Chansey, GBAtemp, ibnux) share one provider with different listing templates.
pub open spec fn provides(s: CheatSource, p: CheatProvider) -> bool {
    match s {
        CheatSource::Blawar => p is Blawar,
        CheatSource::Chansey => p matches CheatProvider::Github(g) && g.template() == chansey_template(),
        CheatSource::CheatSlips => p is CheatSlips,
        CheatSource::GbaTemp => p matches CheatProvider::Github(g) && g.template() == gbatemp_template(),
        CheatSource::Hamlet => p is Hamlet,
        CheatSource::Ibnux => p matches CheatProvider::Github(g) && g.template() == ibnux_template(),
        CheatSource::Tinfoil => p is Tinfoil,
    }
}

/// The provider that fetches the cheats of a source.
pub enum CheatProvider {
    Blawar(BlawarProvider),
    CheatSlips(CheatSlipsProvider),
    Github(GithubProvider),
    Hamlet(HamletProvider),
    Tinfoil(TinfoilProvider),
}

impl CheatSource {
    /// The name shown for this source.
    pub fn as_str(&self) -> (r: &'static str)
        ensures
            r@ == source_name(*self),
    {
        match self {
            CheatSource::Blawar => "Blawar",
            CheatSource::Chansey => "Chansey",
            CheatSource::CheatSlips => "CheatSlips",
            CheatSource::GbaTemp => "GbaTemp",
            CheatSource::Hamlet => "Hamlet",
            CheatSource::Ibnux => "Ibnux",
            CheatSource::Tinfoil => "Tinfoil",
        }
    }

    /// The provider of this source.
    pub fn provider(&self) -> (p: CheatProvider)
        ensures
            provides(*self, p),
    {
        match self {
            CheatSource::Blawar => CheatProvider::Blawar(BlawarProvider),
            CheatSource::Chansey => CheatProvider::Github(
                GithubProvider::new(
                    "https://api.github.com/repos/ChanseyIsTheBest/NX-60FPS-RES-GFX-Cheats/contents/titles/{}/cheats",
                ),
            ),
            CheatSource::CheatSlips => CheatProvider::CheatSlips(CheatSlipsProvider),
            CheatSource::GbaTemp => CheatProvider::Github(
                GithubProvider::new(
                    "https://api.github.com/repos/exefer/gbatemp-matias3ds-cheats/contents/titles/{}/cheats",
                ),
            ),
            CheatSource::Hamlet => CheatProvider::Hamlet(HamletProvider),
            CheatSource::Ibnux => CheatProvider::Github(
                GithubProvider::new(
                    "https://api.github.com/repos/ibnux/switch-cheat/contents/atmosphere/titles/{}/cheats",
                ),
            ),
            CheatSource::Tinfoil => CheatProvider::Tinfoil(TinfoilProvider),
        }
    }
}

/// The view of the entries of a `CheatMap`.
pub open spec fn entries_view(e: Seq<(String, Vec<Cheat>)>) -> CheatMapView {
    e.map_values(|e: (String, Vec<Cheat>)| (e.0@, cheats_view(e.1@)))
}

/// `cs` with every cheat's selection set to `checked`.
pub open spec fn with_checked(cs: Seq<CheatView>, checked: bool) -> Seq<CheatView> {
    cs.map_values(|c: CheatView| CheatView { name: c.name, code: c.code, checked: checked })
}

/// `s` with every cheat of every build selected (or not) as `checked` says.
pub open spec fn all_with_checked(s: CheatMapView, checked: bool) -> CheatMapView {
    s.map_values(|e: (Seq<char>, Seq<CheatView>)| (e.0, with_checked(e.1, checked)))
}

/// `s` with every cheat of build `i` selected (or not) as `checked` says.
pub open spec fn build_with_checked(s: CheatMapView, i: int, checked: bool) -> CheatMapView {
    s.update(i, (s[i].0, with_checked(s[i].1, checked)))
}

/// `s` with cheat `c` of build `b` selected (or not) as `checked` says.
pub open spec fn cheat_with_checked(s: CheatMapView, b: int, c: int, checked: bool) -> CheatMapView {
    let x = s[b].1[c];
    s.update(b, (s[b].0, s[b].1.update(c, CheatView { name: x.name, code: x.code, checked: checked })))
}

/// Whether some cheat of some build is selected.
pub open spec fn some_checked(s: CheatMapView) -> bool {
    exists|b: int, c: int| 0 <= b < s.len() && 0 <= c < s[b].1.len() && #[trigger] s[b].1[c].checked
}

fn set_list_checked(list: &mut Vec<Cheat>, checked: bool)
    ensures
        cheats_view(final(list)@) == with_checked(cheats_view(old(list)@), checked),
{
    let ghost start = cheats_view(list@);
    let mut j: usize = 0;
    while j < list.len()
        invariant
            j <= list@.len(),
            list@.len() == start.len(),
            forall|k: int| 0 <= k < j ==> #[trigger] cheats_view(list@)[k] == with_checked(start, checked)[k],
            forall|k: int| j <= k < list@.len() ==> #[trigger] cheats_view(list@)[k] == start[k],
        decreases list.len() - j,
    {
        let ghost before = list@;
        assert(cheats_view(before)[j as int] == start[j as int]);
        let c = list.remove(j);
        assert(c@ == start[j as int]);
        let nc = Cheat { name: c.name, code: c.code, checked };
        assert(nc@ == with_checked(start, checked)[j as int]);
        list.insert(j, nc);
        assert(list@ =~= before.update(j as int, nc));
        assert(cheats_view(list@) =~= cheats_view(before).update(j as int, nc@));
        j += 1;
    }
    assert(cheats_view(list@) == with_checked(start, checked));
}

impl CheatMap {
    /// Selects (or deselects) every cheat of every build.
    pub fn set_checked_all(&mut self, checked: bool)
        ensures
            final(self)@ == all_with_checked(old(self)@, checked),
    {
        proof {
            use_type_invariant(&*self);
        }
        let ghost start = self@;
        let mut entries: Vec<(String, Vec<Cheat>)> = Vec::new();
        std::mem::swap(&mut entries, &mut self.entries);
        let ghost target = all_with_checked(start, checked);
        let mut j: usize = 0;
        proof {
            assert(entries_view(entries@) == start);
            assert(target.take(0) + start.skip(0) =~= start);
        }
        while j < entries.len()
            invariant
                j <= entries@.len(),
                entries@.len() == start.len(),
                target == all_with_checked(start, checked),
                entries_view(entries@) == target.take(j as int) + start.skip(j as int),
            decreases entries.len() - j,
        {
            let ghost before = entries@;
            assert(entries_view(before)[j as int] == start[j as int]);
            let (key, mut list) = entries.remove(j);
            set_list_checked(&mut list, checked);
            let ghost item = (key, list);
            entries.insert(j, (key, list));
            assert(entries@ =~= before.update(j as int, item));
            assert(entries_view(entries@) =~= entries_view(before).update(j as int, (key@, cheats_view(list@))));
            assert(target.take(j + 1) + start.skip(j + 1) =~= (target.take(j as int) + start.skip(j as int)).update(j as int, target[j as int]));
            j += 1;
        }
        proof {
            assert(target.take(start.len() as int) + start.skip(start.len() as int) =~= target);
        }
        let ghost nv = entries@.map_values(|e: (String, Vec<Cheat>)| (e.0@, cheats_view(e.1@)));
        assert(nv == all_with_checked(start, checked));
        assert(distinct_keys(nv)) by {
            assert forall|a: int, b: int| 0 <= a < b < nv.len() implies #[trigger] nv[a].0 != #[trigger] nv[b].0 by {
                assert(start[a].0 != start[b].0);
            }
        }
        self.entries = entries;
    }

    /// Selects (or deselects) every cheat of the build at position `i`.
    pub fn set_checked_build(&mut self, i: usize, checked: bool)
        requires
            i < old(self)@.len(),
        ensures
            final(self)@ == build_with_checked(old(self)@, i as int, checked),
    {
        proof {
            use_type_invariant(&*self);
        }
        let ghost start = self@;
        let mut entries: Vec<(String, Vec<Cheat>)> = Vec::new();
        std::mem::swap(&mut entries, &mut self.entries);
        let (k, mut list) = entries.remove(i);
        set_list_checked(&mut list, checked);
        entries.insert(i, (k, list));
        let ghost nv = entries@.map_values(|e: (String, Vec<Cheat>)| (e.0@, cheats_view(e.1@)));
        assert(nv == build_with_checked(start, i as int, checked));
        assert(distinct_keys(nv)) by {
            assert forall|a: int, b: int| 0 <= a < b < nv.len() implies #[trigger] nv[a].0 != #[trigger] nv[b].0 by {
                assert(start[a].0 != start[b].0);
            }
        }
        self.entries = entries;
    }

    /// Selects (or deselects) cheat `c` of the build at position `b`.
    pub fn set_cheat_checked(&mut self, b: usize, c: usize, checked: bool)
        requires
            b < old(self)@.len(),
            c < old(self)@[b as int].1.len(),
        ensures
            final(self)@ == cheat_with_checked(old(self)@, b as int, c as int, checked),
    {
        proof {
            use_type_invariant(&*self);
        }
        let ghost start = self@;
        let mut entries: Vec<(String, Vec<Cheat>)> = Vec::new();
        std::mem::swap(&mut entries, &mut self.entries);
        let (k, mut list) = entries.remove(b);
        let ch = list.remove(c);
        list.insert(c, Cheat { name: ch.name, code: ch.code, checked });
        entries.insert(b, (k, list));
        let ghost nv = entries@.map_values(|e: (String, Vec<Cheat>)| (e.0@, cheats_view(e.1@)));
        assert(cheats_view(list@) == start[b as int].1.update(
            c as int,
            CheatView { name: ch.name@, code: crate::text::strings_view(ch.code@), checked: checked },
        ));
        assert(nv == cheat_with_checked(start, b as int, c as int, checked));
        assert(distinct_keys(nv)) by {
            assert forall|x: int, y: int| 0 <= x < y < nv.len() implies #[trigger] nv[x].0 != #[trigger] nv[y].0 by {
                assert(start[x].0 != start[y].0);
            }
        }
        self.entries = entries;
    }

    /// The number of cheats over all builds (`usize::MAX` if it is larger).
    pub fn total_count(&self) -> (n: usize)
        ensures
            n == (if total_cheats(self@) <= usize::MAX { total_cheats(self@) } else { usize::MAX as nat }),
    {
        let mut n: usize = 0;
        let mut i: usize = 0;
        let ghost v = self@;
        proof {
            assert(v.take(0) == Seq::<(Seq<char>, Seq<CheatView>)>::empty());
        }
        while i < self.entries.len()
            invariant
                i <= self.entries@.len(),
                v == self@,
                n == (if total_cheats(v.take(i as int)) <= usize::MAX { total_cheats(v.take(i as int)) } else { usize::MAX as nat }),
            decreases self.entries.len() - i,
        {
            assert(v.take(i + 1).drop_last() == v.take(i as int));
            assert(v.take(i + 1).last() == v[i as int]);
            assert(cheats_view(self.entries@[i as int].1@).len() == self.entries@[i as int].1@.len());
            n = n.saturating_add(self.entries[i].1.len());
            i += 1;
        }
        assert(v.take(self.entries@.len() as int) == v);
        n
    }

    /// Whether some cheat of some build is selected.
    pub fn any_checked(&self) -> (r: bool)
        ensures
            r == some_checked(self@),
    {
        let ghost v = self@;
        let mut i: usize = 0;
        while i < self.entries.len()
            invariant
                i <= self.entries@.len(),
                v == self@,
                forall|b: int, c: int| 0 <= b < i && 0 <= c < v[b].1.len() ==> !(#[trigger] v[b].1[c].checked),
            decreases self.entries.len() - i,
        {
            let list = &self.entries[i].1;
            let mut j: usize = 0;
            while j < list.len()
                invariant
                    j <= list@.len(),
                    v == self@,
                    i < self.entries@.len(),
                    list@ == self.entries@[i as int].1@,
                    forall|c: int| 0 <= c < j ==> !(#[trigger] v[i as int].1[c].checked),
                decreases list.len() - j,
            {
                if list[j].checked {
                    assert(v[i as int].1[j as int].checked);
                    return true;
                }
                j += 1;
            }
            i += 1;
        }
        false
    }
}

/// Every source is shown under a name of its own.
pub proof fn law_source_names_distinct(a: CheatSource, b: CheatSource)
    requires
        a != b,
    ensures
        source_name(a) != source_name(b),
{
    reveal_strlit("Blawar");
    reveal_strlit("Chansey");
    reveal_strlit("CheatSlips");
    reveal_strlit("GbaTemp");
    reveal_strlit("Hamlet");
    reveal_strlit("Ibnux");
    reveal_strlit("Tinfoil");
    match (a, b) {
        (CheatSource::Blawar, _) => assert(source_name(a)[0] != source_name(b)[0] || source_name(a).len() != source_name(b).len() || source_name(a)[1] != source_name(b)[1]),
        (_, CheatSource::Blawar) => assert(source_name(a)[0] != source_name(b)[0] || source_name(a).len() != source_name(b).len() || source_name(a)[1] != source_name(b)[1]),
        _ => assert(source_name(a)[0] != source_name(b)[0] || source_name(a).len() != source_name(b).len() || source_name(a)[4] != source_name(b)[4]),
    }
}

proof fn lemma_total_update(s: CheatMapView, i: int, v: (Seq<char>, Seq<CheatView>))
    requires
        0 <= i < s.len(),
    ensures
        total_cheats(s.update(i, v)) == total_cheats(s) - s[i].1.len() + v.1.len(),
    decreases s.len(),
{
    let t = s.update(i, v);
    if i == s.len() - 1 {
        assert(t.drop_last() == s.drop_last());
    } else {
        lemma_total_update(s.drop_last(), i, v);
        assert(t.drop_last() == s.drop_last().update(i, v));
    }
}

/// Adding cheats to a build: the builds stay distinct, the build's cheats
/// become its former cheats (none for a new build) followed by the added
/// ones, every other build keeps its cheats, and the total grows by the
/// number added.
pub proof fn law_add_cheats(m: CheatMapView, k: Seq<char>, cs: Seq<CheatView>, other: Seq<char>)
    requires
        distinct_keys(m),
    ensures
        distinct_keys(add_cheats(m, k, cs)),
        lookup(add_cheats(m, k, cs), k) == Some(
            match lookup(m, k) {
                Some(old) => old + cs,
                None => cs,
            },
        ),
        other != k ==> lookup(add_cheats(m, k, cs), other) == lookup(m, other),
        total_cheats(add_cheats(m, k, cs)) == total_cheats(m) + cs.len(),
{
    let t = add_cheats(m, k, cs);
    if has_key(m, k) {
        let i = key_index(m, k);
        lemma_key_index_unique(m, k, i);
        assert(distinct_keys(t));
        lemma_key_index_unique(t, k, i);
        lemma_total_update(m, i, (k, m[i].1 + cs));
        if other != k {
            if has_key(m, other) {
                let j = key_index(m, other);
                lemma_key_index_unique(m, other, j);
                lemma_key_index_unique(t, other, j);
            } else {
                assert(!has_key(t, other)) by {
                    if has_key(t, other) {
                        let j = key_index(t, other);
                        assert(m[j].0 == other);
                    }
                }
            }
        }
    } else {
        assert(distinct_keys(t)) by {
            assert forall|a: int, b: int| 0 <= a < b < t.len() implies #[trigger] t[a].0 != #[trigger] t[b].0 by {
                if b == m.len() {
                    assert(m[a].0 != k);
                }
            }
        }
        lemma_key_index_unique(t, k, m.len() as int);
        assert(t.drop_last() == m);
        if other != k {
            if has_key(m, other) {
                let j = key_index(m, other);
                lemma_key_index_unique(m, other, j);
                lemma_key_index_unique(t, other, j);
            } else {
                assert(!has_key(t, other)) by {
                    if has_key(t, other) {
                        let j = key_index(t, other);
                        if j < m.len() {
                            assert(m[j].0 == other);
                        }
                    }
                }
            }
        }
    }
}

/// A well-formed cheat as a cheat file gives it: a trimmed name, at least
/// one code line, every code line non-empty, trimmed and no header line,
/// and not selected.
pub open spec fn well_formed_cheat(c: CheatView) -> bool {
    &&& crate::text::trim(c.name) == c.name
    &&& c.code.len() > 0
    &&& forall|j: int| 0 <= j < c.code.len() ==> well_formed_code_line(#[trigger] c.code[j])
    &&& !c.checked
}

/// A code line as a cheat file gives it: non-empty, trimmed, and not a header.
pub open spec fn well_formed_code_line(l: Seq<char>) -> bool {
    &&& l.len() > 0
    &&& crate::text::trim(l) == l
    &&& header_name(l) is None
}

/// The reading state holds well-formed finished cheats, a trimmed name, and
/// well-formed code lines.
pub open spec fn well_formed_state(st: ParseState) -> bool {
    &&& forall|i: int| 0 <= i < st.cheats.len() ==> well_formed_cheat(#[trigger] st.cheats[i])
    &&& (st.name matches Some(n) ==> crate::text::trim(n) == n)
    &&& forall|j: int| 0 <= j < st.code.len() ==> well_formed_code_line(#[trigger] st.code[j])
}

proof fn lemma_flush_well_formed(st: ParseState)
    requires
        well_formed_state(st),
    ensures
        forall|i: int| 0 <= i < flush(st).len() ==> well_formed_cheat(#[trigger] flush(st)[i]),
{
}

proof fn lemma_parse_lines_well_formed(ls: Seq<Seq<char>>)
    ensures
        well_formed_state(parse_lines(ls)),
    decreases ls.len(),
{
    if ls.len() > 0 {
        lemma_parse_lines_well_formed(ls.drop_last());
        let st = parse_lines(ls.drop_last());
        let t = crate::text::trim(ls.last());
        crate::text::lemma_trim_shape(ls.last());
        lemma_flush_well_formed(st);
        match header_name(t) {
            Some(n) => {
                crate::text::lemma_trim_shape(t.subrange(1, t.len() - 1));
            },
            None => {},
        }
    }
}

/// Every cheat read from a cheat file is well formed: trimmed name, at
/// least one code line, code lines non-empty, trimmed and no headers, and
/// not selected.
pub proof fn law_parsed_cheats_well_formed(content: Seq<char>)
    ensures
        forall|i: int| 0 <= i < parse_cheats(content).len() ==> well_formed_cheat(#[trigger] parse_cheats(content)[i]),
{
    lemma_parse_lines_well_formed(crate::text::lines(content));
    lemma_flush_well_formed(parse_lines(crate::text::lines(content)));
}

/// Reading two runs of lines one after the other.
pub proof fn lemma_parse_from_concat(st: ParseState, a: Seq<Seq<char>>, b: Seq<Seq<char>>)
    ensures
        parse_from(st, a + b) == parse_from(parse_from(st, a), b),
    decreases b.len(),
{
    if b.len() == 0 {
        assert(a + b == a);
    } else {
        lemma_parse_from_concat(st, a, b.drop_last());
        assert((a + b).drop_last() == a + b.drop_last());
        assert((a + b).last() == b.last());
    }
}

/// A cheat that can be written to a cheat file and read back: a trimmed
/// name without newline, and at least one code line, each a well-formed
/// code line without newline.
pub open spec fn writable_cheat(c: CheatView) -> bool {
    &&& crate::text::trim(c.name) == c.name
    &&& crate::text::no_newline(c.name)
    &&& c.code.len() > 0
    &&& forall|j: int| 0 <= j < c.code.len() ==> well_formed_code_line(#[trigger] c.code[j]) && crate::text::no_newline(c.code[j])
}

/// The header line of a cheat.
pub open spec fn header_line(name: Seq<char>) -> Seq<char> {
    seq!['['] + name + seq![']']
}

/// `c` as read back from a file: not selected.
pub open spec fn unchecked(c: CheatView) -> CheatView {
    CheatView { name: c.name, code: c.code, checked: false }
}

proof fn lemma_read_code_lines(st: ParseState, code: Seq<Seq<char>>)
    requires
        st.name is Some,
        forall|j: int| 0 <= j < code.len() ==> well_formed_code_line(#[trigger] code[j]),
    ensures
        parse_from(st, code) == (ParseState { cheats: st.cheats, name: st.name, code: st.code + code }),
    decreases code.len(),
{
    if code.len() == 0 {
        assert(st.code + code == st.code);
    } else {
        lemma_read_code_lines(st, code.drop_last());
        let l = code.last();
        assert(well_formed_code_line(code[code.len() - 1]));
        assert(crate::text::trim(l) == l);
        assert((st.code + code.drop_last()).push(l) == st.code + code);
    }
}

/// Reading the header and code lines of a writable cheat from a state that
/// has no pending code without a name.
pub proof fn lemma_read_cheat(st: ParseState, c: CheatView)
    requires
        writable_cheat(c),
        st.name is None ==> st.code.len() == 0,
    ensures
        parse_from(st, seq![header_line(c.name)] + c.code) == (ParseState {
            cheats: flush(st),
            name: Some(c.name),
            code: c.code,
        }),
{
    let h = header_line(c.name);
    crate::text::lemma_trim_unchanged(h);
    assert(h.subrange(1, h.len() - 1) == c.name);
    assert(header_name(h) == Some(c.name));
    assert(seq![h].drop_last() == Seq::<Seq<char>>::empty());
    assert(seq![h].last() == h);
    assert(crate::text::trim(h) == h);
    if st.name is None {
        assert(st.code == Seq::<Seq<char>>::empty());
    }
    assert(parse_from(st, Seq::<Seq<char>>::empty()) == st);
    let st1 = parse_from(st, seq![h]);
    assert(st1 == ParseState { cheats: flush(st), name: Some(c.name), code: Seq::<Seq<char>>::empty() });
    lemma_parse_from_concat(st, seq![h], c.code);
    lemma_read_code_lines(st1, c.code);
    assert(Seq::<Seq<char>>::empty() + c.code == c.code);
}


/// `st` with the cheats `p` finished before its own.
pub open spec fn with_prefix(p: Seq<CheatView>, st: ParseState) -> ParseState {
    ParseState { cheats: p + st.cheats, name: st.name, code: st.code }
}

proof fn lemma_flush_prefix(p: Seq<CheatView>, st: ParseState)
    ensures
        flush(with_prefix(p, st)) == p + flush(st),
{
    match st.name {
        Some(n) => if st.code.len() > 0 {
            let c = CheatView { name: n, code: st.code, checked: false };
            assert((p + st.cheats).push(c) == p + st.cheats.push(c));
        },
        None => {},
    }
}

proof fn lemma_parse_from_prefix(p: Seq<CheatView>, st: ParseState, ls: Seq<Seq<char>>)
    ensures
        parse_from(with_prefix(p, st), ls) == with_prefix(p, parse_from(st, ls)),
    decreases ls.len(),
{
    if ls.len() > 0 {
        lemma_parse_from_prefix(p, st, ls.drop_last());
        let x = parse_from(st, ls.drop_last());
        lemma_flush_prefix(p, x);
    }
}

proof fn lemma_parse_lines_nameless_no_code(ls: Seq<Seq<char>>)
    ensures
        parse_lines(ls).name is None ==> parse_lines(ls).code.len() == 0,
    decreases ls.len(),
{
    if ls.len() > 0 {
        lemma_parse_lines_nameless_no_code(ls.drop_last());
    }
}

/// Reading every newline-separated piece of `a`, each without a trailing
/// carriage return, reads as reading the lines of `a`: the only difference,
/// an empty last piece, is a line that reading ignores.
proof fn lemma_parse_pieces(st: ParseState, a: Seq<char>)
    ensures
        parse_from(st, crate::text::newline_pieces(a).map_values(|t: Seq<char>| crate::text::strip_cr(t)))
            == parse_from(st, crate::text::lines(a)),
{
    let pa = crate::text::newline_pieces(a);
    crate::text::lemma_newline_pieces_len(a);
    let body = pa.drop_last().map_values(|t: Seq<char>| crate::text::strip_cr(t));
    let m = pa.map_values(|t: Seq<char>| crate::text::strip_cr(t));
    let l = pa.last();
    assert(m == body.push(crate::text::strip_cr(l)));
    let x = parse_from(st, body);
    assert(m.drop_last() == body);
    crate::text::lemma_trim_strip_cr(l);
    if l.len() == 0 {
        assert(crate::text::lines(a) == body);
        assert(crate::text::strip_cr(l) == l);
        assert(crate::text::trim(l) == crate::text::trim_end(crate::text::trim_start(l)));
        assert(crate::text::trim_start(l) == l);
        assert(crate::text::trim(l).len() == 0);
        assert(parse_step(x, crate::text::trim(l)) == x);
    } else {
        assert(crate::text::lines(a) == body.push(l));
        assert(crate::text::lines(a).drop_last() == body);
    }
}

/// Reading two cheat files joined by a newline, where the second starts
/// with a header line, gives the cheats of the first followed by those of
/// the second.
pub proof fn law_parse_joined_files(a: Seq<char>, b: Seq<char>)
    requires
        crate::text::lines(b).len() > 0,
        header_name(crate::text::trim(crate::text::lines(b)[0])) is Some,
    ensures
        parse_cheats(a + seq!['\n'] + b) == parse_cheats(a) + parse_cheats(b),
{
    let init = initial_state();
    let ma = crate::text::newline_pieces(a).map_values(|t: Seq<char>| crate::text::strip_cr(t));
    let lb = crate::text::lines(b);
    crate::text::lemma_lines_join(a, b);
    lemma_parse_from_concat(init, ma, lb);
    lemma_parse_pieces(init, a);
    let sa = parse_lines(crate::text::lines(a));
    lemma_parse_lines_nameless_no_code(crate::text::lines(a));
    let h = lb[0];
    let rest = lb.drop_first();
    assert(lb == seq![h] + rest);
    lemma_parse_from_concat(sa, seq![h], rest);
    lemma_parse_from_concat(init, seq![h], rest);
    assert(seq![h].drop_last() == Seq::<Seq<char>>::empty());
    assert(seq![h].last() == h);
    assert(parse_from(init, Seq::<Seq<char>>::empty()) == init);
    assert(parse_from(sa, Seq::<Seq<char>>::empty()) == sa);
    if sa.name is None {
        assert(sa.code =~= Seq::<Seq<char>>::empty());
    }
    let h0 = parse_from(init, seq![h]);
    let n = header_name(crate::text::trim(h)).unwrap();
    assert(h0 == ParseState { cheats: Seq::<CheatView>::empty(), name: Some(n), code: Seq::<Seq<char>>::empty() });
    assert(parse_from(sa, seq![h]) == ParseState { cheats: flush(sa), name: Some(n), code: Seq::<Seq<char>>::empty() });
    assert(flush(sa) + Seq::<CheatView>::empty() == flush(sa));
    assert(parse_from(sa, seq![h]) == with_prefix(flush(sa), h0));
    lemma_parse_from_prefix(flush(sa), h0, rest);
    lemma_flush_prefix(flush(sa), parse_from(h0, rest));
}


/// The map that a run of additions (build id, cheats) makes from no builds.
pub open spec fn add_all(s: Seq<(Seq<char>, Seq<CheatView>)>) -> CheatMapView
    decreases s.len(),
{
    if s.len() == 0 {
        Seq::<(Seq<char>, Seq<CheatView>)>::empty()
    } else {
        add_cheats(add_all(s.drop_last()), s.last().0, s.last().1)
    }
}

/// Whether a run of additions names build `k`.
pub open spec fn mentions(s: Seq<(Seq<char>, Seq<CheatView>)>, k: Seq<char>) -> bool {
    exists|i: int| 0 <= i < s.len() && #[trigger] s[i].0 == k
}

/// The cheats that a run of additions files under build `k`, in order.
pub open spec fn filed_under(s: Seq<(Seq<char>, Seq<CheatView>)>, k: Seq<char>) -> Seq<CheatView>
    decreases s.len(),
{
    if s.len() == 0 {
        Seq::<CheatView>::empty()
    } else if s.last().0 == k {
        filed_under(s.drop_last(), k) + s.last().1
    } else {
        filed_under(s.drop_last(), k)
    }
}

/// Filing cheats build by build: the builds stay distinct, a build is
/// present exactly when some addition names it, and it holds every cheat
/// added under its id, in order, and no other.
pub proof fn law_add_all(s: Seq<(Seq<char>, Seq<CheatView>)>, k: Seq<char>)
    ensures
        distinct_keys(add_all(s)),
        lookup(add_all(s), k) == if mentions(s, k) {
            Some(filed_under(s, k))
        } else {
            None::<Seq<CheatView>>
        },
    decreases s.len(),
{
    if s.len() == 0 {
        assert(!has_key(add_all(s), k));
    } else {
        let s0 = s.drop_last();
        let x = s.last();
        law_add_all(s0, k);
        law_add_all(s0, x.0);
        law_add_cheats(add_all(s0), x.0, x.1, k);
        assert(mentions(s, k) == (mentions(s0, k) || x.0 == k)) by {
            if mentions(s, k) {
                let i = choose|i: int| 0 <= i < s.len() && #[trigger] s[i].0 == k;
                if i < s0.len() {
                    assert(s0[i] == s[i]);
                }
            }
            if mentions(s0, k) {
                let i = choose|i: int| 0 <= i < s0.len() && #[trigger] s0[i].0 == k;
                assert(s[i] == s0[i]);
            }
            assert(s[s.len() - 1] == x);
        }
        if x.0 == k && !mentions(s0, k) {
            assert(filed_under(s0, k) == Seq::<CheatView>::empty()) by {
                lemma_filed_under_unmentioned(s0, k);
            }
            assert(Seq::<CheatView>::empty() + x.1 == x.1);
        }
    }
}

proof fn lemma_filed_under_unmentioned(s: Seq<(Seq<char>, Seq<CheatView>)>, k: Seq<char>)
    requires
        !mentions(s, k),
    ensures
        filed_under(s, k) == Seq::<CheatView>::empty(),
    decreases s.len(),
{
    if s.len() > 0 {
        let s0 = s.drop_last();
        assert(!mentions(s0, k)) by {
            if mentions(s0, k) {
                let i = choose|i: int| 0 <= i < s0.len() && #[trigger] s0[i].0 == k;
                assert(s[i] == s0[i]);
            }
        }
        assert(s[s.len() - 1].0 != k);
        lemma_filed_under_unmentioned(s0, k);
    }
}


/// Whether `t` has the builds of `s`, in order, each with as many cheats,
/// and every cheat with the same name and code: only selections may differ.
pub open spec fn same_cheats(s: CheatMapView, t: CheatMapView) -> bool {
    &&& t.len() == s.len()
    &&& forall|b: int| 0 <= b < s.len() ==> (#[trigger] t[b]).0 == s[b].0 && t[b].1.len() == s[b].1.len()
    &&& forall|b: int, c: int| 0 <= b < s.len() && 0 <= c < s[b].1.len() ==> (#[trigger] t[b].1[c]).name == s[b].1[c].name
        && t[b].1[c].code == s[b].1[c].code
}

/// Selecting changes selections only: selecting one cheat sets that cheat
/// and no other; selecting a build sets every cheat of that build and no
/// other; selecting all sets every cheat. Builds, names and code stay.
pub proof fn law_selection(s: CheatMapView, b: int, c: int, checked: bool)
    requires
        0 <= b < s.len(),
        0 <= c < s[b].1.len(),
    ensures
        same_cheats(s, cheat_with_checked(s, b, c, checked)),
        forall|x: int, y: int| 0 <= x < s.len() && 0 <= y < s[x].1.len() ==> (#[trigger] cheat_with_checked(s, b, c, checked)[x].1[y]).checked
            == if x == b && y == c { checked } else { s[x].1[y].checked },
        same_cheats(s, build_with_checked(s, b, checked)),
        forall|x: int, y: int| 0 <= x < s.len() && 0 <= y < s[x].1.len() ==> (#[trigger] build_with_checked(s, b, checked)[x].1[y]).checked
            == if x == b { checked } else { s[x].1[y].checked },
        same_cheats(s, all_with_checked(s, checked)),
        forall|x: int, y: int| 0 <= x < s.len() && 0 <= y < s[x].1.len() ==> (#[trigger] all_with_checked(s, checked)[x].1[y]).checked == checked,
{
}

} // verus!
