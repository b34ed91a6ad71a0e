//! Character-level text primitives shared by the parsers of this crate:
//! Unicode whitespace, trimming, line splitting and substring search, each
//! stated over `Seq<char>` and implemented over `Vec<char>`.
use vstd::prelude::*;

verus! {

/// The Unicode `White_Space` property (PropList.txt), which is what
/// `char::is_whitespace` and `str::trim` go by.
pub open spec fn is_white_space(c: char) -> bool {
    ||| ('\u{9}' <= c && c <= '\u{d}')
    ||| c == ' '
    ||| c == '\u{85}'
    ||| c == '\u{a0}'
    ||| c == '\u{1680}'
    ||| ('\u{2000}' <= c && c <= '\u{200a}')
    ||| c == '\u{2028}'
    ||| c == '\u{2029}'
    ||| c == '\u{202f}'
    ||| c == '\u{205f}'
    ||| c == '\u{3000}'
}

/// `s` with its leading whitespace removed.
pub open spec fn trim_start(s: Seq<char>) -> Seq<char>
    decreases s.len(),
{
    if s.len() > 0 && is_white_space(s[0]) {
        trim_start(s.drop_first())
    } else {
        s
    }
}

/// `s` with its trailing whitespace removed.
pub open spec fn trim_end(s: Seq<char>) -> Seq<char>
    decreases s.len(),
{
    if s.len() > 0 && is_white_space(s.last()) {
        trim_end(s.drop_last())
    } else {
        s
    }
}

/// `s` with leading and trailing whitespace removed, as `str::trim` does.
pub open spec fn trim(s: Seq<char>) -> Seq<char> {
    trim_end(trim_start(s))
}

/// Whether `c` has the Unicode `White_Space` property.
pub fn is_whitespace(c: char) -> (b: bool)
    ensures
        b == is_white_space(c),
{
    ('\u{9}' <= c && c <= '\u{d}') || c == ' ' || c == '\u{85}' || c == '\u{a0}' || c
        == '\u{1680}' || ('\u{2000}' <= c && c <= '\u{200a}') || c == '\u{2028}' || c
        == '\u{2029}' || c == '\u{202f}' || c == '\u{205f}' || c == '\u{3000}'
}

/// Appends `c` to `s` through `String::push`, which the standard library
/// documents as appending the given char to the end of the string.
#[verifier::external_body]
pub(crate) fn push_char(s: &mut String, c: char)
    ensures
        final(s)@ == old(s)@.push(c),
{
    s.push(c);
}

/// The characters of `s`, in order.
pub fn chars_of(s: &str) -> (v: Vec<char>)
    ensures
        v@ == s@,
{
    let mut v: Vec<char> = Vec::new();
    broadcast use vstd::string::group_string_axioms;
    for c in it: s.chars()
        invariant
            v@ == s@.take(it.index() as int),
            it.seq() == s@,
    {
        v.push(c);
        assert(s@.take(it.index() + 1) == s@.take(it.index() as int).push(c));
    }
    proof {
        assert(s@.take(s@.len() as int) == s@);
    }
    v
}

/// The string made of the characters of `v`, in order.
pub fn string_of(v: &Vec<char>) -> (s: String)
    ensures
        s@ == v@,
{
    let mut s = String::new();
    let mut i: usize = 0;
    while i < v.len()
        invariant
            i <= v.len(),
            s@ == v@.take(i as int),
        decreases v.len() - i,
    {
        push_char(&mut s, v[i]);
        assert(v@.take(i + 1) == v@.take(i as int).push(v@[i as int]));
        i += 1;
    }
    assert(v@.take(v.len() as int) == v@);
    s
}

proof fn lemma_trim_start_skip(s: Seq<char>, i: int)
    requires
        0 <= i <= s.len(),
        forall|j: int| 0 <= j < i ==> is_white_space(#[trigger] s[j]),
    ensures
        trim_start(s) == trim_start(s.skip(i)),
    decreases i,
{
    if i > 0 {
        assert(s.drop_first() == s.skip(1));
        lemma_trim_start_skip(s.drop_first(), i - 1);
        assert(s.drop_first().skip(i - 1) == s.skip(i));
    } else {
        assert(s.skip(0) == s);
    }
}

proof fn lemma_trim_end_take(s: Seq<char>, j: int)
    requires
        0 <= j <= s.len(),
        forall|k: int| j <= k < s.len() ==> is_white_space(#[trigger] s[k]),
    ensures
        trim_end(s) == trim_end(s.take(j)),
    decreases s.len() - j,
{
    if j < s.len() {
        assert(s.drop_last() == s.take(s.len() - 1));
        lemma_trim_end_take(s.drop_last(), j);
        assert(s.drop_last().take(j) == s.take(j));
    } else {
        assert(s.take(j) == s);
    }
}

/// `v` with leading and trailing whitespace removed.
pub fn trim_chars(v: &Vec<char>) -> (r: Vec<char>)
    ensures
        r@ == trim(v@),
{
    let n = v.len();
    let mut i: usize = 0;
    while i < n && is_whitespace(v[i])
        invariant
            i <= n,
            n == v.len(),
            forall|j: int| 0 <= j < i ==> is_white_space(#[trigger] v@[j]),
        decreases n - i,
    {
        i += 1;
    }
    proof {
        lemma_trim_start_skip(v@, i as int);
    }
    let ghost rest = v@.skip(i as int);
    assert(trim_start(v@) == rest) by {
        if i < n {
            assert(rest[0] == v@[i as int]);
        }
    }
    let mut j: usize = n;
    while j > i && is_whitespace(v[j - 1])
        invariant
            i <= j <= n,
            n == v.len(),
            forall|k: int| j <= k < n ==> is_white_space(#[trigger] v@[k]),
        decreases j,
    {
        j -= 1;
    }
    proof {
        lemma_trim_end_take(rest, j - i);
        let t = rest.take(j - i);
        if j > i {
            assert(t.last() == v@[j - 1]);
        }
    }
    let mut r: Vec<char> = Vec::new();
    let mut k: usize = i;
    while k < j
        invariant
            i <= k <= j <= n,
            n == v.len(),
            r@ == v@.subrange(i as int, k as int),
        decreases j - k,
    {
        r.push(v[k]);
        assert(v@.subrange(i as int, k + 1) == v@.subrange(i as int, k as int).push(v@[k as int]));
        k += 1;
    }
    assert(r@ == rest.take(j - i));
    r
}

/// `s` with leading and trailing whitespace removed, as `str::trim` does.
pub fn trim_str(s: &str) -> (r: String)
    ensures
        r@ == trim(s@),
{
    let v = chars_of(s);
    let t = trim_chars(&v);
    string_of(&t)
}


/// The views of a sequence of character vectors.
pub open spec fn char_vecs_view(v: Seq<Vec<char>>) -> Seq<Seq<char>> {
    v.map_values(|x: Vec<char>| x@)
}

/// The views of a sequence of strings.
pub open spec fn strings_view(v: Seq<String>) -> Seq<Seq<char>> {
    v.map_values(|x: String| x@)
}

/// The pieces of `s` between its `'\n'` characters: one more piece than
/// there are newlines, the last one possibly empty.
pub open spec fn newline_pieces(s: Seq<char>) -> Seq<Seq<char>>
    decreases s.len(),
{
    if s.len() == 0 {
        seq![Seq::<char>::empty()]
    } else {
        let p = newline_pieces(s.drop_last());
        if s.last() == '\n' {
            p.push(Seq::<char>::empty())
        } else {
            p.update(p.len() - 1, p.last().push(s.last()))
        }
    }
}

/// `t` without one trailing carriage return.
pub open spec fn strip_cr(t: Seq<char>) -> Seq<char> {
    if t.len() > 0 && t.last() == '\r' {
        t.drop_last()
    } else {
        t
    }
}

/// The lines of `s`, as `str::lines` gives them: split at `'\n'`, a `'\r'`
/// just before a `'\n'` removed, and no empty line after a final newline.
pub open spec fn lines(s: Seq<char>) -> Seq<Seq<char>> {
    let p = newline_pieces(s);
    let body = p.drop_last().map_values(|t: Seq<char>| strip_cr(t));
    if p.last().len() == 0 {
        body
    } else {
        body.push(p.last())
    }
}

/// A text has at least one piece.
pub proof fn lemma_newline_pieces_len(s: Seq<char>)
    ensures
        newline_pieces(s).len() >= 1,
    decreases s.len(),
{
    if s.len() > 0 {
        lemma_newline_pieces_len(s.drop_last());
    }
}

fn strip_cr_vec(t: Vec<char>) -> (r: Vec<char>)
    ensures
        r@ == strip_cr(t@),
{
    let mut t = t;
    if t.len() > 0 && t[t.len() - 1] == '\r' {
        t.pop();
    }
    t
}

/// The lines of `v`, as `str::lines` gives them.
pub fn lines_of(v: &Vec<char>) -> (r: Vec<Vec<char>>)
    ensures
        char_vecs_view(r@) == lines(v@),
{
    let mut done: Vec<Vec<char>> = Vec::new();
    let mut cur: Vec<char> = Vec::new();
    let mut i: usize = 0;
    proof {
        assert(v@.take(0) == Seq::<char>::empty());
    }
    while i < v.len()
        invariant
            i <= v.len(),
            newline_pieces(v@.take(i as int)).last() == cur@,
            newline_pieces(v@.take(i as int)).drop_last().map_values(|t: Seq<char>| strip_cr(t))
                == char_vecs_view(done@),
        decreases v.len() - i,
    {
        let ghost before = v@.take(i as int);
        let ghost after = v@.take(i + 1);
        proof {
            assert(after.drop_last() == before);
            lemma_newline_pieces_len(before);
        }
        let c = v[i];
        if c == '\n' {
            let piece = strip_cr_vec(cur);
            let ghost old_done = done@;
            done.push(piece);
            cur = Vec::new();
            proof {
                let p = newline_pieces(before);
                assert(newline_pieces(after) == p.push(Seq::<char>::empty()));
                assert(newline_pieces(after).drop_last() == p);
                assert(p == p.drop_last().push(p.last()));
                assert(char_vecs_view(done@) == char_vecs_view(old_done).push(strip_cr(p.last())));
                assert(newline_pieces(after).drop_last().map_values(|t: Seq<char>| strip_cr(t))
                    == p.drop_last().map_values(|t: Seq<char>| strip_cr(t)).push(strip_cr(p.last())));
            }
        } else {
            cur.push(c);
            proof {
                let p = newline_pieces(before);
                let q = newline_pieces(after);
                assert(q == p.update(p.len() - 1, p.last().push(c)));
                assert(q.drop_last() == p.drop_last());
            }
        }
        i += 1;
    }
    proof {
        assert(v@.take(v.len() as int) == v@);
        lemma_newline_pieces_len(v@);
    }
    if cur.len() > 0 {
        done.push(cur);
    }
    done
}

/// `s` with every leading character that occurs in `set` removed.
pub open spec fn trim_start_matches(s: Seq<char>, set: Seq<char>) -> Seq<char>
    decreases s.len(),
{
    if s.len() > 0 && set.contains(s[0]) {
        trim_start_matches(s.drop_first(), set)
    } else {
        s
    }
}

/// `s` with every trailing character that occurs in `set` removed.
pub open spec fn trim_end_matches(s: Seq<char>, set: Seq<char>) -> Seq<char>
    decreases s.len(),
{
    if s.len() > 0 && set.contains(s.last()) {
        trim_end_matches(s.drop_last(), set)
    } else {
        s
    }
}

/// `s` with leading and trailing characters of `set` removed, as
/// `str::trim_matches` does with an array of chars.
pub open spec fn trim_matches(s: Seq<char>, set: Seq<char>) -> Seq<char> {
    trim_end_matches(trim_start_matches(s, set), set)
}

proof fn lemma_trim_start_matches_skip(s: Seq<char>, set: Seq<char>, i: int)
    requires
        0 <= i <= s.len(),
        forall|j: int| 0 <= j < i ==> set.contains(#[trigger] s[j]),
    ensures
        trim_start_matches(s, set) == trim_start_matches(s.skip(i), set),
    decreases i,
{
    if i > 0 {
        lemma_trim_start_matches_skip(s.drop_first(), set, i - 1);
        assert(s.drop_first().skip(i - 1) == s.skip(i));
    } else {
        assert(s.skip(0) == s);
    }
}

proof fn lemma_trim_end_matches_take(s: Seq<char>, set: Seq<char>, j: int)
    requires
        0 <= j <= s.len(),
        forall|k: int| j <= k < s.len() ==> set.contains(#[trigger] s[k]),
    ensures
        trim_end_matches(s, set) == trim_end_matches(s.take(j), set),
    decreases s.len() - j,
{
    if j < s.len() {
        lemma_trim_end_matches_take(s.drop_last(), set, j);
        assert(s.drop_last().take(j) == s.take(j));
    } else {
        assert(s.take(j) == s);
    }
}

fn char_in(set: &[char], c: char) -> (b: bool)
    ensures
        b == set@.contains(c),
{
    let mut k: usize = 0;
    while k < set.len()
        invariant
            k <= set.len(),
            forall|j: int| 0 <= j < k ==> set@[j] != c,
        decreases set.len() - k,
    {
        if set[k] == c {
            assert(set@[k as int] == c);
            return true;
        }
        k += 1;
    }
    false
}

/// `v` with leading and trailing characters of `set` removed.
pub fn trim_matches_chars(v: &Vec<char>, set: &[char]) -> (r: Vec<char>)
    ensures
        r@ == trim_matches(v@, set@),
{
    let n = v.len();
    let mut i: usize = 0;
    while i < n && char_in(set, v[i])
        invariant
            i <= n,
            n == v.len(),
            forall|j: int| 0 <= j < i ==> set@.contains(#[trigger] v@[j]),
        decreases n - i,
    {
        i += 1;
    }
    proof {
        lemma_trim_start_matches_skip(v@, set@, i as int);
    }
    let ghost rest = v@.skip(i as int);
    assert(trim_start_matches(v@, set@) == rest) by {
        if i < n {
            assert(rest[0] == v@[i as int]);
        }
    }
    let mut j: usize = n;
    while j > i && char_in(set, v[j - 1])
        invariant
            i <= j <= n,
            n == v.len(),
            forall|k: int| j <= k < n ==> set@.contains(#[trigger] v@[k]),
        decreases j,
    {
        j -= 1;
    }
    proof {
        lemma_trim_end_matches_take(rest, set@, j - i);
        let t = rest.take(j - i);
        if j > i {
            assert(t.last() == v@[j - 1]);
        }
    }
    let mut r: Vec<char> = Vec::new();
    let mut k: usize = i;
    while k < j
        invariant
            i <= k <= j <= n,
            n == v.len(),
            r@ == v@.subrange(i as int, k as int),
        decreases j - k,
    {
        r.push(v[k]);
        assert(v@.subrange(i as int, k + 1) == v@.subrange(i as int, k as int).push(v@[k as int]));
        k += 1;
    }
    assert(r@ == rest.take(j - i));
    r
}

/// The position of the first occurrence of `p` in `s`, if any.
pub open spec fn find(s: Seq<char>, p: Seq<char>) -> Option<int>
    decreases s.len(),
{
    if p.len() <= s.len() && s.take(p.len() as int) == p {
        Some(0)
    } else if s.len() == 0 {
        None
    } else {
        match find(s.drop_first(), p) {
            Some(i) => Some(i + 1),
            None => None,
        }
    }
}

/// Whether `p` occurs in `s`, as `str::contains` tells for a string pattern.
pub open spec fn contains(s: Seq<char>, p: Seq<char>) -> bool {
    find(s, p) is Some
}

proof fn lemma_find_bounds(s: Seq<char>, p: Seq<char>)
    ensures
        find(s, p) matches Some(i) ==> 0 <= i && i + p.len() <= s.len() && s.subrange(
            i,
            i + p.len(),
        ) == p,
    decreases s.len(),
{
    if p.len() <= s.len() && s.take(p.len() as int) == p {
    } else if s.len() > 0 {
        lemma_find_bounds(s.drop_first(), p);
        if let Some(i) = find(s.drop_first(), p) {
            assert(s.subrange(i + 1, i + 1 + p.len()) == s.drop_first().subrange(i, i + p.len()));
        }
    }
}

fn matches_at(v: &Vec<char>, at: usize, p: &Vec<char>) -> (b: bool)
    requires
        at <= v.len(),
    ensures
        b == (p@.len() <= v@.skip(at as int).len() && v@.skip(at as int).take(p@.len() as int)
            == p@),
{
    if p.len() > v.len() - at {
        return false;
    }
    let mut k: usize = 0;
    while k < p.len()
        invariant
            k <= p.len(),
            at + p.len() <= v.len(),
            forall|j: int| 0 <= j < k ==> v@[at + j] == p@[j],
        decreases p.len() - k,
    {
        if v[at + k] != p[k] {
            assert(v@.skip(at as int).take(p@.len() as int)[k as int] != p@[k as int]);
            return false;
        }
        k += 1;
    }
    assert(v@.skip(at as int).take(p@.len() as int) == p@);
    true
}

/// The position of the first occurrence of `p` in `v[from..]`, counted from `from`.
pub fn find_from(v: &Vec<char>, from: usize, p: &Vec<char>) -> (r: Option<usize>)
    requires
        from <= v.len(),
    ensures
        match r {
            Some(i) => find(v@.skip(from as int), p@) == Some(i as int),
            None => find(v@.skip(from as int), p@) is None,
        },
{
    let mut i: usize = from;
    while i < v.len()
        invariant
            from <= i <= v.len(),
            find(v@.skip(from as int), p@) == (match find(v@.skip(i as int), p@) {
                Some(k) => Some(k + (i - from)),
                None => None::<int>,
            }),
        decreases v.len() - i,
    {
        if matches_at(v, i, p) {
            return Some(i - from);
        }
        assert(v@.skip(i as int).drop_first() == v@.skip(i + 1));
        i += 1;
    }
    let ghost e = v@.skip(i as int);
    assert(e.len() == 0);
    if matches_at(v, i, p) {
        Some(i - from)
    } else {
        None
    }
}

/// Whether `p` occurs in `s`.
pub fn str_contains(s: &str, p: &str) -> (b: bool)
    ensures
        b == contains(s@, p@),
{
    let v = chars_of(s);
    let q = chars_of(p);
    proof {
        assert(v@.skip(0) == v@);
    }
    find_from(&v, 0, &q).is_some()
}

/// Whether two strings hold the same characters.
pub fn str_eq(a: &str, b: &str) -> (r: bool)
    ensures
        r == (a@ == b@),
{
    let v = chars_of(a);
    let w = chars_of(b);
    if v.len() != w.len() {
        return false;
    }
    let mut i: usize = 0;
    while i < v.len()
        invariant
            i <= v.len(),
            v.len() == w.len(),
            v@ == a@,
            w@ == b@,
            forall|j: int| 0 <= j < i ==> v@[j] == w@[j],
        decreases v.len() - i,
    {
        let x = v[i];
        let y = w[i];
        if x != y {
            return false;
        }
        i += 1;
    }
    assert(v@ == w@);
    true
}

/// The uppercase form of a string as `str::to_uppercase` computes it, by the
/// Unicode `Uppercase` mapping; the mapping itself is not spelled out here.
pub uninterp spec fn uppercase(s: Seq<char>) -> Seq<char>;

/// Calls `str::to_uppercase`; its result is the named mapping of `s`.
#[verifier::external_body]
pub(crate) fn to_uppercase(s: &str) -> (r: String)
    ensures
        r@ == uppercase(s@),
{
    s.to_uppercase()
}

/// `s` with every occurrence of the non-empty pattern `p` replaced by `r`,
/// scanning left to right without overlaps, as `str::replace` does.
pub open spec fn replace_all(s: Seq<char>, p: Seq<char>, r: Seq<char>) -> Seq<char>
    decreases s.len(),
{
    if p.len() == 0 {
        s
    } else {
        match find(s, p) {
            Some(i) => if 0 <= i && i + p.len() <= s.len() {
                s.take(i) + r + replace_all(s.skip(i + p.len()), p, r)
            } else {
                s
            },
            None => s,
        }
    }
}

/// `s` with the pattern `p` removed from its end as long as it ends with it,
/// as `str::trim_end_matches` does with a string pattern.
pub open spec fn trim_end_pattern(s: Seq<char>, p: Seq<char>) -> Seq<char>
    decreases s.len(),
{
    if p.len() > 0 && p.len() <= s.len() && s.skip(s.len() - p.len()) == p {
        trim_end_pattern(s.take(s.len() - p.len()), p)
    } else {
        s
    }
}

/// `v` with every occurrence of the non-empty pattern `p` replaced by `r`.
pub fn replace_chars(v: &Vec<char>, p: &Vec<char>, r: &Vec<char>) -> (out: Vec<char>)
    requires
        p.len() > 0,
    ensures
        out@ == replace_all(v@, p@, r@),
{
    let mut out: Vec<char> = Vec::new();
    let mut i: usize = 0;
    proof {
        assert(v@.skip(0) == v@);
    }
    while i < v.len()
        invariant
            i <= v.len(),
            p@.len() > 0,
            replace_all(v@, p@, r@) == out@ + replace_all(v@.skip(i as int), p@, r@),
        decreases v.len() - i,
    {
        let ghost rest = v@.skip(i as int);
        proof {
            lemma_find_bounds(rest, p@);
        }
        match find_from(v, i, p) {
            Some(k) => {
                assert(k + p@.len() <= rest.len());
                let end = i + k;
                let mut j: usize = i;
                let ghost out0 = out@;
                while j < end
                    invariant
                        i <= j <= end,
                        end == i + k,
                        i + k + p@.len() <= v@.len(),
                        out@ == out0 + v@.subrange(i as int, j as int),
                    decreases end - j,
                {
                    out.push(v[j]);
                    assert(v@.subrange(i as int, j + 1) == v@.subrange(i as int, j as int).push(v@[j as int]));
                    j += 1;
                }
                let mut m: usize = 0;
                let ghost out1 = out@;
                while m < r.len()
                    invariant
                        m <= r@.len(),
                        out@ == out1 + r@.take(m as int),
                    decreases r.len() - m,
                {
                    out.push(r[m]);
                    assert(r@.take(m + 1) == r@.take(m as int).push(r@[m as int]));
                    m += 1;
                }
                assert(r@.take(r@.len() as int) == r@);
                assert(rest.take(k as int) == v@.subrange(i as int, (i + k) as int));
                assert(rest.skip(k + p@.len()) == v@.skip(i + k + p@.len()));
                i = i + k + p.len();
            },
            None => {
                let mut j: usize = i;
                let ghost out0 = out@;
                while j < v.len()
                    invariant
                        i <= j <= v@.len(),
                        out@ == out0 + v@.subrange(i as int, j as int),
                    decreases v.len() - j,
                {
                    out.push(v[j]);
                    assert(v@.subrange(i as int, j + 1) == v@.subrange(i as int, j as int).push(v@[j as int]));
                    j += 1;
                }
                assert(v@.subrange(i as int, v@.len() as int) == rest);
                assert(v@.skip(v@.len() as int) == Seq::<char>::empty());
                i = v.len();
            },
        }
    }
    assert(v@.skip(v@.len() as int) == Seq::<char>::empty());
    out
}

/// `v` with the pattern `p` removed from its end as long as it ends with it.
pub fn trim_end_pattern_chars(v: &Vec<char>, p: &Vec<char>) -> (out: Vec<char>)
    ensures
        out@ == trim_end_pattern(v@, p@),
{
    let mut n: usize = v.len();
    proof {
        assert(v@.take(n as int) == v@);
    }
    if p.len() > 0 {
        while p.len() <= n && matches_at(v, n - p.len(), p)
            invariant
                n <= v@.len(),
                p@.len() > 0,
                trim_end_pattern(v@, p@) == trim_end_pattern(v@.take(n as int), p@),
            decreases n,
        {
            let ghost t = v@.take(n as int);
            assert(t.skip(n - p@.len()) == v@.skip(n - p@.len()).take(p@.len() as int));
            assert(t.take(n - p@.len()) == v@.take(n - p@.len()));
            n -= p.len();
        }
        proof {
            let t = v@.take(n as int);
            if p@.len() <= n {
                assert(t.skip(n - p@.len()) == v@.skip(n - p@.len()).take(p@.len() as int));
            }
        }
    }
    let mut out: Vec<char> = Vec::new();
    let mut k: usize = 0;
    while k < n
        invariant
            k <= n <= v@.len(),
            out@ == v@.take(k as int),
        decreases n - k,
    {
        out.push(v[k]);
        assert(v@.take(k + 1) == v@.take(k as int).push(v@[k as int]));
        k += 1;
    }
    out
}

proof fn lemma_trim_start_shape(s: Seq<char>)
    ensures
        trim_start(s).len() == 0 || !is_white_space(trim_start(s)[0]),
        trim_start(s).len() <= s.len(),
    decreases s.len(),
{
    if s.len() > 0 && is_white_space(s[0]) {
        lemma_trim_start_shape(s.drop_first());
    }
}

proof fn lemma_trim_end_shape(s: Seq<char>)
    ensures
        trim_end(s) == s.take(trim_end(s).len() as int),
        trim_end(s).len() <= s.len(),
        trim_end(s).len() == 0 || !is_white_space(trim_end(s).last()),
    decreases s.len(),
{
    if s.len() > 0 && is_white_space(s.last()) {
        lemma_trim_end_shape(s.drop_last());
        let t = trim_end(s.drop_last());
        assert(s.drop_last().take(t.len() as int) == s.take(t.len() as int));
    } else {
        assert(s.take(s.len() as int) == s);
    }
}

/// A trimmed text is empty or begins and ends with a character that is not
/// whitespace, and trimming it again changes nothing.
pub proof fn lemma_trim_shape(s: Seq<char>)
    ensures
        trim(s).len() == 0 || (!is_white_space(trim(s)[0]) && !is_white_space(trim(s).last())),
        trim(trim(s)) == trim(s),
{
    let t = trim_start(s);
    lemma_trim_start_shape(s);
    lemma_trim_end_shape(t);
    let u = trim_end(t);
    if u.len() > 0 {
        assert(u[0] == t[0]);
        assert(trim_start(u) == u);
        assert(trim_end(u) == u);
    } else {
        assert(trim_start(u) == u);
        assert(trim_end(u) == u);
    }
}

/// Every text contains the empty text.
pub proof fn lemma_contains_empty(s: Seq<char>)
    ensures
        contains(s, Seq::<char>::empty()),
{
    assert(s.take(0) == Seq::<char>::empty());
}

/// Whether `s` holds no `'\n'`.
pub open spec fn no_newline(s: Seq<char>) -> bool {
    forall|i: int| 0 <= i < s.len() ==> s[i] != '\n'
}

/// The lines `ls`, each followed by a newline.
pub open spec fn text_of_lines(ls: Seq<Seq<char>>) -> Seq<char>
    decreases ls.len(),
{
    if ls.len() == 0 {
        Seq::<char>::empty()
    } else {
        text_of_lines(ls.drop_last()) + ls.last() + seq!['\n']
    }
}

/// Writing two runs of lines one after the other.
pub proof fn lemma_text_of_lines_concat(a: Seq<Seq<char>>, b: Seq<Seq<char>>)
    ensures
        text_of_lines(a + b) == text_of_lines(a) + text_of_lines(b),
    decreases b.len(),
{
    if b.len() == 0 {
        assert(a + b == a);
        assert(text_of_lines(a) + Seq::<char>::empty() == text_of_lines(a));
    } else {
        lemma_text_of_lines_concat(a, b.drop_last());
        assert((a + b).drop_last() == a + b.drop_last());
        assert((a + b).last() == b.last());
        assert(text_of_lines(a) + (text_of_lines(b.drop_last()) + b.last() + seq!['\n'])
            == text_of_lines(a) + text_of_lines(b.drop_last()) + b.last() + seq!['\n']);
    }
}

proof fn lemma_pieces_append_plain(s: Seq<char>, x: Seq<char>)
    requires
        no_newline(x),
    ensures
        newline_pieces(s).len() >= 1,
        newline_pieces(s + x) == newline_pieces(s).update(
            newline_pieces(s).len() - 1,
            newline_pieces(s).last() + x,
        ),
    decreases x.len(),
{
    lemma_newline_pieces_len(s);
    let p = newline_pieces(s);
    if x.len() == 0 {
        assert(s + x == s);
        assert(p.last() + x == p.last());
        assert(p.update(p.len() - 1, p.last()) == p);
    } else {
        let y = x.drop_last();
        lemma_pieces_append_plain(s, y);
        assert((s + x).drop_last() == s + y);
        assert((s + x).last() == x.last());
        let q = newline_pieces(s + y);
        assert(q.last() == p.last() + y);
        assert((p.last() + y).push(x.last()) == p.last() + x);
        assert(q.update(q.len() - 1, q.last().push(x.last())) == p.update(p.len() - 1, p.last() + x));
    }
}

proof fn lemma_pieces_of_lines(s: Seq<char>, ls: Seq<Seq<char>>)
    requires
        newline_pieces(s).last() == Seq::<char>::empty(),
        forall|j: int| 0 <= j < ls.len() ==> no_newline(#[trigger] ls[j]),
    ensures
        newline_pieces(s + text_of_lines(ls)) == newline_pieces(s).drop_last() + ls + seq![Seq::<char>::empty()],
    decreases ls.len(),
{
    lemma_newline_pieces_len(s);
    let p = newline_pieces(s);
    if ls.len() == 0 {
        assert(s + text_of_lines(ls) == s);
        assert(p.drop_last() + ls + seq![Seq::<char>::empty()] == p);
    } else {
        let rest = ls.drop_last();
        let l = ls.last();
        lemma_pieces_of_lines(s, rest);
        let t = s + text_of_lines(rest);
        let q = newline_pieces(t);
        assert(q == p.drop_last() + rest + seq![Seq::<char>::empty()]);
        assert(no_newline(l));
        lemma_pieces_append_plain(t, l);
        let q2 = newline_pieces(t + l);
        assert(q2 == p.drop_last() + rest + seq![l]);
        assert((t + l).push('\n').drop_last() == t + l);
        assert(newline_pieces((t + l).push('\n')) == q2.push(Seq::<char>::empty()));
        assert(s + text_of_lines(ls) == (t + l).push('\n'));
        assert(p.drop_last() + rest + seq![l] + seq![Seq::<char>::empty()] == p.drop_last() + ls + seq![Seq::<char>::empty()]);
    }
}

/// Lines written one per line read back as the same lines, when none holds
/// a newline or ends with a carriage return.
pub proof fn lemma_lines_of_text(ls: Seq<Seq<char>>)
    requires
        forall|j: int| 0 <= j < ls.len() ==> no_newline(#[trigger] ls[j]) && strip_cr(ls[j]) == ls[j],
    ensures
        lines(text_of_lines(ls)) == ls,
{
    let e = Seq::<char>::empty();
    assert(newline_pieces(e) == seq![e]);
    lemma_pieces_of_lines(e, ls);
    assert(e + text_of_lines(ls) == text_of_lines(ls));
    let p = newline_pieces(text_of_lines(ls));
    assert(seq![e].drop_last() + ls + seq![e] == ls + seq![e]);
    assert(p.drop_last() == ls);
    assert(p.drop_last().map_values(|t: Seq<char>| strip_cr(t)) == ls);
}

/// A text that begins and ends with a character that is not whitespace is
/// its own trimmed form.
pub proof fn lemma_trim_unchanged(s: Seq<char>)
    requires
        s.len() > 0,
        !is_white_space(s[0]),
        !is_white_space(s.last()),
    ensures
        trim(s) == s,
{
}


proof fn lemma_pieces_concat(x: Seq<char>, y: Seq<char>)
    requires
        newline_pieces(x).last().len() == 0,
    ensures
        newline_pieces(x + y) == newline_pieces(x).drop_last() + newline_pieces(y),
    decreases y.len(),
{
    lemma_newline_pieces_len(x);
    lemma_newline_pieces_len(y);
    let d = newline_pieces(x).drop_last();
    if y.len() == 0 {
        assert(x + y == x);
        assert(newline_pieces(y) == seq![Seq::<char>::empty()]);
        assert(newline_pieces(x) == d.push(newline_pieces(x).last()));
        assert(newline_pieces(x).last() == Seq::<char>::empty());
        assert(d + seq![Seq::<char>::empty()] == d.push(Seq::<char>::empty()));
    } else {
        let y0 = y.drop_last();
        lemma_pieces_concat(x, y0);
        lemma_newline_pieces_len(y0);
        assert((x + y).drop_last() == x + y0);
        assert((x + y).last() == y.last());
        let q = newline_pieces(y0);
        if y.last() == '\n' {
            assert((d + q).push(Seq::<char>::empty()) == d + q.push(Seq::<char>::empty()));
        } else {
            assert((d + q).last() == q.last());
            assert((d + q).update((d + q).len() - 1, q.last().push(y.last()))
                == d + q.update(q.len() - 1, q.last().push(y.last())));
        }
    }
}

/// The pieces of two texts joined by a newline are the pieces of each.
pub proof fn lemma_pieces_join(a: Seq<char>, b: Seq<char>)
    ensures
        newline_pieces(a + seq!['\n'] + b) == newline_pieces(a) + newline_pieces(b),
{
    let x = a + seq!['\n'];
    assert(x.drop_last() == a);
    assert(x.last() == '\n');
    assert(newline_pieces(x) == newline_pieces(a).push(Seq::<char>::empty()));
    lemma_pieces_concat(x, b);
    assert(newline_pieces(x).drop_last() == newline_pieces(a));
}

/// The lines of two texts joined by a newline: every piece of the first,
/// carriage return removed, then the lines of the second.
pub proof fn lemma_lines_join(a: Seq<char>, b: Seq<char>)
    ensures
        lines(a + seq!['\n'] + b) == newline_pieces(a).map_values(|t: Seq<char>| strip_cr(t)) + lines(b),
{
    lemma_pieces_join(a, b);
    lemma_newline_pieces_len(b);
    let pa = newline_pieces(a);
    let pb = newline_pieces(b);
    let p = pa + pb;
    assert(p.last() == pb.last());
    assert(p.drop_last() == pa + pb.drop_last());
    assert((pa + pb.drop_last()).map_values(|t: Seq<char>| strip_cr(t))
        == pa.map_values(|t: Seq<char>| strip_cr(t)) + pb.drop_last().map_values(|t: Seq<char>| strip_cr(t)));
    let ma = pa.map_values(|t: Seq<char>| strip_cr(t));
    let mb = pb.drop_last().map_values(|t: Seq<char>| strip_cr(t));
    assert((ma + mb).push(pb.last()) == ma + mb.push(pb.last()));
}

proof fn lemma_trim_start_push(u: Seq<char>, c: char)
    ensures
        trim_start(u.push(c)) == if trim_start(u).len() == 0 {
            trim_start(seq![c])
        } else {
            trim_start(u).push(c)
        },
    decreases u.len(),
{
    if u.len() == 0 {
        assert(u.push(c) == seq![c]);
    } else {
        assert(u.push(c)[0] == u[0]);
        assert(u.push(c).drop_first() == u.drop_first().push(c));
        lemma_trim_start_push(u.drop_first(), c);
    }
}

/// Trimming ignores one more trailing whitespace character.
pub proof fn lemma_trim_push_white(u: Seq<char>, w: char)
    requires
        is_white_space(w),
    ensures
        trim(u.push(w)) == trim(u),
{
    lemma_trim_start_push(u, w);
    let e = Seq::<char>::empty();
    assert(seq![w].drop_first() == e);
    assert(trim_start(e) == e);
    assert(trim_start(seq![w]) == e);
    if trim_start(u).len() > 0 {
        let t = trim_start(u).push(w);
        assert(t.drop_last() == trim_start(u));
    }
}

/// Removing a trailing carriage return does not change the trimmed line.
pub proof fn lemma_trim_strip_cr(t: Seq<char>)
    ensures
        trim(strip_cr(t)) == trim(t),
{
    if t.len() > 0 && t.last() == '\r' {
        assert(t.drop_last().push('\r') == t);
        lemma_trim_push_white(t.drop_last(), '\r');
    }
}

} // verus!
