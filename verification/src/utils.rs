//! Cleaning of HTML-formatted title names: tags are dropped, a few common
//! character entities are decoded, and surrounding whitespace is trimmed.
use vstd::prelude::*;
use crate::text::{chars_of, string_of, trim_chars};

verus! {

/// Whether `s` begins with `p`.
pub open spec fn starts_with(s: Seq<char>, p: Seq<char>) -> bool {
    p.len() <= s.len() && s.take(p.len() as int) == p
}

/// Scans `s` left to right, dropping every `'<'` and `'>'` and every
/// character between a `'<'` and the next `'>'`. The second component tells
/// whether the scan ends inside a tag.
pub open spec fn tag_scan(s: Seq<char>) -> (Seq<char>, bool)
    decreases s.len(),
{
    if s.len() == 0 {
        (Seq::<char>::empty(), false)
    } else {
        let (out, inside) = tag_scan(s.drop_last());
        let c = s.last();
        if c == '<' {
            (out, true)
        } else if c == '>' {
            (out, false)
        } else if !inside {
            (out.push(c), false)
        } else {
            (out, true)
        }
    }
}

/// The text of `s` outside of tags.
pub open spec fn remove_tags(s: Seq<char>) -> Seq<char> {
    tag_scan(s).0
}

/// The entity that `rest` (the text just after an `'&'`) begins with: the
/// character it stands for and how many characters after the `'&'` it takes.
pub open spec fn entity_at(rest: Seq<char>) -> Option<(char, nat)> {
    if starts_with(rest, seq!['a', 'm', 'p', ';']) {
        Some(('&', 4))
    } else if starts_with(rest, seq!['l', 't', ';']) {
        Some(('<', 3))
    } else if starts_with(rest, seq!['g', 't', ';']) {
        Some(('>', 3))
    } else if starts_with(rest, seq!['q', 'u', 'o', 't', ';']) {
        Some(('"', 5))
    } else if starts_with(rest, seq!['#', '3', '9', ';']) {
        Some(('\'', 4))
    } else if starts_with(rest, seq!['#', '2', '3', '3', ';']) {
        Some(('\u{e9}', 5))
    } else if starts_with(rest, seq!['n', 'b', 's', 'p', ';']) {
        Some((' ', 5))
    } else {
        None
    }
}

/// `s` with the entities `&amp;`, `&lt;`, `&gt;`, `&quot;`, `&#39;`,
/// `&#233;` and `&nbsp;` replaced by the characters they stand for (the last
/// by a plain space); any other `'&'` is kept as it is.
pub open spec fn decode_entities(s: Seq<char>) -> Seq<char>
    decreases s.len(),
{
    if s.len() == 0 {
        Seq::<char>::empty()
    } else if s[0] == '&' {
        match entity_at(s.drop_first()) {
            Some((r, n)) => seq![r] + decode_entities(s.skip(1 + n as int)),
            None => seq!['&'] + decode_entities(s.drop_first()),
        }
    } else {
        seq![s[0]] + decode_entities(s.drop_first())
    }
}

/// Whether `v[from..]` begins with `p`.
fn has_prefix_at(v: &Vec<char>, from: usize, p: &[char]) -> (b: bool)
    requires
        from <= v.len(),
    ensures
        b == starts_with(v@.skip(from as int), p@),
{
    if p.len() > v.len() - from {
        return false;
    }
    let mut k: usize = 0;
    while k < p.len()
        invariant
            k <= p.len(),
            from + p.len() <= v.len(),
            forall|j: int| 0 <= j < k ==> v@[from + j] == p@[j],
        decreases p.len() - k,
    {
        if v[from + k] != p[k] {
            assert(v@.skip(from as int).take(p@.len() as int)[k as int] != p@[k as int]);
            return false;
        }
        k += 1;
    }
    assert(v@.skip(from as int).take(p@.len() as int) == p@);
    true
}

fn entity_at_exec(v: &Vec<char>, from: usize) -> (r: Option<(char, usize)>)
    requires
        from <= v.len(),
    ensures
        match r {
            Some((c, n)) => entity_at(v@.skip(from as int)) == Some((c, n as nat)),
            None => entity_at(v@.skip(from as int)) is None,
        },
{
    let amp = ['a', 'm', 'p', ';'];
    let lt = ['l', 't', ';'];
    let gt = ['g', 't', ';'];
    let quot = ['q', 'u', 'o', 't', ';'];
    let apos = ['#', '3', '9', ';'];
    let eacute = ['#', '2', '3', '3', ';'];
    let nbsp = ['n', 'b', 's', 'p', ';'];
    assert(amp@ == seq!['a', 'm', 'p', ';']);
    assert(lt@ == seq!['l', 't', ';']);
    assert(gt@ == seq!['g', 't', ';']);
    assert(quot@ == seq!['q', 'u', 'o', 't', ';']);
    assert(apos@ == seq!['#', '3', '9', ';']);
    assert(eacute@ == seq!['#', '2', '3', '3', ';']);
    assert(nbsp@ == seq!['n', 'b', 's', 'p', ';']);
    if has_prefix_at(v, from, &amp) {
        Some(('&', 4))
    } else if has_prefix_at(v, from, &lt) {
        Some(('<', 3))
    } else if has_prefix_at(v, from, &gt) {
        Some(('>', 3))
    } else if has_prefix_at(v, from, &quot) {
        Some(('"', 5))
    } else if has_prefix_at(v, from, &apos) {
        Some(('\'', 4))
    } else if has_prefix_at(v, from, &eacute) {
        Some(('\u{e9}', 5))
    } else if has_prefix_at(v, from, &nbsp) {
        Some((' ', 5))
    } else {
        None
    }
}

fn decode_chars(v: &Vec<char>) -> (r: Vec<char>)
    ensures
        r@ == decode_entities(v@),
{
    let mut out: Vec<char> = Vec::new();
    let mut i: usize = 0;
    proof {
        assert(v@.skip(0) == v@);
    }
    while i < v.len()
        invariant
            i <= v.len(),
            decode_entities(v@) == out@ + decode_entities(v@.skip(i as int)),
        decreases v.len() - i,
    {
        let ghost rest = v@.skip(i as int);
        let c = v[i];
        assert(rest[0] == c);
        assert(rest.drop_first() == v@.skip(i + 1));
        if c == '&' {
            match entity_at_exec(v, i + 1) {
                Some((r, n)) => {
                    assert(rest.skip(1 + n as int) == v@.skip(i + 1 + n));
                    out.push(r);
                    assert(decode_entities(rest) == seq![r] + decode_entities(rest.skip(1 + n as int)));
                    i = i + 1 + n;
                },
                None => {
                    out.push('&');
                    i = i + 1;
                },
            }
        } else {
            out.push(c);
            i = i + 1;
        }
    }
    proof {
        assert(v@.skip(v.len() as int) == Seq::<char>::empty());
    }
    out
}

fn remove_tags_chars(v: &Vec<char>) -> (r: Vec<char>)
    ensures
        r@ == remove_tags(v@),
{
    let mut out: Vec<char> = Vec::new();
    let mut inside_tag = false;
    let mut i: usize = 0;
    proof {
        assert(v@.take(0) == Seq::<char>::empty());
    }
    while i < v.len()
        invariant
            i <= v.len(),
            tag_scan(v@.take(i as int)) == (out@, inside_tag),
        decreases v.len() - i,
    {
        let c = v[i];
        assert(v@.take(i + 1).drop_last() == v@.take(i as int));
        if c == '<' {
            inside_tag = true;
        } else if c == '>' {
            inside_tag = false;
        } else if !inside_tag {
            out.push(c);
        }
        i += 1;
    }
    proof {
        assert(v@.take(v.len() as int) == v@);
    }
    out
}

/// Replaces the common HTML character entities in `input` by the characters
/// they stand for; an `'&'` that begins no known entity is kept.
pub fn decode_html_entities(input: &str) -> (r: String)
    ensures
        r@ == decode_entities(input@),
{
    let v = chars_of(input);
    let d = decode_chars(&v);
    string_of(&d)
}

/// The plain text of an HTML snippet: tags removed, entities decoded, and
/// leading and trailing whitespace trimmed.
pub fn strip_html(input: &str) -> (r: String)
    ensures
        r@ == crate::text::trim(decode_entities(remove_tags(input@))),
{
    let v = chars_of(input);
    let untagged = remove_tags_chars(&v);
    let decoded = decode_chars(&untagged);
    let trimmed = trim_chars(&decoded);
    string_of(&trimmed)
}

proof fn lemma_decode_without_ampersand(s: Seq<char>)
    requires
        forall|i: int| 0 <= i < s.len() ==> s[i] != '&',
    ensures
        decode_entities(s) == s,
    decreases s.len(),
{
    if s.len() > 0 {
        lemma_decode_without_ampersand(s.drop_first());
        assert(seq![s[0]] + s.drop_first() == s);
    }
}

proof fn lemma_remove_tags_without_brackets(s: Seq<char>)
    requires
        forall|i: int| 0 <= i < s.len() ==> s[i] != '<' && s[i] != '>',
    ensures
        tag_scan(s) == (s, false),
    decreases s.len(),
{
    if s.len() > 0 {
        lemma_remove_tags_without_brackets(s.drop_last());
        assert(s.drop_last().push(s.last()) == s);
    }
}

/// Decoding leaves a text without `'&'` as it is.
pub proof fn law_decode_without_entities(s: Seq<char>)
    requires
        forall|i: int| 0 <= i < s.len() ==> s[i] != '&',
    ensures
        decode_entities(s) == s,
{
    lemma_decode_without_ampersand(s);
}

/// The text `strip_html` gives is trimmed: empty, or beginning and ending
/// with a character that is not whitespace.
pub proof fn law_stripped_text_is_trimmed(input: Seq<char>)
    ensures
        ({
            let r = crate::text::trim(decode_entities(remove_tags(input)));
            &&& r.len() == 0 || (!crate::text::is_white_space(r[0]) && !crate::text::is_white_space(r.last()))
            &&& crate::text::trim(r) == r
        }),
{
    crate::text::lemma_trim_shape(decode_entities(remove_tags(input)));
}

/// Plain text (no `'<'`, `'>'` or `'&'`) comes out of `strip_html` only trimmed.
pub proof fn law_plain_text_only_trimmed(input: Seq<char>)
    requires
        forall|i: int| 0 <= i < input.len() ==> input[i] != '<' && input[i] != '>' && input[i] != '&',
    ensures
        crate::text::trim(decode_entities(remove_tags(input))) == crate::text::trim(input),
{
    lemma_remove_tags_without_brackets(input);
    lemma_decode_without_ampersand(input);
}


proof fn lemma_tag_scan_concat(a: Seq<char>, b: Seq<char>)
    requires
        !tag_scan(a).1,
    ensures
        tag_scan(a + b) == (tag_scan(a).0 + tag_scan(b).0, tag_scan(b).1),
    decreases b.len(),
{
    if b.len() == 0 {
        assert(a + b == a);
        assert(tag_scan(a).0 + Seq::<char>::empty() == tag_scan(a).0);
    } else {
        lemma_tag_scan_concat(a, b.drop_last());
        assert((a + b).drop_last() == a + b.drop_last());
        assert((a + b).last() == b.last());
        let o = tag_scan(a).0;
        let ob = tag_scan(b.drop_last()).0;
        assert((o + ob).push(b.last()) == o + ob.push(b.last()));
    }
}

proof fn lemma_tag_scan_inside(a: Seq<char>, t: Seq<char>)
    requires
        tag_scan(a).1,
        forall|i: int| 0 <= i < t.len() ==> t[i] != '>',
    ensures
        tag_scan(a + t) == tag_scan(a),
    decreases t.len(),
{
    if t.len() == 0 {
        assert(a + t == a);
    } else {
        lemma_tag_scan_inside(a, t.drop_last());
        assert((a + t).drop_last() == a + t.drop_last());
        assert((a + t).last() == t.last());
        assert(t[t.len() - 1] != '>');
    }
}

/// A tag is dropped whole: the text before it and the text after it are
/// kept as they would be on their own, whatever the tag holds (anything
/// but `'>'`).
pub proof fn law_tag_dropped(x: Seq<char>, t: Seq<char>, y: Seq<char>)
    requires
        forall|i: int| 0 <= i < t.len() ==> t[i] != '>',
    ensures
        remove_tags(x + seq!['<'] + t + seq!['>'] + y) == remove_tags(x) + remove_tags(y),
{
    let a = x + seq!['<'];
    assert(a.drop_last() == x);
    assert(a.last() == '<');
    assert(tag_scan(a) == (tag_scan(x).0, true));
    lemma_tag_scan_inside(a, t);
    let b = a + t + seq!['>'];
    assert(b.drop_last() == a + t);
    assert(b.last() == '>');
    assert(tag_scan(b) == (tag_scan(x).0, false));
    lemma_tag_scan_concat(b, y);
    assert(x + seq!['<'] + t + seq!['>'] + y == b + y);
}

proof fn lemma_decode_plain_prefix(x: Seq<char>, z: Seq<char>)
    requires
        forall|i: int| 0 <= i < x.len() ==> x[i] != '&',
    ensures
        decode_entities(x + z) == x + decode_entities(z),
    decreases x.len(),
{
    if x.len() == 0 {
        assert(x + z == z);
        assert(x + decode_entities(z) == decode_entities(z));
    } else {
        let x1 = x.drop_first();
        lemma_decode_plain_prefix(x1, z);
        assert((x + z)[0] == x[0]);
        assert((x + z).drop_first() == x1 + z);
        assert(seq![x[0]] + (x1 + decode_entities(z)) == x + decode_entities(z));
    }
}

proof fn lemma_decode_entity(name: Seq<char>, c: char, y: Seq<char>)
    requires
        entity_at(name) == Some((c, name.len())),
    ensures
        decode_entities(seq!['&'] + name + y) == seq![c] + decode_entities(y),
{
    let s = seq!['&'] + name + y;
    assert(s[0] == '&');
    assert(s.drop_first() == name + y);
    assert((name + y).take(name.len() as int) == name);
    assert(s.skip(1 + name.len() as int) == y);
    let r = entity_at(name);
    assert(entity_at(name + y) == r) by {
        assert forall|p: Seq<char>| p.len() <= name.len() && #[trigger] name.take(p.len() as int) == p
            implies (name + y).take(p.len() as int) == p by {
            assert((name + y).take(p.len() as int) == name.take(p.len() as int));
        }
        assert forall|p: Seq<char>| p.len() <= name.len() && #[trigger] (name + y).take(p.len() as int) == p
            implies name.take(p.len() as int) == p by {
            assert((name + y).take(p.len() as int) == name.take(p.len() as int));
        }
    }
}

/// Decoding reads the text left to right: text without `'&'` is kept as it
/// is in front of whatever follows, and each of the seven entities becomes
/// the character it stands for, the rest decoded after it.
pub proof fn law_entities_decoded(x: Seq<char>, z: Seq<char>, y: Seq<char>)
    requires
        forall|i: int| 0 <= i < x.len() ==> x[i] != '&',
    ensures
        decode_entities(x + z) == x + decode_entities(z),
        decode_entities(seq!['&', 'a', 'm', 'p', ';'] + y) == seq!['&'] + decode_entities(y),
        decode_entities(seq!['&', 'l', 't', ';'] + y) == seq!['<'] + decode_entities(y),
        decode_entities(seq!['&', 'g', 't', ';'] + y) == seq!['>'] + decode_entities(y),
        decode_entities(seq!['&', 'q', 'u', 'o', 't', ';'] + y) == seq!['"'] + decode_entities(y),
        decode_entities(seq!['&', '#', '3', '9', ';'] + y) == seq!['\''] + decode_entities(y),
        decode_entities(seq!['&', '#', '2', '3', '3', ';'] + y) == seq!['\u{e9}'] + decode_entities(y),
        decode_entities(seq!['&', 'n', 'b', 's', 'p', ';'] + y) == seq![' '] + decode_entities(y),
{
    lemma_decode_plain_prefix(x, z);
    let amp = seq!['a', 'm', 'p', ';'];
    let lt = seq!['l', 't', ';'];
    let gt = seq!['g', 't', ';'];
    let quot = seq!['q', 'u', 'o', 't', ';'];
    let apos = seq!['#', '3', '9', ';'];
    let eacute = seq!['#', '2', '3', '3', ';'];
    let nbsp = seq!['n', 'b', 's', 'p', ';'];
    assert(amp.take(4) == amp);
    assert(lt.take(3) == lt);
    assert(gt.take(3) == gt);
    assert(quot.take(5) == quot);
    assert(apos.take(4) == apos);
    assert(eacute.take(5) == eacute);
    assert(nbsp.take(5) == nbsp);
    assert(entity_at(amp) == Some(('&', 4nat)));
    assert(!starts_with(lt, amp));
    assert(entity_at(lt) == Some(('<', 3nat)));
    assert(!starts_with(gt, amp) && !starts_with(gt, lt));
    assert(entity_at(gt) == Some(('>', 3nat)));
    assert(!starts_with(quot, amp) && !starts_with(quot, lt) && !starts_with(quot, gt));
    assert(entity_at(quot) == Some(('"', 5nat)));
    assert(quot.take(3)[0] != lt[0]);
    assert(entity_at(apos) == Some(('\'', 4nat)));
    assert(eacute.take(4)[1] != apos[1]);
    assert(entity_at(eacute) == Some(('\u{e9}', 5nat)));
    assert(nbsp.take(4)[0] != amp[0]);
    assert(entity_at(nbsp) == Some((' ', 5nat)));
    lemma_decode_entity(amp, '&', y);
    lemma_decode_entity(lt, '<', y);
    lemma_decode_entity(gt, '>', y);
    lemma_decode_entity(quot, '"', y);
    lemma_decode_entity(apos, '\'', y);
    lemma_decode_entity(eacute, '\u{e9}', y);
    lemma_decode_entity(nbsp, ' ', y);
    assert(seq!['&', 'a', 'm', 'p', ';'] + y == seq!['&'] + amp + y);
    assert(seq!['&', 'l', 't', ';'] + y == seq!['&'] + lt + y);
    assert(seq!['&', 'g', 't', ';'] + y == seq!['&'] + gt + y);
    assert(seq!['&', 'q', 'u', 'o', 't', ';'] + y == seq!['&'] + quot + y);
    assert(seq!['&', '#', '3', '9', ';'] + y == seq!['&'] + apos + y);
    assert(seq!['&', '#', '2', '3', '3', ';'] + y == seq!['&'] + eacute + y);
    assert(seq!['&', 'n', 'b', 's', 'p', ';'] + y == seq!['&'] + nbsp + y);
}

} // verus!
