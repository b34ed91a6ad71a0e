//! The title database explorer: the titles and the filter typed by the user.
use vstd::prelude::*;
use crate::text::str_contains;
use crate::tinfoil::TinfoilTitle;

verus! {

/// The titles of the database and the search text.
pub struct DatabaseExplorer {
    pub filter: String,
    pub titles: Vec<TinfoilTitle>,
}

/// Whether a title is shown for search text `filter`: its name or its id
/// contains the text (any title does for the empty text).
pub open spec fn title_matches(t: TinfoilTitle, filter: Seq<char>) -> bool {
    crate::text::contains(t.name@, filter) || crate::text::contains(t.id@, filter)
}

/// The positions of the titles shown for `filter`, in order.
pub open spec fn shown_positions(titles: Seq<TinfoilTitle>, filter: Seq<char>) -> Seq<int>
    decreases titles.len(),
{
    if titles.len() == 0 {
        Seq::<int>::empty()
    } else {
        let r = shown_positions(titles.drop_last(), filter);
        if title_matches(titles.last(), filter) {
            r.push(titles.len() - 1)
        } else {
            r
        }
    }
}

impl DatabaseExplorer {
    /// An explorer of `titles` with an empty search text.
    pub fn new(titles: Vec<TinfoilTitle>) -> (e: Self)
        ensures
            e.filter@.len() == 0,
            e.titles@ == titles@,
    {
        DatabaseExplorer { filter: String::new(), titles }
    }

    /// The positions of the titles shown for the current search text, in order.
    pub fn shown_titles(&self) -> (r: Vec<usize>)
        ensures
            r@.map_values(|i: usize| i as int) == shown_positions(self.titles@, self.filter@),
    {
        let mut r: Vec<usize> = Vec::new();
        let mut i: usize = 0;
        let ghost ts = self.titles@;
        proof {
            assert(ts.take(0) == Seq::<TinfoilTitle>::empty());
            assert(r@.map_values(|i: usize| i as int) == Seq::<int>::empty());
        }
        while i < self.titles.len()
            invariant
                i <= ts.len(),
                ts == self.titles@,
                r@.map_values(|i: usize| i as int) == shown_positions(ts.take(i as int), self.filter@),
            decreases self.titles.len() - i,
        {
            assert(ts.take(i + 1).drop_last() == ts.take(i as int));
            assert(ts.take(i + 1).last() == ts[i as int]);
            let t = &self.titles[i];
            if str_contains(t.name.as_str(), self.filter.as_str()) || str_contains(
                t.id.as_str(),
                self.filter.as_str(),
            ) {
                let ghost before = r@;
                r.push(i);
                assert(r@.map_values(|i: usize| i as int) == before.map_values(|i: usize| i as int).push(i as int));
            }
            i += 1;
        }
        assert(ts.take(ts.len() as int) == ts);
        r
    }
}

/// With an empty search text every title is shown, in order.
pub proof fn law_empty_filter_shows_all(titles: Seq<TinfoilTitle>)
    ensures
        shown_positions(titles, Seq::<char>::empty()) == Seq::new(titles.len(), |i: int| i),
    decreases titles.len(),
{
    if titles.len() > 0 {
        law_empty_filter_shows_all(titles.drop_last());
        crate::text::lemma_contains_empty(titles.last().name@);
        assert(Seq::new(titles.len(), |i: int| i) == Seq::new((titles.len() - 1) as nat, |i: int| i).push(titles.len() - 1));
    } else {
        assert(Seq::new(0, |i: int| i) == Seq::<int>::empty());
    }
}

/// Every title shown matches the search text, and the positions shown are
/// increasing, each a position of a title.
pub proof fn law_shown_titles_match(titles: Seq<TinfoilTitle>, filter: Seq<char>)
    ensures
        forall|k: int| 0 <= k < shown_positions(titles, filter).len() ==> {
            let i = #[trigger] shown_positions(titles, filter)[k];
            0 <= i < titles.len() && title_matches(titles[i], filter)
        },
        forall|a: int, b: int| 0 <= a < b < shown_positions(titles, filter).len() ==> #[trigger] shown_positions(titles, filter)[a] < #[trigger] shown_positions(titles, filter)[b],
    decreases titles.len(),
{
    if titles.len() > 0 {
        law_shown_titles_match(titles.drop_last(), filter);
        let r = shown_positions(titles.drop_last(), filter);
        assert forall|k: int| 0 <= k < r.len() implies #[trigger] r[k] < titles.len() - 1 by {
            assert(0 <= r[k] < titles.drop_last().len());
        }
        assert forall|k: int| 0 <= k < r.len() implies titles[#[trigger] r[k]] == titles.drop_last()[r[k]] by {
            assert(0 <= r[k] < titles.drop_last().len());
        }
    }
}


/// A title is shown exactly when its name or its id contains the search
/// text somewhere: for every position `i`, `i` is among the shown positions
/// if and only if `str::contains` holds of the name or of the id.
pub proof fn law_shown_iff_contains(titles: Seq<TinfoilTitle>, filter: Seq<char>)
    ensures
        forall|i: int| 0 <= i < titles.len() ==> (#[trigger] shown_positions(titles, filter).contains(i)
            <==> (crate::text::contains(titles[i].name@, filter) || crate::text::contains(titles[i].id@, filter))),
    decreases titles.len(),
{
    if titles.len() > 0 {
        let t0 = titles.drop_last();
        let n = titles.len() - 1;
        law_shown_iff_contains(t0, filter);
        law_shown_titles_match(t0, filter);
        let r = shown_positions(t0, filter);
        let s = shown_positions(titles, filter);
        assert forall|i: int| 0 <= i < titles.len() implies (#[trigger] s.contains(i)
            <==> (crate::text::contains(titles[i].name@, filter) || crate::text::contains(titles[i].id@, filter))) by {
            let m = crate::text::contains(titles[i].name@, filter) || crate::text::contains(titles[i].id@, filter);
            if i < n {
                assert(titles[i] == t0[i]);
                if r.contains(i) {
                    let j = choose|j: int| 0 <= j < r.len() && r[j] == i;
                    if s != r {
                        assert(s == r.push(n));
                        assert(s[j] == i);
                    }
                }
                if s.contains(i) {
                    let j = choose|j: int| 0 <= j < s.len() && s[j] == i;
                    if s != r {
                        assert(s == r.push(n));
                        if j == r.len() {
                            assert(s[j] == n);
                        } else {
                            assert(r[j] == i);
                        }
                    }
                    assert(r.contains(i));
                }
                assert(s.contains(i) == r.contains(i));
            } else {
                assert(i == n);
                assert(titles.last() == titles[i]);
                assert(!r.contains(n)) by {
                    if r.contains(n) {
                        let j = choose|j: int| 0 <= j < r.len() && r[j] == n;
                        assert(0 <= r[j] < t0.len());
                    }
                }
                if m {
                    assert(s == r.push(n));
                    assert(s[r.len() as int] == n);
                } else {
                    assert(s == r);
                }
            }
        }
    }
}

} // verus!
