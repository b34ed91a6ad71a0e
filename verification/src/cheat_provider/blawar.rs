//! The titledb provider: one JSON database for all titles, mapping each
//! title id to its builds, and each build to entries that are either cheats
//! (title and source) or version numbers.
use vstd::prelude::*;
use crate::assoc::{lookup, StrMap};
use super::{cheat_code, name_without_brackets, Cheat, CheatMap, CheatMapView, CheatView};

verus! {

/// The provider of the titledb cheat database.
pub struct BlawarProvider;

/// A cheat as the database holds it.
pub struct CheatData {
    pub title: String,
    pub source: String,
}

/// An entry of a build: a cheat, or a version number.
pub enum BuildEntry {
    Cheat(CheatData),
    Version(u64),
}

/// The entries of a build, by key.
pub struct BuildData {
    pub entries: Vec<(String, BuildEntry)>,
}

/// The database: the builds of each title, by title id.
pub struct BlawarDatabase {
    pub titles: StrMap<Vec<(String, BuildData)>>,
}

/// The cheat that a database cheat becomes: its title without brackets,
/// trimmed, and its code without leading title lines.
pub open spec fn cheat_of(d: CheatData) -> CheatView {
    CheatView {
        name: super::clean_name(d.title@, super::brackets()),
        code: super::cheat_code_of(d.source@),
        checked: false,
    }
}

/// `acc` with the cheats among `entries` added, in order, to build `build_id`.
pub open spec fn add_build_entries(
    acc: CheatMapView,
    build_id: Seq<char>,
    entries: Seq<(String, BuildEntry)>,
) -> CheatMapView
    decreases entries.len(),
{
    if entries.len() == 0 {
        acc
    } else {
        let a = add_build_entries(acc, build_id, entries.drop_last());
        match entries.last().1 {
            BuildEntry::Cheat(d) => super::add_cheats(a, build_id, seq![cheat_of(d)]),
            BuildEntry::Version(_) => a,
        }
    }
}

/// The cheats of the builds of a title, by build; a build appears once it
/// has a cheat.
pub open spec fn builds_cheats(builds: Seq<(String, BuildData)>) -> CheatMapView
    decreases builds.len(),
{
    if builds.len() == 0 {
        Seq::<(Seq<char>, Seq<CheatView>)>::empty()
    } else {
        add_build_entries(
            builds_cheats(builds.drop_last()),
            builds.last().0@,
            builds.last().1.entries@,
        )
    }
}

/// The cheats of title `title_id`: `None` when the database has no such title.
pub open spec fn title_cheats(
    titles: Seq<(Seq<char>, Vec<(String, BuildData)>)>,
    title_id: Seq<char>,
) -> Option<CheatMapView> {
    match lookup(titles, title_id) {
        Some(builds) => Some(builds_cheats(builds@)),
        None => None,
    }
}

/// The URL of the database.
pub open spec fn database_url() -> Seq<char> {
    "https://raw.githubusercontent.com/blawar/titledb/master/cheats.json"@
}

fn add_build_entries_exec(result: &mut CheatMap, build_id: &String, entries: &Vec<(String, BuildEntry)>)
    ensures
        final(result)@ == add_build_entries(old(result)@, build_id@, entries@),
{
    let ghost start = result@;
    let mut i: usize = 0;
    proof {
        assert(entries@.take(0) == Seq::<(String, BuildEntry)>::empty());
    }
    while i < entries.len()
        invariant
            i <= entries@.len(),
            result@ == add_build_entries(start, build_id@, entries@.take(i as int)),
        decreases entries.len() - i,
    {
        assert(entries@.take(i + 1).drop_last() == entries@.take(i as int));
        assert(entries@.take(i + 1).last() == entries@[i as int]);
        match &entries[i].1 {
            BuildEntry::Cheat(d) => {
                let c = Cheat {
                    name: name_without_brackets(d.title.as_str()),
                    code: cheat_code(d.source.as_str()),
                    checked: false,
                };
                assert(c@ == cheat_of(*d));
                result.push_cheat(build_id.clone(), c);
            },
            BuildEntry::Version(_) => {},
        }
        i += 1;
    }
    assert(entries@.take(entries@.len() as int) == entries@);
}

impl BlawarProvider {
    /// The URL of the database.
    pub fn database_url() -> (r: String)
        ensures
            r@ == database_url(),
    {
        String::from_str("https://raw.githubusercontent.com/blawar/titledb/master/cheats.json")
    }

    /// The cheats of title `title_id`, by build; `None` when the database
    /// has no such title.
    pub fn cheats_from_database(db: &BlawarDatabase, title_id: &String) -> (r: Option<CheatMap>)
        ensures
            match r {
                Some(m) => title_cheats(db.titles@, title_id@) == Some(m@),
                None => title_cheats(db.titles@, title_id@) is None,
            },
    {
        let builds = match db.titles.get(title_id) {
            Some(b) => b,
            None => return None,
        };
        let mut result = CheatMap::new();
        let mut i: usize = 0;
        proof {
            assert(builds@.take(0) == Seq::<(String, BuildData)>::empty());
        }
        while i < builds.len()
            invariant
                i <= builds@.len(),
                result@ == builds_cheats(builds@.take(i as int)),
            decreases builds.len() - i,
        {
            assert(builds@.take(i + 1).drop_last() == builds@.take(i as int));
            assert(builds@.take(i + 1).last() == builds@[i as int]);
            add_build_entries_exec(&mut result, &builds[i].0, &builds[i].1.entries);
            i += 1;
        }
        assert(builds@.take(builds@.len() as int) == builds@);
        Some(result)
    }
}


/// The cheats among the entries of a build, in order.
pub open spec fn entry_cheats(entries: Seq<(String, BuildEntry)>) -> Seq<CheatView>
    decreases entries.len(),
{
    if entries.len() == 0 {
        Seq::<CheatView>::empty()
    } else {
        match entries.last().1 {
            BuildEntry::Cheat(d) => entry_cheats(entries.drop_last()).push(cheat_of(d)),
            BuildEntry::Version(_) => entry_cheats(entries.drop_last()),
        }
    }
}

/// The cheats of all the builds with id `k`, in order.
pub open spec fn cheats_under(builds: Seq<(String, BuildData)>, k: Seq<char>) -> Seq<CheatView>
    decreases builds.len(),
{
    if builds.len() == 0 {
        Seq::<CheatView>::empty()
    } else if builds.last().0@ == k {
        cheats_under(builds.drop_last(), k) + entry_cheats(builds.last().1.entries@)
    } else {
        cheats_under(builds.drop_last(), k)
    }
}

/// `Some(cs)` when there is at least one cheat, else `None`.
pub open spec fn some_cheats(cs: Seq<CheatView>) -> Option<Seq<CheatView>> {
    if cs.len() > 0 {
        Some(cs)
    } else {
        None
    }
}

/// What a build holds after more cheats come to it.
spec fn extended(o: Option<Seq<CheatView>>, cs: Seq<CheatView>) -> Option<Seq<CheatView>> {
    match o {
        Some(x) => Some(x + cs),
        None => some_cheats(cs),
    }
}

proof fn lemma_add_build_entries(acc: CheatMapView, k: Seq<char>, es: Seq<(String, BuildEntry)>)
    requires
        crate::assoc::distinct_keys(acc),
    ensures
        crate::assoc::distinct_keys(add_build_entries(acc, k, es)),
        forall|k2: Seq<char>| #[trigger] lookup(add_build_entries(acc, k, es), k2) == if k2 == k {
            extended(lookup(acc, k), entry_cheats(es))
        } else {
            lookup(acc, k2)
        },
    decreases es.len(),
{
    if es.len() == 0 {
        assert forall|k2: Seq<char>| #[trigger] lookup(add_build_entries(acc, k, es), k2) == if k2 == k {
            extended(lookup(acc, k), entry_cheats(es))
        } else {
            lookup(acc, k2)
        } by {
            if k2 == k {
                match lookup(acc, k) {
                    Some(x) => assert(x + Seq::<CheatView>::empty() == x),
                    None => {},
                }
            }
        }
    } else {
        let e0 = es.drop_last();
        lemma_add_build_entries(acc, k, e0);
        let a = add_build_entries(acc, k, e0);
        match es.last().1 {
            BuildEntry::Cheat(d) => {
                let c = cheat_of(d);
                super::law_add_cheats(a, k, seq![c], k);
                assert forall|k2: Seq<char>| #[trigger] lookup(add_build_entries(acc, k, es), k2) == if k2 == k {
                    extended(lookup(acc, k), entry_cheats(es))
                } else {
                    lookup(acc, k2)
                } by {
                    super::law_add_cheats(a, k, seq![c], k2);
                    assert(lookup(a, k2) == if k2 == k {
                        extended(lookup(acc, k), entry_cheats(e0))
                    } else {
                        lookup(acc, k2)
                    });
                    if k2 == k {
                        match lookup(acc, k) {
                            Some(x) => {
                                assert(x + entry_cheats(e0) + seq![c] == x + entry_cheats(e0).push(c));
                            },
                            None => {
                                if entry_cheats(e0).len() == 0 {
                                    assert(entry_cheats(e0).push(c) == seq![c]);
                                } else {
                                    assert(entry_cheats(e0) + seq![c] == entry_cheats(e0).push(c));
                                }
                            },
                        }
                    }
                }
            },
            BuildEntry::Version(_) => {
                assert forall|k2: Seq<char>| #[trigger] lookup(add_build_entries(acc, k, es), k2) == if k2 == k {
                    extended(lookup(acc, k), entry_cheats(es))
                } else {
                    lookup(acc, k2)
                } by {
                    assert(lookup(a, k2) == if k2 == k {
                        extended(lookup(acc, k), entry_cheats(e0))
                    } else {
                        lookup(acc, k2)
                    });
                }
            },
        }
    }
}

/// Every cheat of a title is filed under the id of its own build: the
/// builds stay distinct, and the cheats held under an id are exactly the
/// cheats of the builds with that id, in order; an id with no cheat is
/// not present.
pub proof fn law_cheats_filed_by_build(builds: Seq<(String, BuildData)>, k: Seq<char>)
    ensures
        crate::assoc::distinct_keys(builds_cheats(builds)),
        lookup(builds_cheats(builds), k) == some_cheats(cheats_under(builds, k)),
    decreases builds.len(),
{
    if builds.len() == 0 {
        assert(!crate::assoc::has_key(builds_cheats(builds), k));
    } else {
        let b0 = builds.drop_last();
        let last = builds.last();
        law_cheats_filed_by_build(b0, k);
        law_cheats_filed_by_build(b0, last.0@);
        lemma_add_build_entries(builds_cheats(b0), last.0@, last.1.entries@);
        assert(lookup(builds_cheats(builds), k) == if k == last.0@ {
            extended(lookup(builds_cheats(b0), k), entry_cheats(last.1.entries@))
        } else {
            lookup(builds_cheats(b0), k)
        });
        if k == last.0@ {
            let x = cheats_under(b0, k);
            if x.len() == 0 {
                assert(x + entry_cheats(last.1.entries@) == entry_cheats(last.1.entries@));
            }
        }
    }
}

} // verus!
