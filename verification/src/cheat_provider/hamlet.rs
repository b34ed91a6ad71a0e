//! The switch-cheats-db provider: one JSON database per title, mapping each
//! build id to the cheats of that build (name to source), besides an
//! attribution entry.
use vstd::prelude::*;
use crate::assoc::{lookup, StrMap};
use super::{cheat_code, name_without_delimiters, Cheat, CheatMap, CheatMapView, CheatView};

verus! {

/// The provider of the switch-cheats-db database.
pub struct HamletProvider;

/// A value of the database: the cheats of a build (name to source) or the
/// attribution of the cheat files.
pub enum CheatEntry {
    Cheats(Vec<(String, String)>),
    Attribution(Vec<(String, String)>),
}

/// A title's database: the entries by build id.
pub struct HamletDatabase {
    pub builds: StrMap<CheatEntry>,
}

/// The views of a sequence of string pairs.
pub open spec fn pairs_view(v: Seq<(String, String)>) -> Seq<(Seq<char>, Seq<char>)> {
    v.map_values(|p: (String, String)| (p.0@, p.1@))
}

/// The key under which the database holds its attribution.
pub open spec fn attribution_key() -> Seq<char> {
    "attribution"@
}

/// The keys of `builds` other than the attribution key, in order.
pub open spec fn build_ids_of(builds: Seq<(Seq<char>, CheatEntry)>) -> Seq<Seq<char>>
    decreases builds.len(),
{
    if builds.len() == 0 {
        Seq::<Seq<char>>::empty()
    } else {
        let r = build_ids_of(builds.drop_last());
        if builds.last().0 != attribution_key() {
            r.push(builds.last().0)
        } else {
            r
        }
    }
}

/// The cheats of one build: for each name and source whose code (without
/// leading title lines) is not empty, a cheat with the cleaned name.
pub open spec fn build_cheats(pairs: Seq<(Seq<char>, Seq<char>)>) -> Seq<CheatView>
    decreases pairs.len(),
{
    if pairs.len() == 0 {
        Seq::<CheatView>::empty()
    } else {
        let r = build_cheats(pairs.drop_last());
        let code = super::cheat_code_of(pairs.last().1);
        if code.len() > 0 {
            r.push(
                CheatView {
                    name: super::clean_name(pairs.last().0, super::delimiters()),
                    code: code,
                    checked: false,
                },
            )
        } else {
            r
        }
    }
}

/// The cheats of a database: every build other than the attribution that
/// holds cheats, with its cheats (possibly none), in database order.
pub open spec fn database_cheats(builds: Seq<(Seq<char>, CheatEntry)>) -> CheatMapView
    decreases builds.len(),
{
    if builds.len() == 0 {
        Seq::<(Seq<char>, Seq<CheatView>)>::empty()
    } else {
        let acc = database_cheats(builds.drop_last());
        let k = builds.last().0;
        if k != attribution_key() {
            match builds.last().1 {
                CheatEntry::Cheats(c) => super::add_cheats(acc, k, build_cheats(pairs_view(c@))),
                CheatEntry::Attribution(_) => acc,
            }
        } else {
            acc
        }
    }
}

/// The URL of the database of a title.
pub open spec fn database_url(title_id: Seq<char>) -> Seq<char> {
    "https://raw.githubusercontent.com/HamletDuFromage/switch-cheats-db/master/cheats/"@
        + title_id + ".json"@
}

fn attribution_string() -> (s: String)
    ensures
        s@ == attribution_key(),
{
    String::from_str("attribution")
}

impl HamletDatabase {
    /// The build ids of the database: every key but the attribution.
    pub fn build_ids(&self) -> (r: Vec<String>)
        ensures
            crate::text::strings_view(r@) == build_ids_of(self.builds@),
    {
        let entries = self.builds.entries();
        let ghost ev = self.builds@;
        let attribution = attribution_string();
        let mut r: Vec<String> = Vec::new();
        let mut i: usize = 0;
        proof {
            assert(ev.take(0) == Seq::<(Seq<char>, CheatEntry)>::empty());
        }
        while i < entries.len()
            invariant
                i <= entries@.len(),
                ev == entries@.map_values(|e: (String, CheatEntry)| (e.0@, e.1)),
                attribution@ == attribution_key(),
                crate::text::strings_view(r@) == build_ids_of(ev.take(i as int)),
            decreases entries.len() - i,
        {
            assert(ev.take(i + 1).drop_last() == ev.take(i as int));
            assert(ev.take(i + 1).last() == (entries@[i as int].0@, entries@[i as int].1));
            if entries[i].0 != attribution {
                let ghost before = r@;
                r.push(entries[i].0.clone());
                assert(crate::text::strings_view(r@) == crate::text::strings_view(before).push(
                    entries@[i as int].0@,
                ));
            }
            i += 1;
        }
        assert(ev.take(entries@.len() as int) == ev);
        r
    }

    /// The cheats (name and source) of build `build_id`, if the database
    /// holds cheats under that key.
    pub fn get_cheats(&self, build_id: &String) -> (r: Option<&Vec<(String, String)>>)
        ensures
            match r {
                Some(c) => lookup(self.builds@, build_id@) == Some(CheatEntry::Cheats(*c)),
                None => !(lookup(self.builds@, build_id@) matches Some(CheatEntry::Cheats(_))),
            },
    {
        match self.builds.get(build_id) {
            Some(CheatEntry::Cheats(c)) => Some(c),
            _ => None,
        }
    }
}

fn build_cheats_exec(pairs: &Vec<(String, String)>) -> (r: Vec<Cheat>)
    ensures
        super::cheats_view(r@) == build_cheats(pairs_view(pairs@)),
{
    let ghost pv = pairs_view(pairs@);
    let mut r: Vec<Cheat> = Vec::new();
    let mut i: usize = 0;
    proof {
        assert(pv.take(0) == Seq::<(Seq<char>, Seq<char>)>::empty());
        assert(super::cheats_view(r@) == Seq::<CheatView>::empty());
    }
    while i < pairs.len()
        invariant
            i <= pairs@.len(),
            pv == pairs_view(pairs@),
            super::cheats_view(r@) == build_cheats(pv.take(i as int)),
        decreases pairs.len() - i,
    {
        assert(pv.take(i + 1).drop_last() == pv.take(i as int));
        assert(pv.take(i + 1).last() == (pairs@[i as int].0@, pairs@[i as int].1@));
        let code = cheat_code(pairs[i].1.as_str());
        if code.len() > 0 {
            let name = name_without_delimiters(pairs[i].0.as_str());
            let c = Cheat { name, code, checked: false };
            let ghost before = r@;
            r.push(c);
            assert(super::cheats_view(r@) == super::cheats_view(before).push(c@));
        }
        i += 1;
    }
    assert(pv.take(pairs@.len() as int) == pv);
    r
}

impl HamletProvider {
    /// The URL of the database of title `title_id`.
    pub fn database_url(title_id: &str) -> (r: String)
        ensures
            r@ == database_url(title_id@),
    {
        let mut url = String::from_str(
            "https://raw.githubusercontent.com/HamletDuFromage/switch-cheats-db/master/cheats/",
        );
        url.append(title_id);
        url.append(".json");
        url
    }

    /// The cheats of a title's database, by build.
    pub fn cheats_from_database(db: &HamletDatabase) -> (r: CheatMap)
        ensures
            r@ == database_cheats(db.builds@),
    {
        let entries = db.builds.entries();
        let ghost ev = db.builds@;
        let attribution = attribution_string();
        let mut result = CheatMap::new();
        let mut i: usize = 0;
        proof {
            assert(ev.take(0) == Seq::<(Seq<char>, CheatEntry)>::empty());
        }
        while i < entries.len()
            invariant
                i <= entries@.len(),
                ev == entries@.map_values(|e: (String, CheatEntry)| (e.0@, e.1)),
                attribution@ == attribution_key(),
                result@ == database_cheats(ev.take(i as int)),
            decreases entries.len() - i,
        {
            assert(ev.take(i + 1).drop_last() == ev.take(i as int));
            assert(ev.take(i + 1).last() == (entries@[i as int].0@, entries@[i as int].1));
            if entries[i].0 != attribution {
                match &entries[i].1 {
                    CheatEntry::Cheats(c) => {
                        let cheats = build_cheats_exec(c);
                        result.extend_build(entries[i].0.clone(), cheats);
                    },
                    CheatEntry::Attribution(_) => {},
                }
            }
            i += 1;
        }
        assert(ev.take(entries@.len() as int) == ev);
        result
    }
}

/// The attribution is never taken for a build: it is not among the build
/// ids, and the cheats of a database have no build under its key.
pub proof fn law_attribution_is_no_build(builds: Seq<(Seq<char>, CheatEntry)>)
    ensures
        !build_ids_of(builds).contains(attribution_key()),
        !crate::assoc::has_key(database_cheats(builds), attribution_key()),
    decreases builds.len(),
{
    if builds.len() > 0 {
        law_attribution_is_no_build(builds.drop_last());
        let acc = database_cheats(builds.drop_last());
        let r = build_ids_of(builds.drop_last());
        let k = builds.last().0;
        if k != attribution_key() {
            assert(!r.push(k).contains(attribution_key())) by {
                if r.push(k).contains(attribution_key()) {
                    let j = choose|j: int| 0 <= j < r.push(k).len() && r.push(k)[j] == attribution_key();
                    if j < r.len() {
                        assert(r[j] == attribution_key());
                    }
                }
            }
            match builds.last().1 {
                CheatEntry::Cheats(c) => {
                    let t = database_cheats(builds);
                    assert(!crate::assoc::has_key(t, attribution_key())) by {
                        if crate::assoc::has_key(t, attribution_key()) {
                            let j = crate::assoc::key_index(t, attribution_key());
                            if crate::assoc::has_key(acc, k) {
                                let i = crate::assoc::key_index(acc, k);
                                if j != i {
                                    assert(acc[j].0 == attribution_key());
                                }
                            } else {
                                if j < acc.len() {
                                    assert(acc[j].0 == attribution_key());
                                }
                            }
                        }
                    }
                },
                CheatEntry::Attribution(_) => {},
            }
        }
    }
}


/// The cheats of a build read from two runs of (name, source) pairs are
/// those of the first run followed by those of the second, and a single
/// pair gives one cheat (cleaned name, code without leading title lines)
/// exactly when its code is not empty: every pair with code becomes a
/// cheat, in order.
pub proof fn law_build_cheats_pairwise(
    a: Seq<(Seq<char>, Seq<char>)>,
    b: Seq<(Seq<char>, Seq<char>)>,
    p: (Seq<char>, Seq<char>),
)
    ensures
        build_cheats(a + b) == build_cheats(a) + build_cheats(b),
        build_cheats(seq![p]) == (if super::cheat_code_of(p.1).len() > 0 {
            seq![CheatView {
                name: super::clean_name(p.0, super::delimiters()),
                code: super::cheat_code_of(p.1),
                checked: false,
            }]
        } else {
            Seq::<CheatView>::empty()
        }),
    decreases b.len(),
{
    if b.len() == 0 {
        assert(a + b == a);
        assert(build_cheats(a) + Seq::<CheatView>::empty() == build_cheats(a));
    } else {
        law_build_cheats_pairwise(a, b.drop_last(), p);
        assert((a + b).drop_last() == a + b.drop_last());
        assert((a + b).last() == b.last());
        let x = CheatView {
            name: super::clean_name(b.last().0, super::delimiters()),
            code: super::cheat_code_of(b.last().1),
            checked: false,
        };
        assert((build_cheats(a) + build_cheats(b.drop_last())).push(x) == build_cheats(a) + build_cheats(b.drop_last()).push(x));
    }
    let e = Seq::<(Seq<char>, Seq<char>)>::empty();
    assert(seq![p].drop_last() == e);
    assert(seq![p].last() == p);
    assert(build_cheats(e) == Seq::<CheatView>::empty());
}


/// What each entry of a database adds: for an entry that holds the cheats
/// of a build (not under the attribution key), its build id and cheats.
pub open spec fn database_additions(builds: Seq<(Seq<char>, CheatEntry)>) -> Seq<(Seq<char>, Seq<CheatView>)>
    decreases builds.len(),
{
    if builds.len() == 0 {
        Seq::<(Seq<char>, Seq<CheatView>)>::empty()
    } else {
        let r = database_additions(builds.drop_last());
        let k = builds.last().0;
        match builds.last().1 {
            CheatEntry::Cheats(c) => if k != attribution_key() {
                r.push((k, build_cheats(pairs_view(c@))))
            } else {
                r
            },
            CheatEntry::Attribution(_) => r,
        }
    }
}

proof fn lemma_database_add_all(builds: Seq<(Seq<char>, CheatEntry)>)
    ensures
        database_cheats(builds) == super::add_all(database_additions(builds)),
    decreases builds.len(),
{
    if builds.len() > 0 {
        lemma_database_add_all(builds.drop_last());
        let r = database_additions(builds.drop_last());
        match builds.last().1 {
            CheatEntry::Cheats(c) => if builds.last().0 != attribution_key() {
                let x = (builds.last().0, build_cheats(pairs_view(c@)));
                assert(r.push(x).drop_last() == r);
            },
            CheatEntry::Attribution(_) => {},
        }
    }
}

/// The cheats of each build of a database are filed under its own id: the
/// builds are distinct, a build is present exactly when a cheats entry
/// (other than the attribution) has its id, and it holds the cheats of
/// those entries, in order.
pub proof fn law_database_filed_by_build(builds: Seq<(Seq<char>, CheatEntry)>, k: Seq<char>)
    ensures
        crate::assoc::distinct_keys(database_cheats(builds)),
        lookup(database_cheats(builds), k) == if super::mentions(database_additions(builds), k) {
            Some(super::filed_under(database_additions(builds), k))
        } else {
            None::<Seq<CheatView>>
        },
{
    lemma_database_add_all(builds);
    super::law_add_all(database_additions(builds), k);
}


/// The build ids are the keys of the database other than the attribution,
/// each in the place of its entry: those of two runs of entries are those
/// of the first run followed by those of the second, and a key is among
/// them exactly when it is not the attribution and some entry has it.
pub proof fn law_build_ids_are_keys(
    a: Seq<(Seq<char>, CheatEntry)>,
    b: Seq<(Seq<char>, CheatEntry)>,
    k: Seq<char>,
)
    ensures
        build_ids_of(a + b) == build_ids_of(a) + build_ids_of(b),
        build_ids_of(a).contains(k) <==> (k != attribution_key() && exists|i: int| 0 <= i < a.len() && #[trigger] a[i].0 == k),
    decreases a.len() + b.len(),
{
    if b.len() == 0 {
        assert(a + b == a);
        assert(build_ids_of(a) + Seq::<Seq<char>>::empty() == build_ids_of(a));
    } else {
        law_build_ids_are_keys(a, b.drop_last(), k);
        assert((a + b).drop_last() == a + b.drop_last());
        assert((a + b).last() == b.last());
        assert((build_ids_of(a) + build_ids_of(b.drop_last())).push(b.last().0)
            == build_ids_of(a) + build_ids_of(b.drop_last()).push(b.last().0));
    }
    if a.len() > 0 {
        let a0 = a.drop_last();
        law_build_ids_are_keys(a0, Seq::<(Seq<char>, CheatEntry)>::empty(), k);
        let r = build_ids_of(a0);
        let x = a.last();
        assert(a[a.len() - 1] == x);
        if build_ids_of(a).contains(k) {
            let j = choose|j: int| 0 <= j < build_ids_of(a).len() && build_ids_of(a)[j] == k;
            if x.0 != attribution_key() && j == r.len() {
                assert(build_ids_of(a)[j] == x.0);
            } else {
                assert(build_ids_of(a)[j] == r[j]);
                assert(r.contains(k));
                let i = choose|i: int| 0 <= i < a0.len() && #[trigger] a0[i].0 == k;
                assert(a[i] == a0[i]);
            }
        }
        if k != attribution_key() && exists|i: int| 0 <= i < a.len() && #[trigger] a[i].0 == k {
            let i = choose|i: int| 0 <= i < a.len() && #[trigger] a[i].0 == k;
            if i < a0.len() {
                assert(a0[i] == a[i]);
                assert(r.contains(k));
                let j = choose|j: int| 0 <= j < r.len() && r[j] == k;
                assert(build_ids_of(a)[j] == k);
            } else {
                assert(x.0 == k);
                assert(build_ids_of(a)[r.len() as int] == k);
            }
        }
    }
}

} // verus!
