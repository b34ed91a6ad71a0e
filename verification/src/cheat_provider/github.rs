//! Providers backed by a GitHub repository that holds one cheat file per
//! build (`<build id>.txt`) in a directory per title, listed through the
//! GitHub contents API.
use vstd::prelude::*;
use crate::text::{chars_of, replace_chars, string_of, to_uppercase, trim_end_pattern_chars};
use super::{parse_cheat_file, CheatMap, CheatMapView};

verus! {

/// A provider whose listing URL is `url_template` with `{}` standing for the title id.
pub struct GithubProvider {
    url_template: &'static str,
}

/// One item of a directory listing: its file name and download URL, when
/// the listing gives them as strings.
pub struct GithubItem {
    pub name: Option<String>,
    pub download_url: Option<String>,
}

/// The placeholder for the title id in a listing URL template.
pub open spec fn placeholder() -> Seq<char> {
    seq!['{', '}']
}

/// The extension of cheat files.
pub open spec fn txt_extension() -> Seq<char> {
    seq!['.', 't', 'x', 't']
}

/// The build id that a cheat file name stands for: the name without its
/// `.txt` endings, in upper case.
pub open spec fn build_id_of(file_name: Seq<char>) -> Seq<char> {
    crate::text::uppercase(crate::text::trim_end_pattern(file_name, txt_extension()))
}

/// What to download for an item: its build id and download URL, or `None`
/// when the item lacks a name or a download URL.
pub open spec fn item_download(item: GithubItem) -> Option<(Seq<char>, Seq<char>)> {
    match (item.name, item.download_url) {
        (Some(n), Some(u)) => Some((build_id_of(n@), u@)),
        _ => None,
    }
}

/// What to download for a listing, in order; `None` as soon as one item
/// lacks a name or a download URL.
pub open spec fn listing_downloads(items: Seq<GithubItem>) -> Option<Seq<(Seq<char>, Seq<char>)>>
    decreases items.len(),
{
    if items.len() == 0 {
        Some(Seq::<(Seq<char>, Seq<char>)>::empty())
    } else {
        match (listing_downloads(items.drop_last()), item_download(items.last())) {
            (Some(d), Some(x)) => Some(d.push(x)),
            _ => None,
        }
    }
}

/// The cheats of the downloaded files (build id and content), the cheats of
/// every file appended to its build.
pub open spec fn files_cheats(files: Seq<(Seq<char>, Seq<char>)>) -> CheatMapView
    decreases files.len(),
{
    if files.len() == 0 {
        Seq::<(Seq<char>, Seq<super::CheatView>)>::empty()
    } else {
        super::add_cheats(
            files_cheats(files.drop_last()),
            files.last().0,
            super::parse_cheats(files.last().1),
        )
    }
}

impl GithubProvider {
    /// The listing URL template.
    pub closed spec fn template(&self) -> Seq<char> {
        self.url_template@
    }

    /// A provider listing `url_template` with `{}` replaced by the title id.
    pub fn new(url_template: &'static str) -> (p: Self)
        ensures
            p.template() == url_template@,
    {
        Self { url_template }
    }

    /// The listing URL for title `title_id`.
    pub fn listing_url(&self, title_id: &str) -> (r: String)
        ensures
            r@ == crate::text::replace_all(self.template(), placeholder(), title_id@),
    {
        let t = chars_of(self.url_template);
        let p = vec!['{', '}'];
        assert(p@ == placeholder());
        let id = chars_of(title_id);
        let out = replace_chars(&t, &p, &id);
        string_of(&out)
    }

    /// The build id and download URL of each item of a listing, in order;
    /// `None` when an item lacks a name or a download URL.
    pub fn downloads(items: &Vec<GithubItem>) -> (r: Option<Vec<(String, String)>>)
        ensures
            match r {
                Some(d) => listing_downloads(items@) == Some(
                    d@.map_values(|x: (String, String)| (x.0@, x.1@)),
                ),
                None => listing_downloads(items@) is None,
            },
    {
        let ext = vec!['.', 't', 'x', 't'];
        assert(ext@ == txt_extension());
        let mut r: Vec<(String, String)> = Vec::new();
        let mut i: usize = 0;
        proof {
            assert(items@.take(0) == Seq::<GithubItem>::empty());
            assert(r@.map_values(|x: (String, String)| (x.0@, x.1@)) == Seq::<(Seq<char>, Seq<char>)>::empty());
        }
        while i < items.len()
            invariant
                i <= items@.len(),
                ext@ == txt_extension(),
                listing_downloads(items@.take(i as int)) == Some(
                    r@.map_values(|x: (String, String)| (x.0@, x.1@)),
                ),
            decreases items.len() - i,
        {
            assert(items@.take(i + 1).drop_last() == items@.take(i as int));
            assert(items@.take(i + 1).last() == items@[i as int]);
            let item = &items[i];
            let name = match &item.name {
                Some(n) => n,
                None => {
                    proof {
                        lemma_downloads_none_stays(items@, i as int + 1);
                    }
                    return None;
                },
            };
            let url = match &item.download_url {
                Some(u) => u,
                None => {
                    proof {
                        lemma_downloads_none_stays(items@, i as int + 1);
                    }
                    return None;
                },
            };
            let stem = trim_end_pattern_chars(&chars_of(name.as_str()), &ext);
            let build_id = to_uppercase(string_of(&stem).as_str());
            let ghost before = r@;
            r.push((build_id, url.clone()));
            assert(r@.map_values(|x: (String, String)| (x.0@, x.1@)) == before.map_values(
                |x: (String, String)| (x.0@, x.1@),
            ).push((build_id_of(name@), url@)));
            i += 1;
        }
        assert(items@.take(items@.len() as int) == items@);
        Some(r)
    }

    /// The cheats of the downloaded cheat files (build id and content), each
    /// file's cheats appended to its build.
    pub fn cheats_from_files(files: &Vec<(String, String)>) -> (r: CheatMap)
        ensures
            r@ == files_cheats(files@.map_values(|x: (String, String)| (x.0@, x.1@))),
    {
        let ghost fv = files@.map_values(|x: (String, String)| (x.0@, x.1@));
        let mut result = CheatMap::new();
        let mut i: usize = 0;
        proof {
            assert(fv.take(0) == Seq::<(Seq<char>, Seq<char>)>::empty());
        }
        while i < files.len()
            invariant
                i <= files@.len(),
                fv == files@.map_values(|x: (String, String)| (x.0@, x.1@)),
                result@ == files_cheats(fv.take(i as int)),
            decreases files.len() - i,
        {
            assert(fv.take(i + 1).drop_last() == fv.take(i as int));
            assert(fv.take(i + 1).last() == (files@[i as int].0@, files@[i as int].1@));
            let cheats = parse_cheat_file(files[i].1.as_str());
            result.extend_build(files[i].0.clone(), cheats);
            i += 1;
        }
        assert(fv.take(files@.len() as int) == fv);
        result
    }
}

/// Once an item of the listing lacks a name or URL, so does every longer prefix.
proof fn lemma_downloads_none_stays(items: Seq<GithubItem>, n: int)
    requires
        0 < n <= items.len(),
        item_download(items[n - 1]) is None,
    ensures
        listing_downloads(items) is None,
    decreases items.len() - n,
{
    if n < items.len() {
        lemma_downloads_none_stays(items.drop_last(), n);
        assert(items.drop_last()[n - 1] == items[n - 1]);
    } else {
        assert(items.last() == items[n - 1]);
    }
}


/// What each downloaded file adds: its build id and the cheats it holds.
pub open spec fn file_additions(files: Seq<(Seq<char>, Seq<char>)>) -> Seq<(Seq<char>, Seq<super::CheatView>)> {
    files.map_values(|f: (Seq<char>, Seq<char>)| (f.0, super::parse_cheats(f.1)))
}

proof fn lemma_files_cheats_add_all(files: Seq<(Seq<char>, Seq<char>)>)
    ensures
        files_cheats(files) == super::add_all(file_additions(files)),
    decreases files.len(),
{
    if files.len() > 0 {
        lemma_files_cheats_add_all(files.drop_last());
        assert(file_additions(files).drop_last() == file_additions(files.drop_last()));
        assert(file_additions(files).last() == (files.last().0, super::parse_cheats(files.last().1)));
    }
}

/// Every downloaded file's cheats are filed under its own build id: the
/// builds are distinct, a build is present exactly when a file is named
/// after it, and it holds the cheats of the files named after it, in order.
pub proof fn law_files_filed_by_build(files: Seq<(Seq<char>, Seq<char>)>, k: Seq<char>)
    ensures
        crate::assoc::distinct_keys(files_cheats(files)),
        crate::assoc::lookup(files_cheats(files), k) == if super::mentions(file_additions(files), k) {
            Some(super::filed_under(file_additions(files), k))
        } else {
            None::<Seq<super::CheatView>>
        },
{
    lemma_files_cheats_add_all(files);
    super::law_add_all(file_additions(files), k);
}


/// A listing is read item by item: the downloads of two runs of items are
/// those of the first run followed by those of the second, failing when
/// either fails; one item with a name and a download URL gives its build id
/// (the name without `.txt` endings, in upper case) and its URL, and one
/// lacking either gives no downloads at all.
pub proof fn law_listing_item_by_item(a: Seq<GithubItem>, b: Seq<GithubItem>, it: GithubItem)
    ensures
        listing_downloads(a + b) == match (listing_downloads(a), listing_downloads(b)) {
            (Some(x), Some(y)) => Some(x + y),
            _ => None::<Seq<(Seq<char>, Seq<char>)>>,
        },
        listing_downloads(seq![it]) == match (it.name, it.download_url) {
            (Some(n), Some(u)) => Some(seq![(build_id_of(n@), u@)]),
            _ => None::<Seq<(Seq<char>, Seq<char>)>>,
        },
    decreases b.len(),
{
    if b.len() == 0 {
        assert(a + b == a);
        match listing_downloads(a) {
            Some(x) => assert(x + Seq::<(Seq<char>, Seq<char>)>::empty() == x),
            None => {},
        }
    } else {
        law_listing_item_by_item(a, b.drop_last(), it);
        assert((a + b).drop_last() == a + b.drop_last());
        assert((a + b).last() == b.last());
        match (listing_downloads(a), listing_downloads(b.drop_last()), item_download(b.last())) {
            (Some(x), Some(y), Some(z)) => assert((x + y).push(z) == x + y.push(z)),
            _ => {},
        }
    }
    let e = Seq::<GithubItem>::empty();
    assert(seq![it].drop_last() == e);
    assert(seq![it].last() == it);
    assert(listing_downloads(e) == Some(Seq::<(Seq<char>, Seq<char>)>::empty()));
    match (it.name, it.download_url) {
        (Some(n), Some(u)) => {
            let z = (build_id_of(n@), u@);
            assert(item_download(it) == Some(z));
            assert(Seq::<(Seq<char>, Seq<char>)>::empty().push(z) == seq![z]);
        },
        _ => {
            assert(item_download(it) is None);
        },
    }
}

} // verus!
