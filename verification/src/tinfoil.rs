//! The titles of the Tinfoil database: id, name (published as HTML), and the
//! optional release date and publisher (published as empty strings when absent).
use vstd::prelude::*;
use crate::utils::strip_html;

verus! {

/// A title of the Tinfoil database.
pub struct TinfoilTitle {
    pub id: String,
    pub name: String,
    pub release_date: Option<String>,
    pub publisher: Option<String>,
}

/// The Tinfoil database: all titles.
pub struct TinfoilRoot {
    pub data: Vec<TinfoilTitle>,
}

/// An optional string with the empty string read as absent.
pub open spec fn non_empty(s: Option<Seq<char>>) -> Option<Seq<char>> {
    match s {
        Some(x) => if x.len() == 0 {
            None
        } else {
            Some(x)
        },
        None => None,
    }
}

/// The plain text of a title name published as HTML.
pub open spec fn plain_name(html: Seq<char>) -> Seq<char> {
    crate::text::trim(crate::utils::decode_entities(crate::utils::remove_tags(html)))
}

/// Reads an absent value and the empty string alike as `None`.
pub fn empty_string_as_none(s: Option<String>) -> (r: Option<String>)
    ensures
        crate::cheat_provider::opt_string_view(r) == non_empty(crate::cheat_provider::opt_string_view(s)),
{
    match s {
        Some(x) => if x.as_str().is_empty() {
            None
        } else {
            Some(x)
        },
        None => None,
    }
}

/// The plain text of a title name published as HTML.
pub fn strip_html_tags(s: String) -> (r: String)
    ensures
        r@ == plain_name(s@),
{
    strip_html(s.as_str())
}

impl TinfoilTitle {
    /// A title as the database publishes it: the name is cleaned of HTML,
    /// and an empty release date or publisher is read as absent.
    pub fn from_published(
        id: String,
        name: String,
        release_date: Option<String>,
        publisher: Option<String>,
    ) -> (t: Self)
        ensures
            t.id@ == id@,
            t.name@ == plain_name(name@),
            crate::cheat_provider::opt_string_view(t.release_date) == non_empty(
                crate::cheat_provider::opt_string_view(release_date),
            ),
            crate::cheat_provider::opt_string_view(t.publisher) == non_empty(
                crate::cheat_provider::opt_string_view(publisher),
            ),
    {
        TinfoilTitle {
            id,
            name: strip_html_tags(name),
            release_date: empty_string_as_none(release_date),
            publisher: empty_string_as_none(publisher),
        }
    }
}

fn clone_opt(o: &Option<String>) -> (r: Option<String>)
    ensures
        r == *o,
{
    match o {
        Some(s) => Some(s.clone()),
        None => None,
    }
}

impl Clone for TinfoilTitle {
    fn clone(&self) -> (r: Self)
        ensures
            r == *self,
    {
        TinfoilTitle {
            id: self.id.clone(),
            name: self.name.clone(),
            release_date: clone_opt(&self.release_date),
            publisher: clone_opt(&self.publisher),
        }
    }
}

/// An empty release date or publisher is never kept: it is read as absent.
pub proof fn law_no_empty_strings(s: Option<Seq<char>>)
    ensures
        non_empty(s) != Some(Seq::<char>::empty()),
        (s matches Some(x) && x.len() > 0) ==> non_empty(s) == s,
{
}

} // verus!
