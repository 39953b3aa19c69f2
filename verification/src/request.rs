//! The page-fetch request descriptor.  Building the request URL from a
//! `<project>/<page>` path is verified; validating the built text as an
//! absolute URL is the `url` crate's work, behind a trusted wrapper.  The
//! network call itself lives outside the library.

use vstd::prelude::*;
use crate::strutil::{
    chars_to_string, push_all, split_char, split_exec, str_to_chars, views_of,
};

verus! {

/// The API root under which a page is fetched.
pub open spec fn lit_api() -> Seq<char> {
    seq!['h', 't', 't', 'p', 's', ':', '/', '/', 's', 'c', 'r', 'a', 'p', 'b', 'o', 'x', '.', 'i', 'o', '/', 'a', 'p', 'i', '/', 'p', 'a', 'g', 'e', 's', '/']
}

pub(crate) fn lit_api_vec() -> (v: Vec<char>)
    ensures
        v@ == lit_api(),
{
    let mut v: Vec<char> = Vec::new();
    v.push('h');
    v.push('t');
    v.push('t');
    v.push('p');
    v.push('s');
    v.push(':');
    v.push('/');
    v.push('/');
    v.push('s');
    v.push('c');
    v.push('r');
    v.push('a');
    v.push('p');
    v.push('b');
    v.push('o');
    v.push('x');
    v.push('.');
    v.push('i');
    v.push('o');
    v.push('/');
    v.push('a');
    v.push('p');
    v.push('i');
    v.push('/');
    v.push('p');
    v.push('a');
    v.push('g');
    v.push('e');
    v.push('s');
    v.push('/');
    proof {
        assert(v@ =~= lit_api());
    }
    v
}

/// The raw request URL for a path: the API root, the path's first
/// `/`-separated part, a slash, and its second part.
pub open spec fn built_url(path: Seq<char>) -> Seq<char> {
    let parts = split_char(path, '/');
    lit_api() + parts[0] + seq!['/'] + parts[1]
}

/// What `url::Url::parse` makes of a text, rendered back to text; `None`
/// where the text does not parse as an absolute URL.
pub uninterp spec fn url_normal(s: Seq<char>) -> Option<Seq<char>>;

/// Relies on `url::Url::parse` and `url::Url::to_string`: whether a text
/// parses as an absolute URL, and the normal form it is rendered back to,
/// depend on the text alone.
#[verifier::external_body]
fn normalize_url(s: &str) -> (r: Option<String>)
    ensures
        r is Some <==> url_normal(s@) is Some,
        r matches Some(u) ==> u@ == url_normal(s@)->0,
{
    match url::Url::parse(s) {
        Ok(u) => Some(u.to_string()),
        Err(_) => None,
    }
}

/// A page-fetch request: the URL to ask for.
pub struct SbRequest {
    pub url: String,
}

impl SbRequest {
    /// The request for the page at `<project>/<page>`.  The path must hold
    /// a slash, and the URL built from its first two parts must parse;
    /// `try_new` checks both for any path.
    pub fn new(path: String) -> (r: Self)
        requires
            split_char(path@, '/').len() >= 2,
            url_normal(built_url(path@)) is Some,
        ensures
            r.url@ == url_normal(built_url(path@))->0,
    {
        let chars = str_to_chars(path.as_str());
        let parts = split_exec(&chars, '/');
        proof {
            assert(parts@.len() == views_of(parts@).len());
        }
        let mut u = lit_api_vec();
        push_all(&mut u, &parts[0]);
        u.push('/');
        push_all(&mut u, &parts[1]);
        proof {
            assert(views_of(parts@)[0] == parts@[0]@);
            assert(views_of(parts@)[1] == parts@[1]@);
            assert(u@ =~= built_url(path@));
        }
        let us = chars_to_string(&u);
        match normalize_url(us.as_str()) {
            Some(nu) => SbRequest { url: nu },
            None => {
                proof {
                    assert(false);
                }
                vstd::pervasive::unreached()
            },
        }
    }

    /// The request for the path, where the path has at least two
    /// `/`-separated parts and the URL built from them parses; `None`
    /// otherwise.
    pub fn try_new(path: String) -> (r: Option<SbRequest>)
        ensures
            r is Some <==> (split_char(path@, '/').len() >= 2 && url_normal(built_url(path@))
                is Some),
            r matches Some(q) ==> q.url@ == url_normal(built_url(path@))->0,
    {
        let chars = str_to_chars(path.as_str());
        let parts = split_exec(&chars, '/');
        proof {
            assert(parts@.len() == views_of(parts@).len());
        }
        if parts.len() < 2 {
            return None;
        }
        let mut u = lit_api_vec();
        push_all(&mut u, &parts[0]);
        u.push('/');
        push_all(&mut u, &parts[1]);
        proof {
            assert(views_of(parts@)[0] == parts@[0]@);
            assert(views_of(parts@)[1] == parts@[1]@);
            assert(u@ =~= built_url(path@));
        }
        let us = chars_to_string(&u);
        match normalize_url(us.as_str()) {
            Some(_) => Some(Self::new(path)),
            None => None,
        }
    }
}

} // verus!
