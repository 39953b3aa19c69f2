//! The inline transformation pipeline for a plain-content line: images,
//! external links in both orders, bold emphasis, internal wiki-links, and
//! the final indentation-to-list rewrite, applied in that fixed order to the
//! progressively rewritten text.

use vstd::prelude::*;
use crate::pattern::{
    lit_gyazo, lit_gyazo_vec, lit_sbfiles, lit_sbfiles_vec, match_link_prefix_at,
    match_link_suffix_at, replace_all, replace_all_s, try_match, Pat, PatS,
};
use crate::strutil::{
    is_blank, lemma_rfind_nonblank, lemma_skip_blanks, push_all, repeat_push, repeat_seq,
    rfind_nonblank, rfind_nonblank_exec, skip_blanks, skip_blanks_exec, subvec, trim_blanks,
};

verus! {

/// An external-link pattern, in either order, starts at `i`.
pub open spec fn link_match_at(l: Seq<char>, i: int) -> bool {
    match_link_prefix_at(l, i) is Some || match_link_suffix_at(l, i) is Some
}

/// The raw line holds an external link somewhere.  Decides which
/// bracket-stripping rule the pipeline's last pass may use.
pub open spec fn line_has_link(l: Seq<char>) -> bool {
    exists|i: int| 0 <= i < l.len() && #[trigger] link_match_at(l, i)
}

/// The indentation-to-list rewrite: a line that starts with blanks and holds
/// any non-blank character becomes a list item whose nesting depth is the
/// blank count less one, at two spaces per depth level; anything else is
/// kept as it is.  Either way a newline is appended.
pub open spec fn list_out(t: Seq<char>) -> Seq<char> {
    let r = skip_blanks(t, 0);
    if 0 < r < t.len() {
        repeat_seq(seq![' ', ' '], (r - 1) as nat) + seq!['-', ' '] + trim_blanks(t) + seq!['\n']
    } else {
        t + seq!['\n']
    }
}

/// The whole inline pipeline: both image hosts, URL-first links, title-first
/// links, bold, then bracket stripping (guarded exactly when the raw line
/// held an external link), and last the list rewrite.
pub open spec fn inline_out(l: Seq<char>) -> Seq<char> {
    let a = replace_all_s(PatS::Img(lit_gyazo()), l);
    let b = replace_all_s(PatS::Img(lit_sbfiles()), a);
    let c = replace_all_s(PatS::LinkPrefix, b);
    let d = replace_all_s(PatS::LinkSuffix, c);
    let e = replace_all_s(PatS::Strong, d);
    let f = if line_has_link(l) {
        replace_all_s(PatS::SbLinkGuarded, e)
    } else {
        replace_all_s(PatS::SbLinkPlain, e)
    };
    list_out(f)
}

pub(crate) fn has_link_exec(l: &Vec<char>) -> (b: bool)
    ensures
        b == line_has_link(l@),
{
    let mut i: usize = 0;
    while i < l.len()
        invariant
            i <= l@.len(),
            forall|j: int| 0 <= j < i ==> !#[trigger] link_match_at(l@, j),
        decreases l@.len() - i,
    {
        let prefix_pat = Pat::LinkPrefix;
        let suffix_pat = Pat::LinkSuffix;
        let p = try_match(&prefix_pat, l, i);
        if p.is_some() {
            proof {
                assert(link_match_at(l@, i as int));
            }
            return true;
        }
        let q = try_match(&suffix_pat, l, i);
        if q.is_some() {
            proof {
                assert(link_match_at(l@, i as int));
            }
            return true;
        }
        proof {
            assert(!link_match_at(l@, i as int));
        }
        i += 1;
    }
    false
}

pub(crate) fn list_convert(t: &Vec<char>) -> (out: Vec<char>)
    ensures
        out@ == list_out(t@),
{
    let n = t.len();
    proof {
        lemma_skip_blanks(t@, 0);
    }
    let r = skip_blanks_exec(t, 0);
    if r > 0 && r < n {
        proof {
            lemma_rfind_nonblank(t@, n as int);
        }
        let mut out: Vec<char> = Vec::new();
        let mut two: Vec<char> = Vec::new();
        two.push(' ');
        two.push(' ');
        proof {
            assert(two@ =~= seq![' ', ' ']);
        }
        repeat_push(&mut out, &two, r - 1);
        out.push('-');
        out.push(' ');
        match rfind_nonblank_exec(t, n) {
            Some(e) => {
                proof {
                    assert(!is_blank(t@[r as int]));
                    assert(rfind_nonblank(t@, n as int) >= r);
                }
                let piece = subvec(t, r, e + 1);
                push_all(&mut out, &piece);
                proof {
                    assert(piece@ == trim_blanks(t@));
                }
            },
            None => {
                proof {
                    assert(rfind_nonblank(t@, n as int) == -1);
                    assert(false);
                }
            },
        }
        out.push('\n');
        proof {
            assert(out@ =~= repeat_seq(seq![' ', ' '], (r - 1) as nat) + seq!['-', ' ']
                + trim_blanks(t@) + seq!['\n']);
        }
        out
    } else {
        let mut out = subvec(t, 0, n);
        out.push('\n');
        proof {
            assert(out@ =~= t@ + seq!['\n']);
        }
        out
    }
}

pub(crate) fn inline_convert(l: &Vec<char>) -> (out: Vec<char>)
    ensures
        out@ == inline_out(l@),
{
    let has_link = has_link_exec(l);
    let gyazo = Pat::Img(lit_gyazo_vec());
    let sbfiles = Pat::Img(lit_sbfiles_vec());
    let a = replace_all(&gyazo, l);
    let b = replace_all(&sbfiles, &a);
    let c = replace_all(&Pat::LinkPrefix, &b);
    let d = replace_all(&Pat::LinkSuffix, &c);
    let e = replace_all(&Pat::Strong, &d);
    let f = if has_link {
        replace_all(&Pat::SbLinkGuarded, &e)
    } else {
        replace_all(&Pat::SbLinkPlain, &e)
    };
    list_convert(&f)
}

} // verus!
