//! The bracket-markup patterns of a Scrapbox line and their Markdown
//! rewrites.
//!
//! Each pattern is specified by a match function: given a line and a
//! position, it either refuses or yields the match's end and replacement.
//! `replace_all_s` is the leftmost, non-overlapping replace-all over one
//! pattern, and `replace_all` is its executable counterpart.

use vstd::prelude::*;
use crate::strutil::{
    find_blank, find_blank_from, find_char, find_char_from, find_stop, find_stop_from,
    has_prefix_at, has_prefix_at_exec, is_blank, lemma_find_blank, lemma_find_char,
    lemma_find_stop, lemma_rfind_blank, lemma_rfind_char, lemma_skip_stars, push_all, rfind_blank,
    rfind_blank_exec, rfind_char, rfind_char_exec, skip_stars, skip_stars_exec, subvec,
};

verus! {

pub open spec fn lit_http() -> Seq<char> {
    seq!['h', 't', 't', 'p', ':', '/', '/']
}

pub open spec fn lit_https() -> Seq<char> {
    seq!['h', 't', 't', 'p', 's', ':', '/', '/']
}

/// The image-sharing host whose bare bracketed URLs become images.
pub open spec fn lit_gyazo() -> Seq<char> {
    seq!['h', 't', 't', 'p', 's', ':', '/', '/', 'g', 'y', 'a', 'z', 'o', '.', 'c', 'o', 'm', '/']
}

/// The page-attachment host whose bare bracketed URLs become images.
pub open spec fn lit_sbfiles() -> Seq<char> {
    seq!['h', 't', 't', 'p', 's', ':', '/', '/', 's', 'c', 'r', 'a', 'p', 'b', 'o', 'x', '.', 'i', 'o', '/', 'f', 'i', 'l', 'e', 's', '/']
}

pub(crate) fn lit_http_vec() -> (v: Vec<char>)
    ensures
        v@ == lit_http(),
{
    let mut v: Vec<char> = Vec::new();
    v.push('h');
    v.push('t');
    v.push('t');
    v.push('p');
    v.push(':');
    v.push('/');
    v.push('/');
    proof {
        assert(v@ =~= lit_http());
    }
    v
}

pub(crate) fn lit_https_vec() -> (v: Vec<char>)
    ensures
        v@ == lit_https(),
{
    let mut v: Vec<char> = Vec::new();
    v.push('h');
    v.push('t');
    v.push('t');
    v.push('p');
    v.push('s');
    v.push(':');
    v.push('/');
    v.push('/');
    proof {
        assert(v@ =~= lit_https());
    }
    v
}

pub(crate) fn lit_gyazo_vec() -> (v: Vec<char>)
    ensures
        v@ == lit_gyazo(),
{
    let mut v = lit_https_vec();
    v.push('g');
    v.push('y');
    v.push('a');
    v.push('z');
    v.push('o');
    v.push('.');
    v.push('c');
    v.push('o');
    v.push('m');
    v.push('/');
    proof {
        assert(v@ =~= lit_gyazo());
    }
    v
}

pub(crate) fn lit_sbfiles_vec() -> (v: Vec<char>)
    ensures
        v@ == lit_sbfiles(),
{
    let mut v = lit_https_vec();
    v.push('s');
    v.push('c');
    v.push('r');
    v.push('a');
    v.push('p');
    v.push('b');
    v.push('o');
    v.push('x');
    v.push('.');
    v.push('i');
    v.push('o');
    v.push('/');
    v.push('f');
    v.push('i');
    v.push('l');
    v.push('e');
    v.push('s');
    v.push('/');
    proof {
        assert(v@ =~= lit_sbfiles());
    }
    v
}

/// A pattern match: the index one past its last character, and the Markdown
/// text that replaces the matched span.
pub ghost struct Rewrite {
    pub end: int,
    pub rep: Seq<char>,
}

/// A bracketed bare URL of the given image host: `[<host-url>]`.
/// The URL runs to the first blank or `]`, which must be `]`.
pub open spec fn match_img_at(s: Seq<char>, i: int, host: Seq<char>) -> Option<Rewrite> {
    if 0 <= i < s.len() && s[i] == '[' && has_prefix_at(s, i + 1, host) {
        let k = find_stop_from(s, i + 1 + host.len());
        if k < s.len() && s[k] == ']' {
            Some(
                Rewrite {
                    end: k + 1,
                    rep: seq!['!', '[', ']', '('] + s.subrange(i + 1, k) + seq![')'],
                },
            )
        } else {
            None
        }
    } else {
        None
    }
}

/// A URL-first external link: `[<url> <title>]`, URL up to the first blank,
/// title up to the first following `]`.
pub open spec fn match_link_prefix_at(s: Seq<char>, i: int) -> Option<Rewrite> {
    if 0 <= i < s.len() && s[i] == '[' && (has_prefix_at(s, i + 1, lit_http()) || has_prefix_at(
        s,
        i + 1,
        lit_https(),
    )) {
        let k = find_blank_from(s, i + 1);
        if k < s.len() {
            let m = find_char_from(s, k + 1, ']');
            if m < s.len() {
                Some(
                    Rewrite {
                        end: m + 1,
                        rep: seq!['['] + s.subrange(k + 1, m) + seq![']', '('] + s.subrange(
                            i + 1,
                            k,
                        ) + seq![')'],
                    },
                )
            } else {
                None
            }
        } else {
            None
        }
    } else {
        None
    }
}

/// A title-first external link: `[<title> <url>]`.  The `]` is the first one
/// after the opening bracket; the URL starts right after the last blank
/// before that `]` and must carry an HTTP scheme.
pub open spec fn match_link_suffix_at(s: Seq<char>, i: int) -> Option<Rewrite> {
    if 0 <= i < s.len() && s[i] == '[' {
        let m = find_char_from(s, i + 1, ']');
        if m < s.len() {
            let k = rfind_blank(s, m);
            if k >= i + 1 && ((k + 1 + lit_https().len() <= m && has_prefix_at(s, k + 1, lit_https()))
                || (k + 1 + lit_http().len() <= m && has_prefix_at(s, k + 1, lit_http()))) {
                Some(
                    Rewrite {
                        end: m + 1,
                        rep: seq!['['] + s.subrange(i + 1, k) + seq![']', '('] + s.subrange(
                            k + 1,
                            m,
                        ) + seq![')'],
                    },
                )
            } else {
                None
            }
        } else {
            None
        }
    } else {
        None
    }
}

/// Bold emphasis: `[` + stars + blank + text + `]`, rewritten `**text**`.
pub open spec fn match_strong_at(s: Seq<char>, i: int) -> Option<Rewrite> {
    if 0 <= i < s.len() && s[i] == '[' {
        let se = skip_stars(s, i + 1);
        if se > i + 1 && se < s.len() && is_blank(s[se]) {
            let k = find_char_from(s, se + 1, ']');
            if k < s.len() && k > se + 1 {
                Some(
                    Rewrite {
                        end: k + 1,
                        rep: seq!['*', '*'] + s.subrange(se + 1, k) + seq!['*', '*'],
                    },
                )
            } else {
                None
            }
        } else {
            None
        }
    } else {
        None
    }
}

/// An internal wiki-link on a line that also carries an external link:
/// `[text]` loses its brackets, but only when the character after `]` is not
/// `(`, so a Markdown link produced earlier in the pipeline is left alone.
/// That following character is part of the match and is kept.
pub open spec fn match_sblink_guarded_at(s: Seq<char>, i: int) -> Option<Rewrite> {
    if 0 <= i < s.len() && s[i] == '[' {
        let t = find_char_from(s, i + 1, ']');
        if t < s.len() && t > i + 1 && t + 1 < s.len() && s[t + 1] != '(' {
            Some(Rewrite { end: t + 2, rep: s.subrange(i + 1, t) + seq![s[t + 1]] })
        } else {
            None
        }
    } else {
        None
    }
}

/// An internal wiki-link on a line with no external link: `[text]` loses its
/// brackets.  The text may itself contain `]`: it runs to the last `]`
/// before the next `[`.
pub open spec fn match_sblink_plain_at(s: Seq<char>, i: int) -> Option<Rewrite> {
    if 0 <= i < s.len() && s[i] == '[' {
        let b = find_char_from(s, i + 1, '[');
        let j = rfind_char(s, b, ']');
        if j >= i + 2 {
            Some(Rewrite { end: j + 1, rep: s.subrange(i + 1, j) })
        } else {
            None
        }
    } else {
        None
    }
}

/// The inline patterns, in an executable form; `Img` carries its host
/// prefix.
pub enum Pat {
    Img(Vec<char>),
    LinkPrefix,
    LinkSuffix,
    Strong,
    SbLinkGuarded,
    SbLinkPlain,
}

/// The specification-level counterpart of `Pat`.
pub ghost enum PatS {
    Img(Seq<char>),
    LinkPrefix,
    LinkSuffix,
    Strong,
    SbLinkGuarded,
    SbLinkPlain,
}

impl View for Pat {
    type V = PatS;

    open spec fn view(&self) -> PatS {
        match self {
            Pat::Img(h) => PatS::Img(h@),
            Pat::LinkPrefix => PatS::LinkPrefix,
            Pat::LinkSuffix => PatS::LinkSuffix,
            Pat::Strong => PatS::Strong,
            Pat::SbLinkGuarded => PatS::SbLinkGuarded,
            Pat::SbLinkPlain => PatS::SbLinkPlain,
        }
    }
}

pub open spec fn match_at(p: PatS, s: Seq<char>, i: int) -> Option<Rewrite> {
    match p {
        PatS::Img(host) => match_img_at(s, i, host),
        PatS::LinkPrefix => match_link_prefix_at(s, i),
        PatS::LinkSuffix => match_link_suffix_at(s, i),
        PatS::Strong => match_strong_at(s, i),
        PatS::SbLinkGuarded => match_sblink_guarded_at(s, i),
        PatS::SbLinkPlain => match_sblink_plain_at(s, i),
    }
}

pub open spec fn matcher(p: PatS) -> spec_fn(Seq<char>, int) -> Option<Rewrite> {
    |s: Seq<char>, i: int| match_at(p, s, i)
}

/// Leftmost, non-overlapping replace-all, from index `i` on: at each
/// position either the match's replacement is emitted and the scan jumps to
/// its end, or the character is kept and the scan moves on by one.
pub open spec fn replace_from(
    s: Seq<char>,
    i: int,
    m: spec_fn(Seq<char>, int) -> Option<Rewrite>,
) -> Seq<char>
    decreases s.len() - i,
{
    if i < 0 || i >= s.len() {
        Seq::empty()
    } else {
        match m(s, i) {
            Some(r) => r.rep + replace_from(
                s,
                if i + 1 <= r.end <= s.len() {
                    r.end
                } else {
                    i + 1
                },
                m,
            ),
            None => seq![s[i]] + replace_from(s, i + 1, m),
        }
    }
}

pub open spec fn replace_all_s(p: PatS, s: Seq<char>) -> Seq<char> {
    replace_from(s, 0, matcher(p))
}

/// A matcher that refuses everywhere rewrites nothing.
pub(crate) proof fn lemma_replace_none(
    s: Seq<char>,
    i: int,
    m: spec_fn(Seq<char>, int) -> Option<Rewrite>,
)
    requires
        0 <= i <= s.len(),
        forall|j: int| i <= j < s.len() ==> #[trigger] m(s, j) is None,
    ensures
        replace_from(s, i, m) == s.subrange(i, s.len() as int),
    decreases s.len() - i,
{
    if i < s.len() {
        lemma_replace_none(s, i + 1, m);
        assert(replace_from(s, i, m) =~= s.subrange(i, s.len() as int));
    } else {
        assert(replace_from(s, i, m) =~= s.subrange(i, s.len() as int));
    }
}

fn try_match_img(s: &Vec<char>, i: usize, host: &Vec<char>) -> (r: Option<(usize, Vec<char>)>)
    requires
        i < s@.len(),
    ensures
        match r {
            Some(pair) => {
                &&& match_img_at(s@, i as int, host@) matches Some(m)
                &&& m.end == pair.0 as int
                &&& m.rep == pair.1@
                &&& i < pair.0 <= s@.len()
            },
            None => match_img_at(s@, i as int, host@) is None,
        },
{
    let _n = s.len();
    if s[i] != '[' {
        return None;
    }
    if !has_prefix_at_exec(s, i + 1, host) {
        return None;
    }
    let start = i + 1 + host.len();
    proof {
        lemma_find_stop(s@, start as int);
    }
    let k = find_stop(s, start);
    if k < s.len() && s[k] == ']' {
        let mut rep: Vec<char> = Vec::new();
        rep.push('!');
        rep.push('[');
        rep.push(']');
        rep.push('(');
        let url = subvec(s, i + 1, k);
        push_all(&mut rep, &url);
        rep.push(')');
        proof {
            assert(rep@ =~= seq!['!', '[', ']', '('] + s@.subrange(i + 1, k as int) + seq![')']);
        }
        Some((k + 1, rep))
    } else {
        None
    }
}

fn try_match_link_prefix(s: &Vec<char>, i: usize) -> (r: Option<(usize, Vec<char>)>)
    requires
        i < s@.len(),
    ensures
        match r {
            Some(pair) => {
                &&& match_link_prefix_at(s@, i as int) matches Some(m)
                &&& m.end == pair.0 as int
                &&& m.rep == pair.1@
                &&& i < pair.0 <= s@.len()
            },
            None => match_link_prefix_at(s@, i as int) is None,
        },
{
    let _n = s.len();
    if s[i] != '[' {
        return None;
    }
    let http = lit_http_vec();
    let https = lit_https_vec();
    let scheme_ok = has_prefix_at_exec(s, i + 1, &http) || has_prefix_at_exec(s, i + 1, &https);
    if !scheme_ok {
        return None;
    }
    proof {
        lemma_find_blank(s@, i + 1);
    }
    let k = find_blank(s, i + 1);
    if k >= s.len() {
        return None;
    }
    proof {
        lemma_find_char(s@, k + 1, ']');
    }
    let m = find_char(s, k + 1, ']');
    if m >= s.len() {
        return None;
    }
    let mut rep: Vec<char> = Vec::new();
    rep.push('[');
    let title = subvec(s, k + 1, m);
    push_all(&mut rep, &title);
    rep.push(']');
    rep.push('(');
    let url = subvec(s, i + 1, k);
    push_all(&mut rep, &url);
    rep.push(')');
    proof {
        assert(rep@ =~= seq!['['] + s@.subrange(k + 1, m as int) + seq![']', '('] + s@.subrange(
            i + 1,
            k as int,
        ) + seq![')']);
    }
    Some((m + 1, rep))
}

fn try_match_link_suffix(s: &Vec<char>, i: usize) -> (r: Option<(usize, Vec<char>)>)
    requires
        i < s@.len(),
    ensures
        match r {
            Some(pair) => {
                &&& match_link_suffix_at(s@, i as int) matches Some(m)
                &&& m.end == pair.0 as int
                &&& m.rep == pair.1@
                &&& i < pair.0 <= s@.len()
            },
            None => match_link_suffix_at(s@, i as int) is None,
        },
{
    let _n = s.len();
    if s[i] != '[' {
        return None;
    }
    proof {
        lemma_find_char(s@, i + 1, ']');
    }
    let m = find_char(s, i + 1, ']');
    if m >= s.len() {
        return None;
    }
    proof {
        lemma_rfind_blank(s@, m as int);
    }
    let kop = rfind_blank_exec(s, m);
    match kop {
        None => {
            return None;
        },
        Some(k) => {
            if k < i + 1 {
                return None;
            }
            let http = lit_http_vec();
            let https = lit_https_vec();
            let scheme_ok = (m - (k + 1) >= https.len() && has_prefix_at_exec(s, k + 1, &https))
                || (m - (k + 1) >= http.len() && has_prefix_at_exec(s, k + 1, &http));
            if !scheme_ok {
                return None;
            }
            let mut rep: Vec<char> = Vec::new();
            rep.push('[');
            let title = subvec(s, i + 1, k);
            push_all(&mut rep, &title);
            rep.push(']');
            rep.push('(');
            let url = subvec(s, k + 1, m);
            push_all(&mut rep, &url);
            rep.push(')');
            proof {
                assert(rep@ =~= seq!['['] + s@.subrange(i + 1, k as int) + seq![']', '(']
                    + s@.subrange(k + 1, m as int) + seq![')']);
            }
            Some((m + 1, rep))
        },
    }
}

fn try_match_strong(s: &Vec<char>, i: usize) -> (r: Option<(usize, Vec<char>)>)
    requires
        i < s@.len(),
    ensures
        match r {
            Some(pair) => {
                &&& match_strong_at(s@, i as int) matches Some(m)
                &&& m.end == pair.0 as int
                &&& m.rep == pair.1@
                &&& i < pair.0 <= s@.len()
            },
            None => match_strong_at(s@, i as int) is None,
        },
{
    let _n = s.len();
    if s[i] != '[' {
        return None;
    }
    proof {
        lemma_skip_stars(s@, i + 1);
    }
    let se = skip_stars_exec(s, i + 1);
    if !(se > i + 1 && se < s.len() && (s[se] == ' ' || s[se] == '\t')) {
        return None;
    }
    proof {
        lemma_find_char(s@, se + 1, ']');
    }
    let k = find_char(s, se + 1, ']');
    if k < s.len() && k > se + 1 {
        let mut rep: Vec<char> = Vec::new();
        rep.push('*');
        rep.push('*');
        let body = subvec(s, se + 1, k);
        push_all(&mut rep, &body);
        rep.push('*');
        rep.push('*');
        proof {
            assert(rep@ =~= seq!['*', '*'] + s@.subrange(se + 1, k as int) + seq!['*', '*']);
        }
        Some((k + 1, rep))
    } else {
        None
    }
}

fn try_match_sblink_guarded(s: &Vec<char>, i: usize) -> (r: Option<(usize, Vec<char>)>)
    requires
        i < s@.len(),
    ensures
        match r {
            Some(pair) => {
                &&& match_sblink_guarded_at(s@, i as int) matches Some(m)
                &&& m.end == pair.0 as int
                &&& m.rep == pair.1@
                &&& i < pair.0 <= s@.len()
            },
            None => match_sblink_guarded_at(s@, i as int) is None,
        },
{
    let _n = s.len();
    if s[i] != '[' {
        return None;
    }
    proof {
        lemma_find_char(s@, i + 1, ']');
    }
    let t = find_char(s, i + 1, ']');
    if t < s.len() && t > i + 1 && t + 1 < s.len() && s[t + 1] != '(' {
        let mut rep = subvec(s, i + 1, t);
        rep.push(s[t + 1]);
        proof {
            assert(rep@ =~= s@.subrange(i + 1, t as int) + seq![s@[t + 1]]);
        }
        Some((t + 2, rep))
    } else {
        None
    }
}

fn try_match_sblink_plain(s: &Vec<char>, i: usize) -> (r: Option<(usize, Vec<char>)>)
    requires
        i < s@.len(),
    ensures
        match r {
            Some(pair) => {
                &&& match_sblink_plain_at(s@, i as int) matches Some(m)
                &&& m.end == pair.0 as int
                &&& m.rep == pair.1@
                &&& i < pair.0 <= s@.len()
            },
            None => match_sblink_plain_at(s@, i as int) is None,
        },
{
    let _n = s.len();
    if s[i] != '[' {
        return None;
    }
    proof {
        lemma_find_char(s@, i + 1, '[');
    }
    let b = find_char(s, i + 1, '[');
    proof {
        lemma_rfind_char(s@, b as int, ']');
    }
    let jop = rfind_char_exec(s, b, ']');
    match jop {
        None => None,
        Some(j) => {
            if j > i && j - i >= 2 {
                let rep = subvec(s, i + 1, j);
                Some((j + 1, rep))
            } else {
                None
            }
        },
    }
}

pub(crate) fn try_match(p: &Pat, s: &Vec<char>, i: usize) -> (r: Option<(usize, Vec<char>)>)
    requires
        i < s@.len(),
    ensures
        match r {
            Some(pair) => {
                &&& match_at(p@, s@, i as int) matches Some(m)
                &&& m.end == pair.0 as int
                &&& m.rep == pair.1@
                &&& i < pair.0 <= s@.len()
            },
            None => match_at(p@, s@, i as int) is None,
        },
{
    match p {
        Pat::Img(host) => try_match_img(s, i, host),
        Pat::LinkPrefix => try_match_link_prefix(s, i),
        Pat::LinkSuffix => try_match_link_suffix(s, i),
        Pat::Strong => try_match_strong(s, i),
        Pat::SbLinkGuarded => try_match_sblink_guarded(s, i),
        Pat::SbLinkPlain => try_match_sblink_plain(s, i),
    }
}

pub(crate) fn replace_all(p: &Pat, s: &Vec<char>) -> (out: Vec<char>)
    ensures
        out@ == replace_all_s(p@, s@),
{
    let mut out: Vec<char> = Vec::new();
    let mut i: usize = 0;
    proof {
        assert(out@ + replace_from(s@, 0, matcher(p@)) =~= replace_from(s@, 0, matcher(p@)));
    }
    while i < s.len()
        invariant
            i <= s@.len(),
            replace_all_s(p@, s@) == out@ + replace_from(s@, i as int, matcher(p@)),
        decreases s@.len() - i,
    {
        proof {
            assert(matcher(p@)(s@, i as int) == match_at(p@, s@, i as int));
        }
        match try_match(p, s, i) {
            Some(pair) => {
                let (e, rep) = pair;
                proof {
                    let m = match_at(p@, s@, i as int)->0;
                    assert(replace_from(s@, i as int, matcher(p@)) == m.rep + replace_from(
                        s@,
                        e as int,
                        matcher(p@),
                    ));
                    assert((out@ + rep@) + replace_from(s@, e as int, matcher(p@)) =~= out@ + (rep@
                        + replace_from(s@, e as int, matcher(p@))));
                }
                push_all(&mut out, &rep);
                i = e;
            },
            None => {
                proof {
                    assert(replace_from(s@, i as int, matcher(p@)) == seq![s@[i as int]]
                        + replace_from(s@, i + 1, matcher(p@)));
                    assert((out@ + seq![s@[i as int]]) + replace_from(s@, i + 1, matcher(p@)) =~= out@
                        + (seq![s@[i as int]] + replace_from(s@, i + 1, matcher(p@))));
                }
                out.push(s[i]);
                i += 1;
            },
        }
    }
    proof {
        assert(replace_from(s@, i as int, matcher(p@)) =~= Seq::<char>::empty());
        assert(out@ + Seq::<char>::empty() =~= out@);
    }
    out
}

} // verus!
