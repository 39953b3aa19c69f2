//! Character-sequence primitives shared by the line grammar: forward and
//! backward scans, prefix tests, splitting and joining, and the conversions
//! between `String` and `Vec<char>`.

use vstd::prelude::*;
use vstd::string::StrSliceExecFns;

verus! {

/// A whitespace character as the line grammar understands it.
pub open spec fn is_blank(c: char) -> bool {
    c == ' ' || c == '\t'
}

/// First index at or after `i` where `p` fails to hold; `s.len()` if none.
pub open spec fn scan_while(s: Seq<char>, i: int, p: spec_fn(char) -> bool) -> int
    decreases s.len() - i,
{
    if i >= s.len() {
        s.len() as int
    } else if !p(s[i]) {
        i
    } else {
        scan_while(s, i + 1, p)
    }
}


/// Last index strictly below `hi` where `p` fails to hold; `-1` if none.
pub open spec fn rscan_while(s: Seq<char>, hi: int, p: spec_fn(char) -> bool) -> int
    decreases hi,
{
    if hi <= 0 {
        -1
    } else if !p(s[hi - 1]) {
        hi - 1
    } else {
        rscan_while(s, hi - 1, p)
    }
}


/// First occurrence of `c` at or after `i`; `s.len()` if none.
pub open spec fn find_char_from(s: Seq<char>, i: int, c: char) -> int {
    scan_while(s, i, |x: char| x != c)
}

/// First blank character at or after `i`; `s.len()` if none.
pub open spec fn find_blank_from(s: Seq<char>, i: int) -> int {
    scan_while(s, i, |x: char| !is_blank(x))
}

/// First character at or after `i` that is blank or `]`; `s.len()` if none.
pub open spec fn find_stop_from(s: Seq<char>, i: int) -> int {
    scan_while(s, i, |x: char| !is_blank(x) && x != ']')
}

/// First index at or after `i` whose character is not `*`; `s.len()` if none.
pub open spec fn skip_stars(s: Seq<char>, i: int) -> int {
    scan_while(s, i, |x: char| x == '*')
}

/// First index at or after `i` whose character is not blank; `s.len()` if none.
pub open spec fn skip_blanks(s: Seq<char>, i: int) -> int {
    scan_while(s, i, |x: char| is_blank(x))
}

/// Last blank strictly below `hi`; `-1` if none.
pub open spec fn rfind_blank(s: Seq<char>, hi: int) -> int {
    rscan_while(s, hi, |x: char| !is_blank(x))
}

/// Last occurrence of `c` strictly below `hi`; `-1` if none.
pub open spec fn rfind_char(s: Seq<char>, hi: int, c: char) -> int {
    rscan_while(s, hi, |x: char| x != c)
}

/// Last non-blank strictly below `hi`; `-1` if none.
pub open spec fn rfind_nonblank(s: Seq<char>, hi: int) -> int {
    rscan_while(s, hi, |x: char| is_blank(x))
}

pub(crate) proof fn lemma_find_char(s: Seq<char>, i: int, c: char)
    requires
        0 <= i <= s.len(),
    ensures
        i <= find_char_from(s, i, c) <= s.len(),
        find_char_from(s, i, c) < s.len() ==> s[find_char_from(s, i, c)] == c,
        forall|j: int| i <= j < find_char_from(s, i, c) ==> s[j] != c,
    decreases s.len() - i,
{
    if i < s.len() && s[i] != c {
        lemma_find_char(s, i + 1, c);
    }
}

pub(crate) proof fn lemma_find_blank(s: Seq<char>, i: int)
    requires
        0 <= i <= s.len(),
    ensures
        i <= find_blank_from(s, i) <= s.len(),
        find_blank_from(s, i) < s.len() ==> is_blank(s[find_blank_from(s, i)]),
        forall|j: int| i <= j < find_blank_from(s, i) ==> !is_blank(s[j]),
    decreases s.len() - i,
{
    if i < s.len() && !is_blank(s[i]) {
        lemma_find_blank(s, i + 1);
    }
}

pub(crate) proof fn lemma_find_stop(s: Seq<char>, i: int)
    requires
        0 <= i <= s.len(),
    ensures
        i <= find_stop_from(s, i) <= s.len(),
        find_stop_from(s, i) < s.len() ==> (is_blank(s[find_stop_from(s, i)]) || s[find_stop_from(
            s,
            i,
        )] == ']'),
        forall|j: int|
            i <= j < find_stop_from(s, i) ==> !is_blank(s[j]) && s[j] != ']',
    decreases s.len() - i,
{
    if i < s.len() && !is_blank(s[i]) && s[i] != ']' {
        lemma_find_stop(s, i + 1);
    }
}

pub(crate) proof fn lemma_skip_stars(s: Seq<char>, i: int)
    requires
        0 <= i <= s.len(),
    ensures
        i <= skip_stars(s, i) <= s.len(),
        skip_stars(s, i) < s.len() ==> s[skip_stars(s, i)] != '*',
        forall|j: int| i <= j < skip_stars(s, i) ==> s[j] == '*',
    decreases s.len() - i,
{
    if i < s.len() && s[i] == '*' {
        lemma_skip_stars(s, i + 1);
    }
}

pub(crate) proof fn lemma_skip_blanks(s: Seq<char>, i: int)
    requires
        0 <= i <= s.len(),
    ensures
        i <= skip_blanks(s, i) <= s.len(),
        skip_blanks(s, i) < s.len() ==> !is_blank(s[skip_blanks(s, i)]),
        forall|j: int| i <= j < skip_blanks(s, i) ==> is_blank(s[j]),
    decreases s.len() - i,
{
    if i < s.len() && is_blank(s[i]) {
        lemma_skip_blanks(s, i + 1);
    }
}

pub(crate) proof fn lemma_rfind_blank(s: Seq<char>, hi: int)
    requires
        0 <= hi <= s.len(),
    ensures
        -1 <= rfind_blank(s, hi) < hi,
        rfind_blank(s, hi) >= 0 ==> is_blank(s[rfind_blank(s, hi)]),
        forall|j: int| rfind_blank(s, hi) < j < hi ==> !is_blank(s[j]),
    decreases hi,
{
    if hi > 0 && !is_blank(s[hi - 1]) {
        lemma_rfind_blank(s, hi - 1);
    }
}

pub(crate) proof fn lemma_rfind_char(s: Seq<char>, hi: int, c: char)
    requires
        0 <= hi <= s.len(),
    ensures
        -1 <= rfind_char(s, hi, c) < hi,
        rfind_char(s, hi, c) >= 0 ==> s[rfind_char(s, hi, c)] == c,
        forall|j: int| rfind_char(s, hi, c) < j < hi ==> s[j] != c,
    decreases hi,
{
    if hi > 0 && s[hi - 1] != c {
        lemma_rfind_char(s, hi - 1, c);
    }
}

pub(crate) proof fn lemma_rfind_nonblank(s: Seq<char>, hi: int)
    requires
        0 <= hi <= s.len(),
    ensures
        -1 <= rfind_nonblank(s, hi) < hi,
        rfind_nonblank(s, hi) >= 0 ==> !is_blank(s[rfind_nonblank(s, hi)]),
        forall|j: int| rfind_nonblank(s, hi) < j < hi ==> is_blank(s[j]),
    decreases hi,
{
    if hi > 0 && is_blank(s[hi - 1]) {
        lemma_rfind_nonblank(s, hi - 1);
    }
}

/// `p` occurs in `s` starting at index `i`.
pub open spec fn has_prefix_at(s: Seq<char>, i: int, p: Seq<char>) -> bool {
    &&& 0 <= i
    &&& i + p.len() <= s.len()
    &&& forall|j: int| 0 <= j < p.len() ==> s[i + j] == #[trigger] p[j]
}

/// `p` concatenated `n` times.
pub open spec fn repeat_seq(p: Seq<char>, n: nat) -> Seq<char>
    decreases n,
{
    if n == 0 {
        Seq::empty()
    } else {
        repeat_seq(p, (n - 1) as nat) + p
    }
}

/// The pieces of `s` from index `i` on, cut at every `sep`, with `cur` the
/// piece read so far.  Cutting never drops characters: an empty `s` yields
/// one empty piece, and `n` separators yield `n + 1` pieces.
pub open spec fn split_acc(s: Seq<char>, i: int, cur: Seq<char>, sep: char) -> Seq<Seq<char>>
    decreases s.len() - i,
{
    if i < 0 || i >= s.len() {
        seq![cur]
    } else if s[i] == sep {
        seq![cur] + split_acc(s, i + 1, Seq::empty(), sep)
    } else {
        split_acc(s, i + 1, cur + seq![s[i]], sep)
    }
}

/// All pieces of `s`, cut at every `sep`.
pub open spec fn split_char(s: Seq<char>, sep: char) -> Seq<Seq<char>> {
    split_acc(s, 0, Seq::empty(), sep)
}

/// A repetition of a one-character pattern: `n` copies of that character.
pub(crate) proof fn lemma_repeat_single(c: char, n: nat)
    ensures
        repeat_seq(seq![c], n).len() == n,
        forall|j: int| 0 <= j < n ==> repeat_seq(seq![c], n)[j] == c,
    decreases n,
{
    if n > 0 {
        lemma_repeat_single(c, (n - 1) as nat);
    }
}

/// Cutting yields at least one piece.
pub(crate) proof fn lemma_split_acc_len(s: Seq<char>, i: int, cur: Seq<char>, sep: char)
    ensures
        split_acc(s, i, cur, sep).len() >= 1,
    decreases s.len() - i,
{
    if 0 <= i < s.len() {
        if s[i] == sep {
            lemma_split_acc_len(s, i + 1, Seq::empty(), sep);
        } else {
            lemma_split_acc_len(s, i + 1, cur + seq![s[i]], sep);
        }
    }
}

/// `sep` and the pieces from index `i` on, each piece preceded by `sep`.
pub open spec fn join_rest(pieces: Seq<Seq<char>>, sep: Seq<char>, i: int) -> Seq<char>
    decreases pieces.len() - i,
{
    if i < 0 || i >= pieces.len() {
        Seq::empty()
    } else {
        sep + pieces[i] + join_rest(pieces, sep, i + 1)
    }
}

/// The pieces joined with `sep` between consecutive pieces.
pub open spec fn join_with(pieces: Seq<Seq<char>>, sep: Seq<char>) -> Seq<char> {
    if pieces.len() == 0 {
        Seq::empty()
    } else {
        pieces[0] + join_rest(pieces, sep, 1)
    }
}

/// `s` without its leading and trailing blanks.
pub open spec fn trim_blanks(s: Seq<char>) -> Seq<char> {
    let a = skip_blanks(s, 0);
    let b = rfind_nonblank(s, s.len() as int) + 1;
    if a < b {
        s.subrange(a, b)
    } else {
        Seq::empty()
    }
}

/// Relies on `alloc::string::String::push`: appends the given character to
/// the end of the string.
pub assume_specification[ String::push ](s: &mut String, c: char)
    ensures
        final(s)@ == old(s)@ + seq![c],
;

pub(crate) fn str_to_chars(s: &str) -> (v: Vec<char>)
    ensures
        v@ == s@,
{
    let n: usize = s.unicode_len();
    let mut v: Vec<char> = Vec::new();
    let mut i: usize = 0;
    proof {
        assert(v@ =~= s@.subrange(0, 0));
    }
    while i < n
        invariant
            n == s@.len(),
            i <= n,
            v@ == s@.subrange(0, i as int),
        decreases n - i,
    {
        let c = s.get_char(i);
        v.push(c);
        proof {
            assert(v@ =~= s@.subrange(0, i + 1));
        }
        i += 1;
    }
    proof {
        assert(v@ =~= s@);
    }
    v
}

pub(crate) fn chars_to_string(v: &Vec<char>) -> (s: String)
    ensures
        s@ == v@,
{
    let mut s = String::new();
    let mut i: usize = 0;
    proof {
        assert(s@ =~= v@.subrange(0, 0));
    }
    while i < v.len()
        invariant
            i <= v@.len(),
            s@ == v@.subrange(0, i as int),
        decreases v@.len() - i,
    {
        s.push(v[i]);
        proof {
            assert(s@ =~= v@.subrange(0, i + 1));
        }
        i += 1;
    }
    proof {
        assert(s@ =~= v@);
    }
    s
}

pub(crate) fn find_char(s: &Vec<char>, i: usize, c: char) -> (r: usize)
    requires
        i <= s@.len(),
    ensures
        r == find_char_from(s@, i as int, c),
{
    let mut j = i;
    while j < s.len()
        invariant
            i <= j <= s@.len(),
            find_char_from(s@, i as int, c) == find_char_from(s@, j as int, c),
        decreases s@.len() - j,
    {
        if s[j] == c {
            return j;
        }
        j += 1;
    }
    j
}

pub(crate) fn find_blank(s: &Vec<char>, i: usize) -> (r: usize)
    requires
        i <= s@.len(),
    ensures
        r == find_blank_from(s@, i as int),
{
    let mut j = i;
    while j < s.len()
        invariant
            i <= j <= s@.len(),
            find_blank_from(s@, i as int) == find_blank_from(s@, j as int),
        decreases s@.len() - j,
    {
        if s[j] == ' ' || s[j] == '\t' {
            return j;
        }
        j += 1;
    }
    j
}

pub(crate) fn find_stop(s: &Vec<char>, i: usize) -> (r: usize)
    requires
        i <= s@.len(),
    ensures
        r == find_stop_from(s@, i as int),
{
    let mut j = i;
    while j < s.len()
        invariant
            i <= j <= s@.len(),
            find_stop_from(s@, i as int) == find_stop_from(s@, j as int),
        decreases s@.len() - j,
    {
        if s[j] == ' ' || s[j] == '\t' || s[j] == ']' {
            return j;
        }
        j += 1;
    }
    j
}

pub(crate) fn skip_stars_exec(s: &Vec<char>, i: usize) -> (r: usize)
    requires
        i <= s@.len(),
    ensures
        r == skip_stars(s@, i as int),
{
    let mut j = i;
    while j < s.len()
        invariant
            i <= j <= s@.len(),
            skip_stars(s@, i as int) == skip_stars(s@, j as int),
        decreases s@.len() - j,
    {
        if s[j] != '*' {
            return j;
        }
        j += 1;
    }
    j
}

pub(crate) fn skip_blanks_exec(s: &Vec<char>, i: usize) -> (r: usize)
    requires
        i <= s@.len(),
    ensures
        r == skip_blanks(s@, i as int),
{
    let mut j = i;
    while j < s.len()
        invariant
            i <= j <= s@.len(),
            skip_blanks(s@, i as int) == skip_blanks(s@, j as int),
        decreases s@.len() - j,
    {
        if !(s[j] == ' ' || s[j] == '\t') {
            return j;
        }
        j += 1;
    }
    j
}

pub(crate) fn rfind_blank_exec(s: &Vec<char>, hi: usize) -> (r: Option<usize>)
    requires
        hi <= s@.len(),
    ensures
        match r {
            Some(k) => k as int == rfind_blank(s@, hi as int),
            None => rfind_blank(s@, hi as int) == -1,
        },
{
    let mut j = hi;
    while j > 0
        invariant
            j <= hi <= s@.len(),
            rfind_blank(s@, hi as int) == rfind_blank(s@, j as int),
        decreases j,
    {
        if s[j - 1] == ' ' || s[j - 1] == '\t' {
            return Some(j - 1);
        }
        j -= 1;
    }
    None
}

pub(crate) fn rfind_char_exec(s: &Vec<char>, hi: usize, c: char) -> (r: Option<usize>)
    requires
        hi <= s@.len(),
    ensures
        match r {
            Some(k) => k as int == rfind_char(s@, hi as int, c),
            None => rfind_char(s@, hi as int, c) == -1,
        },
{
    let mut j = hi;
    while j > 0
        invariant
            j <= hi <= s@.len(),
            rfind_char(s@, hi as int, c) == rfind_char(s@, j as int, c),
        decreases j,
    {
        if s[j - 1] == c {
            return Some(j - 1);
        }
        j -= 1;
    }
    None
}

pub(crate) fn rfind_nonblank_exec(s: &Vec<char>, hi: usize) -> (r: Option<usize>)
    requires
        hi <= s@.len(),
    ensures
        match r {
            Some(k) => k as int == rfind_nonblank(s@, hi as int),
            None => rfind_nonblank(s@, hi as int) == -1,
        },
{
    let mut j = hi;
    while j > 0
        invariant
            j <= hi <= s@.len(),
            rfind_nonblank(s@, hi as int) == rfind_nonblank(s@, j as int),
        decreases j,
    {
        if !(s[j - 1] == ' ' || s[j - 1] == '\t') {
            return Some(j - 1);
        }
        j -= 1;
    }
    None
}

pub(crate) fn has_prefix_at_exec(s: &Vec<char>, i: usize, p: &Vec<char>) -> (r: bool)
    requires
        i <= s@.len(),
    ensures
        r == has_prefix_at(s@, i as int, p@),
{
    let n = s.len();
    if n - i < p.len() {
        return false;
    }
    let mut j: usize = 0;
    while j < p.len()
        invariant
            j <= p@.len(),
            n == s@.len(),
            i + p@.len() <= n,
            forall|k: int| 0 <= k < j ==> s@[i + k] == #[trigger] p@[k],
        decreases p@.len() - j,
    {
        if s[i + j] != p[j] {
            return false;
        }
        j += 1;
    }
    true
}

pub(crate) fn subvec(s: &Vec<char>, a: usize, b: usize) -> (r: Vec<char>)
    requires
        a <= b <= s@.len(),
    ensures
        r@ == s@.subrange(a as int, b as int),
{
    let mut r: Vec<char> = Vec::new();
    let mut i = a;
    proof {
        assert(r@ =~= s@.subrange(a as int, a as int));
    }
    while i < b
        invariant
            a <= i <= b <= s@.len(),
            r@ == s@.subrange(a as int, i as int),
        decreases b - i,
    {
        r.push(s[i]);
        proof {
            assert(r@ =~= s@.subrange(a as int, i + 1));
        }
        i += 1;
    }
    r
}

pub(crate) fn push_all(out: &mut Vec<char>, p: &Vec<char>)
    ensures
        final(out)@ == old(out)@ + p@,
{
    let mut i: usize = 0;
    proof {
        assert(out@ =~= out@ + p@.subrange(0, 0));
    }
    while i < p.len()
        invariant
            i <= p@.len(),
            out@ == old(out)@ + p@.subrange(0, i as int),
        decreases p@.len() - i,
    {
        out.push(p[i]);
        proof {
            assert(out@ =~= old(out)@ + p@.subrange(0, i + 1));
        }
        i += 1;
    }
    proof {
        assert(old(out)@ + p@.subrange(0, p@.len() as int) =~= old(out)@ + p@);
    }
}

pub(crate) fn repeat_push(out: &mut Vec<char>, p: &Vec<char>, n: usize)
    ensures
        final(out)@ == old(out)@ + repeat_seq(p@, n as nat),
{
    let mut i: usize = 0;
    proof {
        assert(out@ =~= out@ + repeat_seq(p@, 0));
    }
    while i < n
        invariant
            i <= n,
            out@ == old(out)@ + repeat_seq(p@, i as nat),
        decreases n - i,
    {
        push_all(out, p);
        proof {
            assert(out@ =~= old(out)@ + repeat_seq(p@, (i + 1) as nat));
        }
        i += 1;
    }
}

pub(crate) fn trim_exec(s: &Vec<char>) -> (r: Vec<char>)
    ensures
        r@ == trim_blanks(s@),
{
    let n = s.len();
    proof {
        lemma_skip_blanks(s@, 0);
        lemma_rfind_nonblank(s@, n as int);
    }
    let a = skip_blanks_exec(s, 0);
    match rfind_nonblank_exec(s, n) {
        Some(e) => {
            if a < e + 1 {
                subvec(s, a, e + 1)
            } else {
                Vec::new()
            }
        },
        None => {
            proof {
                assert(rfind_nonblank(s@, n as int) + 1 <= 0);
            }
            Vec::new()
        },
    }
}

/// The views of a list of character vectors.
pub open spec fn views_of(vs: Seq<Vec<char>>) -> Seq<Seq<char>> {
    vs.map_values(|p: Vec<char>| p@)
}

pub(crate) fn split_exec(s: &Vec<char>, sep: char) -> (r: Vec<Vec<char>>)
    ensures
        views_of(r@) == split_char(s@, sep),
{
    let mut r: Vec<Vec<char>> = Vec::new();
    let mut cur: Vec<char> = Vec::new();
    let mut i: usize = 0;
    proof {
        assert(views_of(r@) + split_acc(s@, 0, cur@, sep) =~= split_acc(s@, 0, Seq::empty(), sep));
    }
    while i < s.len()
        invariant
            i <= s@.len(),
            split_char(s@, sep) == views_of(r@) + split_acc(s@, i as int, cur@, sep),
        decreases s@.len() - i,
    {
        let ghost r0 = r@;
        let ghost cur0 = cur@;
        if s[i] == sep {
            r.push(cur);
            cur = Vec::new();
            proof {
                assert(views_of(r@) =~= views_of(r0) + seq![cur0]);
                assert(split_acc(s@, i as int, cur0, sep) == seq![cur0] + split_acc(
                    s@,
                    i + 1,
                    Seq::empty(),
                    sep,
                ));
                assert((views_of(r0) + seq![cur0]) + split_acc(s@, i + 1, Seq::empty(), sep) =~=
                    views_of(r0) + (seq![cur0] + split_acc(s@, i + 1, Seq::empty(), sep)));
            }
        } else {
            let c = s[i];
            cur.push(c);
            proof {
                assert(cur@ =~= cur0 + seq![s@[i as int]]);
            }
        }
        i += 1;
    }
    let ghost r1 = r@;
    let ghost cur1 = cur@;
    r.push(cur);
    proof {
        assert(split_acc(s@, i as int, cur1, sep) == seq![cur1]);
        assert(views_of(r@) =~= views_of(r1) + seq![cur1]);
        assert(views_of(r1) + seq![cur1] =~= split_char(s@, sep));
    }
    r
}

} // verus!
