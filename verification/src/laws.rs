//! Laws of the conversion that hold across calls: the heading-level
//! formula, the stability of heading output under re-conversion, and the
//! line-for-line fixpoint on text that is already Markdown.

use vstd::prelude::*;
use crate::block::{
    heading_level, is_code_header, is_table_header, lit_code, lit_table, match_heading, row_cells,
    sep_row, table_row_out,
};
use crate::converter::{line_out, next_header, next_token, scan, scan_from, TokenType};
use crate::inline::{inline_out, line_has_link, link_match_at, list_out};
use crate::pattern::{
    lit_gyazo, lit_sbfiles, match_at, matcher, lemma_replace_none, replace_all_s, PatS,
};
use crate::strutil::{
    find_char_from, is_blank, join_rest, join_with, lemma_find_blank, lemma_find_char,
    lemma_find_stop, lemma_repeat_single, lemma_rfind_char, lemma_skip_stars,
    lemma_split_acc_len, repeat_seq, skip_blanks, skip_stars, split_acc, split_char,
};

verus! {

/// More emphasis markers yield a larger (lower-numbered) heading: the level
/// is the greater of one and five less the star count.
pub proof fn law_heading_level(stars: nat)
    requires
        stars >= 1,
    ensures
        heading_level(stars) == vstd::math::max(1, 5 - stars as int),
{
}

proof fn lemma_join_rest_shift(x: Seq<char>, r: Seq<Seq<char>>, sep: Seq<char>, i: int)
    requires
        1 <= i,
    ensures
        join_rest(seq![x] + r, sep, i) == join_rest(r, sep, i - 1),
    decreases r.len() + 1 - i,
{
    let m = seq![x] + r;
    if i < m.len() {
        assert(m[i] == r[i - 1]);
        lemma_join_rest_shift(x, r, sep, i + 1);
    }
}

proof fn lemma_join_cons(x: Seq<char>, r: Seq<Seq<char>>, sep: Seq<char>)
    requires
        r.len() >= 1,
    ensures
        join_with(seq![x] + r, sep) == x + sep + join_with(r, sep),
{
    let m = seq![x] + r;
    assert(m[0] == x);
    lemma_join_rest_shift(x, r, sep, 1);
    assert(join_rest(r, sep, 0) == sep + r[0] + join_rest(r, sep, 1));
    assert(join_with(m, sep) =~= x + sep + join_with(r, sep));
}

proof fn lemma_split_join_acc(s: Seq<char>, i: int, cur: Seq<char>, sep: char)
    requires
        0 <= i <= s.len(),
    ensures
        join_with(split_acc(s, i, cur, sep), seq![sep]) == cur + s.subrange(i, s.len() as int),
    decreases s.len() - i,
{
    if i >= s.len() {
        assert(join_with(seq![cur], seq![sep]) == cur + join_rest(seq![cur], seq![sep], 1));
        assert(cur + join_rest(seq![cur], seq![sep], 1) =~= cur);
        assert(cur + s.subrange(i, s.len() as int) =~= cur);
    } else if s[i] == sep {
        lemma_split_join_acc(s, i + 1, Seq::empty(), sep);
        lemma_split_acc_len(s, i + 1, Seq::empty(), sep);
        lemma_join_cons(cur, split_acc(s, i + 1, Seq::empty(), sep), seq![sep]);
        assert(cur + seq![sep] + (Seq::empty() + s.subrange(i + 1, s.len() as int)) =~= cur
            + s.subrange(i, s.len() as int));
    } else {
        lemma_split_join_acc(s, i + 1, cur + seq![s[i]], sep);
        assert((cur + seq![s[i]]) + s.subrange(i + 1, s.len() as int) =~= cur + s.subrange(
            i,
            s.len() as int,
        ));
    }
}

/// Cutting a text into lines loses nothing: joining the pieces with the
/// separator restores the text letter for letter.  `ToMd::new_by_text` and
/// `ScrapboxPage::to_text` speak of these two functions, so a page built
/// from a text blob reads back as that blob.
pub proof fn law_split_join_roundtrip(s: Seq<char>, sep: char)
    ensures
        join_with(split_char(s, sep), seq![sep]) == s,
{
    lemma_split_join_acc(s, 0, Seq::empty(), sep);
    assert(Seq::empty() + s.subrange(0, s.len() as int) =~= s);
}

/// A table's header row emits its cell row and then the alignment
/// separator, with exactly one `:--` cell per column of that row; a
/// non-header row emits its cell row alone.
pub proof fn law_separator_width(l: Seq<char>)
    ensures
        table_row_out(l, true) == table_row_out(l, false) + sep_row(row_cells(l).len()),
{
}

/// A line is stable when conversion passes it through untouched: it opens
/// no block, is no heading, and the inline pipeline returns it unchanged
/// (with its newline).
pub open spec fn md_stable(l: Seq<char>) -> bool {
    &&& !is_code_header(l)
    &&& !is_table_header(l)
    &&& match_heading(l) is None
    &&& inline_out(l) == l + seq!['\n']
}

/// The text a sequence of lines reads as: each line, newline-terminated.
pub open spec fn lines_text(lines: Seq<Seq<char>>, i: int) -> Seq<char>
    decreases lines.len() - i,
{
    if i < 0 || i >= lines.len() {
        Seq::empty()
    } else {
        lines[i] + seq!['\n'] + lines_text(lines, i + 1)
    }
}

proof fn lemma_stable_scan_from(lines: Seq<Seq<char>>, i: int)
    requires
        0 <= i <= lines.len(),
        forall|j: int| 0 <= j < lines.len() ==> md_stable(#[trigger] lines[j]),
    ensures
        scan_from(TokenType::Other, false, lines, i).out == lines_text(lines, i),
        scan_from(TokenType::Other, false, lines, i).token == TokenType::Other,
        scan_from(TokenType::Other, false, lines, i).header == false,
    decreases lines.len() - i,
{
    if i < lines.len() {
        let l = lines[i];
        assert(line_out(TokenType::Other, false, l) == l + seq!['\n']);
        assert(next_token(TokenType::Other, false, l) == TokenType::Other);
        assert(next_header(TokenType::Other, false, l) == false);
        lemma_stable_scan_from(lines, i + 1);
        assert(scan_from(TokenType::Other, false, lines, i).out =~= lines_text(lines, i));
    }
}

/// Conversion is a line-for-line no-op on a page whose every line is
/// stable: the scan emits exactly the lines, each newline-terminated, in
/// order, and ends back in the plain state.  Re-running conversion on such
/// text changes nothing of its lines.
pub proof fn law_stable_lines_fixed(lines: Seq<Seq<char>>)
    requires
        forall|j: int| 0 <= j < lines.len() ==> md_stable(#[trigger] lines[j]),
    ensures
        scan(TokenType::Other, lines).out == lines_text(lines, 0),
        scan(TokenType::Other, lines).token == TokenType::Other,
{
    lemma_stable_scan_from(lines, 0);
}

proof fn lemma_no_rb_no_match(p: PatS, s: Seq<char>, i: int)
    requires
        0 <= i < s.len(),
        forall|j: int| 0 <= j < s.len() ==> s[j] != ']',
    ensures
        match_at(p, s, i) is None,
{
    match p {
        PatS::Img(host) => {
            if s[i] == '[' && crate::strutil::has_prefix_at(s, i + 1, host) {
                lemma_find_stop(s, i + 1 + host.len() as int);
            }
        },
        PatS::LinkPrefix => {
            if s[i] == '[' {
                lemma_find_blank(s, i + 1);
                let k = crate::strutil::find_blank_from(s, i + 1);
                if k < s.len() {
                    lemma_find_char(s, k + 1, ']');
                }
            }
        },
        PatS::LinkSuffix => {
            if s[i] == '[' {
                lemma_find_char(s, i + 1, ']');
            }
        },
        PatS::Strong => {
            if s[i] == '[' {
                lemma_skip_stars(s, i + 1);
                let se = skip_stars(s, i + 1);
                if se > i + 1 && se < s.len() && is_blank(s[se]) {
                    lemma_find_char(s, se + 1, ']');
                }
            }
        },
        PatS::SbLinkGuarded => {
            if s[i] == '[' {
                lemma_find_char(s, i + 1, ']');
            }
        },
        PatS::SbLinkPlain => {
            if s[i] == '[' {
                lemma_find_char(s, i + 1, '[');
                let b = find_char_from(s, i + 1, '[');
                lemma_rfind_char(s, b, ']');
            }
        },
    }
}

proof fn lemma_no_rb_replace_identity(p: PatS, s: Seq<char>)
    requires
        forall|j: int| 0 <= j < s.len() ==> s[j] != ']',
    ensures
        replace_all_s(p, s) == s,
{
    assert forall|j: int| 0 <= j < s.len() implies #[trigger] matcher(p)(s, j) is None by {
        lemma_no_rb_no_match(p, s, j);
    }
    lemma_replace_none(s, 0, matcher(p));
    assert(s.subrange(0, s.len() as int) =~= s);
}

/// A heading's output line is itself stable: converted again as input, it
/// opens no block, matches no pattern, and passes through unchanged.  This
/// is the heading half of the fixpoint law; the list rewrite, by contrast,
/// is stable only at depth zero.
pub proof fn law_heading_output_stable(l: Seq<char>)
    requires
        match_heading(l) is Some,
    ensures
        match_heading(l)->0.len() >= 2,
        match_heading(l)->0.last() == '\n',
        md_stable(match_heading(l)->0.drop_last()),
{
    let h = match_heading(l)->0;
    let se = skip_stars(l, 1);
    let k = find_char_from(l, se + 1, ']');
    let stars = (se - 1) as nat;
    let lvl = heading_level(stars);
    lemma_skip_stars(l, 1);
    lemma_find_char(l, se + 1, ']');
    lemma_repeat_single('#', lvl);
    let hashes = repeat_seq(seq!['#'], lvl);
    let text = l.subrange(se + 1, k);
    assert(h == hashes + seq![' '] + text + seq!['\n']);
    assert(lvl >= 1);
    let b = h.drop_last();
    assert(b =~= hashes + seq![' '] + text);
    assert(b[0] == '#');
    // No `]` anywhere in the body: the hashes and the blank are not `]`,
    // and the text stops before the line's first closing bracket.
    assert forall|j: int| 0 <= j < b.len() implies b[j] != ']' by {
        if j < lvl {
            assert(b[j] == '#');
        } else if j == lvl {
            assert(b[j] == ' ');
        } else {
            assert(b[j] == text[j - lvl - 1]);
            assert(text[j - lvl - 1] == l[se + 1 + (j - lvl - 1)]);
        }
    }
    // Not a block header and no heading: the first character is `#`.
    assert(!is_code_header(b)) by {
        if crate::strutil::has_prefix_at(b, 0, lit_code()) {
            assert(b[0] == lit_code()[0]);
        }
    }
    assert(!is_table_header(b)) by {
        if crate::strutil::has_prefix_at(b, 0, lit_table()) {
            assert(b[0] == lit_table()[0]);
        }
    }
    assert(match_heading(b) is None);
    // The inline pipeline: with no `]`, no pattern matches anywhere, so
    // every pass returns the body unchanged, and no external link is seen.
    lemma_no_rb_replace_identity(PatS::Img(lit_gyazo()), b);
    lemma_no_rb_replace_identity(PatS::Img(lit_sbfiles()), b);
    lemma_no_rb_replace_identity(PatS::LinkPrefix, b);
    lemma_no_rb_replace_identity(PatS::LinkSuffix, b);
    lemma_no_rb_replace_identity(PatS::Strong, b);
    lemma_no_rb_replace_identity(PatS::SbLinkGuarded, b);
    lemma_no_rb_replace_identity(PatS::SbLinkPlain, b);
    assert(!line_has_link(b)) by {
        if line_has_link(b) {
            let i = choose|i: int| 0 <= i < b.len() && #[trigger] link_match_at(b, i);
            lemma_no_rb_no_match(PatS::LinkPrefix, b, i);
            lemma_no_rb_no_match(PatS::LinkSuffix, b, i);
        }
    }
    // The list rewrite leaves it alone: the line starts with `#`.
    assert(skip_blanks(b, 0) == 0);
    assert(list_out(b) == b + seq!['\n']);
    assert(inline_out(b) == b + seq!['\n']);
}

} // verus!
