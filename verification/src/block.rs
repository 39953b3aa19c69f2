//! Line classification for the block state machine, and the structural
//! Markdown each kind of line produces: code-fence openings, heading lines,
//! and table rows with their alignment separator.

use vstd::prelude::*;
use crate::strutil::{
    find_char, find_char_from, has_prefix_at, has_prefix_at_exec, is_blank, join_rest, join_with,
    lemma_find_char, lemma_skip_stars, lemma_split_acc_len, push_all, repeat_push, repeat_seq,
    skip_stars, skip_stars_exec, split_char, split_exec, subvec, trim_blanks, trim_exec, views_of,
};

verus! {

pub open spec fn lit_code() -> Seq<char> {
    seq!['c', 'o', 'd', 'e', ':']
}

pub open spec fn lit_table() -> Seq<char> {
    seq!['t', 'a', 'b', 'l', 'e', ':']
}

pub(crate) fn lit_code_vec() -> (v: Vec<char>)
    ensures
        v@ == lit_code(),
{
    let mut v: Vec<char> = Vec::new();
    v.push('c');
    v.push('o');
    v.push('d');
    v.push('e');
    v.push(':');
    proof {
        assert(v@ =~= lit_code());
    }
    v
}

pub(crate) fn lit_table_vec() -> (v: Vec<char>)
    ensures
        v@ == lit_table(),
{
    let mut v: Vec<char> = Vec::new();
    v.push('t');
    v.push('a');
    v.push('b');
    v.push('l');
    v.push('e');
    v.push(':');
    proof {
        assert(v@ =~= lit_table());
    }
    v
}

/// A line that continues an open block: it starts with a blank.
pub open spec fn is_spaced(l: Seq<char>) -> bool {
    l.len() > 0 && is_blank(l[0])
}

/// A code-block header: `code:` followed by at least one character.
pub open spec fn is_code_header(l: Seq<char>) -> bool {
    has_prefix_at(l, 0, lit_code()) && l.len() > lit_code().len()
}

/// A table-block header: `table:` followed by anything, even nothing.
pub open spec fn is_table_header(l: Seq<char>) -> bool {
    has_prefix_at(l, 0, lit_table())
}

/// The fence language hint of a code-block header: the text after the dot,
/// provided the header holds exactly one dot after `code:`.
pub open spec fn code_ext(l: Seq<char>) -> Option<Seq<char>> {
    let d = find_char_from(l, lit_code().len() as int, '.');
    if d < l.len() && find_char_from(l, d + 1, '.') >= l.len() {
        Some(l.subrange(d + 1, l.len() as int))
    } else {
        None
    }
}

/// The opening fence a code-block header emits: triple backticks, the
/// language hint if any, and a newline.
pub open spec fn fence_open(l: Seq<char>) -> Seq<char> {
    seq!['`', '`', '`'] + (match code_ext(l) {
        Some(e) => e,
        None => Seq::empty(),
    }) + seq!['\n']
}

/// The heading level a star count yields: `5 - stars`, floored at one once
/// four stars are reached.  More stars give a larger heading.
pub open spec fn heading_level(stars: nat) -> nat {
    if stars >= 4 {
        1
    } else {
        (5 - stars) as nat
    }
}

/// A heading line: the whole line is `[` + stars + blank + text + `]`, the
/// text not empty and free of `]`.
pub open spec fn match_heading(l: Seq<char>) -> Option<Seq<char>> {
    if l.len() > 0 && l[0] == '[' {
        let se = skip_stars(l, 1);
        if se > 1 && se < l.len() && is_blank(l[se]) {
            let k = find_char_from(l, se + 1, ']');
            if k + 1 == l.len() && k > se + 1 {
                Some(
                    repeat_seq(seq!['#'], heading_level((se - 1) as nat)) + seq![' '] + l.subrange(
                        se + 1,
                        k,
                    ) + seq!['\n'],
                )
            } else {
                None
            }
        } else {
            None
        }
    } else {
        None
    }
}

/// The cells of a table row: the line, trimmed, cut at every tab.
pub open spec fn row_cells(l: Seq<char>) -> Seq<Seq<char>> {
    split_char(trim_blanks(l), '\t')
}

/// The alignment separator under a table header row: one `:--` cell per
/// column.
pub open spec fn sep_row(k: nat) -> Seq<char> {
    seq!['|'] + repeat_seq(seq![':', '-', '-', '|'], k) + seq!['\n']
}

/// A table content row: the cells joined as `| c1 | c2 | ... |`, followed,
/// when the row is the header row, by its alignment separator.
pub open spec fn table_row_out(l: Seq<char>, header: bool) -> Seq<char> {
    let row = seq!['|', ' '] + join_with(row_cells(l), seq![' ', '|', ' ']) + seq![' ', '|', '\n'];
    if header {
        row + sep_row(row_cells(l).len())
    } else {
        row
    }
}

pub(crate) fn is_spaced_exec(l: &Vec<char>) -> (b: bool)
    ensures
        b == is_spaced(l@),
{
    l.len() > 0 && (l[0] == ' ' || l[0] == '\t')
}

pub(crate) fn code_header_exec(l: &Vec<char>) -> (b: bool)
    ensures
        b == is_code_header(l@),
{
    let p = lit_code_vec();
    has_prefix_at_exec(l, 0, &p) && l.len() > p.len()
}

pub(crate) fn table_header_exec(l: &Vec<char>) -> (b: bool)
    ensures
        b == is_table_header(l@),
{
    let p = lit_table_vec();
    has_prefix_at_exec(l, 0, &p)
}

pub(crate) fn fence_open_exec(l: &Vec<char>) -> (v: Vec<char>)
    requires
        is_code_header(l@),
    ensures
        v@ == fence_open(l@),
{
    let n = l.len();
    let mut v: Vec<char> = Vec::new();
    v.push('`');
    v.push('`');
    v.push('`');
    proof {
        lemma_find_char(l@, 5, '.');
    }
    let d = find_char(l, 5, '.');
    if d < n {
        proof {
            lemma_find_char(l@, d + 1, '.');
        }
        let e = find_char(l, d + 1, '.');
        if e >= n {
            let ext = subvec(l, d + 1, n);
            push_all(&mut v, &ext);
        }
    }
    v.push('\n');
    proof {
        assert(v@ =~= fence_open(l@));
    }
    v
}

pub(crate) fn heading_exec(l: &Vec<char>) -> (r: Option<Vec<char>>)
    ensures
        match r {
            Some(h) => match_heading(l@) matches Some(hs) && hs == h@,
            None => match_heading(l@) is None,
        },
{
    let n = l.len();
    if n == 0 || l[0] != '[' {
        return None;
    }
    proof {
        lemma_skip_stars(l@, 1);
    }
    let se = skip_stars_exec(l, 1);
    if !(se > 1 && se < n && (l[se] == ' ' || l[se] == '\t')) {
        return None;
    }
    proof {
        lemma_find_char(l@, se + 1, ']');
    }
    let k = find_char(l, se + 1, ']');
    if k < n && k + 1 == n && k > se + 1 {
        let stars = se - 1;
        let lvl: usize = if stars >= 4 {
            1
        } else {
            5 - stars
        };
        let mut v: Vec<char> = Vec::new();
        let mut hash: Vec<char> = Vec::new();
        hash.push('#');
        proof {
            assert(hash@ =~= seq!['#']);
        }
        repeat_push(&mut v, &hash, lvl);
        v.push(' ');
        let body = subvec(l, se + 1, k);
        push_all(&mut v, &body);
        v.push('\n');
        proof {
            assert(v@ =~= repeat_seq(seq!['#'], lvl as nat) + seq![' '] + l@.subrange(
                se + 1,
                k as int,
            ) + seq!['\n']);
        }
        Some(v)
    } else {
        None
    }
}

pub(crate) fn sep_row_exec(k: usize) -> (v: Vec<char>)
    ensures
        v@ == sep_row(k as nat),
{
    let mut v: Vec<char> = Vec::new();
    v.push('|');
    let mut cell: Vec<char> = Vec::new();
    cell.push(':');
    cell.push('-');
    cell.push('-');
    cell.push('|');
    proof {
        assert(cell@ =~= seq![':', '-', '-', '|']);
    }
    repeat_push(&mut v, &cell, k);
    v.push('\n');
    proof {
        assert(v@ =~= sep_row(k as nat));
    }
    v
}

pub(crate) fn table_row_exec(l: &Vec<char>, header: bool) -> (v: Vec<char>)
    ensures
        v@ == table_row_out(l@, header),
{
    let t = trim_exec(l);
    let cells = split_exec(&t, '\t');
    let ghost m = row_cells(l@);
    proof {
        assert(views_of(cells@) == m);
        lemma_split_acc_len(t@, 0, Seq::empty(), '\t');
    }
    let mut v: Vec<char> = Vec::new();
    v.push('|');
    v.push(' ');
    push_all(&mut v, &cells[0]);
    proof {
        assert(cells@[0]@ == m[0]);
        assert(v@ =~= seq!['|', ' '] + m[0]);
    }
    let mut i: usize = 1;
    while i < cells.len()
        invariant
            1 <= i <= cells@.len(),
            views_of(cells@) == m,
            m.len() == cells@.len(),
            v@ + join_rest(m, seq![' ', '|', ' '], i as int) == seq!['|', ' '] + join_with(
                m,
                seq![' ', '|', ' '],
            ),
        decreases cells@.len() - i,
    {
        let ghost v0 = v@;
        v.push(' ');
        v.push('|');
        v.push(' ');
        push_all(&mut v, &cells[i]);
        proof {
            assert(cells@[i as int]@ == m[i as int]);
            assert(v@ =~= v0 + (seq![' ', '|', ' '] + m[i as int]));
            assert(join_rest(m, seq![' ', '|', ' '], i as int) == seq![' ', '|', ' ']
                + m[i as int] + join_rest(m, seq![' ', '|', ' '], i + 1));
            assert((v0 + (seq![' ', '|', ' '] + m[i as int])) + join_rest(
                m,
                seq![' ', '|', ' '],
                i + 1,
            ) =~= v0 + join_rest(m, seq![' ', '|', ' '], i as int));
        }
        i += 1;
    }
    proof {
        assert(join_rest(m, seq![' ', '|', ' '], i as int) == Seq::<char>::empty());
        assert(v@ + Seq::<char>::empty() =~= v@);
        assert(v@ =~= seq!['|', ' '] + join_with(m, seq![' ', '|', ' ']));
    }
    let ghost v1 = v@;
    v.push(' ');
    v.push('|');
    v.push('\n');
    proof {
        assert(v@ =~= v1 + seq![' ', '|', '\n']);
        assert(v@ =~= seq!['|', ' '] + join_with(m, seq![' ', '|', ' ']) + seq![' ', '|', '\n']);
    }
    if header {
        let s = sep_row_exec(cells.len());
        push_all(&mut v, &s);
        proof {
            assert(v@ =~= (seq!['|', ' '] + join_with(m, seq![' ', '|', ' ']) + seq![
                ' ',
                '|',
                '\n',
            ]) + sep_row(m.len()));
        }
    }
    v
}

} // verus!
