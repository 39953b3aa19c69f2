//! The conversion engine: a per-line block-state machine combined with the
//! inline pipeline.  The converter walks the page's lines once; each line is
//! classified by the current state and produces output through exactly one
//! path, and the state and the header-pending flag move on as `next_token`
//! and `next_header` say.

use vstd::prelude::*;
use vstd::string::StringExecFns;
use crate::block::{
    code_header_exec, fence_open, fence_open_exec, heading_exec, is_code_header, is_spaced,
    is_spaced_exec, is_table_header, match_heading, table_header_exec, table_row_exec,
    table_row_out,
};
use crate::inline::{inline_convert, inline_out};
use crate::sbtype::{line_views, ScrapboxLine, ScrapboxPage};
use crate::strutil::{chars_to_string, push_all, split_char, split_exec, str_to_chars, views_of};

verus! {

/// Which multi-line block is open while scanning.
pub enum TokenType {
    CodeBlock,
    Table,
    Other,
}

/// The output one line produces under the given state and header-pending
/// flag.
pub open spec fn line_out(tt: TokenType, th: bool, l: Seq<char>) -> Seq<char> {
    match tt {
        TokenType::CodeBlock => if is_spaced(l) {
            l + seq!['\n']
        } else {
            seq!['`', '`', '`', '\n', '\n']
        },
        TokenType::Table => if is_spaced(l) {
            table_row_out(l, th)
        } else {
            seq!['\n']
        },
        TokenType::Other => if is_code_header(l) {
            fence_open(l)
        } else if is_table_header(l) {
            Seq::empty()
        } else if match_heading(l) is Some {
            match_heading(l)->0
        } else {
            inline_out(l)
        },
    }
}

/// The state after one line: an open block stays open exactly while its
/// lines are indented; a header line opens its block.
pub open spec fn next_token(tt: TokenType, th: bool, l: Seq<char>) -> TokenType {
    match tt {
        TokenType::CodeBlock => if is_spaced(l) {
            TokenType::CodeBlock
        } else {
            TokenType::Other
        },
        TokenType::Table => if is_spaced(l) {
            TokenType::Table
        } else {
            TokenType::Other
        },
        TokenType::Other => if is_code_header(l) {
            TokenType::CodeBlock
        } else if is_table_header(l) {
            TokenType::Table
        } else {
            TokenType::Other
        },
    }
}

/// The header-pending flag after one line: set by a table header, cleared
/// by the table's first content row, untouched otherwise.
pub open spec fn next_header(tt: TokenType, th: bool, l: Seq<char>) -> bool {
    match tt {
        TokenType::CodeBlock => th,
        TokenType::Table => if is_spaced(l) {
            false
        } else {
            th
        },
        TokenType::Other => if is_code_header(l) {
            th
        } else if is_table_header(l) {
            true
        } else {
            th
        },
    }
}

/// What a scan of the lines from index `i` on yields: the emitted text and
/// the state left behind.
pub ghost struct ScanRes {
    pub out: Seq<char>,
    pub token: TokenType,
    pub header: bool,
}

pub open spec fn scan_from(tt: TokenType, th: bool, lines: Seq<Seq<char>>, i: int) -> ScanRes
    decreases lines.len() - i,
{
    if i < 0 || i >= lines.len() {
        ScanRes { out: Seq::empty(), token: tt, header: th }
    } else {
        let rest = scan_from(next_token(tt, th, lines[i]), next_header(tt, th, lines[i]), lines, i + 1);
        ScanRes { out: line_out(tt, th, lines[i]) + rest.out, token: rest.token, header: rest.header }
    }
}

/// A whole scan: all lines, header-pending flag initially clear.
pub open spec fn scan(tt: TokenType, lines: Seq<Seq<char>>) -> ScanRes {
    scan_from(tt, false, lines, 0)
}

/// The converter: the page, the block state, and the accumulated output.
pub struct ToMd {
    page: ScrapboxPage,
    token_type: TokenType,
    output: String,
}

/// The converter's abstract state.
pub ghost struct MdView {
    pub lines: Seq<Seq<char>>,
    pub token: TokenType,
    pub output: Seq<char>,
}

impl View for ToMd {
    type V = MdView;

    closed spec fn view(&self) -> MdView {
        MdView { lines: self.page@, token: self.token_type, output: self.output@ }
    }
}

impl ToMd {
    /// A converter over the lines of a text blob, cut at every newline.
    pub fn new_by_text(text: String) -> (r: Self)
        ensures
            r@.lines == split_char(text@, '\n'),
            r@.token == TokenType::Other,
            r@.output == Seq::<char>::empty(),
    {
        let chars = str_to_chars(text.as_str());
        let pieces = split_exec(&chars, '\n');
        let mut lines: Vec<ScrapboxLine> = Vec::new();
        let mut i: usize = 0;
        proof {
            assert(line_views(lines@) =~= views_of(pieces@).subrange(0, 0));
        }
        while i < pieces.len()
            invariant
                i <= pieces@.len(),
                views_of(pieces@) == split_char(text@, '\n'),
                line_views(lines@) == views_of(pieces@).subrange(0, i as int),
            decreases pieces@.len() - i,
        {
            let ghost l0 = lines@;
            let s = chars_to_string(&pieces[i]);
            lines.push(ScrapboxLine::new(s));
            proof {
                assert(views_of(pieces@)[i as int] == pieces@[i as int]@);
                assert(line_views(lines@) =~= line_views(l0) + seq![pieces@[i as int]@]);
                assert(line_views(lines@) =~= views_of(pieces@).subrange(0, i + 1));
            }
            i += 1;
        }
        proof {
            assert(views_of(pieces@).subrange(0, views_of(pieces@).len() as int) =~= views_of(
                pieces@,
            ));
        }
        ToMd { page: ScrapboxPage::new(lines), token_type: TokenType::Other, output: String::new() }
    }

    /// A converter over an already-built page.
    pub fn new_by_sb_page(page: ScrapboxPage) -> (r: Self)
        ensures
            r@.lines == page@,
            r@.token == TokenType::Other,
            r@.output == Seq::<char>::empty(),
    {
        ToMd { page, token_type: TokenType::Other, output: String::new() }
    }

    /// One pass over the page: appends to the accumulated output exactly
    /// what a scan of the lines emits, starting from the current block
    /// state, and leaves the scan's final state behind.  Total: every page
    /// converts, and the page itself is untouched.
    pub fn convert(&mut self) -> (r: String)
        ensures
            final(self)@.lines == old(self)@.lines,
            final(self)@.token == scan(old(self)@.token, old(self)@.lines).token,
            final(self)@.output == old(self)@.output + scan(old(self)@.token, old(self)@.lines).out,
            r@ == final(self)@.output,
    {
        let ghost lines = self@.lines;
        let ghost tt0 = self@.token;
        let mut frag: Vec<char> = Vec::new();
        let mut th = false;
        let mut idx: usize = 0;
        proof {
            assert(frag@ + scan_from(tt0, false, lines, 0).out =~= scan_from(tt0, false, lines, 0).out);
        }
        while idx < self.page.lines.len()
            invariant
                idx <= self.page.lines.len(),
                self.page == old(self).page,
                self.output@ == old(self).output@,
                lines == self@.lines,
                lines.len() == self.page.lines@.len(),
                scan_from(tt0, false, lines, 0).out == frag@ + scan_from(
                    self@.token,
                    th,
                    lines,
                    idx as int,
                ).out,
                scan_from(tt0, false, lines, 0).token == scan_from(
                    self@.token,
                    th,
                    lines,
                    idx as int,
                ).token,
            decreases self.page.lines@.len() - idx,
        {
            let ghost pre_tt = self@.token;
            let ghost pre_th = th;
            let ghost frag0 = frag@;
            let lchars = str_to_chars(self.page.lines[idx].text.as_str());
            proof {
                assert(lines[idx as int] == self.page.lines@[idx as int]@);
                assert(lchars@ == lines[idx as int]);
            }
            let ghost lv = lines[idx as int];
            match self.token_type {
                TokenType::CodeBlock => {
                    if !is_spaced_exec(&lchars) {
                        frag.push('`');
                        frag.push('`');
                        frag.push('`');
                        frag.push('\n');
                        frag.push('\n');
                        self.token_type = TokenType::Other;
                        proof {
                            assert(frag@ =~= frag0 + line_out(pre_tt, pre_th, lv));
                        }
                    } else {
                        push_all(&mut frag, &lchars);
                        frag.push('\n');
                        proof {
                            assert(frag@ =~= frag0 + line_out(pre_tt, pre_th, lv));
                        }
                    }
                },
                TokenType::Table => {
                    if !is_spaced_exec(&lchars) {
                        frag.push('\n');
                        self.token_type = TokenType::Other;
                        proof {
                            assert(frag@ =~= frag0 + line_out(pre_tt, pre_th, lv));
                        }
                    } else {
                        let row = table_row_exec(&lchars, th);
                        push_all(&mut frag, &row);
                        if th {
                            th = false;
                        }
                        proof {
                            assert(frag@ =~= frag0 + line_out(pre_tt, pre_th, lv));
                        }
                    }
                },
                TokenType::Other => {
                    if code_header_exec(&lchars) {
                        let f = fence_open_exec(&lchars);
                        push_all(&mut frag, &f);
                        self.token_type = TokenType::CodeBlock;
                        proof {
                            assert(frag@ =~= frag0 + line_out(pre_tt, pre_th, lv));
                        }
                    } else if table_header_exec(&lchars) {
                        self.token_type = TokenType::Table;
                        th = true;
                        proof {
                            assert(frag@ =~= frag0 + line_out(pre_tt, pre_th, lv));
                        }
                    } else {
                        let h = heading_exec(&lchars);
                        match h {
                            Some(hv) => {
                                push_all(&mut frag, &hv);
                                proof {
                                    assert(frag@ =~= frag0 + line_out(pre_tt, pre_th, lv));
                                }
                            },
                            None => {
                                let o = inline_convert(&lchars);
                                push_all(&mut frag, &o);
                                proof {
                                    assert(frag@ =~= frag0 + line_out(pre_tt, pre_th, lv));
                                }
                            },
                        }
                    }
                },
            }
            proof {
                assert(self@.token == next_token(pre_tt, pre_th, lv));
                assert(th == next_header(pre_tt, pre_th, lv));
                assert(scan_from(pre_tt, pre_th, lines, idx as int).out == line_out(
                    pre_tt,
                    pre_th,
                    lv,
                ) + scan_from(self@.token, th, lines, idx + 1).out);
                assert(scan_from(pre_tt, pre_th, lines, idx as int).token == scan_from(
                    self@.token,
                    th,
                    lines,
                    idx + 1,
                ).token);
                assert(frag0 + (line_out(pre_tt, pre_th, lv) + scan_from(
                    self@.token,
                    th,
                    lines,
                    idx + 1,
                ).out) =~= frag@ + scan_from(self@.token, th, lines, idx + 1).out);
            }
            idx += 1;
        }
        proof {
            assert(scan_from(self@.token, th, lines, idx as int).out == Seq::<char>::empty());
            assert(frag@ + Seq::<char>::empty() =~= frag@);
            assert(scan_from(tt0, false, lines, 0).out == frag@);
            assert(scan_from(tt0, false, lines, 0).token == self@.token);
        }
        let fs = chars_to_string(&frag);
        self.output.append(fs.as_str());
        let r = self.output.clone();
        r
    }
}

} // verus!
