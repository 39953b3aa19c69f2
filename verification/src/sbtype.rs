//! The page data model: a page is an ordered list of lines, each a single
//! string of raw text with no trailing newline.

use vstd::prelude::*;
use vstd::string::StringExecFns;
use crate::strutil::{join_rest, join_with};

verus! {

pub struct ScrapboxLine {
    pub text: String,
}

impl View for ScrapboxLine {
    type V = Seq<char>;

    open spec fn view(&self) -> Seq<char> {
        self.text@
    }
}

impl ScrapboxLine {
    pub fn new(text: String) -> (r: Self)
        ensures
            r@ == text@,
    {
        ScrapboxLine { text }
    }
}

/// The views of a list of lines.
pub open spec fn line_views(ls: Seq<ScrapboxLine>) -> Seq<Seq<char>> {
    ls.map_values(|l: ScrapboxLine| l@)
}

pub struct ScrapboxPage {
    pub lines: Vec<ScrapboxLine>,
}

impl View for ScrapboxPage {
    type V = Seq<Seq<char>>;

    open spec fn view(&self) -> Seq<Seq<char>> {
        line_views(self.lines@)
    }
}

impl ScrapboxPage {
    pub fn new(lines: Vec<ScrapboxLine>) -> (r: Self)
        ensures
            r@ == line_views(lines@),
    {
        ScrapboxPage { lines }
    }

    /// The page as one text blob: the lines joined with newlines.
    pub fn to_text(self) -> (r: String)
        ensures
            r@ == join_with(self@, seq!['\n']),
    {
        let ghost m = self@;
        let mut out = String::new();
        if self.lines.len() == 0 {
            return out;
        }
        out.append(self.lines[0].text.as_str());
        proof {
            assert(m[0] == self.lines@[0]@);
            assert(out@ =~= m[0]);
        }
        let mut i: usize = 1;
        while i < self.lines.len()
            invariant
                1 <= i <= self.lines@.len(),
                m == line_views(self.lines@),
                m.len() == self.lines@.len(),
                out@ + join_rest(m, seq!['\n'], i as int) == join_with(m, seq!['\n']),
            decreases self.lines@.len() - i,
        {
            let ghost o0 = out@;
            out.push('\n');
            out.append(self.lines[i].text.as_str());
            proof {
                assert(m[i as int] == self.lines@[i as int]@);
                assert(out@ =~= o0 + (seq!['\n'] + m[i as int]));
                assert(join_rest(m, seq!['\n'], i as int) == seq!['\n'] + m[i as int] + join_rest(
                    m,
                    seq!['\n'],
                    i + 1,
                ));
                assert((o0 + (seq!['\n'] + m[i as int])) + join_rest(m, seq!['\n'], i + 1) =~= o0
                    + join_rest(m, seq!['\n'], i as int));
            }
            i += 1;
        }
        proof {
            assert(join_rest(m, seq!['\n'], i as int) == Seq::<char>::empty());
            assert(out@ + Seq::<char>::empty() =~= out@);
        }
        out
    }
}

} // verus!
