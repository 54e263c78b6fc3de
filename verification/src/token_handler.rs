use vstd::prelude::*;
use std::ops::Range;
use crate::error::{ErrType, RhErr};
use crate::lexer::{line_table_wf, LineNumHandler, Token};

verus! {

/// A cursor over the token list, with the span of token indices of every source line.
pub struct TokenHandler {
    pub tokens: Vec<Token>,
    pub curr_token: usize,
    /// Index is line number, range is start and end of line (both inclusive)
    pub token_lines: Vec<Range<usize>>,
}

/// The token span of line `j` as `TokenHandler::new` computes it from the line table.
pub open spec fn spec_line_start(lines: Seq<usize>, j: int) -> int {
    lines[j] - 1
}

pub open spec fn spec_line_end(lines: Seq<usize>, n: nat, j: int) -> int {
    if j == lines.len() - 1 {
        n - 1
    } else {
        lines[j + 1] - 1
    }
}

/// The spans start at token 0, follow on from each other (each span ends where the next
/// begins), never move backwards, and the last one ends at the last token.
pub open spec fn spans_wf(r: Seq<Range<usize>>, n: nat) -> bool {
    &&& r.len() >= 1
    &&& n >= 1
    &&& r[0].start == 0
    &&& forall|j: int| 0 <= j < r.len() - 1 ==> #[trigger] r[j].end == r[j + 1].start
    &&& r[r.len() - 1].end == n - 1
    &&& forall|i: int, j: int| 0 <= i <= j < r.len() ==> r[i].start <= r[j].start
}

pub open spec fn span_contains(r: Range<usize>, t: int) -> bool {
    r.start <= t <= r.end
}

/// The index of the first span, from `k` on, that holds token `t`; the number of spans when
/// none does.
pub open spec fn first_span(ls: Seq<Range<usize>>, t: int, k: int) -> int
    decreases ls.len() - k,
{
    if k < 0 || k >= ls.len() {
        ls.len() as int
    } else if span_contains(ls[k], t) {
        k
    } else {
        first_span(ls, t, k + 1)
    }
}

/// The (one-based) line of token `t`: the first line whose span holds it.
pub open spec fn spec_line(ls: Seq<Range<usize>>, t: int) -> int {
    first_span(ls, t, 0) + 1
}

impl TokenHandler {
    pub open spec fn wf(&self) -> bool {
        spans_wf(self.token_lines@, self.tokens@.len())
    }

    pub fn new(tokens: Vec<Token>, line_tracker: LineNumHandler) -> (th: Self)
        requires
            forall|j: int|
                0 <= j < line_tracker.token_lines@.len() ==> #[trigger] line_tracker.token_lines@[j]
                    >= 1,
            line_tracker.token_lines@.len() > 0 ==> tokens@.len() >= 1,
        ensures
            th.tokens@ == tokens@,
            th.curr_token == 0,
            th.token_lines@.len() == line_tracker.token_lines@.len(),
            forall|j: int|
                0 <= j < th.token_lines@.len() ==> {
                    &&& #[trigger] th.token_lines@[j].start == spec_line_start(
                        line_tracker.token_lines@,
                        j,
                    )
                    &&& th.token_lines@[j].end == spec_line_end(
                        line_tracker.token_lines@,
                        tokens@.len(),
                        j,
                    )
                },
            line_table_wf(line_tracker.token_lines@, tokens@.len()) ==> th.wf(),
    {
        let lines = &line_tracker.token_lines;
        let mut ranges: Vec<Range<usize>> = Vec::new();
        let mut j: usize = 0;
        while j < lines.len()
            invariant
                j <= lines.len(),
                forall|q: int| 0 <= q < lines@.len() ==> #[trigger] lines@[q] >= 1,
                lines@.len() > 0 ==> tokens@.len() >= 1,
                ranges@.len() == j,
                forall|q: int|
                    0 <= q < j ==> {
                        &&& #[trigger] ranges@[q].start == spec_line_start(lines@, q)
                        &&& ranges@[q].end == spec_line_end(lines@, tokens@.len(), q)
                    },
            decreases lines.len() - j,
        {
            let start = lines[j];
            let end = if lines.len() - 1 == j {
                tokens.len()
            } else {
                lines[j + 1]
            };
            let ghost before = ranges@;
            let ghost jj = j as int;
            ranges.push(Range { start: start - 1, end: end - 1 });
            j = j + 1;
            proof {
                assert(ranges@[jj].start == spec_line_start(lines@, jj));
                assert(ranges@[jj].end == spec_line_end(lines@, tokens@.len(), jj));
                assert forall|q: int| 0 <= q < j implies {
                    &&& #[trigger] ranges@[q].start == spec_line_start(lines@, q)
                    &&& ranges@[q].end == spec_line_end(lines@, tokens@.len(), q)
                } by {
                    if q < jj {
                        assert(ranges@[q] == before[q]);
                        assert(before[q].start == spec_line_start(lines@, q));
                    }
                }
            }
        }
        let th = TokenHandler { tokens, curr_token: 0, token_lines: ranges };
        proof {
            if line_table_wf(lines@, th.tokens@.len()) {
                let r = th.token_lines@;
                assert(r[0].start == spec_line_start(lines@, 0));
                assert(r[r.len() - 1].start == spec_line_start(lines@, r.len() - 1));
                assert(r[r.len() - 1].end == spec_line_end(lines@, th.tokens@.len(), r.len() - 1));
                assert forall|a: int, b: int| 0 <= a <= b < r.len() implies r[a].start
                    <= r[b].start by {
                    assert(lines@[a] <= lines@[b]);
                }
                assert forall|q: int| 0 <= q < r.len() - 1 implies #[trigger] r[q].end == r[q
                    + 1].start by {
                    assert(r[q + 1].start == spec_line_start(lines@, q + 1));
                }
            }
        }
        th
    }

    pub fn next_token(&mut self)
        requires
            old(self).curr_token < usize::MAX,
        ensures
            final(self).curr_token == old(self).curr_token + 1,
            final(self).tokens == old(self).tokens,
            final(self).token_lines == old(self).token_lines,
    {
        self.curr_token += 1;
    }

    pub fn peek(&self, i: usize) -> (t: &Token)
        requires
            self.curr_token + i < self.tokens.len(),
        ensures
            *t == self.tokens@[self.curr_token + i],
    {
        &self.tokens[self.curr_token + i]
    }

    pub fn prev_token(&mut self)
        requires
            old(self).curr_token >= 1,
        ensures
            final(self).curr_token == old(self).curr_token - 1,
            final(self).tokens == old(self).tokens,
            final(self).token_lines == old(self).token_lines,
    {
        self.curr_token -= 1;
    }

    pub fn get_token(&self) -> (t: &Token)
        requires
            self.curr_token < self.tokens@.len(),
        ensures
            *t == self.tokens@[self.curr_token as int],
    {
        &self.tokens[self.curr_token]
    }

    pub fn get_prev_token(&self) -> (t: &Token)
        requires
            1 <= self.curr_token <= self.tokens@.len(),
        ensures
            *t == self.tokens@[self.curr_token - 1],
    {
        &self.tokens[self.curr_token - 1]
    }

    pub fn len(&self) -> (n: usize)
        ensures
            n == self.tokens@.len(),
    {
        self.tokens.len()
    }

    /// The (one-based) number of the first line whose token span holds the current token.
    pub fn line(&self) -> (l: usize)
        requires
            self.wf(),
            self.curr_token < self.tokens@.len(),
        ensures
            1 <= l <= self.token_lines@.len(),
            span_contains(self.token_lines@[l - 1], self.curr_token as int),
            forall|k: int| 0 <= k < l - 1 ==> !span_contains(
                #[trigger] self.token_lines@[k],
                self.curr_token as int,
            ),
            l == spec_line(self.token_lines@, self.curr_token as int),
    {
        let t = self.curr_token;
        let last = self.token_lines.len() - 1;
        let mut j: usize = 0;
        while j < last && self.token_lines[j].end < t
            invariant
                self.wf(),
                t == self.curr_token,
                t < self.tokens@.len(),
                last == self.token_lines@.len() - 1,
                j <= last,
                self.token_lines@[j as int].start <= t,
                forall|k: int| 0 <= k < j ==> !span_contains(
                    #[trigger] self.token_lines@[k],
                    t as int,
                ),
                first_span(self.token_lines@, t as int, 0) == first_span(self.token_lines@, t as int, j as int),
            decreases last - j,
        {
            assert(self.token_lines@[j as int].end == self.token_lines@[j + 1].start);
            j = j + 1;
        }
        assert(span_contains(self.token_lines@[j as int], t as int));
        j + 1
    }

    /// A syntax error of the given kind at the current line.
    pub fn new_err(&self, err: ErrType) -> (e: RhErr)
        requires
            self.wf(),
            self.curr_token < self.tokens@.len(),
        ensures
            e.err == err,
            1 <= e.line <= self.token_lines@.len(),
            span_contains(self.token_lines@[e.line - 1], self.curr_token as int),
    {
        RhErr { err, line: self.line() }
    }
}

} // verus!
