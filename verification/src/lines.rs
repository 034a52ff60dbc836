//! The line source: splits the raw input text into lines (each with its
//! trailing newline stripped) and hands them out one at a time, with a probe
//! that tells whether any line is left.

use vstd::prelude::*;
use vstd::string::*;

use crate::chars::{is_space, is_space_char};

verus! {

/// Index of the first `'\n'` in `s`, or `s.len()` if there is none.
pub open spec fn first_newline(s: Seq<char>) -> int
    decreases s.len(),
{
    if s.len() == 0 {
        0
    } else if s[0] == '\n' {
        0
    } else {
        1 + first_newline(s.drop_first())
    }
}

pub proof fn lemma_first_newline_bounds(s: Seq<char>)
    ensures
        0 <= first_newline(s) <= s.len(),
        forall|j: int| 0 <= j < first_newline(s) ==> s[j] != '\n',
        first_newline(s) < s.len() ==> s[first_newline(s)] == '\n',
    decreases s.len(),
{
    if s.len() == 0 {
    } else if s[0] == '\n' {
    } else {
        lemma_first_newline_bounds(s.drop_first());
        assert forall|j: int| 0 <= j < first_newline(s) implies s[j] != '\n' by {
            if j >= 1 {
                assert(s.drop_first()[j - 1] != '\n');
            }
        }
    }
}

pub proof fn lemma_first_newline_is(s: Seq<char>, k: int)
    requires
        0 <= k <= s.len(),
        forall|j: int| 0 <= j < k ==> s[j] != '\n',
        k < s.len() ==> s[k] == '\n',
    ensures
        first_newline(s) == k,
    decreases s.len(),
{
    if s.len() == 0 {
    } else if s[0] == '\n' {
        assert(k == 0);
    } else {
        assert(k >= 1);
        lemma_first_newline_is(s.drop_first(), k - 1);
    }
}

/// The lines of `s`: maximal newline-free runs, the terminating newline of
/// each stripped.  A final run without a newline is a line of its own; empty
/// input has no lines.
pub open spec fn spec_lines(s: Seq<char>) -> Seq<Seq<char>>
    decreases s.len(),
{
    if s.len() == 0 {
        Seq::empty()
    } else {
        let i = first_newline(s);
        proof {
            lemma_first_newline_bounds(s);
        }
        if i >= s.len() {
            seq![s]
        } else {
            seq![s.subrange(0, i)] + spec_lines(s.subrange(i + 1, s.len() as int))
        }
    }
}

/// The mathematical contents of a vector of owned lines.
pub open spec fn lines_view(v: Seq<String>) -> Seq<Seq<char>> {
    v.map_values(|l: String| l@)
}

/// Splits `s` at newlines, dropping each `'\n'` itself.
pub fn split_lines(s: &str) -> (r: Vec<String>)
    ensures
        lines_view(r@) == spec_lines(s@),
{
    let n = s.unicode_len();
    let mut out: Vec<String> = Vec::new();
    let mut start: usize = 0;
    proof {
        assert(s@.subrange(0, n as int) =~= s@);
        assert(lines_view(out@) =~= Seq::<Seq<char>>::empty());
        assert(lines_view(out@) + spec_lines(s@) =~= spec_lines(s@));
    }
    while start < n
        invariant
            start <= n,
            n == s@.len(),
            spec_lines(s@) == lines_view(out@) + spec_lines(s@.subrange(start as int, n as int)),
        decreases n - start,
    {
        let ghost rest = s@.subrange(start as int, n as int);
        let mut j = start;
        while j < n && s.get_char(j) != '\n'
            invariant
                start <= j <= n,
                n == s@.len(),
                forall|t: int| start <= t < j ==> s@[t] != '\n',
            decreases n - j,
        {
            j += 1;
        }
        proof {
            assert forall|t: int| 0 <= t < j - start implies rest[t] != '\n' by {
                assert(rest[t] == s@[start + t]);
            }
            lemma_first_newline_is(rest, j - start);
        }
        let line = s.substring_char(start, j);
        out.push(String::from_str(line));
        proof {
            let out_old = out@.drop_last();
            assert(lines_view(out@) =~= lines_view(out_old).push(line@));
            assert(rest.subrange(0, (j - start) as int) =~= s@.subrange(start as int, j as int));
            if j < n {
                assert(rest.subrange(j - start + 1, rest.len() as int) =~= s@.subrange(
                    j + 1,
                    n as int,
                ));
                assert(spec_lines(rest) == seq![line@] + spec_lines(
                    s@.subrange(j + 1, n as int),
                ));
                assert(lines_view(out_old) + spec_lines(rest) =~= lines_view(out@) + spec_lines(
                    s@.subrange(j + 1, n as int),
                ));
            } else {
                assert(rest =~= s@.subrange(start as int, j as int));
                assert(spec_lines(rest) == seq![line@]);
                assert(s@.subrange(n as int, n as int) =~= Seq::<char>::empty());
                assert(spec_lines(s@.subrange(n as int, n as int)) == Seq::<Seq<char>>::empty());
                assert(lines_view(out_old) + spec_lines(rest) =~= lines_view(out@) + spec_lines(
                    s@.subrange(n as int, n as int),
                ));
            }
        }
        if j < n {
            start = j + 1;
        } else {
            start = n;
        }
    }
    proof {
        assert(s@.subrange(n as int, n as int) =~= Seq::<char>::empty());
        assert(lines_view(out@) + spec_lines(s@.subrange(n as int, n as int)) =~= lines_view(
            out@,
        ));
    }
    out
}

/// What remains of `s` once leading whitespace is removed.
pub open spec fn spec_trim_front(s: Seq<char>) -> Seq<char>
    decreases s.len(),
{
    if s.len() > 0 && is_space_char(s[0]) {
        spec_trim_front(s.drop_first())
    } else {
        s
    }
}

/// What remains of `s` once trailing whitespace is removed.
pub open spec fn spec_trim_back(s: Seq<char>) -> Seq<char>
    decreases s.len(),
{
    if s.len() > 0 && is_space_char(s[s.len() - 1]) {
        spec_trim_back(s.drop_last())
    } else {
        s
    }
}

/// `s` without leading and trailing whitespace: the form in which every line
/// is classified.
pub open spec fn spec_trim(s: Seq<char>) -> Seq<char> {
    spec_trim_back(spec_trim_front(s))
}

pub proof fn lemma_trim_front_is(s: Seq<char>, i: int)
    requires
        0 <= i <= s.len(),
        forall|j: int| 0 <= j < i ==> is_space_char(s[j]),
        i < s.len() ==> !is_space_char(s[i]),
    ensures
        spec_trim_front(s) == s.subrange(i, s.len() as int),
    decreases s.len(),
{
    if s.len() > 0 && is_space_char(s[0]) {
        assert(i >= 1);
        lemma_trim_front_is(s.drop_first(), i - 1);
        assert(s.drop_first().subrange(i - 1, s.drop_first().len() as int) =~= s.subrange(
            i,
            s.len() as int,
        ));
    } else {
        assert(i == 0);
        assert(s.subrange(0, s.len() as int) =~= s);
    }
}

pub proof fn lemma_trim_back_is(s: Seq<char>, j: int)
    requires
        0 <= j <= s.len(),
        forall|k: int| j <= k < s.len() ==> is_space_char(s[k]),
        j > 0 ==> !is_space_char(s[j - 1]),
    ensures
        spec_trim_back(s) == s.subrange(0, j),
    decreases s.len(),
{
    if s.len() > 0 && is_space_char(s[s.len() - 1]) {
        assert(j < s.len());
        lemma_trim_back_is(s.drop_last(), j);
        assert(s.drop_last().subrange(0, j) =~= s.subrange(0, j));
    } else {
        assert(j == s.len());
        assert(s.subrange(0, s.len() as int) =~= s);
    }
}

/// Removes leading and trailing whitespace from `s`.
pub fn trim_line<'a>(s: &'a str) -> (r: &'a str)
    ensures
        r@ == spec_trim(s@),
{
    let n = s.unicode_len();
    let mut i: usize = 0;
    while i < n && is_space(s.get_char(i))
        invariant
            0 <= i <= n,
            n == s@.len(),
            forall|j: int| 0 <= j < i ==> is_space_char(s@[j]),
        decreases n - i,
    {
        i += 1;
    }
    let mut j = n;
    while j > i && is_space(s.get_char(j - 1))
        invariant
            i <= j <= n,
            n == s@.len(),
            forall|k: int| j <= k < n ==> is_space_char(s@[k]),
        decreases j,
    {
        j -= 1;
    }
    let r = s.substring_char(i, j);
    proof {
        lemma_trim_front_is(s@, i as int);
        let sub = s@.subrange(i as int, n as int);
        assert forall|k: int| j - i <= k < sub.len() implies is_space_char(sub[k]) by {
            assert(sub[k] == s@[i + k]);
        }
        if j > i {
            assert(sub[j - i - 1] == s@[j - 1]);
        }
        lemma_trim_back_is(sub, j - i);
        assert(sub.subrange(0, j - i) =~= s@.subrange(i as int, j as int));
    }
    r
}

/// Wraps the split input and hands out one raw line per call, in order.
pub struct LineSource {
    lines: Vec<String>,
    idx: usize,
}

impl LineSource {
    /// The lines this source was created over.
    pub closed spec fn all_lines(&self) -> Seq<Seq<char>> {
        lines_view(self.lines@)
    }

    /// How many lines have been handed out already.
    pub closed spec fn cursor(&self) -> int {
        self.idx as int
    }

    pub open spec fn wf(&self) -> bool {
        0 <= self.cursor() <= self.all_lines().len()
    }

    /// Builds a source positioned at the first line of `input`.
    pub fn new(input: &str) -> (r: LineSource)
        ensures
            r.wf(),
            r.all_lines() == spec_lines(input@),
            r.cursor() == 0,
    {
        LineSource { lines: split_lines(input), idx: 0 }
    }

    /// True iff at least one more line can be read without consuming it.
    pub fn has_data(&self) -> (r: bool)
        requires
            self.wf(),
        ensures
            r == (self.cursor() < self.all_lines().len()),
    {
        self.idx < self.lines.len()
    }

    /// The next raw line, or `None` once the input is exhausted.  The read
    /// cursor advances and is never rewound.
    pub fn next_line(&mut self) -> (r: Option<String>)
        requires
            old(self).wf(),
        ensures
            final(self).wf(),
            final(self).all_lines() == old(self).all_lines(),
            match r {
                Some(l) => {
                    &&& old(self).cursor() < old(self).all_lines().len()
                    &&& l@ == old(self).all_lines()[old(self).cursor()]
                    &&& final(self).cursor() == old(self).cursor() + 1
                },
                None => {
                    &&& old(self).cursor() == old(self).all_lines().len()
                    &&& final(self).cursor() == old(self).cursor()
                },
            },
    {
        if self.idx < self.lines.len() {
            let l = self.lines[self.idx].clone();
            self.idx = self.idx + 1;
            Some(l)
        } else {
            None
        }
    }
}

} // verus!
