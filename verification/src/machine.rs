//! The request state machine: one parse attempt scans forward from the
//! current line, classifying each trimmed line against the phase it is in
//! (url line, headers, body) until it completes a descriptor, fails, or runs
//! out of input.

use vstd::prelude::*;
use vstd::string::*;

use crate::error::Error;
use crate::header::{spec_header, Header};
use crate::lines::{spec_trim, trim_line, LineSource};
use crate::request::{
    init_request, is_complete, lemma_headers_view_push, spec_request_line, HttpRequest,
    RequestView,
};

verus! {

/// The phase of the attempt currently scanning.
#[derive(Debug, Clone, Copy, PartialEq, Eq)]
pub enum State {
    Url,
    Headers,
    Body,
}

/// A blank line (once trimmed).
pub open spec fn is_blank(t: Seq<char>) -> bool {
    t.len() == 0
}

/// A separator line: one that begins with the pattern `###`.  A line of
/// three or more `#` characters marks the boundary between request blocks.
pub open spec fn is_separator(t: Seq<char>) -> bool {
    t.len() >= 3 && t[0] == '#' && t[1] == '#' && t[2] == '#'
}

/// A comment line: starts with `#` but is not a separator.
pub open spec fn is_comment(t: Seq<char>) -> bool {
    t.len() >= 1 && t[0] == '#' && !is_separator(t)
}

/// Decides [`is_separator`] on a trimmed line.
pub fn line_is_separator(t: &str) -> (r: bool)
    ensures
        r == is_separator(t@),
{
    let n = t.unicode_len();
    n >= 3 && t.get_char(0) == '#' && t.get_char(1) == '#' && t.get_char(2) == '#'
}

/// How one parse attempt ends.
pub enum AttemptResult {
    /// A completed descriptor is handed to the caller.
    Complete(RequestView),
    /// The attempt failed on the line just consumed.
    Failed(Error),
    /// Input ran out before anything emittable was assembled.
    EndOfInput,
}

/// One parse attempt, started at line `i` in phase `st` with accumulator
/// `acc`: the result together with the index of the first line the attempt
/// did not consume.
pub open spec fn attempt_from(
    lines: Seq<Seq<char>>,
    i: int,
    st: State,
    acc: RequestView,
) -> (AttemptResult, int)
    decreases lines.len() - i,
{
    if i < 0 || i >= lines.len() {
        (
            if is_complete(acc) {
                AttemptResult::Complete(acc)
            } else {
                AttemptResult::EndOfInput
            },
            i,
        )
    } else {
        let t = spec_trim(lines[i]);
        match st {
            State::Url => {
                if is_blank(t) || is_separator(t) {
                    attempt_from(lines, i + 1, State::Url, acc)
                } else if is_comment(t) {
                    attempt_from(
                        lines,
                        i + 1,
                        State::Url,
                        RequestView { comment: acc.comment + t, ..acc },
                    )
                } else {
                    match spec_request_line(t) {
                        Err(e) => (AttemptResult::Failed(e), i + 1),
                        Ok((m, u, v)) => attempt_from(
                            lines,
                            i + 1,
                            State::Headers,
                            RequestView {
                                method: m,
                                url: u,
                                version: match v {
                                    Some(vv) => vv,
                                    None => acc.version,
                                },
                                ..acc
                            },
                        ),
                    }
                }
            },
            State::Headers => {
                if is_blank(t) {
                    attempt_from(lines, i + 1, State::Body, acc)
                } else {
                    match spec_header(t) {
                        Err(e) => (AttemptResult::Failed(e), i + 1),
                        Ok(h) => attempt_from(
                            lines,
                            i + 1,
                            State::Headers,
                            RequestView { headers: acc.headers.push(h), ..acc },
                        ),
                    }
                }
            },
            State::Body => {
                if is_blank(t) {
                    attempt_from(lines, i + 1, State::Body, acc)
                } else if is_separator(t) {
                    (AttemptResult::Complete(acc), i + 1)
                } else {
                    attempt_from(lines, i + 1, State::Body, RequestView { body: acc.body + t, ..acc })
                }
            },
        }
    }
}

/// An attempt consumes lines forward only: it never leaves the cursor behind
/// where it started, runs past the end, or ends without consuming anything
/// unless the input was already exhausted.
pub proof fn lemma_attempt_advances(lines: Seq<Seq<char>>, i: int, st: State, acc: RequestView)
    requires
        0 <= i <= lines.len(),
    ensures
        ({
            let (res, j) = attempt_from(lines, i, st, acc);
            &&& i <= j <= lines.len()
            &&& (i < lines.len() ==> j > i)
            &&& (res is EndOfInput ==> j == lines.len())
        }),
    decreases lines.len() - i,
{
    if i >= lines.len() {
    } else {
        let t = spec_trim(lines[i]);
        match st {
            State::Url => {
                if is_blank(t) || is_separator(t) {
                    lemma_attempt_advances(lines, i + 1, st, acc);
                } else if is_comment(t) {
                    lemma_attempt_advances(
                        lines,
                        i + 1,
                        st,
                        RequestView { comment: acc.comment + t, ..acc },
                    );
                } else {
                    match spec_request_line(t) {
                        Err(_) => {},
                        Ok((m, u, v)) => {
                            lemma_attempt_advances(
                                lines,
                                i + 1,
                                State::Headers,
                                RequestView {
                                    method: m,
                                    url: u,
                                    version: match v {
                                        Some(vv) => vv,
                                        None => acc.version,
                                    },
                                    ..acc
                                },
                            );
                        },
                    }
                }
            },
            State::Headers => {
                if is_blank(t) {
                    lemma_attempt_advances(lines, i + 1, State::Body, acc);
                } else {
                    match spec_header(t) {
                        Err(_) => {},
                        Ok(h) => {
                            lemma_attempt_advances(
                                lines,
                                i + 1,
                                State::Headers,
                                RequestView { headers: acc.headers.push(h), ..acc },
                            );
                        },
                    }
                }
            },
            State::Body => {
                if is_blank(t) {
                    lemma_attempt_advances(lines, i + 1, State::Body, acc);
                } else if is_separator(t) {
                } else {
                    lemma_attempt_advances(
                        lines,
                        i + 1,
                        State::Body,
                        RequestView { body: acc.body + t, ..acc },
                    );
                }
            },
        }
    }
}

/// A failed attempt always names a concrete fault on the line it consumed;
/// the internal end-of-input signal never appears as a failure.
pub proof fn lemma_attempt_failure_kind(lines: Seq<Seq<char>>, i: int, st: State, acc: RequestView)
    ensures
        ({
            let (res, j) = attempt_from(lines, i, st, acc);
            res matches AttemptResult::Failed(e) ==> e != Error::EOF
        }),
    decreases lines.len() - i,
{
    if i < 0 || i >= lines.len() {
    } else {
        let t = spec_trim(lines[i]);
        match st {
            State::Url => {
                if is_blank(t) || is_separator(t) {
                    lemma_attempt_failure_kind(lines, i + 1, st, acc);
                } else if is_comment(t) {
                    lemma_attempt_failure_kind(
                        lines,
                        i + 1,
                        st,
                        RequestView { comment: acc.comment + t, ..acc },
                    );
                } else {
                    match spec_request_line(t) {
                        Err(e) => {
                            assert(e == Error::NoMethod || e == Error::NoUrl);
                        },
                        Ok((m, u, v)) => {
                            lemma_attempt_failure_kind(
                                lines,
                                i + 1,
                                State::Headers,
                                RequestView {
                                    method: m,
                                    url: u,
                                    version: match v {
                                        Some(vv) => vv,
                                        None => acc.version,
                                    },
                                    ..acc
                                },
                            );
                        },
                    }
                }
            },
            State::Headers => {
                if is_blank(t) {
                    lemma_attempt_failure_kind(lines, i + 1, State::Body, acc);
                } else {
                    match spec_header(t) {
                        Err(e) => {
                            assert(e == Error::InvalidHeaderName || e == Error::InvalidHeaderValue);
                        },
                        Ok(h) => {
                            lemma_attempt_failure_kind(
                                lines,
                                i + 1,
                                State::Headers,
                                RequestView { headers: acc.headers.push(h), ..acc },
                            );
                        },
                    }
                }
            },
            State::Body => {
                if is_blank(t) {
                    lemma_attempt_failure_kind(lines, i + 1, State::Body, acc);
                } else if is_separator(t) {
                } else {
                    lemma_attempt_failure_kind(
                        lines,
                        i + 1,
                        State::Body,
                        RequestView { body: acc.body + t, ..acc },
                    );
                }
            },
        }
    }
}

/// Drives one attempt at a time against a shared [`LineSource`] whose read
/// cursor persists across attempts and is never rewound.
pub struct Parser {
    src: LineSource,
}

impl Parser {
    /// The lines of the input this parser was created over.
    pub closed spec fn all_lines(&self) -> Seq<Seq<char>> {
        self.src.all_lines()
    }

    /// The index of the next line to be consumed.
    pub closed spec fn cursor(&self) -> int {
        self.src.cursor()
    }

    pub open spec fn wf(&self) -> bool {
        0 <= self.cursor() <= self.all_lines().len()
    }

    /// Wraps a line source into a parser positioned at its cursor.
    pub fn new(src: LineSource) -> (r: Parser)
        requires
            src.wf(),
        ensures
            r.wf(),
            r.all_lines() == src.all_lines(),
            r.cursor() == src.cursor(),
    {
        Parser { src }
    }

    /// Runs one parse attempt from the current cursor, in the initial phase
    /// and with a fresh accumulator.  `Err(Error::EOF)` reports that no
    /// request was found before the input ran out.
    pub fn parse(&mut self) -> (r: Result<HttpRequest, Error>)
        requires
            old(self).wf(),
        ensures
            final(self).wf(),
            final(self).all_lines() == old(self).all_lines(),
            ({
                let (res, j) = attempt_from(
                    old(self).all_lines(),
                    old(self).cursor(),
                    State::Url,
                    init_request(),
                );
                &&& final(self).cursor() == j
                &&& match res {
                    AttemptResult::Complete(m) => r matches Ok(req) && req@ == m,
                    AttemptResult::Failed(e) => r == Err::<HttpRequest, Error>(e),
                    AttemptResult::EndOfInput => r == Err::<HttpRequest, Error>(Error::EOF),
                }
            }),
    {
        let ghost all = self.src.all_lines();
        let ghost i0 = self.src.cursor();
        let mut hc = HttpRequest::new();
        let mut state = State::Url;
        if !self.src.has_data() {
            return Err(Error::EOF);
        }
        loop
            invariant
                self.src.wf(),
                all == old(self).all_lines(),
                i0 == old(self).cursor(),
                self.src.all_lines() == all,
                i0 <= self.src.cursor() <= all.len(),
                attempt_from(all, i0, State::Url, init_request()) == attempt_from(
                    all,
                    self.src.cursor(),
                    state,
                    hc@,
                ),
            decreases all.len() - self.src.cursor(),
        {
            let ghost c = self.src.cursor();
            let ghost hc0 = hc@;
            let line_opt = self.src.next_line();
            match line_opt {
                None => {
                    proof {
                        assert(c == all.len());
                        assert(attempt_from(all, c, state, hc@) == (
                            if is_complete(hc@) {
                                AttemptResult::Complete(hc@)
                            } else {
                                AttemptResult::EndOfInput
                            },
                            c,
                        ));
                    }
                    if hc.is_empty() {
                        return Err(Error::EOF);
                    } else {
                        return Ok(hc);
                    }
                },
                Some(line) => {
                    let t = trim_line(line.as_str());
                    proof {
                        assert(t@ == spec_trim(all[c]));
                    }
                    match state {
                        State::Url => {
                            if t.unicode_len() == 0 {
                                // a blank line before the request line is skipped
                            } else if line_is_separator(t) {
                                // a leading separator is absorbed
                            } else if t.get_char(0) == '#' {
                                hc.comment.append(t);
                                proof {
                                    assert(hc@ =~= (RequestView {
                                        comment: hc0.comment + t@,
                                        ..hc0
                                    }));
                                }
                            } else {
                                let res = hc.parse_method_url_version(t);
                                match res {
                                    Err(e) => {
                                        return Err(e);
                                    },
                                    Ok(_) => {
                                        state = State::Headers;
                                    },
                                }
                            }
                        },
                        State::Headers => {
                            if t.unicode_len() == 0 {
                                state = State::Body;
                            } else {
                                let parsed = Header::parse(String::from_str(t));
                                match parsed {
                                    Ok(h) => {
                                        proof {
                                            lemma_headers_view_push(hc.headers@, h);
                                        }
                                        hc.headers.push(h);
                                        proof {
                                            assert(hc@ =~= (RequestView {
                                                headers: hc0.headers.push(h@),
                                                ..hc0
                                            }));
                                        }
                                    },
                                    Err(e) => {
                                        return Err(e);
                                    },
                                }
                            }
                        },
                        State::Body => {
                            if t.unicode_len() == 0 {
                                // a blank line inside the body is ignored
                            } else if line_is_separator(t) {
                                return Ok(hc);
                            } else {
                                hc.body.append(t);
                                proof {
                                    assert(hc@ =~= (RequestView { body: hc0.body + t@, ..hc0 }));
                                }
                            }
                        },
                    }
                },
            }
        }
    }

    /// One step of the sequence: `None` once the input holds no further
    /// request, otherwise the next attempt's outcome, failed or not.
    pub fn next(&mut self) -> (r: Option<Result<HttpRequest, Error>>)
        requires
            old(self).wf(),
        ensures
            final(self).wf(),
            final(self).all_lines() == old(self).all_lines(),
            ({
                let (res, j) = attempt_from(
                    old(self).all_lines(),
                    old(self).cursor(),
                    State::Url,
                    init_request(),
                );
                &&& final(self).cursor() == j
                &&& match res {
                    AttemptResult::Complete(m) => r matches Some(item) && item matches Ok(req)
                        && req@ == m,
                    AttemptResult::Failed(e) => r == Some(Err::<HttpRequest, Error>(e)),
                    AttemptResult::EndOfInput => r is None,
                }
            }),
    {
        proof {
            lemma_attempt_failure_kind(
                old(self).all_lines(),
                old(self).cursor(),
                State::Url,
                init_request(),
            );
        }
        let res = self.parse();
        match res {
            Err(Error::EOF) => None,
            other => Some(other),
        }
    }
}

} // verus!
