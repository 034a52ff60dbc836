//! The sequence driver: one attempt after another against the shared line
//! cursor, the end-of-input signal turned into "no more items", and the
//! one-shot convenience that drains the whole input into an ordered list,
//! stopping at the first failure.

use vstd::prelude::*;

use crate::error::Error;
use crate::lines::{spec_lines, LineSource};
use crate::machine::{attempt_from, lemma_attempt_advances, AttemptResult, Parser, State};
use crate::request::{init_request, is_complete, HttpRequest, RequestView};

verus! {

/// The requests the driver yields from line `i` on: attempts are run one
/// after another, each starting where the previous one left the cursor; the
/// first failure is propagated and ends the sequence.
pub open spec fn spec_parse_seq(lines: Seq<Seq<char>>, i: int) -> Result<Seq<RequestView>, Error>
    decreases lines.len() - i,
{
    if i < 0 || i > lines.len() {
        Ok(Seq::empty())
    } else {
        let (res, j) = attempt_from(lines, i, State::Url, init_request());
        match res {
            AttemptResult::EndOfInput => Ok(Seq::empty()),
            AttemptResult::Failed(e) => Err(e),
            AttemptResult::Complete(m) => {
                proof {
                    lemma_attempt_advances(lines, i, State::Url, init_request());
                }
                match spec_parse_seq(lines, j) {
                    Ok(rest) => Ok(seq![m] + rest),
                    Err(e) => Err(e),
                }
            },
        }
    }
}

/// What parsing the whole input yields: the ordered list of descriptors, or
/// the first failure.
pub open spec fn spec_parse(input: Seq<char>) -> Result<Seq<RequestView>, Error> {
    spec_parse_seq(spec_lines(input), 0)
}

/// The contents of a vector of descriptors.
pub open spec fn requests_view(v: Seq<HttpRequest>) -> Seq<RequestView> {
    v.map_values(|q: HttpRequest| q@)
}

/// Parses the entire input into an ordered list of request descriptors,
/// short-circuiting on the first failure.
pub fn parse(input: &str) -> (r: Result<Vec<HttpRequest>, Error>)
    ensures
        match r {
            Ok(v) => spec_parse(input@) == Ok::<Seq<RequestView>, Error>(requests_view(v@)),
            Err(e) => spec_parse(input@) == Err::<Seq<RequestView>, Error>(e),
        },
{
    let src = LineSource::new(input);
    let mut p = Parser::new(src);
    let ghost all = p.all_lines();
    let mut out: Vec<HttpRequest> = Vec::new();
    proof {
        assert(requests_view(out@) =~= Seq::<RequestView>::empty());
    }
    loop
        invariant
            p.wf(),
            p.all_lines() == all,
            all == spec_lines(input@),
            0 <= p.cursor() <= all.len(),
            spec_parse_seq(all, 0) == (match spec_parse_seq(all, p.cursor()) {
                Ok(rest) => Ok::<Seq<RequestView>, Error>(requests_view(out@) + rest),
                Err(e) => Err::<Seq<RequestView>, Error>(e),
            }),
        decreases all.len() - p.cursor(),
    {
        let ghost c = p.cursor();
        let ghost (res, j) = attempt_from(all, c, State::Url, init_request());
        proof {
            lemma_attempt_advances(all, c, State::Url, init_request());
        }
        let step = p.next();
        match step {
            None => {
                proof {
                    assert(spec_parse_seq(all, c) == Ok::<Seq<RequestView>, Error>(Seq::empty()));
                    assert(requests_view(out@) + Seq::<RequestView>::empty() =~= requests_view(
                        out@,
                    ));
                }
                return Ok(out);
            },
            Some(item) => {
                match item {
                    Ok(req) => {
                        let ghost out0 = out@;
                        out.push(req);
                        proof {
                            assert(requests_view(out@) =~= requests_view(out0).push(req@));
                            match spec_parse_seq(all, j) {
                                Ok(rest) => {
                                    assert(requests_view(out0) + (seq![req@] + rest)
                                        =~= requests_view(out@) + rest);
                                },
                                Err(_) => {},
                            }
                        }
                    },
                    Err(e) => {
                        proof {
                            assert(spec_parse_seq(all, c) == Err::<Seq<RequestView>, Error>(e));
                        }
                        return Err(e);
                    },
                }
            },
        }
    }
}

} // verus!
