//! The laws the parser obeys, stated and proved over the same spec functions
//! its contracts use.

use vstd::prelude::*;

use crate::chars::is_space_char;
use crate::error::Error;
use crate::header::{sep_at, spec_header, HeaderView};
use crate::lines::spec_trim;
use crate::machine::{
    attempt_from, is_blank, is_comment, is_separator, AttemptResult, State,
};
use crate::request::{
    first_nonspace, first_space, init_request, is_complete, lemma_request_line_tokens_nonempty,
    spec_request_line, RequestView,
};
use crate::driver::{spec_parse, spec_parse_seq};

verus! {

/// Parsing is a function of the input text alone: two reads of the same
/// bytes, through two independent line sources, yield structurally identical
/// descriptor sequences.
pub proof fn lemma_parse_deterministic(a: Seq<char>, b: Seq<char>)
    requires
        a == b,
    ensures
        spec_parse(a) == spec_parse(b),
{
}

/// Empty input parses to zero descriptors and no error.
pub proof fn lemma_parse_empty_input()
    ensures
        spec_parse(Seq::<char>::empty()) == Ok::<Seq<RequestView>, Error>(Seq::empty()),
{
    assert(spec_parse_seq(Seq::<Seq<char>>::empty(), 0) == Ok::<Seq<RequestView>, Error>(
        Seq::empty(),
    ));
}

/// A request line of whitespace alone has no method token and fails with
/// `NoMethod`.
pub proof fn lemma_request_line_no_method(l: Seq<char>)
    requires
        forall|j: int| 0 <= j < l.len() ==> is_space_char(l[j]),
    ensures
        spec_request_line(l) == Err::<(Seq<char>, Seq<char>, Option<Seq<char>>), Error>(
            Error::NoMethod,
        ),
{
    crate::request::lemma_first_nonspace_props(l);
    if first_nonspace(l) < l.len() {
        assert(!is_space_char(l[first_nonspace(l)]));
    }
}

/// A request line with a method token but nothing after it fails with
/// `NoUrl`.
pub proof fn lemma_request_line_no_url(l: Seq<char>)
    requires
        first_nonspace(l) < l.len(),
        forall|j: int|
            first_nonspace(l) + first_space(l.subrange(first_nonspace(l), l.len() as int)) <= j
                < l.len() ==> is_space_char(l[j]),
    ensures
        spec_request_line(l) == Err::<(Seq<char>, Seq<char>, Option<Seq<char>>), Error>(
            Error::NoUrl,
        ),
{
    let n = l.len() as int;
    crate::request::lemma_first_nonspace_props(l);
    let a1 = first_nonspace(l);
    let s1 = l.subrange(a1, n);
    crate::request::lemma_first_space_props(s1);
    let b1 = a1 + first_space(s1);
    let s2 = l.subrange(b1, n);
    crate::request::lemma_first_nonspace_props(s2);
    let a2 = b1 + first_nonspace(s2);
    if a2 < n {
        assert(s2[a2 - b1] == l[a2]);
        assert(!is_space_char(l[a2]));
        assert(is_space_char(l[a2]));
    }
}

/// A blank line in the url phase is skipped outright: it neither fails nor
/// changes the accumulator.
pub proof fn lemma_blank_line_skipped(lines: Seq<Seq<char>>, i: int, acc: RequestView)
    requires
        0 <= i < lines.len(),
        is_blank(spec_trim(lines[i])),
    ensures
        attempt_from(lines, i, State::Url, acc) == attempt_from(lines, i + 1, State::Url, acc),
{
}

/// A header line without the separator `": "` anywhere fails with
/// `InvalidHeaderName`.
pub proof fn lemma_header_no_separator(l: Seq<char>)
    requires
        forall|j: int| !sep_at(l, j),
    ensures
        spec_header(l) == Err::<HeaderView, Error>(Error::InvalidHeaderName),
{
    crate::header::lemma_find_sep_is_none(l);
}

/// A header line whose first separator `": "` sits at its very end carries a
/// name but no value, and fails with `InvalidHeaderValue`.
pub proof fn lemma_header_empty_value(l: Seq<char>)
    requires
        sep_at(l, l.len() - 2),
        forall|j: int| 0 <= j < l.len() - 2 ==> !sep_at(l, j),
    ensures
        spec_header(l) == Err::<HeaderView, Error>(Error::InvalidHeaderValue),
{
    crate::header::lemma_find_sep_is_some(l, l.len() - 2);
    assert(l.subrange(l.len() - 2 + 2, l.len() as int) =~= Seq::<char>::empty());
}

/// The header `spec_header` yields on a line it accepts.
pub open spec fn header_ok(l: Seq<char>) -> HeaderView {
    match spec_header(l) {
        Ok(h) => h,
        Err(_) => arbitrary(),
    }
}

/// The headers parsed off the trimmed lines `i .. k`, in order of discovery.
pub open spec fn headers_run(lines: Seq<Seq<char>>, i: int, k: int) -> Seq<HeaderView> {
    Seq::new((k - i) as nat, |t: int| header_ok(spec_trim(lines[i + t])))
}

/// The body text the lines `i .. k` contribute: their trimmed forms
/// concatenated with no inserted delimiter.
pub open spec fn body_run(lines: Seq<Seq<char>>, i: int, k: int) -> Seq<char>
    decreases k - i,
{
    if i >= k {
        Seq::empty()
    } else {
        spec_trim(lines[i]) + body_run(lines, i + 1, k)
    }
}

/// A run of valid, non-blank header lines is consumed in one stretch of the
/// headers phase: each parsed pair is appended to the accumulator in order of
/// discovery, duplicates and all.
pub proof fn lemma_headers_phase(lines: Seq<Seq<char>>, i: int, k: int, acc: RequestView)
    requires
        0 <= i <= k <= lines.len(),
        forall|t: int|
            i <= t < k ==> !is_blank(#[trigger] spec_trim(lines[t])) && spec_header(
                spec_trim(lines[t]),
            ) is Ok,
    ensures
        attempt_from(lines, i, State::Headers, acc) == attempt_from(
            lines,
            k,
            State::Headers,
            RequestView { headers: acc.headers + headers_run(lines, i, k), ..acc },
        ),
    decreases k - i,
{
    if i == k {
        assert(acc.headers + headers_run(lines, i, k) =~= acc.headers);
        assert((RequestView { headers: acc.headers + headers_run(lines, i, k), ..acc }) =~= acc);
    } else {
        let t = spec_trim(lines[i]);
        let h = header_ok(t);
        let acc1 = RequestView { headers: acc.headers.push(h), ..acc };
        lemma_headers_phase(lines, i + 1, k, acc1);
        assert(acc1.headers + headers_run(lines, i + 1, k) =~= acc.headers + headers_run(
            lines,
            i,
            k,
        ));
        assert((RequestView { headers: acc1.headers + headers_run(lines, i + 1, k), ..acc1 })
            =~= (RequestView { headers: acc.headers + headers_run(lines, i, k), ..acc }));
    }
}

/// A run of non-blank, non-separator body lines is consumed in one stretch of
/// the body phase: their trimmed texts are appended to the body with no
/// inserted characters.
pub proof fn lemma_body_phase(lines: Seq<Seq<char>>, i: int, k: int, acc: RequestView)
    requires
        0 <= i <= k <= lines.len(),
        forall|t: int|
            i <= t < k ==> !is_blank(#[trigger] spec_trim(lines[t])) && !is_separator(
                spec_trim(lines[t]),
            ),
    ensures
        attempt_from(lines, i, State::Body, acc) == attempt_from(
            lines,
            k,
            State::Body,
            RequestView { body: acc.body + body_run(lines, i, k), ..acc },
        ),
    decreases k - i,
{
    if i == k {
        assert(acc.body + body_run(lines, i, k) =~= acc.body);
        assert((RequestView { body: acc.body + body_run(lines, i, k), ..acc }) =~= acc);
    } else {
        let t = spec_trim(lines[i]);
        let acc1 = RequestView { body: acc.body + t, ..acc };
        lemma_body_phase(lines, i + 1, k, acc1);
        assert(acc1.body + body_run(lines, i + 1, k) =~= acc.body + body_run(lines, i, k));
        assert((RequestView { body: acc1.body + body_run(lines, i + 1, k), ..acc1 })
            =~= (RequestView { body: acc.body + body_run(lines, i, k), ..acc }));
    }
}

/// A tail of blank lines, separators and comment lines holds no request: the
/// attempt absorbs it into the end of the input, and the driver yields zero
/// further descriptors and no error for it.
pub proof fn lemma_comment_tail(lines: Seq<Seq<char>>, i: int, acc: RequestView)
    requires
        0 <= i <= lines.len(),
        !is_complete(acc),
        forall|t: int|
            i <= t < lines.len() ==> is_blank(#[trigger] spec_trim(lines[t])) || is_separator(
                spec_trim(lines[t]),
            ) || is_comment(spec_trim(lines[t])),
    ensures
        attempt_from(lines, i, State::Url, acc).0 is EndOfInput,
    decreases lines.len() - i,
{
    if i >= lines.len() {
    } else {
        let t = spec_trim(lines[i]);
        if is_blank(t) || is_separator(t) {
            lemma_comment_tail(lines, i + 1, acc);
        } else {
            lemma_comment_tail(
                lines,
                i + 1,
                RequestView { comment: acc.comment + t, ..acc },
            );
        }
    }
}

/// A trailing block of comment lines only, with no request line before end of
/// input, yields zero descriptors and no emitted error.
pub proof fn lemma_comment_tail_parses_to_nothing(lines: Seq<Seq<char>>, i: int)
    requires
        0 <= i <= lines.len(),
        forall|t: int|
            i <= t < lines.len() ==> is_blank(#[trigger] spec_trim(lines[t])) || is_separator(
                spec_trim(lines[t]),
            ) || is_comment(spec_trim(lines[t])),
    ensures
        spec_parse_seq(lines, i) == Ok::<Seq<RequestView>, Error>(Seq::empty()),
{
    lemma_comment_tail(lines, i, init_request());
}

/// A trailing block whose request line is complete still yields a completed
/// descriptor at end of file, with no closing separator and no blank line
/// needed: the headers scanned so far are kept and the body stays empty.
pub proof fn lemma_trailing_block(lines: Seq<Seq<char>>, i: int)
    requires
        0 <= i < lines.len(),
        ({
            let t0 = spec_trim(lines[i]);
            &&& !is_blank(t0)
            &&& !is_separator(t0)
            &&& !is_comment(t0)
            &&& spec_request_line(t0) is Ok
        }),
        forall|t: int|
            i + 1 <= t < lines.len() ==> !is_blank(#[trigger] spec_trim(lines[t])) && spec_header(
                spec_trim(lines[t]),
            ) is Ok,
    ensures
        ({
            let t0 = spec_trim(lines[i]);
            match spec_request_line(t0) {
                Ok((m, u, v)) => spec_parse_seq(lines, i) == Ok::<Seq<RequestView>, Error>(
                    seq![
                        RequestView {
                            comment: Seq::empty(),
                            method: m,
                            url: u,
                            version: match v {
                                Some(vv) => vv,
                                None => "HTTP/1.1"@,
                            },
                            headers: headers_run(lines, i + 1, lines.len() as int),
                            body: Seq::empty(),
                        },
                    ],
                ),
                Err(_) => false,
            }
        }),
{
    let n = lines.len() as int;
    let t0 = spec_trim(lines[i]);
    lemma_request_line_tokens_nonempty(t0);
    match spec_request_line(t0) {
        Ok((m, u, v)) => {
            let acc1 = RequestView {
                method: m,
                url: u,
                version: match v {
                    Some(vv) => vv,
                    None => init_request().version,
                },
                ..init_request()
            };
            assert(attempt_from(lines, i, State::Url, init_request()) == attempt_from(
                lines,
                i + 1,
                State::Headers,
                acc1,
            ));
            lemma_headers_phase(lines, i + 1, n, acc1);
            let acc2 = RequestView { headers: acc1.headers + headers_run(lines, i + 1, n), ..acc1 };
            assert(attempt_from(lines, n, State::Headers, acc2) == (
                AttemptResult::Complete(acc2),
                n,
            ));
            assert(spec_parse_seq(lines, n) == Ok::<Seq<RequestView>, Error>(Seq::empty()));
            let expected = RequestView {
                comment: Seq::empty(),
                method: m,
                url: u,
                version: match v {
                    Some(vv) => vv,
                    None => "HTTP/1.1"@,
                },
                headers: headers_run(lines, i + 1, n),
                body: Seq::empty(),
            };
            assert(acc2 =~= expected);
            assert(seq![acc2] + Seq::<RequestView>::empty() =~= seq![expected]);
        },
        Err(_) => {
            assert(false);
        },
    }
}

/// Once an attempt has left the url phase its accumulator already holds a
/// non-empty method and url, and whatever descriptor it completes stays
/// complete.
pub proof fn lemma_attempt_complete(lines: Seq<Seq<char>>, i: int, st: State, acc: RequestView)
    requires
        (st is Headers || st is Body) ==> is_complete(acc),
    ensures
        ({
            let (res, j) = attempt_from(lines, i, st, acc);
            res matches AttemptResult::Complete(m) ==> is_complete(m)
        }),
    decreases lines.len() - i,
{
    if i < 0 || i >= lines.len() {
    } else {
        let t = spec_trim(lines[i]);
        match st {
            State::Url => {
                if is_blank(t) || is_separator(t) {
                    lemma_attempt_complete(lines, i + 1, st, acc);
                } else if is_comment(t) {
                    lemma_attempt_complete(
                        lines,
                        i + 1,
                        st,
                        RequestView { comment: acc.comment + t, ..acc },
                    );
                } else {
                    match spec_request_line(t) {
                        Err(_) => {},
                        Ok((m, u, v)) => {
                            lemma_request_line_tokens_nonempty(t);
                            lemma_attempt_complete(
                                lines,
                                i + 1,
                                State::Headers,
                                RequestView {
                                    method: m,
                                    url: u,
                                    version: match v {
                                        Some(vv) => vv,
                                        None => acc.version,
                                    },
                                    ..acc
                                },
                            );
                        },
                    }
                }
            },
            State::Headers => {
                if is_blank(t) {
                    lemma_attempt_complete(lines, i + 1, State::Body, acc);
                } else {
                    match spec_header(t) {
                        Err(_) => {},
                        Ok(h) => {
                            lemma_attempt_complete(
                                lines,
                                i + 1,
                                State::Headers,
                                RequestView { headers: acc.headers.push(h), ..acc },
                            );
                        },
                    }
                }
            },
            State::Body => {
                if is_blank(t) {
                    lemma_attempt_complete(lines, i + 1, State::Body, acc);
                } else if is_separator(t) {
                } else {
                    lemma_attempt_complete(
                        lines,
                        i + 1,
                        State::Body,
                        RequestView { body: acc.body + t, ..acc },
                    );
                }
            },
        }
    }
}

/// Every descriptor the driver emits is complete: its method and url are
/// non-empty.  An accumulator that never got both is absorbed into the end
/// of the input instead of being emitted.
pub proof fn lemma_emitted_descriptors_complete(lines: Seq<Seq<char>>, i: int)
    requires
        0 <= i <= lines.len(),
    ensures
        ({
            match spec_parse_seq(lines, i) {
                Ok(rs) => forall|t: int| 0 <= t < rs.len() ==> is_complete(#[trigger] rs[t]),
                Err(_) => true,
            }
        }),
    decreases lines.len() - i,
{
    let (res, j) = attempt_from(lines, i, State::Url, init_request());
    crate::machine::lemma_attempt_advances(lines, i, State::Url, init_request());
    lemma_attempt_complete(lines, i, State::Url, init_request());
    match res {
        AttemptResult::EndOfInput => {},
        AttemptResult::Failed(_) => {},
        AttemptResult::Complete(m) => {
            lemma_emitted_descriptors_complete(lines, j);
        },
    }
}

/// An input of exactly one well-formed block parses to exactly one
/// descriptor: method, url and version are the request line's tokens (the
/// version defaulting when absent), the headers are the parsed header lines
/// in order, the body is the trimmed body lines concatenated with no inserted
/// characters, and the sequence holds no further item.
pub proof fn theorem_single_block(lines: Seq<Seq<char>>, hn: int)
    requires
        0 <= hn,
        hn + 1 < lines.len(),
        ({
            let t0 = spec_trim(lines[0]);
            &&& !is_blank(t0)
            &&& !is_separator(t0)
            &&& !is_comment(t0)
            &&& spec_request_line(t0) is Ok
        }),
        forall|t: int|
            1 <= t < 1 + hn ==> !is_blank(#[trigger] spec_trim(lines[t])) && spec_header(
                spec_trim(lines[t]),
            ) is Ok,
        is_blank(spec_trim(lines[1 + hn])),
        forall|t: int|
            hn + 2 <= t < lines.len() ==> !is_blank(#[trigger] spec_trim(lines[t]))
                && !is_separator(spec_trim(lines[t])),
    ensures
        ({
            let t0 = spec_trim(lines[0]);
            match spec_request_line(t0) {
                Ok((m, u, v)) => spec_parse_seq(lines, 0) == Ok::<Seq<RequestView>, Error>(
                    seq![
                        RequestView {
                            comment: Seq::empty(),
                            method: m,
                            url: u,
                            version: match v {
                                Some(vv) => vv,
                                None => "HTTP/1.1"@,
                            },
                            headers: headers_run(lines, 1, 1 + hn),
                            body: body_run(lines, hn + 2, lines.len() as int),
                        },
                    ],
                ),
                Err(_) => false,
            }
        }),
{
    let n = lines.len() as int;
    let t0 = spec_trim(lines[0]);
    lemma_request_line_tokens_nonempty(t0);
    match spec_request_line(t0) {
        Ok((m, u, v)) => {
            let acc1 = RequestView {
                method: m,
                url: u,
                version: match v {
                    Some(vv) => vv,
                    None => init_request().version,
                },
                ..init_request()
            };
            assert(attempt_from(lines, 0, State::Url, init_request()) == attempt_from(
                lines,
                1,
                State::Headers,
                acc1,
            ));
            lemma_headers_phase(lines, 1, 1 + hn, acc1);
            let acc2 = RequestView { headers: acc1.headers + headers_run(lines, 1, 1 + hn), ..acc1 };
            assert(attempt_from(lines, 1 + hn, State::Headers, acc2) == attempt_from(
                lines,
                hn + 2,
                State::Body,
                acc2,
            ));
            lemma_body_phase(lines, hn + 2, n, acc2);
            let acc3 = RequestView { body: acc2.body + body_run(lines, hn + 2, n), ..acc2 };
            assert(attempt_from(lines, n, State::Body, acc3) == (
                AttemptResult::Complete(acc3),
                n,
            ));
            assert(spec_parse_seq(lines, n) == Ok::<Seq<RequestView>, Error>(Seq::empty()));
            let expected = RequestView {
                comment: Seq::empty(),
                method: m,
                url: u,
                version: match v {
                    Some(vv) => vv,
                    None => "HTTP/1.1"@,
                },
                headers: headers_run(lines, 1, 1 + hn),
                body: body_run(lines, hn + 2, n),
            };
            assert(acc3 =~= expected);
            assert(seq![acc3] + Seq::<RequestView>::empty() =~= seq![expected]);
        },
        Err(_) => {
            assert(false);
        },
    }
}

} // verus!

