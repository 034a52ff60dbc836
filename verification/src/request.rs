//! The request descriptor and its accumulator: the record built up for the
//! request currently being scanned, and the rule that reads `METHOD URL
//! [VERSION]` off a request line.

use vstd::prelude::*;
use vstd::string::*;

use crate::chars::{is_space, is_space_char};
use crate::error::Error;
use crate::header::{Header, HeaderView};

verus! {

/// One parsed request description.  `method` and `url` are non-empty on every
/// descriptor the parser emits; `version` defaults to `HTTP/1.1`; `comment`
/// and `body` concatenate their source lines with no inserted delimiter.
#[derive(Debug, Clone, PartialEq, Eq)]
pub struct HttpRequest {
    pub comment: String,
    pub method: String,
    pub url: String,
    pub version: String,
    pub headers: Vec<Header>,
    pub body: String,
}

/// The mathematical content of an [`HttpRequest`].
#[verifier::ext_equal]
pub struct RequestView {
    pub comment: Seq<char>,
    pub method: Seq<char>,
    pub url: Seq<char>,
    pub version: Seq<char>,
    pub headers: Seq<HeaderView>,
    pub body: Seq<char>,
}

/// The contents of an ordered header list.
pub open spec fn headers_view(hs: Seq<Header>) -> Seq<HeaderView> {
    hs.map_values(|h: Header| h@)
}

pub proof fn lemma_headers_view_push(hs: Seq<Header>, h: Header)
    ensures
        headers_view(hs.push(h)) == headers_view(hs).push(h@),
{
    assert(headers_view(hs.push(h)) =~= headers_view(hs).push(h@));
}

impl View for HttpRequest {
    type V = RequestView;

    open spec fn view(&self) -> RequestView {
        RequestView {
            comment: self.comment@,
            method: self.method@,
            url: self.url@,
            version: self.version@,
            headers: headers_view(self.headers@),
            body: self.body@,
        }
    }
}

/// A descriptor is complete (emittable) iff both method and url are
/// non-empty; an incomplete one at end of input means "nothing parsed".
pub open spec fn is_complete(r: RequestView) -> bool {
    r.method.len() > 0 && r.url.len() > 0
}

/// The accumulator every parse attempt starts from: all fields empty but for
/// the default protocol version.
pub open spec fn init_request() -> RequestView {
    RequestView {
        comment: Seq::empty(),
        method: Seq::empty(),
        url: Seq::empty(),
        version: "HTTP/1.1"@,
        headers: Seq::empty(),
        body: Seq::empty(),
    }
}

/// Index of the first non-whitespace character of `s`, or `s.len()`.
pub open spec fn first_nonspace(s: Seq<char>) -> int
    decreases s.len(),
{
    if s.len() == 0 {
        0
    } else if !is_space_char(s[0]) {
        0
    } else {
        1 + first_nonspace(s.drop_first())
    }
}

/// Index of the first whitespace character of `s`, or `s.len()`.
pub open spec fn first_space(s: Seq<char>) -> int
    decreases s.len(),
{
    if s.len() == 0 {
        0
    } else if is_space_char(s[0]) {
        0
    } else {
        1 + first_space(s.drop_first())
    }
}

pub proof fn lemma_first_nonspace_props(s: Seq<char>)
    ensures
        0 <= first_nonspace(s) <= s.len(),
        forall|j: int| 0 <= j < first_nonspace(s) ==> is_space_char(s[j]),
        first_nonspace(s) < s.len() ==> !is_space_char(s[first_nonspace(s)]),
    decreases s.len(),
{
    if s.len() == 0 {
    } else if !is_space_char(s[0]) {
    } else {
        lemma_first_nonspace_props(s.drop_first());
        assert forall|j: int| 0 <= j < first_nonspace(s) implies is_space_char(s[j]) by {
            if j >= 1 {
                assert(is_space_char(s.drop_first()[j - 1]));
            }
        }
    }
}

pub proof fn lemma_first_space_props(s: Seq<char>)
    ensures
        0 <= first_space(s) <= s.len(),
        forall|j: int| 0 <= j < first_space(s) ==> !is_space_char(s[j]),
        first_space(s) < s.len() ==> is_space_char(s[first_space(s)]),
    decreases s.len(),
{
    if s.len() == 0 {
    } else if is_space_char(s[0]) {
    } else {
        lemma_first_space_props(s.drop_first());
        assert forall|j: int| 0 <= j < first_space(s) implies !is_space_char(s[j]) by {
            if j >= 1 {
                assert(!is_space_char(s.drop_first()[j - 1]));
            }
        }
    }
}

/// The tokens a successful request-line split yields are never empty, so an
/// emitted descriptor's method and url are non-empty and its version, when
/// present on the line, is too.
pub proof fn lemma_request_line_tokens_nonempty(l: Seq<char>)
    ensures
        ({
            match spec_request_line(l) {
                Ok((m, u, v)) => m.len() > 0 && u.len() > 0 && (v matches Some(vv) ==> vv.len()
                    > 0),
                Err(_) => true,
            }
        }),
{
    let n = l.len() as int;
    lemma_first_nonspace_props(l);
    let a1 = first_nonspace(l);
    if a1 < n {
        let s1 = l.subrange(a1, n);
        lemma_first_space_props(s1);
        assert(s1[0] == l[a1]);
        let b1 = a1 + first_space(s1);
        let s2 = l.subrange(b1, n);
        lemma_first_nonspace_props(s2);
        let a2 = b1 + first_nonspace(s2);
        if a2 < n {
            let s3 = l.subrange(a2, n);
            lemma_first_space_props(s3);
            assert(s3[0] == l[a2]);
            assert(s2[a2 - b1] == l[a2]);
            let b2 = a2 + first_space(s3);
            let s4 = l.subrange(b2, n);
            lemma_first_nonspace_props(s4);
            let a3 = b2 + first_nonspace(s4);
            if a3 < n {
                let s5 = l.subrange(a3, n);
                lemma_first_space_props(s5);
                assert(s5[0] == l[a3]);
                assert(s4[a3 - b2] == l[a3]);
            }
        }
    }
}

pub proof fn lemma_first_nonspace_is(s: Seq<char>, k: int)
    requires
        0 <= k <= s.len(),
        forall|j: int| 0 <= j < k ==> is_space_char(s[j]),
        k < s.len() ==> !is_space_char(s[k]),
    ensures
        first_nonspace(s) == k,
    decreases s.len(),
{
    if s.len() == 0 {
    } else if !is_space_char(s[0]) {
        assert(k == 0);
    } else {
        assert(k >= 1);
        lemma_first_nonspace_is(s.drop_first(), k - 1);
    }
}

pub proof fn lemma_first_space_is(s: Seq<char>, k: int)
    requires
        0 <= k <= s.len(),
        forall|j: int| 0 <= j < k ==> !is_space_char(s[j]),
        k < s.len() ==> is_space_char(s[k]),
    ensures
        first_space(s) == k,
    decreases s.len(),
{
    if s.len() == 0 {
    } else if is_space_char(s[0]) {
        assert(k == 0);
    } else {
        assert(k >= 1);
        lemma_first_space_is(s.drop_first(), k - 1);
    }
}

/// What splitting a request line on whitespace yields: the first token is the
/// method, the second the url, a third, if present, the version.  A line with
/// no token fails `NoMethod`; one with a single token fails `NoUrl`.
pub open spec fn spec_request_line(l: Seq<char>) -> Result<
    (Seq<char>, Seq<char>, Option<Seq<char>>),
    Error,
> {
    let n = l.len() as int;
    let a1 = first_nonspace(l);
    if a1 >= n {
        Err(Error::NoMethod)
    } else {
        let b1 = a1 + first_space(l.subrange(a1, n));
        let a2 = b1 + first_nonspace(l.subrange(b1, n));
        if a2 >= n {
            Err(Error::NoUrl)
        } else {
            let b2 = a2 + first_space(l.subrange(a2, n));
            let a3 = b2 + first_nonspace(l.subrange(b2, n));
            if a3 >= n {
                Ok((l.subrange(a1, b1), l.subrange(a2, b2), None))
            } else {
                let b3 = a3 + first_space(l.subrange(a3, n));
                Ok((l.subrange(a1, b1), l.subrange(a2, b2), Some(l.subrange(a3, b3))))
            }
        }
    }
}

/// First index at or after `from` holding a non-whitespace character.
fn scan_nonspace(s: &str, from: usize) -> (r: usize)
    requires
        from <= s@.len(),
    ensures
        from <= r <= s@.len(),
        r - from == first_nonspace(s@.subrange(from as int, s@.len() as int)),
{
    let n = s.unicode_len();
    let mut k = from;
    while k < n && is_space(s.get_char(k))
        invariant
            from <= k <= n,
            n == s@.len(),
            forall|j: int| from <= j < k ==> is_space_char(s@[j]),
        decreases n - k,
    {
        k += 1;
    }
    proof {
        let sub = s@.subrange(from as int, n as int);
        assert forall|j: int| 0 <= j < k - from implies is_space_char(sub[j]) by {
            assert(sub[j] == s@[from + j]);
        }
        if k < n {
            assert(sub[k - from] == s@[k as int]);
        }
        lemma_first_nonspace_is(sub, k - from);
    }
    k
}

/// First index at or after `from` holding a whitespace character.
fn scan_space(s: &str, from: usize) -> (r: usize)
    requires
        from <= s@.len(),
    ensures
        from <= r <= s@.len(),
        r - from == first_space(s@.subrange(from as int, s@.len() as int)),
{
    let n = s.unicode_len();
    let mut k = from;
    while k < n && !is_space(s.get_char(k))
        invariant
            from <= k <= n,
            n == s@.len(),
            forall|j: int| from <= j < k ==> !is_space_char(s@[j]),
        decreases n - k,
    {
        k += 1;
    }
    proof {
        let sub = s@.subrange(from as int, n as int);
        assert forall|j: int| 0 <= j < k - from implies !is_space_char(sub[j]) by {
            assert(sub[j] == s@[from + j]);
        }
        if k < n {
            assert(sub[k - from] == s@[k as int]);
        }
        lemma_first_space_is(sub, k - from);
    }
    k
}

impl HttpRequest {
    /// A fresh accumulator: every field empty, the version its default.
    pub fn new() -> (r: HttpRequest)
        ensures
            r@ == init_request(),
    {
        let r = HttpRequest {
            comment: String::new(),
            method: String::new(),
            url: String::new(),
            version: String::from_str("HTTP/1.1"),
            headers: Vec::new(),
            body: String::new(),
        };
        proof {
            assert(headers_view(r.headers@) =~= Seq::<HeaderView>::empty());
            assert(r@ =~= init_request());
        }
        r
    }

    /// True iff the accumulator holds no emittable request yet.
    pub fn is_empty(&self) -> (r: bool)
        ensures
            r == !is_complete(self@),
    {
        self.url.as_str().is_empty() || self.method.as_str().is_empty()
    }

    /// Reads `method url [version]` off a whitespace-split request line into
    /// the accumulator; on failure the accumulator is untouched.
    pub fn parse_method_url_version(&mut self, line: &str) -> (r: Result<(), Error>)
        ensures
            match spec_request_line(line@) {
                Ok((m, u, v)) => r is Ok && final(self)@ == (RequestView {
                    method: m,
                    url: u,
                    version: match v {
                        Some(vv) => vv,
                        None => old(self)@.version,
                    },
                    ..old(self)@
                }),
                Err(e) => r == Err::<(), Error>(e) && *final(self) == *old(self),
            },
    {
        let ghost l = line@;
        let ghost n = line@.len() as int;
        let nn = line.unicode_len();
        let a1 = scan_nonspace(line, 0);
        proof {
            assert(l.subrange(0, n) =~= l);
        }
        if a1 == nn {
            return Err(Error::NoMethod);
        }
        let b1 = scan_space(line, a1);
        let a2 = scan_nonspace(line, b1);
        if a2 == nn {
            return Err(Error::NoUrl);
        }
        let b2 = scan_space(line, a2);
        let a3 = scan_nonspace(line, b2);
        self.method = String::from_str(line.substring_char(a1, b1));
        self.url = String::from_str(line.substring_char(a2, b2));
        if a3 < nn {
            let b3 = scan_space(line, a3);
            self.version = String::from_str(line.substring_char(a3, b3));
        }
        proof {
            match spec_request_line(l) {
                Ok((m, u, v)) => {
                    assert(final(self)@ =~= (RequestView {
                        method: m,
                        url: u,
                        version: match v {
                            Some(vv) => vv,
                            None => old(self)@.version,
                        },
                        ..old(self)@
                    }));
                },
                Err(_) => {
                    assert(false);
                },
            }
        }
        Ok(())
    }
}

} // verus!
