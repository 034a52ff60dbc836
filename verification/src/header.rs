//! The header line parser: one trimmed, non-blank line becomes a name/value
//! pair, split on the first occurrence of the two-character separator `": "`.
//! Text after a second `": "` is dropped; a value that itself holds `": "` is
//! therefore truncated.  This is a known sharp edge of the dialect, kept on
//! purpose.

use vstd::prelude::*;
use vstd::string::*;

use crate::error::Error;

verus! {

/// A parsed header.  Order of discovery is preserved by the accumulator;
/// duplicate names are allowed and never merged.
#[derive(Debug, Clone, PartialEq, Eq)]
pub struct Header {
    pub name: String,
    pub value: String,
}

/// The mathematical content of a [`Header`].
#[verifier::ext_equal]
pub struct HeaderView {
    pub name: Seq<char>,
    pub value: Seq<char>,
}

impl View for Header {
    type V = HeaderView;

    open spec fn view(&self) -> HeaderView {
        HeaderView { name: self.name@, value: self.value@ }
    }
}

/// Whether the two-character separator `": "` starts at index `i` of `s`.
pub open spec fn sep_at(s: Seq<char>, i: int) -> bool {
    0 <= i && i + 2 <= s.len() && s[i] == ':' && s[i + 1] == ' '
}

/// Index of the first `": "` in `s`, or `None`.
pub open spec fn find_sep(s: Seq<char>) -> Option<int>
    decreases s.len(),
{
    if s.len() < 2 {
        None
    } else if s[0] == ':' && s[1] == ' ' {
        Some(0)
    } else {
        match find_sep(s.drop_first()) {
            None => None,
            Some(j) => Some(j + 1),
        }
    }
}

pub proof fn lemma_find_sep_props(s: Seq<char>)
    ensures
        match find_sep(s) {
            Some(i) => sep_at(s, i) && forall|j: int| 0 <= j < i ==> !sep_at(s, j),
            None => forall|j: int| !sep_at(s, j),
        },
    decreases s.len(),
{
    if s.len() < 2 {
    } else if s[0] == ':' && s[1] == ' ' {
    } else {
        lemma_find_sep_props(s.drop_first());
        let d = s.drop_first();
        assert forall|j: int| 0 <= j && sep_at(s, j) implies j >= 1 && sep_at(d, j - 1) by {
            if j >= 1 {
                assert(d[j - 1] == s[j] && d[j] == s[j + 1]);
            }
        }
        match find_sep(d) {
            None => {
                assert forall|j: int| !sep_at(s, j) by {
                    if sep_at(s, j) {
                        assert(sep_at(d, j - 1));
                    }
                }
            },
            Some(i) => {
                assert(d[i] == s[i + 1] && d[i + 1] == s[i + 2]);
                assert(sep_at(s, i + 1));
                assert forall|j: int| 0 <= j < i + 1 implies !sep_at(s, j) by {
                    if sep_at(s, j) {
                        assert(j >= 1 && sep_at(d, j - 1));
                    }
                }
            },
        }
    }
}

pub proof fn lemma_find_sep_is_some(s: Seq<char>, k: int)
    requires
        sep_at(s, k),
        forall|j: int| 0 <= j < k ==> !sep_at(s, j),
    ensures
        find_sep(s) == Some(k),
    decreases s.len(),
{
    if s.len() < 2 {
    } else if s[0] == ':' && s[1] == ' ' {
        assert(sep_at(s, 0));
        assert(k == 0);
    } else {
        let d = s.drop_first();
        assert(k >= 1);
        assert(d[k - 1] == s[k] && d[k] == s[k + 1]);
        assert(sep_at(d, k - 1));
        assert forall|j: int| 0 <= j < k - 1 implies !sep_at(d, j) by {
            if sep_at(d, j) {
                assert(s[j + 1] == d[j] && s[j + 2] == d[j + 1]);
                assert(sep_at(s, j + 1));
            }
        }
        lemma_find_sep_is_some(d, k - 1);
    }
}

pub proof fn lemma_find_sep_is_none(s: Seq<char>)
    requires
        forall|j: int| !sep_at(s, j),
    ensures
        find_sep(s) == None::<int>,
{
    lemma_find_sep_props(s);
    if find_sep(s) is Some {
        assert(sep_at(s, find_sep(s)->0));
    }
}

/// What the header line parser yields for the trimmed line `l`: the name is
/// everything before the first `": "`, the value everything after it up to a
/// second `": "` if one follows.  No separator at all is `InvalidHeaderName`;
/// a separator with nothing after it is `InvalidHeaderValue`.
pub open spec fn spec_header(l: Seq<char>) -> Result<HeaderView, Error> {
    match find_sep(l) {
        None => Err(Error::InvalidHeaderName),
        Some(i) => {
            let rest = l.subrange(i + 2, l.len() as int);
            if rest.len() == 0 {
                Err(Error::InvalidHeaderValue)
            } else {
                let value = match find_sep(rest) {
                    None => rest,
                    Some(j) => rest.subrange(0, j),
                };
                Ok(HeaderView { name: l.subrange(0, i), value })
            }
        },
    }
}

/// Scans `s` from index `from` for the next `": "`, reporting its absolute
/// position.
fn scan_sep(s: &str, from: usize) -> (r: Option<usize>)
    requires
        from <= s@.len(),
    ensures
        ({
            let sub = s@.subrange(from as int, s@.len() as int);
            match r {
                Some(k) => from <= k && k + 2 <= s@.len() && find_sep(sub) == Some(k - from),
                None => find_sep(sub) == None::<int>,
            }
        }),
{
    let ghost sub = s@.subrange(from as int, s@.len() as int);
    let n = s.unicode_len();
    let mut k = from;
    while n - k > 1
        invariant
            from <= k,
            k <= n == s@.len(),
            sub == s@.subrange(from as int, s@.len() as int),
            forall|j: int| 0 <= j < k - from ==> !sep_at(sub, j),
        decreases n - k,
    {
        if s.get_char(k) == ':' && s.get_char(k + 1) == ' ' {
            proof {
                assert(sub[k - from] == s@[k as int] && sub[k - from + 1] == s@[k + 1]);
                lemma_find_sep_is_some(sub, k - from);
            }
            return Some(k);
        }
        proof {
            assert forall|j: int| 0 <= j < k + 1 - from implies !sep_at(sub, j) by {
                if j < k - from {
                } else {
                    assert(sub[j] == s@[k as int] && (j + 2 <= sub.len() ==> sub[j + 1] == s@[k
                        + 1]));
                }
            }
        }
        k += 1;
    }
    proof {
        assert forall|j: int| !sep_at(sub, j) by {
            if sep_at(sub, j) {
                assert(j < k - from);
            }
        }
        lemma_find_sep_is_none(sub);
    }
    None
}

impl Header {
    /// Parses one trimmed header line into a name/value pair.
    pub fn parse(line: String) -> (r: Result<Header, Error>)
        ensures
            match r {
                Ok(h) => spec_header(line@) == Ok::<HeaderView, Error>(h@),
                Err(e) => spec_header(line@) == Err::<HeaderView, Error>(e),
            },
    {
        let s = line.as_str();
        let n = s.unicode_len();
        match scan_sep(s, 0) {
            None => {
                proof {
                    assert(s@.subrange(0, s@.len() as int) =~= s@);
                }
                Err(Error::InvalidHeaderName)
            },
            Some(i) => {
                proof {
                    assert(s@.subrange(0, s@.len() as int) =~= s@);
                }
                let ghost rest = s@.subrange(i + 2, s@.len() as int);
                if i + 2 == n {
                    proof {
                        assert(rest.len() == 0);
                    }
                    Err(Error::InvalidHeaderValue)
                } else {
                    let name = String::from_str(s.substring_char(0, i));
                    let end = match scan_sep(s, i + 2) {
                        Some(k) => {
                            proof {
                                assert(rest.subrange(0, k - (i + 2)) =~= s@.subrange(
                                    i + 2,
                                    k as int,
                                ));
                            }
                            k
                        },
                        None => n,
                    };
                    let value = String::from_str(s.substring_char(i + 2, end));
                    proof {
                        if end == n {
                            assert(rest =~= s@.subrange(i + 2, n as int));
                        }
                    }
                    Ok(Header { name, value })
                }
            },
        }
    }
}

} // verus!
