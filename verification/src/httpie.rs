//! The argument parsing of a small HTTP client: URLs and `key=value` body
//! fields.

use vstd::prelude::*;
use vstd::string::{StrSliceExecFns, StringExecFns};
use crate::strtok::{find_char, first_delim, lemma_first_delim};

verus! {

/// A field of a request body, written `key=value` on the command line.
#[derive(Debug, PartialEq)]
pub struct KV {
    pub k: String,
    pub v: String,
}

/// A command-line argument that is no `key=value` field.
#[derive(Debug, PartialEq)]
pub struct ParseKvError {
    pub input: String,
}

impl ParseKvError {
    pub fn message(&self) -> (m: String)
        ensures
            m@ == "Failed to parse "@ + self.input@,
    {
        let mut m = String::from_str("Failed to parse ");
        m.append(self.input.as_str());
        m
    }
}

/// The key and value of `key=value`: the text before the first `=`, and the
/// text between it and the next `=` (or the end); `None` without an `=`.
pub open spec fn spec_parse_kv(s: Seq<char>) -> Option<(Seq<char>, Seq<char>)> {
    let i = first_delim(s, seq!['=']);
    if i < 0 {
        None
    } else {
        let rest = s.skip(i + 1);
        let j = first_delim(rest, seq!['=']);
        Some((s.take(i), if j < 0 { rest } else { rest.take(j) }))
    }
}

/// A key and a value that hold no `=` come back exactly from `key=value`:
/// every other character, spaces among them, stays where it is.
pub proof fn lemma_parse_kv_splits(k: Seq<char>, v: Seq<char>)
    requires
        !k.contains('='),
        !v.contains('='),
    ensures
        spec_parse_kv(k + seq!['='] + v) == Some((k, v)),
{
    let s = k + seq!['='] + v;
    let d = seq!['='];
    assert(d.contains('=')) by {
        assert(d[0] == '=');
    }
    lemma_first_delim(s, d);
    let i = first_delim(s, d);
    assert(s[k.len() as int] == '=');
    assert forall|x: int| 0 <= x < k.len() implies !d.contains(#[trigger] s[x]) by {
        assert(s[x] == k[x]);
        if d.contains(s[x]) {
            assert(k.contains(k[x]));
        }
    }
    assert(i == k.len()) by {
        if i < 0 {
            assert(!d.contains(s[k.len() as int]));
        } else if i < k.len() {
            assert(!d.contains(s[i]));
        } else if i > k.len() {
            assert(!d.contains(s[k.len() as int]));
        }
    }
    assert(s.take(i) =~= k);
    let rest = s.skip(i + 1);
    assert(rest =~= v);
    lemma_first_delim(rest, d);
    if first_delim(rest, d) >= 0 {
        let j = first_delim(rest, d);
        assert(d.contains(rest[j]));
        assert(v.contains(v[j]));
    }
}

/// What `parse_kv` finds is read off the input: the input begins with the
/// key, `=` and the value; neither holds `=`, and the value ends where the
/// input does or at a second `=`.
pub proof fn lemma_parse_kv_parts(s: Seq<char>)
    ensures
        spec_parse_kv(s) matches Some((k, v)) ==> {
            &&& s.take((k.len() + 1 + v.len()) as int) == k + seq!['='] + v
            &&& !k.contains('=')
            &&& !v.contains('=')
            &&& (k.len() + 1 + v.len() == s.len() || s[(k.len() + 1 + v.len()) as int] == '=')
        },
        spec_parse_kv(s) is None <==> !s.contains('='),
{
    let d = seq!['='];
    assert(d.contains('=')) by {
        assert(d[0] == '=');
    }
    assert forall|c: char| d.contains(c) <==> c == '=' by {
        if d.contains(c) {
            let x = choose|x: int| 0 <= x < d.len() && d[x] == c;
        }
    }
    lemma_first_delim(s, d);
    let i = first_delim(s, d);
    if i < 0 {
        if s.contains('=') {
            let x = choose|x: int| 0 <= x < s.len() && s[x] == '=';
            assert(!d.contains(s[x]));
        }
    } else {
        assert(s.contains('=')) by {
            assert(s[i] == '=');
        }
        let k = s.take(i);
        let rest = s.skip(i + 1);
        lemma_first_delim(rest, d);
        let j = first_delim(rest, d);
        let v = if j < 0 { rest } else { rest.take(j) };
        assert forall|x: int| 0 <= x < k.len() implies k[x] != '=' by {
            assert(!d.contains(s[x]));
        }
        assert forall|x: int| 0 <= x < v.len() implies v[x] != '=' by {
            assert(!d.contains(rest[x]));
        }
        assert(s.take((k.len() + 1 + v.len()) as int) =~= k + seq!['='] + v);
        if j >= 0 {
            assert(s[(k.len() + 1 + v.len()) as int] == rest[j]);
        }
    }
}

proof fn lemma_find_eq(s: Seq<char>, r: Option<usize>)
    requires
        match r {
            Some(i) => i < s.len() && s[i as int] == '=' && forall|k: int| 0 <= k < i ==> s[k] != '=',
            None => forall|k: int| 0 <= k < s.len() ==> s[k] != '=',
        },
    ensures
        match r {
            Some(i) => first_delim(s, seq!['=']) == i,
            None => first_delim(s, seq!['=']) < 0,
        },
{
    lemma_first_delim(s, seq!['=']);
    let d = seq!['='];
    let f = first_delim(s, d);
    assert forall|c: char| d.contains(c) <==> c == '=' by {
        if c == '=' {
            assert(d[0] == c);
        }
    }
    match r {
        Some(i) => {
            if f >= 0 && f != i {
                if f < i {
                    assert(s[f] == '=');
                } else {
                    assert(d.contains(s[i as int]));
                }
            }
            if f < 0 {
                assert(d.contains(s[i as int]));
            }
        },
        None => {
            if f >= 0 {
                assert(s[f] == '=');
            }
        },
    }
}

/// Splits `key=value`; an argument without `=` is an error.
pub fn parse_kv(s: &str) -> (r: Result<KV, ParseKvError>)
    ensures
        match spec_parse_kv(s@) {
            Some((k, v)) => r matches Ok(kv) && kv.k@ == k && kv.v@ == v,
            None => r matches Err(e) && e.input@ == s@,
        },
{
    let n = s.unicode_len();
    let found = find_char(s, '=');
    proof {
        lemma_find_eq(s@, found);
    }
    match found {
        None => Err(ParseKvError { input: String::from_str(s) }),
        Some(i) => {
            let k = s.substring_char(0, i);
            let rest = s.substring_char(i + 1, n);
            let m = rest.unicode_len();
            let found2 = find_char(rest, '=');
            proof {
                lemma_find_eq(rest@, found2);
                assert(k@ =~= s@.take(i as int));
                assert(rest@ =~= s@.skip(i + 1));
            }
            let v = match found2 {
                None => rest,
                Some(j) => {
                    let v = rest.substring_char(0, j);
                    proof {
                        assert(v@ =~= rest@.take(j as int));
                    }
                    v
                },
            };
            Ok(KV { k: String::from_str(k), v: String::from_str(v) })
        },
    }
}

impl std::str::FromStr for KV {
    type Err = ParseKvError;

    fn from_str(s: &str) -> Result<Self, Self::Err> {
        parse_kv(s)
    }
}

/// Why the url crate (which reqwest's `Url` is) refuses `s` as an absolute
/// URL by the WHATWG URL standard, as the text of its error; nothing when it
/// accepts `s`.
pub uninterp spec fn url_error(s: Seq<char>) -> Option<Seq<char>>;

/// `s` parses as a URL.
pub open spec fn is_url(s: Seq<char>) -> bool {
    url_error(s) is None
}

/// Parses `s` as a `reqwest::Url` and gives the text of the error, if any.
/// The outcome is a function of `s` alone; what the standard accepts, and
/// the texts of the errors, are not written out here.
#[verifier::external_body]
fn url_parse_error(s: &str) -> (r: Option<String>)
    ensures
        match r {
            None => url_error(s@) is None,
            Some(m) => url_error(s@) == Some(m@),
        },
{
    match s.parse::<reqwest::Url>() {
        Ok(_) => None,
        Err(e) => Some(e.to_string()),
    }
}

/// A command-line argument that is no URL, with the reason the URL parser
/// gives.
#[derive(Debug, PartialEq)]
pub struct ParseUrlError {
    pub input: String,
    pub reason: String,
}

/// Accepts `s` as the URL of a request when it parses as one, and returns it
/// unchanged; otherwise gives the parser's reason.
pub fn parse_url(s: &str) -> (r: Result<String, ParseUrlError>)
    ensures
        is_url(s@) ==> (r matches Ok(u) && u@ == s@),
        !is_url(s@) ==> (r matches Err(e) && e.input@ == s@ && Some(e.reason@) == url_error(s@)),
{
    match url_parse_error(s) {
        None => Ok(String::from_str(s)),
        Some(reason) => Err(ParseUrlError { input: String::from_str(s), reason }),
    }
}

} // verus!
