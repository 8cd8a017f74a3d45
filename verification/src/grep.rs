//! The matching core of a small grep: a regular expression is looked for in
//! the lines of a file, and each line with a match is shown with its line
//! number and the first match highlighted.

use vstd::prelude::*;
use vstd::string::{StrSliceExecFns, StringExecFns};
use colored::Colorize;
use regex::Regex;
use std::ops::Range;
use vstd::string::StringSliceAdditionalSpecFns;
use vstd::utf8::{decode_utf8, encode_utf8, is_char_boundary};
use crate::text::{decimal, decimal_string, lemma_boundary_concat, lemma_boundary_prefix, lemma_encode_concat};

verus! {

broadcast use {vstd::utf8::encode_utf8_decode_utf8, vstd::utf8::encode_utf8_valid_utf8};

#[verifier::external_type_specification]
#[verifier::external_body]
pub struct ExRegex(Regex);

#[verifier::external_type_specification]
#[verifier::external_body]
pub struct ExRegexError(regex::Error);

#[verifier::external_type_specification]
#[verifier::external_body]
pub struct ExPatternError(glob::PatternError);

#[verifier::external_type_specification]
#[verifier::external_body]
pub struct ExIoError(std::io::Error);

/// What can go wrong in a search.
#[derive(Debug)]
pub enum GrepError {
    /// The file name pattern is malformed.
    GlobError(glob::PatternError),
    /// The regular expression is malformed.
    RegexError(regex::Error),
    /// A file could not be read.
    IoError(std::io::Error),
}

/// A search: a regular expression and a file name pattern.
pub struct Greper {
    pattern: String,
    glob: String,
}

impl Greper {
    pub closed spec fn spec_pattern(&self) -> Seq<char> {
        self.pattern@
    }

    pub closed spec fn spec_glob(&self) -> Seq<char> {
        self.glob@
    }

    pub fn new(pattern: String, glob: String) -> (g: Self)
        ensures
            g.spec_pattern() == pattern@,
            g.spec_glob() == glob@,
    {
        Self { pattern, glob }
    }

    pub fn pattern(&self) -> (p: &str)
        ensures
            p@ == self.spec_pattern(),
    {
        self.pattern.as_str()
    }

    pub fn glob(&self) -> (g: &str)
        ensures
            g@ == self.spec_glob(),
    {
        self.glob.as_str()
    }

    /// The compiled regular expression of the search.
    pub fn compile(&self) -> (r: Result<GrepPattern, GrepError>)
        ensures
            is_regex(self.spec_pattern()) <==> r is Ok,
            r matches Ok(p) ==> p.source() == self.spec_pattern(),
            r matches Err(e) ==> e is RegexError,
    {
        GrepPattern::new(self.pattern.as_str())
    }
}

/// `pattern` is a valid regular expression of the regex crate.
pub uninterp spec fn is_regex(pattern: Seq<char>) -> bool;

/// Where the regex crate finds the first match of `pattern` in `text` (the
/// leftmost-first one), as character offsets of its start and end.
pub uninterp spec fn first_match_in(pattern: Seq<char>, text: Seq<char>) -> Option<(int, int)>;

/// Calls `Regex::new`: it succeeds exactly on valid patterns (which are not
/// written out here).
#[verifier::external_body]
fn compile_regex(pattern: &str) -> (r: Result<Regex, regex::Error>)
    ensures
        r is Ok <==> is_regex(pattern@),
{
    Regex::new(pattern)
}

/// A compiled regular expression together with its source. Only `new`
/// builds one, so the regex is always the compiled source.
pub struct GrepPattern {
    source: String,
    regex: Regex,
}

impl GrepPattern {
    pub closed spec fn source(&self) -> Seq<char> {
        self.source@
    }

    pub fn new(pattern: &str) -> (r: Result<GrepPattern, GrepError>)
        ensures
            is_regex(pattern@) <==> r is Ok,
            r matches Ok(p) ==> p.source() == pattern@,
            r matches Err(e) ==> e is RegexError,
    {
        match compile_regex(pattern) {
            Ok(regex) => Ok(GrepPattern { source: String::from_str(pattern), regex }),
            Err(e) => Err(GrepError::RegexError(e)),
        }
    }
}

/// Calls `Regex::find` with the compiled pattern on `text` and cuts `text`
/// around the match it returns: the text before, the match, the text after.
/// That the three pieces make up `text` is a fact of string slicing; where the
/// match lies is named, not written out.
#[verifier::external_body]
fn find_first(p: &GrepPattern, text: &str) -> (r: Option<(String, String, String)>)
    ensures
        match r {
            None => first_match_in(p.source(), text@) is None,
            Some((b, m, a)) => {
                &&& b@ + m@ + a@ == text@
                &&& first_match_in(p.source(), text@) == Some((b@.len() as int, (b@.len() + m@.len()) as int))
            },
        },
{
    match p.regex.find(text) {
        Some(m) => Some((text[..m.start()].to_string(), m.as_str().to_string(), text[m.end()..].to_string())),
        None => None,
    }
}

/// The escape sequence that starts a colour.
pub open spec fn color_start(code: Seq<char>) -> Seq<char> {
    "\x1b["@ + code + "m"@
}

/// The escape sequence that ends a colour.
pub open spec fn color_reset() -> Seq<char> {
    "\x1b[0m"@
}

/// `s` with `style` put after every reset sequence in it, so that a colour
/// stays on after a reset that `s` itself holds.
pub open spec fn escape_resets(s: Seq<char>, style: Seq<char>) -> Seq<char>
    decreases s.len(),
{
    if s.len() == 0 {
        s
    } else if s.len() >= 4 && s.take(4) == color_reset() {
        color_reset() + style + escape_resets(s.skip(4), style)
    } else {
        seq![s[0]] + escape_resets(s.skip(1), style)
    }
}

/// `out` is how the colored crate shows `s` in the colour `code`: plain when
/// colouring is off (the environment and the terminal decide), else wrapped
/// in the colour's escape sequences, with the colour repeated after each
/// reset sequence that `s` holds.
pub open spec fn shown_as(s: Seq<char>, out: Seq<char>, code: Seq<char>) -> bool {
    ||| out == s
    ||| out == color_start(code) + escape_resets(s, color_start(code)) + color_reset()
}

/// `s.cyan()` shown as text.
#[verifier::external_body]
fn paint_cyan(s: &str) -> (r: String)
    ensures
        shown_as(s@, r@, "36"@),
{
    s.cyan().to_string()
}

/// `s.blue()` shown as text.
#[verifier::external_body]
fn paint_blue(s: &str) -> (r: String)
    ensures
        shown_as(s@, r@, "34"@),
{
    s.blue().to_string()
}

/// `s.red()` shown as text.
#[verifier::external_body]
fn paint_red(s: &str) -> (r: String)
    ensures
        shown_as(s@, r@, "31"@),
{
    s.red().to_string()
}

/// The characters that the bytes `start..end` of the UTF-8 encoding of
/// `line` stand for.
pub open spec fn byte_piece(line: Seq<char>, start: int, end: int) -> Seq<char> {
    decode_utf8(encode_utf8(line).subrange(start, end))
}

/// The offset in bytes at which the character `i` of `line` begins.
pub open spec fn byte_offset(line: Seq<char>, i: int) -> int {
    encode_utf8(line.take(i)).len() as int
}

/// `out` shows the line `line` of the file `name`, numbered `lineno`, with the
/// bytes `start..end` highlighted: `name(lineno:column): before match after`,
/// then a line break, where the column is `start + 1`; the name in cyan, the
/// number in blue, the match in red.
pub open spec fn is_shown_line(out: Seq<char>, name: Seq<char>, line: Seq<char>, lineno: nat, start: int, end: int) -> bool {
    exists|x: Seq<char>, y: Seq<char>, z: Seq<char>|
        #![trigger shown_as(name, x, "36"@), shown_as(decimal(lineno), y, "34"@), shown_as(byte_piece(line, start, end), z, "31"@)]
        shown_as(name, x, "36"@) && shown_as(decimal(lineno), y, "34"@) && shown_as(byte_piece(line, start, end), z, "31"@)
            && out == x + "("@ + y + ":"@ + decimal((start + 1) as nat) + "): "@ + byte_piece(line, 0, start) + z
            + byte_piece(line, end, encode_utf8(line).len() as int) + "\n"@
}

/// Shows a line with a match: see `is_shown_line`. The range counts bytes of
/// the line, as the regex crate reports a match, and must fall on character
/// boundaries.
pub fn format_line(name: &str, line: &str, lineno: usize, range: Range<usize>) -> (r: String)
    requires
        range.start <= range.end <= line.spec_bytes().len(),
        is_char_boundary(line.spec_bytes(), range.start as int),
        is_char_boundary(line.spec_bytes(), range.end as int),
    ensures
        is_shown_line(r@, name@, line@, lineno as nat, range.start as int, range.end as int),
{
    let start = range.start;
    let end = range.end;
    let ghost bytes = line.spec_bytes();
    proof {
        lemma_boundary_prefix(bytes, start as int, end as int);
    }
    let (head, after) = line.split_at(end);
    let (before, mid) = head.split_at(start);
    proof {
        assert(head.spec_bytes().subrange(0, start as int) =~= bytes.subrange(0, start as int));
        assert(head.spec_bytes().subrange(start as int, head.spec_bytes().len() as int) =~= bytes.subrange(start as int, end as int));
        assert(before@ == decode_utf8(before.spec_bytes()));
        assert(mid@ == decode_utf8(mid.spec_bytes()));
        assert(after@ == decode_utf8(after.spec_bytes()));
        assert(after.spec_bytes() =~= bytes.subrange(end as int, bytes.len() as int));
        assert(before@ == byte_piece(line@, 0, start as int));
        assert(mid@ == byte_piece(line@, start as int, end as int));
        assert(after@ == byte_piece(line@, end as int, bytes.len() as int));
    }
    let x = paint_cyan(name);
    let num = decimal_string(lineno as u128);
    let y = paint_blue(num.as_str());
    let z = paint_red(mid);
    assemble_line(x.as_str(), y.as_str(), start, before, z.as_str(), after)
}

/// Puts a shown line together from its pieces, the painted ones as they
/// were painted: `name(lineno:column): before matched after` and a line
/// break, where the column is `start + 1`.
pub fn assemble_line(name: &str, lineno: &str, start: usize, before: &str, matched: &str, after: &str) -> (r: String)
    ensures
        r@ == name@ + "("@ + lineno@ + ":"@ + decimal((start + 1) as nat) + "): "@ + before@ + matched@ + after@ + "\n"@,
{
    let col = decimal_string(start as u128 + 1);
    let mut out = String::from_str(name);
    out.append("(");
    out.append(lineno);
    out.append(":");
    out.append(col.as_str());
    out.append("): ");
    out.append(before);
    out.append(matched);
    out.append(after);
    out.append("\n");
    proof {
        assert(out@ =~= name@ + "("@ + lineno@ + ":"@ + col@ + "): "@ + before@ + matched@ + after@ + "\n"@);
    }
    out
}

pub open spec fn opt_text(l: Option<String>) -> Option<Seq<char>> {
    match l {
        Some(s) => Some(s@),
        None => None,
    }
}

/// The indexes of the lines (among those that could be read) in which
/// `pattern` matches.
pub open spec fn hits(pattern: Seq<char>, lines: Seq<Option<Seq<char>>>) -> Seq<int>
    decreases lines.len(),
{
    if lines.len() == 0 {
        Seq::empty()
    } else {
        let before = hits(pattern, lines.drop_last());
        match lines.last() {
            Some(l) => if first_match_in(pattern, l) is Some {
                before.push(lines.len() - 1)
            } else {
                before
            },
            None => before,
        }
    }
}

/// Searches the lines of the file `name` in order; `None` stands for a line
/// that could not be read. Gives one shown line per line with a match,
/// numbered from 1 and with its first match highlighted.
pub fn grep_lines(name: &str, lines: &Vec<Option<String>>, pattern: &GrepPattern) -> (out: Vec<String>)
    ensures
        ({
            let ls = lines@.map_values(|l: Option<String>| opt_text(l));
            let hs = hits(pattern.source(), ls);
            &&& out@.len() == hs.len()
            &&& forall|j: int| 0 <= j < hs.len() ==> {
                let k = hs[j];
                let (s, e) = first_match_in(pattern.source(), ls[k]->0)->0;
                is_shown_line(
                    #[trigger] out@[j]@,
                    name@,
                    ls[k]->0,
                    (k + 1) as nat,
                    byte_offset(ls[k]->0, s),
                    byte_offset(ls[k]->0, e),
                )
            }
        }),
{
    let ghost ls = lines@.map_values(|l: Option<String>| opt_text(l));
    let ghost src = pattern.source();
    let n = lines.len();
    let mut out: Vec<String> = Vec::new();
    let mut i: usize = 0;
    while i < n
        invariant
            n == lines@.len(),
            i <= n,
            ls == lines@.map_values(|l: Option<String>| opt_text(l)),
            src == pattern.source(),
            ({
                let hs = hits(src, ls.take(i as int));
                &&& out@.len() == hs.len()
                &&& forall|j: int| 0 <= j < hs.len() ==> 0 <= #[trigger] hs[j] < i && {
                    let k = hs[j];
                    let (s, e) = first_match_in(src, ls[k]->0)->0;
                    is_shown_line(
                        out@[j]@,
                        name@,
                        ls[k]->0,
                        (k + 1) as nat,
                        byte_offset(ls[k]->0, s),
                        byte_offset(ls[k]->0, e),
                    )
                }
            }),
        decreases n - i,
    {
        proof {
            assert(ls.take(i + 1).drop_last() =~= ls.take(i as int));
            assert(ls.take(i + 1).last() == ls[i as int]);
        }
        match &lines[i] {
            Some(line) => {
                match find_first(pattern, line.as_str()) {
                    Some((before, matched, after)) => {
                        let total = line.as_str().as_bytes().len();
                        let start = before.as_str().as_bytes().len();
                        let len = matched.as_str().as_bytes().len();
                        proof {
                            let (b, m, a) = (before@, matched@, after@);
                            assert(line@ =~= b + (m + a));
                            assert(line@ =~= (b + m) + a);
                            lemma_encode_concat(b + m, a);
                            lemma_encode_concat(b, m);
                            lemma_boundary_concat(b, m + a);
                            lemma_boundary_concat(b + m, a);
                            assert(encode_utf8(line@) == encode_utf8(b + m) + encode_utf8(a));
                            assert(line@.take(b.len() as int) =~= b);
                            assert(line@.take((b.len() + m.len()) as int) =~= b + m);
                        }
                        let s = format_line(name, line.as_str(), i + 1, Range { start, end: start + len });
                        out.push(s);
                    },
                    None => {},
                }
            },
            None => {},
        }
        i = i + 1;
    }
    proof {
        assert(ls.take(n as int) =~= ls);
    }
    out
}


/// `p` occurs in `t` at character offset `i`.
pub open spec fn occurs_at(t: Seq<char>, p: Seq<char>, i: int) -> bool {
    0 <= i && i + p.len() <= t.len() && t.subrange(i, i + p.len()) == p
}

/// The character offset of the first occurrence of `p` in `t`.
pub fn find_plain(t: &str, p: &str) -> (r: Option<usize>)
    ensures
        match r {
            Some(i) => occurs_at(t@, p@, i as int) && forall|j: int| 0 <= j < i ==> !occurs_at(t@, p@, j),
            None => forall|j: int| !occurs_at(t@, p@, j),
        },
{
    let n = t.unicode_len();
    let m = p.unicode_len();
    if m > n {
        return None;
    }
    let mut i: usize = 0;
    while i <= n - m
        invariant
            n == t@.len(),
            m == p@.len(),
            m <= n,
            i <= n - m + 1,
            forall|j: int| 0 <= j < i ==> !occurs_at(t@, p@, j),
        decreases n - m + 1 - i,
    {
        let mut k: usize = 0;
        while k < m && t.get_char(i + k) == p.get_char(k)
            invariant
                n == t@.len(),
                m == p@.len(),
                i + m <= n,
                k <= m,
                forall|x: int| 0 <= x < k ==> t@[i + x] == p@[x],
            decreases m - k,
        {
            k = k + 1;
        }
        if k == m {
            proof {
                assert(t@.subrange(i as int, i + m) =~= p@);
            }
            return Some(i);
        }
        proof {
            if occurs_at(t@, p@, i as int) {
                assert(t@.subrange(i as int, i + m)[k as int] == t@[i + k]);
            }
        }
        i = i + 1;
    }
    proof {
        assert forall|j: int| !occurs_at(t@, p@, j) by {
            if j >= i {
                assert(j + m > n);
            }
        }
    }
    None
}

/// `s` padded on the left with zeros to at least `w` characters.
pub open spec fn zero_pad(s: Seq<char>, w: nat) -> Seq<char> {
    if s.len() >= w {
        s
    } else {
        Seq::new((w - s.len()) as nat, |i: int| '0') + s
    }
}

/// `out` shows the line `line` numbered `no`: the number, zero-padded to four
/// digits, in blue, then `: ` and the line with the characters `start..end`
/// in red.
pub open spec fn is_numbered_line(out: Seq<char>, no: nat, line: Seq<char>, start: int, end: int) -> bool {
    exists|y: Seq<char>, z: Seq<char>|
        #![trigger shown_as(zero_pad(decimal(no), 4), y, "34"@), shown_as(line.subrange(start, end), z, "31"@)]
        shown_as(zero_pad(decimal(no), 4), y, "34"@) && shown_as(line.subrange(start, end), z, "31"@)
            && out == y + ": "@ + line.take(start) + z + line.skip(end)
}

/// Shows a matching line with its number; the range counts characters.
pub fn format_numbered(no: usize, line: &str, range: Range<usize>) -> (r: String)
    requires
        range.start <= range.end <= line@.len(),
    ensures
        is_numbered_line(r@, no as nat, line@, range.start as int, range.end as int),
{
    let start = range.start;
    let end = range.end;
    let n = line.unicode_len();
    let num = decimal_string(no as u128);
    let len = num.as_str().unicode_len();
    let mut padded = String::new();
    let mut k: usize = len;
    while k < 4
        invariant
            len == num@.len(),
            len <= k,
            len < 4 ==> k <= 4,
            len >= 4 ==> k == len,
            padded@ == Seq::new((k - len) as nat, |i: int| '0'),
        decreases 4 - k,
    {
        proof {
            reveal_strlit("0");
        }
        padded.append("0");
        proof {
            assert(padded@ =~= Seq::new((k + 1 - len) as nat, |i: int| '0'));
        }
        k = k + 1;
    }
    let ghost pre = padded@;
    padded.append(num.as_str());
    proof {
        if len >= 4 {
            assert(pre =~= Seq::<char>::empty());
            assert(padded@ =~= num@);
        } else {
            assert(padded@ =~= Seq::new((4 - len) as nat, |i: int| '0') + num@);
        }
        assert(padded@ == zero_pad(decimal(no as nat), 4));
    }
    let y = paint_blue(padded.as_str());
    let mid = line.substring_char(start, end);
    let z = paint_red(mid);
    let before = line.substring_char(0, start);
    let after = line.substring_char(end, n);
    proof {
        assert(before@ =~= line@.take(start as int));
        assert(after@ =~= line@.skip(end as int));
    }
    assemble_numbered(y.as_str(), before, z.as_str(), after)
}

/// Puts a numbered line together from its pieces, the painted ones as they
/// were painted: `number: before matched after`.
pub fn assemble_numbered(number: &str, before: &str, matched: &str, after: &str) -> (r: String)
    ensures
        r@ == number@ + ": "@ + before@ + matched@ + after@,
{
    let mut out = String::from_str(number);
    out.append(": ");
    out.append(before);
    out.append(matched);
    out.append(after);
    proof {
        assert(out@ =~= number@ + ": "@ + before@ + matched@ + after@);
    }
    out
}

/// Looks for the pattern in one line and shows the line with its number
/// (`no`, not shifted) when it matches: the first match of the regular
/// expression, or of the plain text when `pattern` is `None`.
pub fn show_match(no: usize, line: &str, regex: Option<&GrepPattern>, plain: &str) -> (r: Option<String>)
    ensures
        match regex {
            Some(p) => match first_match_in(p.source(), line@) {
                None => r is None,
                Some((s, e)) => r matches Some(out) && is_numbered_line(out@, no as nat, line@, s, e),
            },
            None => (forall|j: int| !occurs_at(line@, plain@, j)) <==> r is None,
        },
        regex is None ==> (r matches Some(out) ==> exists|i: int|
            #![trigger occurs_at(line@, plain@, i)]
            occurs_at(line@, plain@, i) && (forall|j: int| 0 <= j < i ==> !occurs_at(line@, plain@, j))
                && is_numbered_line(out@, no as nat, line@, i, i + plain@.len())),
{
    let ll = line.unicode_len();
    match regex {
        Some(p) => match find_first(p, line) {
            Some((before, matched, after)) => {
                let start = before.as_str().unicode_len();
                let len = matched.as_str().unicode_len();
                proof {
                    assert((before@ + matched@ + after@).len() == before@.len() + matched@.len() + after@.len());
                }
                Some(format_numbered(no, line, Range { start, end: start + len }))
            },
            None => None,
        },
        None => match find_plain(line, plain) {
            Some(s) => {
                let m = plain.unicode_len();
                let out = format_numbered(no, line, Range { start: s, end: s + m });
                proof {
                    assert(occurs_at(line@, plain@, s as int));
                }
                Some(out)
            },
            None => None,
        },
    }
}

} // verus!
