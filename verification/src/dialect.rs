//! The identifier rules of a SQL dialect in which a plain URL can stand as a
//! table name.

use vstd::prelude::*;

verus! {

/// A SQL dialect: identifiers start with an ASCII letter or `_`, and go on
/// with ASCII letters, digits and the characters `: / ? & = - _ .`.
#[derive(Debug)]
pub struct XlDialect;

impl Default for XlDialect {
    fn default() -> (d: Self)
        ensures
            d == XlDialect,
    {
        XlDialect
    }
}

pub open spec fn is_ascii_letter(ch: char) -> bool {
    ('a' <= ch <= 'z') || ('A' <= ch <= 'Z')
}

pub open spec fn spec_identifier_start(ch: char) -> bool {
    is_ascii_letter(ch) || ch == '_'
}

pub open spec fn spec_identifier_part(ch: char) -> bool {
    ||| is_ascii_letter(ch)
    ||| '0' <= ch <= '9'
    ||| ch == ':' || ch == '/' || ch == '?' || ch == '&'
    ||| ch == '=' || ch == '-' || ch == '_' || ch == '.'
}

/// Every ASCII letter and digit, and each of `: / ? & = - _ .`, continues an
/// identifier, and nothing else does; so whatever starts an identifier can
/// also continue one.
pub proof fn lemma_identifier_chars(ch: char)
    ensures
        spec_identifier_part(ch) <==> {
            ||| 'a' <= ch && ch <= 'z'
            ||| 'A' <= ch && ch <= 'Z'
            ||| '0' <= ch && ch <= '9'
            ||| ch == ':' || ch == '/' || ch == '?' || ch == '&' || ch == '=' || ch == '-' || ch == '_' || ch == '.'
        },
        spec_identifier_start(ch) <==> ('a' <= ch && ch <= 'z') || ('A' <= ch && ch <= 'Z') || ch == '_',
        spec_identifier_start(ch) ==> spec_identifier_part(ch),
{
}

impl XlDialect {
    pub fn is_identifier_start(&self, ch: char) -> (b: bool)
        ensures
            b == spec_identifier_start(ch),
    {
        ('a' <= ch && ch <= 'z') || ('A' <= ch && ch <= 'Z') || ch == '_'
    }

    pub fn is_identifier_part(&self, ch: char) -> (b: bool)
        ensures
            b == spec_identifier_part(ch),
    {
        ('a' <= ch && ch <= 'z') || ('A' <= ch && ch <= 'Z') || ('0' <= ch && ch <= '9') || ch == ':' || ch == '/'
            || ch == '?' || ch == '&' || ch == '=' || ch == '-' || ch == '_' || ch == '.'
    }
}

} // verus!
