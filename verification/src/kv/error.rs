//! Errors of the key-value service.

use vstd::prelude::*;
use vstd::string::StringExecFns;

verus! {

#[derive(Debug, Clone, PartialEq)]
pub enum KvError {
    /// No value under the key in the table: `NotFound(table, key)`.
    NotFound(String, String),
    /// The command cannot be carried out as given.
    InvalidCmd(String),
    /// The storage failed.
    Internal(String),
}

impl KvError {
    /// The text that explains the error.
    pub open spec fn spec_message(&self) -> Seq<char> {
        match self {
            KvError::NotFound(t, k) => "Not found for table: "@ + t@ + ", key: "@ + k@,
            KvError::InvalidCmd(c) => "Cannot parse command: `"@ + c@ + "`"@,
            KvError::Internal(m) => "Internal error: "@ + m@,
        }
    }

    pub fn message(&self) -> (m: String)
        ensures
            m@ == self.spec_message(),
    {
        match self {
            KvError::NotFound(t, k) => {
                let mut m = String::from_str("Not found for table: ");
                m.append(t.as_str());
                m.append(", key: ");
                m.append(k.as_str());
                m
            },
            KvError::InvalidCmd(c) => {
                let mut m = String::from_str("Cannot parse command: `");
                m.append(c.as_str());
                m.append("`");
                m
            },
            KvError::Internal(s) => {
                let mut m = String::from_str("Internal error: ");
                m.append(s.as_str());
                m
            },
        }
    }
}

} // verus!
