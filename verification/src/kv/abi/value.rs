//! The variants a stored value can take.

use vstd::prelude::*;

verus! {

#[derive(Debug, Clone, PartialEq, PartialOrd)]
pub enum Value {
    String(String),
    Integer(i64),
    Bool(bool),
}

} // verus!
