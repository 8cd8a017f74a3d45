//! The messages of the key-value service: commands, responses, values.

pub mod value;

use vstd::prelude::*;
use vstd::string::StringExecFns;
use crate::kv::error::KvError;

verus! {

/// A stored value; `value` is `None` for the empty value.
#[derive(Debug, Clone, PartialEq, PartialOrd)]
pub struct Value {
    pub value: Option<value::Value>,
}

/// A key with its value.
#[derive(Debug, Clone, PartialEq, PartialOrd)]
pub struct Kvpair {
    pub key: String,
    pub value: Option<Value>,
}

/// A command.
#[derive(Debug, Clone, PartialEq)]
pub struct CmdReq {
    pub req_data: Option<ReqData>,
}

#[derive(Debug, Clone, PartialEq)]
pub enum ReqData {
    Hget(Hget),
    Hgetall(Hgetall),
    Hmget(Hmget),
    Hset(Hset),
    Hmset(Hmset),
    Hdel(Hdel),
    Hmdel(Hmdel),
    Hexist(Hexist),
    Hmexist(Hmexist),
}

/// The answer to a command: an HTTP-like status, a message for errors, and
/// the values or pairs the command yields.
#[derive(Debug, Clone, PartialEq)]
pub struct CmdRes {
    pub status: u32,
    pub message: String,
    pub values: Vec<Value>,
    pub pairs: Vec<Kvpair>,
}

/// The value under `key` in `table`.
#[derive(Debug, Clone, PartialEq)]
pub struct Hget {
    pub table: String,
    pub key: String,
}

/// All pairs of `table`.
#[derive(Debug, Clone, PartialEq)]
pub struct Hgetall {
    pub table: String,
}

/// The values under `keys` in `table`.
#[derive(Debug, Clone, PartialEq)]
pub struct Hmget {
    pub table: String,
    pub keys: Vec<String>,
}

/// Sets a pair in `table`.
#[derive(Debug, Clone, PartialEq)]
pub struct Hset {
    pub table: String,
    pub pair: Option<Kvpair>,
}

/// Sets pairs in `table`.
#[derive(Debug, Clone, PartialEq)]
pub struct Hmset {
    pub table: String,
    pub pairs: Vec<Kvpair>,
}

/// Deletes `key` from `table`.
#[derive(Debug, Clone, PartialEq)]
pub struct Hdel {
    pub table: String,
    pub key: String,
}

/// Deletes `keys` from `table`.
#[derive(Debug, Clone, PartialEq)]
pub struct Hmdel {
    pub table: String,
    pub keys: Vec<String>,
}

/// Whether `table` holds `key`.
#[derive(Debug, Clone, PartialEq)]
pub struct Hexist {
    pub table: String,
    pub key: String,
}

/// Whether `table` holds every one of `keys`.
#[derive(Debug, Clone, PartialEq)]
pub struct Hmexist {
    pub table: String,
    pub keys: Vec<String>,
}

/// The abstract value: empty, or one of the kinds of content.
pub enum ValueView {
    Empty,
    Str(Seq<char>),
    Int(i64),
    Bool(bool),
}

pub struct KvpairView {
    pub key: Seq<char>,
    pub value: Option<ValueView>,
}

impl View for Value {
    type V = ValueView;

    open spec fn view(&self) -> ValueView {
        match self.value {
            None => ValueView::Empty,
            Some(value::Value::String(s)) => ValueView::Str(s@),
            Some(value::Value::Integer(n)) => ValueView::Int(n),
            Some(value::Value::Bool(b)) => ValueView::Bool(b),
        }
    }
}

impl View for Kvpair {
    type V = KvpairView;

    open spec fn view(&self) -> KvpairView {
        KvpairView {
            key: self.key@,
            value: match self.value {
                None => None,
                Some(v) => Some(v@),
            },
        }
    }
}

pub struct CmdResView {
    pub status: u32,
    pub message: Seq<char>,
    pub values: Seq<ValueView>,
    pub pairs: Seq<KvpairView>,
}

impl View for CmdRes {
    type V = CmdResView;

    open spec fn view(&self) -> CmdResView {
        CmdResView {
            status: self.status,
            message: self.message@,
            values: values_view(self.values@),
            pairs: pairs_view(self.pairs@),
        }
    }
}

pub open spec fn keys_view(ks: Seq<String>) -> Seq<Seq<char>> {
    ks.map_values(|k: String| k@)
}

pub open spec fn values_view(vs: Seq<Value>) -> Seq<ValueView> {
    vs.map_values(|v: Value| v@)
}

pub open spec fn pairs_view(ps: Seq<Kvpair>) -> Seq<KvpairView> {
    ps.map_values(|p: Kvpair| p@)
}

impl Value {
    /// The empty value.
    pub fn none() -> (v: Self)
        ensures
            v.value is None,
    {
        Value { value: None }
    }

    /// A copy with the same content.
    pub fn duplicate(&self) -> (v: Self)
        ensures
            v@ == self@,
    {
        match &self.value {
            None => Value { value: None },
            Some(value::Value::String(s)) => Value { value: Some(value::Value::String(s.clone())) },
            Some(value::Value::Integer(n)) => Value { value: Some(value::Value::Integer(*n)) },
            Some(value::Value::Bool(b)) => Value { value: Some(value::Value::Bool(*b)) },
        }
    }
}

impl Default for Value {
    fn default() -> (v: Self)
        ensures
            v.value is None,
    {
        Value { value: None }
    }
}

impl From<i64> for Value {
    fn from(n: i64) -> (v: Self) {
        Value { value: Some(value::Value::Integer(n)) }
    }
}

impl vstd::std_specs::convert::FromSpecImpl<i64> for Value {
    open spec fn obeys_from_spec() -> bool {
        true
    }

    open spec fn from_spec(n: i64) -> Value {
        Value { value: Some(value::Value::Integer(n)) }
    }
}

impl From<bool> for Value {
    fn from(b: bool) -> (v: Self) {
        Value { value: Some(value::Value::Bool(b)) }
    }
}

impl vstd::std_specs::convert::FromSpecImpl<bool> for Value {
    open spec fn obeys_from_spec() -> bool {
        true
    }

    open spec fn from_spec(b: bool) -> Value {
        Value { value: Some(value::Value::Bool(b)) }
    }
}

impl From<String> for Value {
    fn from(s: String) -> (v: Self) {
        Value { value: Some(value::Value::String(s)) }
    }
}

impl vstd::std_specs::convert::FromSpecImpl<String> for Value {
    open spec fn obeys_from_spec() -> bool {
        true
    }

    open spec fn from_spec(s: String) -> Value {
        Value { value: Some(value::Value::String(s)) }
    }
}

impl Kvpair {
    /// A new pair of `key` and `value`.
    pub fn new(key: &str, value: Value) -> (p: Self)
        ensures
            p.key@ == key@,
            p.value == Some(value),
    {
        Kvpair { key: String::from_str(key), value: Some(value) }
    }
}


/// `http::StatusCode::OK` as a number: 200, as the http crate defines it.
#[verifier::external_body]
fn status_ok() -> (code: u32)
    ensures
        code == 200,
{
    http::StatusCode::OK.as_u16() as u32
}

/// `http::StatusCode::NOT_FOUND` as a number: 404, as the http crate defines it.
#[verifier::external_body]
fn status_not_found() -> (code: u32)
    ensures
        code == 404,
{
    http::StatusCode::NOT_FOUND.as_u16() as u32
}

/// `http::StatusCode::BAD_REQUEST` as a number: 400, as the http crate defines it.
#[verifier::external_body]
fn status_bad_request() -> (code: u32)
    ensures
        code == 400,
{
    http::StatusCode::BAD_REQUEST.as_u16() as u32
}

/// `http::StatusCode::INTERNAL_SERVER_ERROR` as a number: 500, as the http
/// crate defines it.
#[verifier::external_body]
fn status_internal_server_error() -> (code: u32)
    ensures
        code == 500,
{
    http::StatusCode::INTERNAL_SERVER_ERROR.as_u16() as u32
}

/// The status that answers an error.
pub open spec fn error_status(e: KvError) -> u32 {
    match e {
        KvError::NotFound(_, _) => 404,
        KvError::InvalidCmd(_) => 400,
        _ => 500,
    }
}

/// A successful answer with the given values and pairs.
pub open spec fn ok_view(values: Seq<ValueView>, pairs: Seq<KvpairView>) -> CmdResView {
    CmdResView { status: 200, message: Seq::empty(), values, pairs }
}

/// The answer to an error.
pub open spec fn error_view(e: KvError) -> CmdResView {
    CmdResView { status: error_status(e), message: e.spec_message(), values: Seq::empty(), pairs: Seq::empty() }
}

impl CmdRes {
    /// A successful answer without values or pairs.
    pub fn ok() -> (r: Self)
        ensures
            r@ == ok_view(Seq::empty(), Seq::empty()),
    {
        let r = CmdRes { status: status_ok(), message: String::new(), values: Vec::new(), pairs: Vec::new() };
        proof {
            assert(r@.values =~= Seq::<ValueView>::empty());
            assert(r@.pairs =~= Seq::<KvpairView>::empty());
        }
        r
    }

    /// A successful answer with the one value `b`.
    pub fn bool(b: bool) -> (r: Self)
        ensures
            r@ == ok_view(seq![ValueView::Bool(b)], Seq::empty()),
    {
        Self::from_value(Value { value: Some(value::Value::Bool(b)) })
    }

    /// A successful answer with the one value `v`.
    pub fn from_value(v: Value) -> (r: Self)
        ensures
            r@ == ok_view(seq![v@], Seq::empty()),
    {
        let mut values = Vec::new();
        values.push(v);
        let r = CmdRes { status: status_ok(), message: String::new(), values, pairs: Vec::new() };
        proof {
            assert(r@.values =~= seq![v@]);
            assert(r@.pairs =~= Seq::<KvpairView>::empty());
        }
        r
    }

    /// A successful answer with the values `values`.
    pub fn from_values(values: Vec<Value>) -> (r: Self)
        ensures
            r@ == ok_view(values_view(values@), Seq::empty()),
            r.values == values,
            r.pairs@.len() == 0,
    {
        let r = CmdRes { status: status_ok(), message: String::new(), values, pairs: Vec::new() };
        proof {
            assert(r@.pairs =~= Seq::<KvpairView>::empty());
        }
        r
    }

    /// A successful answer with the pairs `pairs`.
    pub fn from_pairs(pairs: Vec<Kvpair>) -> (r: Self)
        ensures
            r@ == ok_view(Seq::empty(), pairs_view(pairs@)),
            r.pairs == pairs,
            r.values@.len() == 0,
    {
        let r = CmdRes { status: status_ok(), message: String::new(), values: Vec::new(), pairs };
        proof {
            assert(r@.values =~= Seq::<ValueView>::empty());
        }
        r
    }

    /// The answer to an error: 404 when nothing is found, 400 for a command
    /// that cannot be carried out, 500 otherwise; the error's text as the
    /// message.
    pub fn from_error(e: KvError) -> (r: Self)
        ensures
            r@ == error_view(e),
    {
        let status = match &e {
            KvError::NotFound(_, _) => status_not_found(),
            KvError::InvalidCmd(_) => status_bad_request(),
            _ => status_internal_server_error(),
        };
        let r = CmdRes { status, message: e.message(), values: Vec::new(), pairs: Vec::new() };
        proof {
            assert(r@.values =~= Seq::<ValueView>::empty());
            assert(r@.pairs =~= Seq::<KvpairView>::empty());
        }
        r
    }
}

impl CmdReq {
    pub fn new_hget(table: &str, key: &str) -> (r: Self)
        ensures
            r.req_data matches Some(ReqData::Hget(c)) && c.table@ == table@ && c.key@ == key@,
    {
        CmdReq { req_data: Some(ReqData::Hget(Hget { table: String::from_str(table), key: String::from_str(key) })) }
    }

    pub fn new_hgetall(table: &str) -> (r: Self)
        ensures
            r.req_data matches Some(ReqData::Hgetall(c)) && c.table@ == table@,
    {
        CmdReq { req_data: Some(ReqData::Hgetall(Hgetall { table: String::from_str(table) })) }
    }

    pub fn new_hmget(table: &str, keys: Vec<String>) -> (r: Self)
        ensures
            r.req_data matches Some(ReqData::Hmget(c)) && c.table@ == table@ && c.keys == keys,
    {
        CmdReq { req_data: Some(ReqData::Hmget(Hmget { table: String::from_str(table), keys })) }
    }

    pub fn new_hset(table: &str, key: &str, value: Value) -> (r: Self)
        ensures
            r.req_data matches Some(ReqData::Hset(c)) && c.table@ == table@
                && (c.pair matches Some(p) && p.key@ == key@ && p.value == Some(value)),
    {
        CmdReq {
            req_data: Some(ReqData::Hset(Hset { table: String::from_str(table), pair: Some(Kvpair::new(key, value)) })),
        }
    }

    pub fn new_hmset(table: &str, pairs: Vec<Kvpair>) -> (r: Self)
        ensures
            r.req_data matches Some(ReqData::Hmset(c)) && c.table@ == table@ && c.pairs == pairs,
    {
        CmdReq { req_data: Some(ReqData::Hmset(Hmset { table: String::from_str(table), pairs })) }
    }

    pub fn new_hdel(table: &str, key: &str) -> (r: Self)
        ensures
            r.req_data matches Some(ReqData::Hdel(c)) && c.table@ == table@ && c.key@ == key@,
    {
        CmdReq { req_data: Some(ReqData::Hdel(Hdel { table: String::from_str(table), key: String::from_str(key) })) }
    }

    pub fn new_hmdel(table: &str, keys: Vec<String>) -> (r: Self)
        ensures
            r.req_data matches Some(ReqData::Hmdel(c)) && c.table@ == table@ && c.keys == keys,
    {
        CmdReq { req_data: Some(ReqData::Hmdel(Hmdel { table: String::from_str(table), keys })) }
    }

    pub fn new_hexist(table: &str, key: &str) -> (r: Self)
        ensures
            r.req_data matches Some(ReqData::Hexist(c)) && c.table@ == table@ && c.key@ == key@,
    {
        CmdReq { req_data: Some(ReqData::Hexist(Hexist { table: String::from_str(table), key: String::from_str(key) })) }
    }

    pub fn new_hmexist(table: &str, keys: Vec<String>) -> (r: Self)
        ensures
            r.req_data matches Some(ReqData::Hmexist(c)) && c.table@ == table@ && c.keys == keys,
    {
        CmdReq { req_data: Some(ReqData::Hmexist(Hmexist { table: String::from_str(table), keys })) }
    }
}

} // verus!
