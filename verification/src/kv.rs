//! A key-value command service: the command and response messages, the
//! storage abstraction with an in-memory table, and the command handlers.

pub mod abi;
pub mod error;
pub mod service;
pub mod storage;

pub use abi::value;
pub use abi::{
    CmdReq, CmdRes, Hdel, Hexist, Hget, Hgetall, Hmdel, Hmexist, Hmget, Hmset, Hset, Kvpair,
    ReqData, Value,
};
pub use error::KvError;
pub use service::{dispatch, CmdService, Service, ServiceInner};
pub use storage::{MemTable, Storage};


