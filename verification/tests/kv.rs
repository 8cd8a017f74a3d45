use tyr_rust::kv::service::{del_answer, exist_answer, found_value, get_all_answer, get_answer, is_present, set_answer};
use tyr_rust::kv::value;
use tyr_rust::kv::{dispatch, CmdReq, CmdRes, Hset, KvError, Kvpair, MemTable, ReqData, Service, Storage, Value};

fn assert_res_ok(mut res: CmdRes, values: &[Value], pairs: &[Kvpair]) {
    res.pairs.sort_by(|a, b| a.partial_cmp(b).unwrap());
    assert_eq!(res.status, 200);
    assert_eq!(res.message, "");
    assert_eq!(res.values, values);
    assert_eq!(res.pairs, pairs);
}

fn assert_res_err(res: CmdRes, code: u32, msg: &str) {
    assert_eq!(res.status, code);
    assert!(res.message.contains(msg));
    assert_eq!(res.values, &[]);
    assert_eq!(res.pairs, &[]);
}

fn assert_ok(res: CmdRes) {
    assert_res_ok(res, &[], &[]);
}

fn s(v: &str) -> Value {
    v.to_string().into()
}

#[test]
fn lib_it_works() {
    assert_eq!(2 + 2, 4);
}

#[test]
fn mod_it_works() {
    let v = Kvpair::new("hello", s("world"));
    assert_eq!(
        v,
        Kvpair {
            key: "hello".to_string(),
            value: Some(Value {
                value: Some(value::Value::String("world".to_string()))
            })
        }
    );

    assert_eq!(
        CmdReq::new_hset("table", "hello", 1.into()),
        CmdReq {
            req_data: Some(ReqData::Hset(Hset {
                table: "table".to_string(),
                pair: Some(Kvpair::new("hello", 1.into()))
            }))
        }
    );
}

#[test]
fn hset_should_work() {
    let mut store = MemTable::new();
    let cmd = CmdReq::new_hset("t", "k", 1.into());
    let res = dispatch(cmd.clone(), &mut store);
    assert_res_ok(res, &[Value::default()], &[]);

    let res = dispatch(cmd, &mut store);
    assert_res_ok(res, &[1.into()], &[]);
}

#[test]
fn hmset_should_work() {
    let mut store = MemTable::new();
    let pairs = vec![
        Kvpair::new("k1", s("v1")),
        Kvpair::new("k2", 2.into()),
        Kvpair::new("k3", 3.into()),
    ];
    let cmd = CmdReq::new_hmset("t1", pairs);
    let res = dispatch(cmd.clone(), &mut store);
    assert_ok(res);

    let res = dispatch(cmd, &mut store);
    assert_ok(res);
}

#[test]
fn hget_should_work() {
    let mut store = MemTable::new();
    let cmd = CmdReq::new_hset("t", "k", 1.into());
    dispatch(cmd, &mut store);
    let cmd = CmdReq::new_hget("t", "k");
    let res = dispatch(cmd, &mut store);
    assert_res_ok(res, &[1.into()], &[]);
}

#[test]
fn hexist_should_work() {
    let mut store = MemTable::new();
    dispatch(CmdReq::new_hset("t", "k", 1.into()), &mut store);
    let res = dispatch(CmdReq::new_hexist("t", "k"), &mut store);
    assert_res_ok(res, &[true.into()], &[]);

    let res = dispatch(CmdReq::new_hexist("t", "n"), &mut store);
    assert_res_ok(res, &[false.into()], &[]);
    let res = dispatch(CmdReq::new_hexist("t1", "k"), &mut store);
    assert_res_ok(res, &[false.into()], &[]);
}

#[test]
fn hdel_should_work() {
    let mut store = MemTable::new();
    let cmd = CmdReq::new_hset("t", "k", 1.into());
    dispatch(cmd, &mut store);
    let cmd = CmdReq::new_hdel("t", "k");
    let res = dispatch(cmd.clone(), &mut store);
    assert_res_ok(res, &[1.into()], &[]);

    let res = dispatch(cmd, &mut store);
    assert_res_ok(res, &[Value::default()], &[]);
}

#[test]
fn hmget_should_work() {
    let mut store = MemTable::new();
    let pairs = vec![
        Kvpair::new("k1", s("v1")),
        Kvpair::new("k2", 2.into()),
        Kvpair::new("k3", 3.into()),
        Kvpair::new("k1", 1.into()),
    ];
    let cmd = CmdReq::new_hmset("t1", pairs);
    dispatch(cmd, &mut store);

    let keys = vec![
        "k1".to_string(),
        "k2".to_string(),
        "k3".to_string(),
        "k4".to_string(),
    ];
    let cmd = CmdReq::new_hmget("t1", keys);
    let res = dispatch(cmd, &mut store);
    assert_res_ok(res, &[1.into(), 2.into(), 3.into(), Value::none()], &[]);
}

#[test]
fn hmexist_should_work() {
    let mut store = MemTable::new();
    let pairs = vec![
        Kvpair::new("k1", s("v1")),
        Kvpair::new("k2", 2.into()),
        Kvpair::new("k3", 3.into()),
    ];
    let cmd = CmdReq::new_hmset("t1", pairs);
    dispatch(cmd, &mut store);

    let keys = vec!["k1".to_string(), "k2".to_string()];
    let cmd = CmdReq::new_hmexist("t1", keys.clone());
    let res = dispatch(cmd, &mut store);
    assert_res_ok(res, &[true.into()], &[]);

    let cmd = CmdReq::new_hmexist("t", keys);
    let res = dispatch(cmd, &mut store);
    assert_res_ok(res, &[false.into()], &[]);

    let cmd = CmdReq::new_hmexist(
        "t1",
        vec!["k1".to_string(), "k2".to_string(), "n".to_string()],
    );
    let res = dispatch(cmd, &mut store);
    assert_res_ok(res, &[false.into()], &[]);
}

#[test]
fn hmdel_should_work() {
    let mut store = MemTable::new();
    let pairs = vec![
        Kvpair::new("k1", s("v1")),
        Kvpair::new("k2", 2.into()),
        Kvpair::new("k3", 3.into()),
        Kvpair::new("k1", 1.into()),
    ];
    let cmd = CmdReq::new_hmset("t1", pairs);
    dispatch(cmd, &mut store);

    let keys = vec![
        "k1".to_string(),
        "k2".to_string(),
        "k3".to_string(),
        "k4".to_string(),
    ];
    let cmd = CmdReq::new_hmdel("t1", keys);
    let res = dispatch(cmd.clone(), &mut store);
    assert_res_ok(res, &[1.into(), 2.into(), 3.into(), Value::none()], &[]);

    let res = dispatch(cmd, &mut store);
    assert_res_ok(
        res,
        &[Value::none(), Value::none(), Value::none(), Value::none()],
        &[],
    );
}

#[test]
fn hget_with_non_exist_key_should_return_404() {
    let mut store = MemTable::new();
    let cmd = CmdReq::new_hget("t", "u");
    let res = dispatch(cmd, &mut store);
    assert_res_err(res, 404, "Not found");
}

#[test]
fn hget_all_should_work() {
    let mut store = MemTable::new();
    let cmds = vec![
        CmdReq::new_hset("t", "u1", 1.into()),
        CmdReq::new_hset("t", "u2", 2.into()),
        CmdReq::new_hset("t", "u3", 3.into()),
        CmdReq::new_hset("t", "u1", 4.into()),
    ];
    for cmd in cmds {
        dispatch(cmd, &mut store);
    }
    let cmd = CmdReq::new_hgetall("t");
    let res = dispatch(cmd, &mut store);
    let pairs = &[
        Kvpair::new("u1", 4.into()),
        Kvpair::new("u2", 2.into()),
        Kvpair::new("u3", 3.into()),
    ];
    assert_res_ok(res, &[], pairs);
}

#[test]
fn memtable_basic_interface_should_work() {
    let mut store = MemTable::new();
    // the first set creates the table, inserts the key and returns None
    let v = store.set("t1", "k".to_string(), 1.into());
    assert!(v.unwrap().is_none());
    // setting the same key again updates it and returns the previous value
    let v = store.set("t1", "k".to_string(), 2.into());
    assert_eq!(v.unwrap(), Some(1.into()));
    // get of an existing key gives the latest value
    let v = store.get("t1", "k");
    assert_eq!(v.unwrap(), Some(2.into()));
    // get of a missing key or table gives None
    assert!(store.get("t1", "k1").unwrap().is_none());
    assert!(store.get("t", "k").unwrap().is_none());
    // contains is true for an existing key, false otherwise
    assert_eq!(store.contains("t1", "k").unwrap(), true);
    assert_eq!(store.contains("t1", "k1").unwrap(), false);
    assert_eq!(store.contains("t", "k").unwrap(), false);
    // del of an existing key returns its value
    let v = store.del("t1", "k");
    assert_eq!(v.unwrap(), Some(2.into()));
    // del of a missing key or table returns None
    let v = store.del("t1", "k");
    assert!(v.unwrap().is_none());
}

#[test]
fn memtable_get_all_should_work() {
    let mut store = MemTable::new();
    assert!(store.set("t", "k1".to_string(), 1.into()).is_ok());
    assert!(store.set("t", "k2".to_string(), s("two")).is_ok());
    let mut v = store.get_all("t").unwrap();
    v.sort_by(|a, b| a.partial_cmp(b).unwrap());
    assert_eq!(v, vec![Kvpair::new("k1", 1.into()), Kvpair::new("k2", s("two"))]);
}

#[test]
fn memtable_get_iter_should_work() {
    let _store = MemTable::new();
}

#[test]
fn service_hset_then_hget() {
    let mut service = Service::new(MemTable::new());
    let res = service.execute(CmdReq::new_hset("t1", "k1", s("v1")));
    assert_res_ok(res, &[Value::default()], &[]);
    let res = service.execute(CmdReq::new_hget("t1", "k1"));
    assert_res_ok(res, &[s("v1")], &[]);
}

#[test]
fn hset_without_pair_answers_the_empty_value() {
    let mut store = MemTable::new();
    let cmd = CmdReq { req_data: Some(ReqData::Hset(Hset { table: "t".to_string(), pair: None })) };
    let res = dispatch(cmd, &mut store);
    assert_res_ok(res, &[Value::default()], &[]);
    assert!(store.get_all("t").unwrap().is_empty());
}

#[test]
fn hset_with_empty_value_stores_the_empty_value() {
    let mut store = MemTable::new();
    let cmd = CmdReq {
        req_data: Some(ReqData::Hset(Hset {
            table: "t".to_string(),
            pair: Some(Kvpair { key: "k".to_string(), value: None }),
        })),
    };
    dispatch(cmd, &mut store);
    assert_eq!(store.get("t", "k").unwrap(), Some(Value::none()));
}

#[test]
fn hmset_last_pair_wins_and_tables_are_separate() {
    let mut store = MemTable::new();
    dispatch(CmdReq::new_hmset("a", vec![Kvpair::new("k", 1.into()), Kvpair::new("k", 5.into())]), &mut store);
    dispatch(CmdReq::new_hset("b", "k", 7.into()), &mut store);
    let res = dispatch(CmdReq::new_hmget("a", vec!["k".to_string()]), &mut store);
    assert_res_ok(res, &[5.into()], &[]);
    let res = dispatch(CmdReq::new_hget("b", "k"), &mut store);
    assert_res_ok(res, &[7.into()], &[]);
}

#[test]
fn hmdel_with_repeated_key_finds_it_once() {
    let mut store = MemTable::new();
    dispatch(CmdReq::new_hset("t", "k", 1.into()), &mut store);
    let res = dispatch(CmdReq::new_hmdel("t", vec!["k".to_string(), "k".to_string()]), &mut store);
    assert_res_ok(res, &[1.into(), Value::none()], &[]);
}

#[test]
fn error_answers_have_their_status_and_text() {
    let res = CmdRes::from_error(KvError::NotFound("t".to_string(), "k".to_string()));
    assert_eq!(res.status, 404);
    assert_eq!(res.message, "Not found for table: t, key: k");
    let res = CmdRes::from_error(KvError::InvalidCmd("x".to_string()));
    assert_eq!(res.status, 400);
    assert_eq!(res.message, "Cannot parse command: `x`");
    let res = CmdRes::from_error(KvError::Internal("disk".to_string()));
    assert_eq!(res.status, 500);
    assert_eq!(res.message, "Internal error: disk");
}

#[test]
fn ok_and_bool_answers() {
    let res = CmdRes::ok();
    assert_eq!(res.status, 200);
    assert!(res.values.is_empty() && res.pairs.is_empty() && res.message.is_empty());
    let res = CmdRes::bool(true);
    assert_eq!(res.values, vec![Value { value: Some(value::Value::Bool(true)) }]);
}

#[test]
fn hget_after_hdel_is_not_found() {
    let mut store = MemTable::new();
    dispatch(CmdReq::new_hset("t", "k", 1.into()), &mut store);
    dispatch(CmdReq::new_hdel("t", "k"), &mut store);
    let res = dispatch(CmdReq::new_hget("t", "k"), &mut store);
    assert_res_err(res, 404, "Not found for table: t, key: k");
    let res = dispatch(CmdReq::new_hexist("t", "k"), &mut store);
    assert_res_ok(res, &[false.into()], &[]);
}

#[test]
fn answers_follow_what_the_storage_gave() {
    let err = || KvError::Internal("disk".to_string());

    assert_res_ok(get_answer("t".to_string(), "k".to_string(), Ok(Some(1.into()))), &[1.into()], &[]);
    assert_res_err(get_answer("t".to_string(), "k".to_string(), Ok(None)), 404, "Not found for table: t, key: k");
    assert_res_err(get_answer("t".to_string(), "k".to_string(), Err(err())), 500, "Internal error: disk");

    assert_res_ok(set_answer(Ok(Some(2.into()))), &[2.into()], &[]);
    assert_res_ok(set_answer(Ok(None)), &[Value::default()], &[]);
    assert_res_err(set_answer(Err(err())), 500, "disk");

    let pairs = vec![Kvpair::new("a", 1.into())];
    assert_res_ok(get_all_answer(Ok(pairs.clone())), &[], &pairs);
    assert_res_err(get_all_answer(Err(err())), 500, "disk");

    assert_res_ok(del_answer(Ok(Some(3.into()))), &[3.into()], &[]);
    assert_res_ok(del_answer(Ok(None)), &[Value::none()], &[]);
    assert_res_ok(del_answer(Err(err())), &[Value::none()], &[]);

    assert_eq!(found_value(Ok(Some(4.into()))), 4.into());
    assert_eq!(found_value(Err(err())), Value::none());

    assert!(is_present(Ok(true)));
    assert!(!is_present(Ok(false)));
    assert!(!is_present(Err(err())));
    assert_res_ok(exist_answer(Ok(true)), &[true.into()], &[]);
    assert_res_ok(exist_answer(Err(err())), &[false.into()], &[]);
}
