//! The command handlers and the service that dispatches commands to them.

use vstd::prelude::*;
use crate::kv::abi::{
    error_view, keys_view, ok_view, pairs_view, values_view, CmdReq, CmdRes, CmdResView, Hdel, Hexist, Hget, Hgetall, Hmdel, Hmexist, Hmget,
    Hmset, Hset, Kvpair, ReqData, Value, ValueView, KvpairView,
};
use crate::kv::error::KvError;
use crate::kv::storage::{found_view, lists_table, lookup, outcome, MemTable, Storage, StoreView};

verus! {

pub open spec fn value_or_empty(v: Option<ValueView>) -> ValueView {
    match v {
        Some(x) => x,
        None => ValueView::Empty,
    }
}

/// The value that `Hset` stores for a pair: its value, or the empty value.
pub open spec fn pair_value(p: Kvpair) -> ValueView {
    match p.value {
        Some(v) => v@,
        None => ValueView::Empty,
    }
}

/// The storage after setting the pairs `ps` in `table` one after another.
pub open spec fn set_all(m: StoreView, table: Seq<char>, ps: Seq<Kvpair>) -> StoreView
    decreases ps.len(),
{
    if ps.len() == 0 {
        m
    } else {
        set_all(m, table, ps.drop_last()).insert((table, ps.last().key@), pair_value(ps.last()))
    }
}

/// The storage after deleting `keys` from `table` one after another, and the
/// value each deletion found.
pub open spec fn del_all(m: StoreView, table: Seq<char>, keys: Seq<Seq<char>>) -> (StoreView, Seq<ValueView>)
    decreases keys.len(),
{
    if keys.len() == 0 {
        (m, Seq::empty())
    } else {
        let (m1, vs) = del_all(m, table, keys.drop_last());
        (m1.remove((table, keys.last())), vs.push(value_or_empty(lookup(m1, table, keys.last()))))
    }
}

/// Every one of `keys` is present in `table`.
pub open spec fn all_present(m: StoreView, table: Seq<char>, keys: Seq<String>) -> bool {
    forall|i: int| 0 <= i < keys.len() ==> m.contains_key((table, #[trigger] keys[i]@))
}

/// What a command does on a reliable storage: from the storage `m` it leads
/// to the storage `m2` and answers `res`.
pub open spec fn responds(d: ReqData, m: StoreView, m2: StoreView, res: CmdRes) -> bool {
    match d {
        ReqData::Hget(c) => m2 == m && res@ == match lookup(m, c.table@, c.key@) {
            Some(v) => ok_view(seq![v], Seq::empty()),
            None => error_view(KvError::NotFound(c.table, c.key)),
        },
        ReqData::Hgetall(c) => {
            &&& m2 == m
            &&& res.status == 200
            &&& res.message@ == Seq::<char>::empty()
            &&& res.values@.len() == 0
            &&& lists_table(res.pairs@, m, c.table@)
        },
        ReqData::Hmget(c) => m2 == m && res@ == ok_view(
            keys_view(c.keys@).map_values(|k: Seq<char>| value_or_empty(lookup(m, c.table@, k))),
            Seq::empty(),
        ),
        ReqData::Hset(c) => match c.pair {
            None => m2 == m && res@ == ok_view(seq![ValueView::Empty], Seq::empty()),
            Some(p) => {
                &&& m2 == m.insert((c.table@, p.key@), pair_value(p))
                &&& res@ == ok_view(seq![value_or_empty(lookup(m, c.table@, p.key@))], Seq::empty())
            },
        },
        ReqData::Hmset(c) => m2 == set_all(m, c.table@, c.pairs@) && res@ == ok_view(Seq::empty(), Seq::empty()),
        ReqData::Hdel(c) => {
            &&& m2 == m.remove((c.table@, c.key@))
            &&& res@ == ok_view(seq![value_or_empty(lookup(m, c.table@, c.key@))], Seq::empty())
        },
        ReqData::Hmdel(c) => {
            let (m1, vs) = del_all(m, c.table@, keys_view(c.keys@));
            m2 == m1 && res@ == ok_view(vs, Seq::empty())
        },
        ReqData::Hexist(c) => m2 == m && res@ == ok_view(
            seq![ValueView::Bool(m.contains_key((c.table@, c.key@)))],
            Seq::empty(),
        ),
        ReqData::Hmexist(c) => m2 == m && res@ == ok_view(
            seq![ValueView::Bool(all_present(m, c.table@, c.keys@))],
            Seq::empty(),
        ),
    }
}

/// What `get` of `key` in `table` gives on the storage `s`.
pub open spec fn get_outcome<S: Storage>(s: S, table: Seq<char>, key: Seq<char>) -> Result<Option<ValueView>, KvError> {
    outcome(s.get_failure(table, key), lookup(s.model(), table, key))
}

/// What `set` of `value` under `key` in `table` gives on the storage `s`.
pub open spec fn set_outcome<S: Storage>(s: S, table: Seq<char>, key: Seq<char>, value: ValueView) -> Result<Option<ValueView>, KvError> {
    outcome(s.set_failure(table, key, value), lookup(s.model(), table, key))
}

/// What `del` of `key` in `table` gives on the storage `s`.
pub open spec fn del_outcome<S: Storage>(s: S, table: Seq<char>, key: Seq<char>) -> Result<Option<ValueView>, KvError> {
    outcome(s.del_failure(table, key), lookup(s.model(), table, key))
}

/// What `contains` of `key` in `table` gives on the storage `s`.
pub open spec fn contains_outcome<S: Storage>(s: S, table: Seq<char>, key: Seq<char>) -> Result<bool, KvError> {
    outcome(s.contains_failure(table, key), s.model().contains_key((table, key)))
}

/// `b` is the storage that `set` of `value` under `key` in `table` leaves
/// behind on `a`: `a` itself when the call fails.
pub open spec fn set_step<S: Storage>(a: S, b: S, table: Seq<char>, key: Seq<char>, value: ValueView) -> bool {
    &&& b.reliable() == a.reliable()
    &&& match a.set_failure(table, key, value) {
        Some(_) => b == a,
        None => b.model() == a.model().insert((table, key), value),
    }
}

/// `b` is the storage that `del` of `key` in `table` leaves behind on `a`:
/// `a` itself when the call fails.
pub open spec fn del_step<S: Storage>(a: S, b: S, table: Seq<char>, key: Seq<char>) -> bool {
    &&& b.reliable() == a.reliable()
    &&& match a.del_failure(table, key) {
        Some(_) => b == a,
        None => b.model() == a.model().remove((table, key)),
    }
}

/// `run` lists the storages that setting the pairs `ps` in `table`, one
/// after another, passes through.
pub open spec fn set_run<S: Storage>(run: Seq<S>, table: Seq<char>, ps: Seq<Kvpair>) -> bool {
    &&& run.len() == ps.len() + 1
    &&& forall|i: int| 0 <= i < ps.len() ==> #[trigger] set_step(run[i], run[i + 1], table, ps[i].key@, pair_value(ps[i]))
}

/// `run` lists the storages that deleting `keys` from `table`, one after
/// another, passes through.
pub open spec fn del_run<S: Storage>(run: Seq<S>, table: Seq<char>, keys: Seq<Seq<char>>) -> bool {
    &&& run.len() == keys.len() + 1
    &&& forall|i: int| 0 <= i < keys.len() ==> #[trigger] del_step(run[i], run[i + 1], table, keys[i])
}

/// The value that an answer carries for what a lookup gave: the value found,
/// or the empty value when nothing was found or the lookup failed.
pub open spec fn value_of(r: Result<Option<ValueView>, KvError>) -> ValueView {
    match r {
        Ok(Some(v)) => v,
        _ => ValueView::Empty,
    }
}

/// The answer to `Hget` of `key` in `table` when `get` gave `r`.
pub open spec fn get_reply(table: String, key: String, r: Result<Option<ValueView>, KvError>) -> CmdResView {
    match r {
        Ok(Some(v)) => ok_view(seq![v], Seq::empty()),
        Ok(None) => error_view(KvError::NotFound(table, key)),
        Err(e) => error_view(e),
    }
}

/// The answer to `Hset` of a pair when `set` gave `r`.
pub open spec fn set_reply(r: Result<Option<ValueView>, KvError>) -> CmdResView {
    match r {
        Ok(v) => ok_view(seq![value_or_empty(v)], Seq::empty()),
        Err(e) => error_view(e),
    }
}

/// What the command `d` does on the storage `s`, whatever the storage
/// decides: it leads to the storage `s2` and answers `res`.
pub open spec fn handled<S: Storage>(d: ReqData, s: S, s2: S, res: CmdRes) -> bool {
    match d {
        ReqData::Hget(c) => s2 == s && res@ == get_reply(c.table, c.key, get_outcome(s, c.table@, c.key@)),
        ReqData::Hgetall(c) => s2 == s && match s.get_all_failure(c.table@) {
            Some(e) => res@ == error_view(e),
            None => {
                &&& res.status == 200
                &&& res.message@ == Seq::<char>::empty()
                &&& res.values@.len() == 0
                &&& lists_table(res.pairs@, s.model(), c.table@)
            },
        },
        ReqData::Hmget(c) => s2 == s && res@ == ok_view(
            keys_view(c.keys@).map_values(|k: Seq<char>| value_of(get_outcome(s, c.table@, k))),
            Seq::empty(),
        ),
        ReqData::Hset(c) => match c.pair {
            None => s2 == s && res@ == ok_view(seq![ValueView::Empty], Seq::empty()),
            Some(p) => {
                &&& set_step(s, s2, c.table@, p.key@, pair_value(p))
                &&& res@ == set_reply(set_outcome(s, c.table@, p.key@, pair_value(p)))
            },
        },
        ReqData::Hmset(c) => {
            &&& res@ == ok_view(Seq::empty(), Seq::empty())
            &&& exists|run: Seq<S>| #[trigger] set_run(run, c.table@, c.pairs@) && run[0] == s && run.last() == s2
        },
        ReqData::Hdel(c) => {
            &&& del_step(s, s2, c.table@, c.key@)
            &&& res@ == ok_view(seq![value_of(del_outcome(s, c.table@, c.key@))], Seq::empty())
        },
        ReqData::Hmdel(c) => exists|run: Seq<S>| {
            &&& #[trigger] del_run(run, c.table@, keys_view(c.keys@))
            &&& run[0] == s
            &&& run.last() == s2
            &&& res@ == ok_view(
                Seq::new(c.keys@.len(), |i: int| value_of(del_outcome(run[i], c.table@, c.keys@[i]@))),
                Seq::empty(),
            )
        },
        ReqData::Hexist(c) => s2 == s && res@ == ok_view(
            seq![ValueView::Bool(contains_outcome(s, c.table@, c.key@) == Ok::<bool, KvError>(true))],
            Seq::empty(),
        ),
        ReqData::Hmexist(c) => s2 == s && res@ == ok_view(
            seq![ValueView::Bool(forall|i: int| 0 <= i < c.keys@.len() ==>
                #[trigger] contains_outcome(s, c.table@, c.keys@[i]@) == Ok::<bool, KvError>(true))],
            Seq::empty(),
        ),
    }
}

/// The answer to `Hget` of `key` in `table` from what `get` gave.
pub fn get_answer(table: String, key: String, r: Result<Option<Value>, KvError>) -> (res: CmdRes)
    ensures
        res@ == get_reply(table, key, found_view(r)),
{
    match r {
        Ok(Some(v)) => CmdRes::from_value(v),
        Ok(None) => CmdRes::from_error(KvError::NotFound(table, key)),
        Err(e) => CmdRes::from_error(e),
    }
}

/// The answer to `Hset` of a pair from what `set` gave.
pub fn set_answer(r: Result<Option<Value>, KvError>) -> (res: CmdRes)
    ensures
        res@ == set_reply(found_view(r)),
{
    match r {
        Ok(Some(v)) => CmdRes::from_value(v),
        Ok(None) => CmdRes::from_value(Value::default()),
        Err(e) => CmdRes::from_error(e),
    }
}

/// The answer to `Hgetall` from what `get_all` gave.
pub fn get_all_answer(r: Result<Vec<Kvpair>, KvError>) -> (res: CmdRes)
    ensures
        match r {
            Ok(ps) => res@ == ok_view(Seq::empty(), pairs_view(ps@)) && res.pairs == ps && res.values@.len() == 0,
            Err(e) => res@ == error_view(e),
        },
{
    match r {
        Ok(v) => CmdRes::from_pairs(v),
        Err(e) => CmdRes::from_error(e),
    }
}

/// The value that `Hmget` and `Hmdel` answer for what `get` or `del` gave.
pub fn found_value(r: Result<Option<Value>, KvError>) -> (v: Value)
    ensures
        v@ == value_of(found_view(r)),
{
    match r {
        Ok(Some(v)) => v,
        _ => Value::none(),
    }
}

/// The answer to `Hdel` from what `del` gave.
pub fn del_answer(r: Result<Option<Value>, KvError>) -> (res: CmdRes)
    ensures
        res@ == ok_view(seq![value_of(found_view(r))], Seq::empty()),
{
    CmdRes::from_value(found_value(r))
}

/// Whether `contains` found its key: it answered, and with `true`.
pub fn is_present(r: Result<bool, KvError>) -> (b: bool)
    ensures
        b == (r == Ok::<bool, KvError>(true)),
{
    match r {
        Ok(true) => true,
        _ => false,
    }
}

/// The answer to `Hexist` from what `contains` gave.
pub fn exist_answer(r: Result<bool, KvError>) -> (res: CmdRes)
    ensures
        res@ == ok_view(seq![ValueView::Bool(r == Ok::<bool, KvError>(true))], Seq::empty()),
{
    CmdRes::bool(is_present(r))
}

/// The handling of one kind of command.
pub trait CmdService {
    /// Carries out the command on `store` and returns the answer.
    fn execute<S: Storage>(self, store: &mut S) -> CmdRes;
}

impl CmdService for Hget {
    fn execute<S: Storage>(self, store: &mut S) -> (res: CmdRes)
        ensures
            handled(ReqData::Hget(self), *old(store), *final(store), res),
            final(store).reliable() == old(store).reliable(),
            old(store).reliable() ==> responds(ReqData::Hget(self), old(store).model(), final(store).model(), res),
    {
        let r = store.get(self.table.as_str(), self.key.as_str());
        get_answer(self.table, self.key, r)
    }
}

impl CmdService for Hset {
    fn execute<S: Storage>(self, store: &mut S) -> (res: CmdRes)
        ensures
            handled(ReqData::Hset(self), *old(store), *final(store), res),
            final(store).reliable() == old(store).reliable(),
            old(store).reliable() ==> responds(ReqData::Hset(self), old(store).model(), final(store).model(), res),
    {
        match self.pair {
            Some(v) => {
                let value = match v.value {
                    Some(x) => x,
                    None => Value::default(),
                };
                let r = store.set(self.table.as_str(), v.key, value);
                set_answer(r)
            },
            None => CmdRes::from_value(Value::default()),
        }
    }
}

impl CmdService for Hgetall {
    fn execute<S: Storage>(self, store: &mut S) -> (res: CmdRes)
        ensures
            handled(ReqData::Hgetall(self), *old(store), *final(store), res),
            final(store).reliable() == old(store).reliable(),
            old(store).reliable() ==> responds(ReqData::Hgetall(self), old(store).model(), final(store).model(), res),
    {
        let r = store.get_all(self.table.as_str());
        let res = get_all_answer(r);
        proof {
            assert(res.message@ == res@.message);
        }
        res
    }
}

impl CmdService for Hmset {
    fn execute<S: Storage>(self, store: &mut S) -> (res: CmdRes)
        ensures
            handled(ReqData::Hmset(self), *old(store), *final(store), res),
            final(store).reliable() == old(store).reliable(),
            old(store).reliable() ==> responds(ReqData::Hmset(self), old(store).model(), final(store).model(), res),
    {
        let ghost m0 = store.model();
        let ghost ps = self.pairs@;
        let ghost t = self.table@;
        let ghost mut run: Seq<S> = seq![*store];
        let n = self.pairs.len();
        let mut i: usize = 0;
        while i < n
            invariant
                ps == self.pairs@,
                t == self.table@,
                n == ps.len(),
                i <= n,
                store.reliable() == old(store).reliable(),
                old(store).reliable() ==> store.model() == set_all(m0, t, ps.take(i as int)),
                run.len() == i + 1,
                run[0] == *old(store),
                run.last() == *store,
                forall|j: int| 0 <= j < i ==> #[trigger] set_step(run[j], run[j + 1], t, ps[j].key@, pair_value(ps[j])),
            decreases n - i,
        {
            let p = &self.pairs[i];
            let value = match &p.value {
                Some(x) => x.duplicate(),
                None => Value::default(),
            };
            proof {
                assert(ps.take(i + 1).drop_last() =~= ps.take(i as int));
                assert(ps.take(i + 1).last() == ps[i as int]);
            }
            let ghost before = *store;
            let _ = store.set(self.table.as_str(), p.key.clone(), value);
            proof {
                let old_run = run;
                run = run.push(*store);
                assert(set_step(before, *store, t, ps[i as int].key@, pair_value(ps[i as int])));
                assert forall|j: int| 0 <= j < i + 1 implies #[trigger] set_step(run[j], run[j + 1], t, ps[j].key@, pair_value(ps[j])) by {
                    if j < i {
                        assert(run[j] == old_run[j] && run[j + 1] == old_run[j + 1]);
                    }
                }
            }
            i = i + 1;
        }
        proof {
            assert(ps.take(n as int) =~= ps);
            assert(set_run(run, self.table@, self.pairs@) && run[0] == *old(store) && run.last() == *store);
            assert(exists|r: Seq<S>| #[trigger] set_run(r, self.table@, self.pairs@) && r[0] == *old(store) && r.last() == *store);
        }
        let res = CmdRes::ok();
        proof {
            let d = ReqData::Hmset(self);
            assert(d->Hmset_0 == self);
            assert(res@ == ok_view(Seq::empty(), Seq::empty()));
            assert(handled(d, *old(store), *store, res));
        }
        res
    }
}

impl CmdService for Hmget {
    fn execute<S: Storage>(self, store: &mut S) -> (res: CmdRes)
        ensures
            handled(ReqData::Hmget(self), *old(store), *final(store), res),
            final(store).reliable() == old(store).reliable(),
            old(store).reliable() ==> responds(ReqData::Hmget(self), old(store).model(), final(store).model(), res),
    {
        let ghost s0 = *store;
        let ghost t = self.table@;
        let ghost want = keys_view(self.keys@).map_values(|k: Seq<char>| value_of(get_outcome(s0, t, k)));
        let mut values: Vec<Value> = Vec::new();
        let n = self.keys.len();
        let mut i: usize = 0;
        while i < n
            invariant
                n == self.keys@.len(),
                i <= n,
                *store == *old(store),
                s0 == *store,
                t == self.table@,
                want == keys_view(self.keys@).map_values(|k: Seq<char>| value_of(get_outcome(s0, t, k))),
                values_view(values@) == want.take(i as int),
                s0.reliable() ==> forall|j: int| 0 <= j < i ==> (#[trigger] s0.get_failure(t, self.keys@[j]@)) is None,
            decreases n - i,
        {
            let r = store.get(self.table.as_str(), self.keys[i].as_str());
            let v = found_value(r);
            let ghost before = values@;
            values.push(v);
            proof {
                assert(values_view(values@) =~= values_view(before).push(v@));
                assert(want.take(i + 1) =~= want.take(i as int).push(want[i as int]));
            }
            i = i + 1;
        }
        proof {
            assert(want.take(n as int) =~= want);
            if old(store).reliable() {
                let m = s0.model();
                assert(want =~= keys_view(self.keys@).map_values(|k: Seq<char>| value_or_empty(lookup(m, t, k)))) by {
                    assert forall|j: int| 0 <= j < want.len() implies want[j] == value_or_empty(lookup(m, t, keys_view(self.keys@)[j])) by {
                        assert(s0.get_failure(t, self.keys@[j]@) is None);
                    }
                }
            }
        }
        CmdRes::from_values(values)
    }
}

impl CmdService for Hdel {
    fn execute<S: Storage>(self, store: &mut S) -> (res: CmdRes)
        ensures
            handled(ReqData::Hdel(self), *old(store), *final(store), res),
            final(store).reliable() == old(store).reliable(),
            old(store).reliable() ==> responds(ReqData::Hdel(self), old(store).model(), final(store).model(), res),
    {
        let r = store.del(self.table.as_str(), self.key.as_str());
        del_answer(r)
    }
}

impl CmdService for Hmdel {
    fn execute<S: Storage>(self, store: &mut S) -> (res: CmdRes)
        ensures
            handled(ReqData::Hmdel(self), *old(store), *final(store), res),
            final(store).reliable() == old(store).reliable(),
            old(store).reliable() ==> responds(ReqData::Hmdel(self), old(store).model(), final(store).model(), res),
    {
        let ghost m0 = store.model();
        let ghost ks = keys_view(self.keys@);
        let ghost t = self.table@;
        let ghost mut run: Seq<S> = seq![*store];
        let mut values: Vec<Value> = Vec::new();
        let n = self.keys.len();
        let mut i: usize = 0;
        while i < n
            invariant
                n == self.keys@.len(),
                ks == keys_view(self.keys@),
                t == self.table@,
                i <= n,
                values@.len() == i,
                store.reliable() == old(store).reliable(),
                old(store).reliable() ==> (store.model(), values_view(values@)) == del_all(m0, t, ks.take(i as int)),
                run.len() == i + 1,
                run[0] == *old(store),
                run.last() == *store,
                forall|j: int| 0 <= j < i ==> #[trigger] del_step(run[j], run[j + 1], t, ks[j]),
                forall|j: int| 0 <= j < i ==> #[trigger] values@[j]@ == value_of(del_outcome(run[j], t, ks[j])),
            decreases n - i,
        {
            let ghost before = values@;
            let ghost s_before = *store;
            let r = store.del(self.table.as_str(), self.keys[i].as_str());
            let v = found_value(r);
            values.push(v);
            proof {
                let old_run = run;
                run = run.push(*store);
                assert(ks[i as int] == self.keys@[i as int]@);
                assert(del_step(s_before, *store, t, ks[i as int]));
                assert forall|j: int| 0 <= j < i + 1 implies #[trigger] del_step(run[j], run[j + 1], t, ks[j]) by {
                    if j < i {
                        assert(run[j] == old_run[j] && run[j + 1] == old_run[j + 1]);
                    }
                }
                assert forall|j: int| 0 <= j < i + 1 implies #[trigger] values@[j]@ == value_of(del_outcome(run[j], t, ks[j])) by {
                    if j < i {
                        assert(values@[j] == before[j]);
                        assert(run[j] == old_run[j]);
                    }
                }
                assert(values_view(values@) =~= values_view(before).push(v@));
                assert(ks.take(i + 1).drop_last() =~= ks.take(i as int));
                assert(ks.take(i + 1).last() == self.keys@[i as int]@);
            }
            i = i + 1;
        }
        proof {
            assert(ks.take(n as int) =~= ks);
            assert(del_run(run, t, ks));
            let vs = Seq::new(self.keys@.len(), |j: int| value_of(del_outcome(run[j], t, self.keys@[j]@)));
            assert(values_view(values@) =~= vs);
        }
        let res = CmdRes::from_values(values);
        proof {
            let vs = Seq::new(self.keys@.len(), |j: int| value_of(del_outcome(run[j], t, self.keys@[j]@)));
            assert(del_run(run, t, ks) && run[0] == *old(store) && run.last() == *store && res@ == ok_view(vs, Seq::empty()));
            assert(exists|r: Seq<S>| {
                &&& #[trigger] del_run(r, self.table@, keys_view(self.keys@))
                &&& r[0] == *old(store)
                &&& r.last() == *store
                &&& res@ == ok_view(
                    Seq::new(self.keys@.len(), |i: int| value_of(del_outcome(r[i], self.table@, self.keys@[i]@))),
                    Seq::empty(),
                )
            });
            let d = ReqData::Hmdel(self);
            assert(d->Hmdel_0 == self);
            assert(handled(d, *old(store), *store, res));
        }
        res
    }
}

impl CmdService for Hexist {
    fn execute<S: Storage>(self, store: &mut S) -> (res: CmdRes)
        ensures
            handled(ReqData::Hexist(self), *old(store), *final(store), res),
            final(store).reliable() == old(store).reliable(),
            old(store).reliable() ==> responds(ReqData::Hexist(self), old(store).model(), final(store).model(), res),
    {
        let r = store.contains(self.table.as_str(), self.key.as_str());
        exist_answer(r)
    }
}

impl CmdService for Hmexist {
    fn execute<S: Storage>(self, store: &mut S) -> (res: CmdRes)
        ensures
            handled(ReqData::Hmexist(self), *old(store), *final(store), res),
            final(store).reliable() == old(store).reliable(),
            old(store).reliable() ==> responds(ReqData::Hmexist(self), old(store).model(), final(store).model(), res),
    {
        let ghost s0 = *store;
        let ghost t = self.table@;
        let n = self.keys.len();
        let mut all = true;
        let mut i: usize = 0;
        // stops at the first key that is not found
        while i < n && all
            invariant
                n == self.keys@.len(),
                i <= n,
                *store == *old(store),
                s0 == *store,
                t == self.table@,
                all ==> forall|j: int| 0 <= j < i ==> #[trigger] contains_outcome(s0, t, self.keys@[j]@) == Ok::<bool, KvError>(true),
                !all ==> exists|j: int| 0 <= j < i && #[trigger] contains_outcome(s0, t, self.keys@[j]@) != Ok::<bool, KvError>(true),
                s0.reliable() ==> forall|j: int| 0 <= j < i ==> (#[trigger] s0.contains_failure(t, self.keys@[j]@)) is None,
            decreases n - i,
        {
            let r = store.contains(self.table.as_str(), self.keys[i].as_str());
            all = is_present(r);
            proof {
                assert(r == contains_outcome(s0, t, self.keys@[i as int]@));
            }
            i = i + 1;
        }
        proof {
            let every = forall|j: int| 0 <= j < n ==> #[trigger] contains_outcome(s0, t, self.keys@[j]@) == Ok::<bool, KvError>(true);
            if all {
                assert(i == n);
            } else {
                let j = choose|j: int| 0 <= j < i && #[trigger] contains_outcome(s0, t, self.keys@[j]@) != Ok::<bool, KvError>(true);
                if s0.reliable() {
                    assert(s0.contains_failure(t, self.keys@[j]@) is None);
                    assert(!s0.model().contains_key((t, self.keys@[j]@)));
                }
            }
            assert(all == every);
            if s0.reliable() && all {
                assert forall|j: int| 0 <= j < n implies s0.model().contains_key((t, #[trigger] self.keys@[j]@)) by {
                    assert(contains_outcome(s0, t, self.keys@[j]@) == Ok::<bool, KvError>(true));
                }
            }
        }
        CmdRes::bool(all)
    }
}

/// Hands a command to its handler, which the command must name: the answer
/// and the storage afterwards are those of the handler, whose `execute`
/// ensures the same `handled` (and `lemma_handled_determined` shows that this
/// fixes the answer).
pub fn dispatch<S: Storage>(req: CmdReq, store: &mut S) -> (res: CmdRes)
    requires
        req.req_data is Some,
    ensures
        handled(req.req_data->0, *old(store), *final(store), res),
        final(store).reliable() == old(store).reliable(),
        old(store).reliable() ==> responds(req.req_data->0, old(store).model(), final(store).model(), res),
{
    match req.req_data.unwrap() {
        ReqData::Hget(v) => v.execute(store),
        ReqData::Hgetall(v) => v.execute(store),
        ReqData::Hmget(v) => v.execute(store),
        ReqData::Hset(v) => v.execute(store),
        ReqData::Hmset(v) => v.execute(store),
        ReqData::Hdel(v) => v.execute(store),
        ReqData::Hmdel(v) => v.execute(store),
        ReqData::Hexist(v) => v.execute(store),
        ReqData::Hmexist(v) => v.execute(store),
    }
}

/// The pairs that list `table` of `m`, as a set: each key of the table with
/// its value.
pub open spec fn table_pairs(m: StoreView, table: Seq<char>) -> Set<KvpairView> {
    Set::new(|kv: KvpairView| m.contains_key((table, kv.key)) && kv.value == Some(m[(table, kv.key)]))
}

proof fn lemma_listed_pairs(ps: Seq<Kvpair>, m: StoreView, table: Seq<char>)
    requires
        lists_table(ps, m, table),
    ensures
        pairs_view(ps).to_set() == table_pairs(m, table),
{
    let vs = pairs_view(ps);
    assert forall|kv: KvpairView| vs.contains(kv) <==> table_pairs(m, table).contains(kv) by {
        if vs.contains(kv) {
            let i = choose|i: int| 0 <= i < vs.len() && vs[i] == kv;
            assert(ps[i]@ == kv);
        }
        if table_pairs(m, table).contains(kv) {
            assert(m.contains_key((table, kv.key)));
            let i = choose|i: int| 0 <= i < ps.len() && (#[trigger] ps[i]).key@ == kv.key;
            assert(vs[i] == ps[i]@);
            assert(vs[i] == kv);
        }
    }
    assert(vs.to_set() =~= table_pairs(m, table));
}

/// What a command does is fixed by the storage it starts from: two runs of
/// one command on one storage give the same answer and leave the same
/// contents. Where the storage may keep more than its contents, a run of
/// several `set`s or `del`s may go on differently after the first one, and
/// the pairs of `Hgetall` may come in another order; the answers agree in
/// all else. So `dispatch`, which ensures `handled` as each handler's
/// `execute` does, answers what the handler answers.
pub proof fn lemma_handled_determined<S: Storage>(d: ReqData, s: S, s2a: S, ra: CmdRes, s2b: S, rb: CmdRes)
    requires
        handled(d, s, s2a, ra),
        handled(d, s, s2b, rb),
    ensures
        !(d is Hgetall) && !(d is Hmdel) ==> ra@ == rb@,
        !(d is Hmset) && !(d is Hmdel) ==> s2a.model() == s2b.model(),
        d is Hgetall ==> {
            &&& ra@.status == rb@.status
            &&& ra@.message == rb@.message
            &&& ra@.values == rb@.values
            &&& ra@.pairs.to_set() == rb@.pairs.to_set()
        },
{
    if let ReqData::Hgetall(c) = d {
        if s.get_all_failure(c.table@) is None {
            lemma_listed_pairs(ra.pairs@, s.model(), c.table@);
            lemma_listed_pairs(rb.pairs@, s.model(), c.table@);
            assert(ra@.values =~= rb@.values);
        }
    }
}

/// On a storage that does not fail, what a command does is fixed by the
/// contents it starts from: the same contents after, and the same answer (for
/// `Hgetall`, the same pairs, perhaps in another order).
pub proof fn lemma_responds_determined(d: ReqData, m: StoreView, m2a: StoreView, ra: CmdRes, m2b: StoreView, rb: CmdRes)
    requires
        responds(d, m, m2a, ra),
        responds(d, m, m2b, rb),
    ensures
        m2a == m2b,
        !(d is Hgetall) ==> ra@ == rb@,
        d is Hgetall ==> {
            &&& ra@.status == rb@.status
            &&& ra@.message == rb@.message
            &&& ra@.values == rb@.values
            &&& ra@.pairs.to_set() == rb@.pairs.to_set()
        },
{
    if let ReqData::Hgetall(c) = d {
        lemma_listed_pairs(ra.pairs@, m, c.table@);
        lemma_listed_pairs(rb.pairs@, m, c.table@);
        assert(ra@.values =~= rb@.values);
    }
}

pub struct ServiceInner<Store> {
    store: Store,
}

/// A service over a storage: it carries out the commands it is given.
pub struct Service<Store = MemTable> {
    inner: ServiceInner<Store>,
}

impl<Store: Storage> Service<Store> {
    /// The storage that the service works on.
    pub closed spec fn store(&self) -> Store {
        self.inner.store
    }

    pub closed spec fn model(&self) -> StoreView {
        self.inner.store.model()
    }

    pub closed spec fn reliable(&self) -> bool {
        self.inner.store.reliable()
    }

    pub fn new(store: Store) -> (s: Self)
        ensures
            s.store() == store,
            s.model() == store.model(),
            s.reliable() == store.reliable(),
    {
        Self { inner: ServiceInner { store } }
    }

    /// Carries out `cmd`, which must carry a request.
    pub fn execute(&mut self, cmd: CmdReq) -> (res: CmdRes)
        requires
            cmd.req_data is Some,
        ensures
            final(self).reliable() == old(self).reliable(),
            old(self).reliable() ==> responds(cmd.req_data->0, old(self).model(), final(self).model(), res),
            handled(cmd.req_data->0, old(self).store(), final(self).store(), res),
    {
        dispatch(cmd, &mut self.inner.store)
    }
}


/// A read gives back what a write wrote: after `Hset` of a pair in a table,
/// `Hget` of its key in that table answers the value that was set.
pub proof fn lemma_get_after_set(set: Hset, get: Hget, m1: StoreView, m2: StoreView, m3: StoreView, r1: CmdRes, r2: CmdRes)
    requires
        responds(ReqData::Hset(set), m1, m2, r1),
        responds(ReqData::Hget(get), m2, m3, r2),
        set.pair is Some,
        get.table@ == set.table@,
        get.key@ == set.pair->0.key@,
    ensures
        r2@ == ok_view(seq![pair_value(set.pair->0)], Seq::empty()),
        m3 == m2,
{
}

/// After `Hdel` of a key, `Hget` of it answers "not found" (404).
pub proof fn lemma_get_after_del(del: Hdel, get: Hget, m1: StoreView, m2: StoreView, m3: StoreView, r1: CmdRes, r2: CmdRes)
    requires
        responds(ReqData::Hdel(del), m1, m2, r1),
        responds(ReqData::Hget(get), m2, m3, r2),
        get.table@ == del.table@,
        get.key@ == del.key@,
    ensures
        r2@ == error_view(KvError::NotFound(get.table, get.key)),
        r2.status == 404,
{
}

/// After `Hset` of a pair, `Hexist` of its key answers `true`.
pub proof fn lemma_exist_after_set(set: Hset, ex: Hexist, m1: StoreView, m2: StoreView, m3: StoreView, r1: CmdRes, r2: CmdRes)
    requires
        responds(ReqData::Hset(set), m1, m2, r1),
        responds(ReqData::Hexist(ex), m2, m3, r2),
        set.pair is Some,
        ex.table@ == set.table@,
        ex.key@ == set.pair->0.key@,
    ensures
        r2@ == ok_view(seq![ValueView::Bool(true)], Seq::empty()),
{
}

/// The value of the last pair with key `k` in `ps`, if any.
pub open spec fn last_value(ps: Seq<Kvpair>, k: Seq<char>) -> Option<ValueView>
    decreases ps.len(),
{
    if ps.len() == 0 {
        None
    } else if ps.last().key@ == k {
        Some(pair_value(ps.last()))
    } else {
        last_value(ps.drop_last(), k)
    }
}

/// After setting pairs one after another, a key of `table` holds the value of
/// the last pair with that key, or what it held before when no pair has it;
/// other tables are untouched.
pub proof fn lemma_set_all_lookup(m: StoreView, table: Seq<char>, ps: Seq<Kvpair>, t: Seq<char>, k: Seq<char>)
    ensures
        lookup(set_all(m, table, ps), t, k) == (if t == table && last_value(ps, k) is Some {
            last_value(ps, k)
        } else {
            lookup(m, t, k)
        }),
    decreases ps.len(),
{
    if ps.len() > 0 {
        lemma_set_all_lookup(m, table, ps.drop_last(), t, k);
    }
}

/// After deleting keys one after another none of them is left in `table`,
/// and everything else is as before.
pub proof fn lemma_del_all_lookup(m: StoreView, table: Seq<char>, keys: Seq<Seq<char>>, t: Seq<char>, k: Seq<char>)
    ensures
        lookup(del_all(m, table, keys).0, t, k) == (if t == table && keys.contains(k) {
            None
        } else {
            lookup(m, t, k)
        }),
        del_all(m, table, keys).1.len() == keys.len(),
    decreases keys.len(),
{
    if keys.len() > 0 {
        let rest = keys.drop_last();
        lemma_del_all_lookup(m, table, rest, t, k);
        if rest.contains(k) {
            let i = choose|i: int| 0 <= i < rest.len() && rest[i] == k;
            assert(keys[i] == k);
        }
        if keys.contains(k) && k != keys.last() {
            let i = choose|i: int| 0 <= i < keys.len() && keys[i] == k;
            assert(i != keys.len() - 1);
            assert(rest[i] == k);
        }
        if k == keys.last() {
            assert(keys[keys.len() - 1] == k);
        }
    }
}

} // verus!
