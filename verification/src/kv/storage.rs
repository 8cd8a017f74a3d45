//! The storage abstraction: tables of key-value pairs, and an in-memory
//! implementation.

use vstd::prelude::*;
use crate::kv::abi::{Kvpair, Value, ValueView};
use crate::kv::error::KvError;
use crate::text::str_eq;

verus! {

/// What a storage holds: the value under each (table, key).
pub type StoreView = Map<(Seq<char>, Seq<char>), ValueView>;

/// The value under `key` in `table`, if any.
pub open spec fn lookup(m: StoreView, table: Seq<char>, key: Seq<char>) -> Option<ValueView> {
    if m.contains_key((table, key)) {
        Some(m[(table, key)])
    } else {
        None
    }
}

pub open spec fn opt_view(v: Option<Value>) -> Option<ValueView> {
    match v {
        Some(v) => Some(v@),
        None => None,
    }
}

/// `ps` lists the pairs of `table` in `m`, each key once, in some order.
pub open spec fn lists_table(ps: Seq<Kvpair>, m: StoreView, table: Seq<char>) -> bool {
    &&& forall|i: int|
        0 <= i < ps.len() ==> ((#[trigger] ps[i]).value matches Some(v) && m.contains_key((table, ps[i].key@))
            && m[(table, ps[i].key@)] == v@)
    &&& forall|k: Seq<char>| #[trigger] m.contains_key((table, k)) ==> exists|i: int| 0 <= i < ps.len() && (#[trigger] ps[i]).key@ == k
    &&& forall|i: int, j: int| 0 <= i < ps.len() && 0 <= j < ps.len() && i != j ==> ps[i].key@ != ps[j].key@
}

/// What a lookup gives, by views.
pub open spec fn found_view(r: Result<Option<Value>, KvError>) -> Result<Option<ValueView>, KvError> {
    match r {
        Ok(v) => Ok(opt_view(v)),
        Err(e) => Err(e),
    }
}

/// The outcome of an operation that fails with `failure` if that is some
/// error, and otherwise gives `value`.
pub open spec fn outcome<T>(failure: Option<KvError>, value: T) -> Result<T, KvError> {
    match failure {
        Some(e) => Err(e),
        None => Ok(value),
    }
}

/// A storage of tables of key-value pairs. A table that was never written
/// holds nothing. Whether an operation fails, and with which error, the
/// storage decides from its state and the arguments; a failing operation
/// leaves the storage as it was, and a `reliable` storage does not fail.
pub trait Storage: Sized {
    spec fn model(&self) -> StoreView;

    spec fn reliable(&self) -> bool;

    /// The error with which `get` fails here, if it does.
    spec fn get_failure(&self, table: Seq<char>, key: Seq<char>) -> Option<KvError>;

    /// The error with which `set` fails here, if it does.
    spec fn set_failure(&self, table: Seq<char>, key: Seq<char>, value: ValueView) -> Option<KvError>;

    /// The error with which `contains` fails here, if it does.
    spec fn contains_failure(&self, table: Seq<char>, key: Seq<char>) -> Option<KvError>;

    /// The error with which `del` fails here, if it does.
    spec fn del_failure(&self, table: Seq<char>, key: Seq<char>) -> Option<KvError>;

    /// The error with which `get_all` fails here, if it does.
    spec fn get_all_failure(&self, table: Seq<char>) -> Option<KvError>;

    /// The value under `key` in `table`.
    fn get(&self, table: &str, key: &str) -> (r: Result<Option<Value>, KvError>)
        ensures
            self.reliable() ==> self.get_failure(table@, key@) is None,
            found_view(r) == outcome(self.get_failure(table@, key@), lookup(self.model(), table@, key@)),
    ;

    /// Sets the value under `key` in `table`, and returns the one it replaces.
    fn set(&mut self, table: &str, key: String, value: Value) -> (r: Result<Option<Value>, KvError>)
        ensures
            final(self).reliable() == old(self).reliable(),
            old(self).reliable() ==> old(self).set_failure(table@, key@, value@) is None,
            found_view(r) == outcome(old(self).set_failure(table@, key@, value@), lookup(old(self).model(), table@, key@)),
            r is Ok ==> final(self).model() == old(self).model().insert((table@, key@), value@),
            r is Err ==> *final(self) == *old(self),
    ;

    /// Whether `table` holds `key`.
    fn contains(&self, table: &str, key: &str) -> (r: Result<bool, KvError>)
        ensures
            self.reliable() ==> self.contains_failure(table@, key@) is None,
            r == outcome(self.contains_failure(table@, key@), self.model().contains_key((table@, key@))),
    ;

    /// Removes `key` from `table`, and returns the value it had.
    fn del(&mut self, table: &str, key: &str) -> (r: Result<Option<Value>, KvError>)
        ensures
            final(self).reliable() == old(self).reliable(),
            old(self).reliable() ==> old(self).del_failure(table@, key@) is None,
            found_view(r) == outcome(old(self).del_failure(table@, key@), lookup(old(self).model(), table@, key@)),
            r is Ok ==> final(self).model() == old(self).model().remove((table@, key@)),
            r is Err ==> *final(self) == *old(self),
    ;

    /// All pairs of `table`.
    fn get_all(&self, table: &str) -> (r: Result<Vec<Kvpair>, KvError>)
        ensures
            self.reliable() ==> self.get_all_failure(table@) is None,
            match self.get_all_failure(table@) {
                Some(e) => r == Err::<Vec<Kvpair>, KvError>(e),
                None => r matches Ok(ps) && lists_table(ps@, self.model(), table@),
            },
    ;
}

struct Entry {
    table: String,
    key: String,
    value: Value,
}

spec fn ekey(e: Entry) -> (Seq<char>, Seq<char>) {
    (e.table@, e.key@)
}

spec fn no_dup(s: Seq<Entry>) -> bool {
    forall|i: int, j: int| 0 <= i < s.len() && 0 <= j < s.len() && i != j ==> ekey(s[i]) != ekey(s[j])
}

spec fn has_key(s: Seq<Entry>, k: (Seq<char>, Seq<char>)) -> bool {
    exists|i: int| 0 <= i < s.len() && ekey(s[i]) == k
}

spec fn entries_model(s: Seq<Entry>) -> StoreView {
    Map::new(
        |k: (Seq<char>, Seq<char>)| has_key(s, k),
        |k: (Seq<char>, Seq<char>)| s[choose|i: int| 0 <= i < s.len() && ekey(s[i]) == k].value@,
    )
}

proof fn lemma_entry_in_model(s: Seq<Entry>, i: int)
    requires
        no_dup(s),
        0 <= i < s.len(),
    ensures
        entries_model(s).contains_key(ekey(s[i])),
        entries_model(s)[ekey(s[i])] == s[i].value@,
{
    let k = ekey(s[i]);
    assert(has_key(s, k));
    let j = choose|j: int| 0 <= j < s.len() && ekey(s[j]) == k;
    assert(j == i);
}

proof fn lemma_push(s: Seq<Entry>, e: Entry)
    requires
        no_dup(s),
        !has_key(s, ekey(e)),
    ensures
        no_dup(s.push(e)),
        entries_model(s.push(e)) == entries_model(s).insert(ekey(e), e.value@),
{
    let t = s.push(e);
    assert forall|i: int, j: int| 0 <= i < t.len() && 0 <= j < t.len() && i != j implies ekey(t[i]) != ekey(t[j]) by {
        if i < s.len() && j < s.len() {
            assert(t[i] == s[i] && t[j] == s[j]);
        } else if i < s.len() {
            assert(t[i] == s[i]);
        } else {
            assert(t[j] == s[j]);
        }
    }
    let m = entries_model(s).insert(ekey(e), e.value@);
    assert forall|k: (Seq<char>, Seq<char>)| entries_model(t).contains_key(k) <==> m.contains_key(k) by {
        if has_key(t, k) {
            let i = choose|i: int| 0 <= i < t.len() && ekey(t[i]) == k;
            if i < s.len() {
                assert(t[i] == s[i]);
                assert(has_key(s, k));
            }
        }
        if has_key(s, k) {
            let i = choose|i: int| 0 <= i < s.len() && ekey(s[i]) == k;
            assert(t[i] == s[i]);
            assert(has_key(t, k));
        }
        if k == ekey(e) {
            assert(t[s.len() as int] == e);
            assert(has_key(t, k));
        }
    }
    assert forall|k: (Seq<char>, Seq<char>)| m.contains_key(k) implies entries_model(t)[k] == m[k] by {
        if k == ekey(e) {
            lemma_entry_in_model(t, s.len() as int);
        } else {
            let i = choose|i: int| 0 <= i < s.len() && ekey(s[i]) == k;
            lemma_entry_in_model(s, i);
            assert(t[i] == s[i]);
            lemma_entry_in_model(t, i);
        }
    }
    assert(entries_model(t) =~= m);
}

proof fn lemma_update(s: Seq<Entry>, i: int, e: Entry)
    requires
        no_dup(s),
        0 <= i < s.len(),
        ekey(e) == ekey(s[i]),
    ensures
        no_dup(s.update(i, e)),
        entries_model(s.update(i, e)) == entries_model(s).insert(ekey(e), e.value@),
{
    let t = s.update(i, e);
    assert forall|a: int, b: int| 0 <= a < t.len() && 0 <= b < t.len() && a != b implies ekey(t[a]) != ekey(t[b]) by {
        assert(ekey(t[a]) == ekey(s[a]));
        assert(ekey(t[b]) == ekey(s[b]));
    }
    let m = entries_model(s).insert(ekey(e), e.value@);
    assert forall|k: (Seq<char>, Seq<char>)| entries_model(t).contains_key(k) <==> m.contains_key(k) by {
        if has_key(t, k) {
            let j = choose|j: int| 0 <= j < t.len() && ekey(t[j]) == k;
            assert(ekey(s[j]) == k);
            assert(has_key(s, k));
        }
        if has_key(s, k) {
            let j = choose|j: int| 0 <= j < s.len() && ekey(s[j]) == k;
            assert(ekey(t[j]) == k);
            assert(has_key(t, k));
        }
    }
    assert forall|k: (Seq<char>, Seq<char>)| m.contains_key(k) implies entries_model(t)[k] == m[k] by {
        if k == ekey(e) {
            lemma_entry_in_model(t, i);
        } else {
            let j = choose|j: int| 0 <= j < s.len() && ekey(s[j]) == k;
            lemma_entry_in_model(s, j);
            assert(t[j] == s[j]);
            lemma_entry_in_model(t, j);
        }
    }
    assert(entries_model(t) =~= m);
}

proof fn lemma_remove(s: Seq<Entry>, i: int)
    requires
        no_dup(s),
        0 <= i < s.len(),
    ensures
        no_dup(s.remove(i)),
        entries_model(s.remove(i)) == entries_model(s).remove(ekey(s[i])),
{
    let t = s.remove(i);
    assert forall|a: int| 0 <= a < t.len() implies #[trigger] t[a] == s[if a < i { a } else { a + 1 }] by {}
    assert forall|a: int, b: int| 0 <= a < t.len() && 0 <= b < t.len() && a != b implies ekey(t[a]) != ekey(t[b]) by {
        assert(t[a] == s[if a < i { a } else { a + 1 }]);
        assert(t[b] == s[if b < i { b } else { b + 1 }]);
    }
    let m = entries_model(s).remove(ekey(s[i]));
    assert forall|k: (Seq<char>, Seq<char>)| entries_model(t).contains_key(k) <==> m.contains_key(k) by {
        if has_key(t, k) {
            let a = choose|a: int| 0 <= a < t.len() && ekey(t[a]) == k;
            let a2 = if a < i { a } else { a + 1 };
            assert(t[a] == s[a2]);
            assert(has_key(s, k));
            assert(k != ekey(s[i]));
        }
        if has_key(s, k) && k != ekey(s[i]) {
            let a = choose|a: int| 0 <= a < s.len() && ekey(s[a]) == k;
            assert(a != i);
            let a2 = if a < i { a } else { a - 1 };
            assert(t[a2] == s[a]);
            assert(has_key(t, k));
        }
    }
    assert forall|k: (Seq<char>, Seq<char>)| m.contains_key(k) implies entries_model(t)[k] == m[k] by {
        let a = choose|a: int| 0 <= a < s.len() && ekey(s[a]) == k;
        lemma_entry_in_model(s, a);
        assert(a != i);
        let a2 = if a < i { a } else { a - 1 };
        assert(t[a2] == s[a]);
        lemma_entry_in_model(t, a2);
    }
    assert(entries_model(t) =~= m);
}

/// A storage in memory: a list of (table, key, value) entries, each
/// (table, key) at most once.
pub struct MemTable {
    entries: Vec<Entry>,
}

impl MemTable {
    #[verifier::type_invariant]
    spec fn wf(&self) -> bool {
        no_dup(self.entries@)
    }

    pub fn new() -> (m: Self)
        ensures
            m.model() == StoreView::empty(),
            m.reliable(),
    {
        let m = MemTable { entries: Vec::new() };
        assert(entries_model(m.entries@) =~= StoreView::empty());
        m
    }

    /// The index of the entry for (`table`, `key`).
    fn find(&self, table: &str, key: &str) -> (r: Option<usize>)
        ensures
            match r {
                Some(i) => i < self.entries@.len() && ekey(self.entries@[i as int]) == (table@, key@),
                None => !has_key(self.entries@, (table@, key@)),
            },
    {
        let n = self.entries.len();
        let mut i: usize = 0;
        while i < n
            invariant
                n == self.entries@.len(),
                i <= n,
                forall|j: int| 0 <= j < i ==> ekey(self.entries@[j]) != (table@, key@),
            decreases n - i,
        {
            let e = &self.entries[i];
            if str_eq(e.table.as_str(), table) && str_eq(e.key.as_str(), key) {
                return Some(i);
            }
            i = i + 1;
        }
        None
    }
}

impl Storage for MemTable {
    closed spec fn model(&self) -> StoreView {
        entries_model(self.entries@)
    }

    open spec fn reliable(&self) -> bool {
        true
    }

    open spec fn get_failure(&self, table: Seq<char>, key: Seq<char>) -> Option<KvError> {
        None
    }

    open spec fn set_failure(&self, table: Seq<char>, key: Seq<char>, value: ValueView) -> Option<KvError> {
        None
    }

    open spec fn contains_failure(&self, table: Seq<char>, key: Seq<char>) -> Option<KvError> {
        None
    }

    open spec fn del_failure(&self, table: Seq<char>, key: Seq<char>) -> Option<KvError> {
        None
    }

    open spec fn get_all_failure(&self, table: Seq<char>) -> Option<KvError> {
        None
    }

    fn get(&self, table: &str, key: &str) -> (r: Result<Option<Value>, KvError>) {
        proof {
            use_type_invariant(self);
        }
        match self.find(table, key) {
            Some(i) => {
                proof {
                    lemma_entry_in_model(self.entries@, i as int);
                }
                Ok(Some(self.entries[i].value.duplicate()))
            },
            None => Ok(None),
        }
    }

    fn set(&mut self, table: &str, key: String, value: Value) -> (r: Result<Option<Value>, KvError>) {
        proof {
            use_type_invariant(&*self);
        }
        match self.find(table, key.as_str()) {
            Some(i) => {
                let ghost s = self.entries@;
                proof {
                    lemma_entry_in_model(s, i as int);
                }
                let mut e = Entry { table: String::from_str(table), key, value };
                proof {
                    lemma_update(s, i as int, e);
                }
                let mut entries: Vec<Entry> = Vec::new();
                std::mem::swap(&mut entries, &mut self.entries);
                entries.set_and_swap(i, &mut e);
                self.entries = entries;
                Ok(Some(e.value))
            },
            None => {
                let ghost s = self.entries@;
                let e = Entry { table: String::from_str(table), key, value };
                proof {
                    lemma_push(s, e);
                }
                let mut entries: Vec<Entry> = Vec::new();
                std::mem::swap(&mut entries, &mut self.entries);
                entries.push(e);
                self.entries = entries;
                Ok(None)
            },
        }
    }

    fn contains(&self, table: &str, key: &str) -> (r: Result<bool, KvError>) {
        proof {
            use_type_invariant(self);
        }
        match self.find(table, key) {
            Some(i) => {
                proof {
                    lemma_entry_in_model(self.entries@, i as int);
                }
                Ok(true)
            },
            None => Ok(false),
        }
    }

    fn del(&mut self, table: &str, key: &str) -> (r: Result<Option<Value>, KvError>) {
        proof {
            use_type_invariant(&*self);
        }
        match self.find(table, key) {
            Some(i) => {
                let ghost s = self.entries@;
                proof {
                    lemma_entry_in_model(s, i as int);
                    lemma_remove(s, i as int);
                }
                let mut entries: Vec<Entry> = Vec::new();
                std::mem::swap(&mut entries, &mut self.entries);
                let e = entries.remove(i);
                self.entries = entries;
                Ok(Some(e.value))
            },
            None => {
                proof {
                    assert(entries_model(self.entries@).remove((table@, key@)) =~= entries_model(self.entries@));
                }
                Ok(None)
            },
        }
    }

    fn get_all(&self, table: &str) -> (r: Result<Vec<Kvpair>, KvError>) {
        proof {
            use_type_invariant(self);
        }
        let ghost s = self.entries@;
        let n = self.entries.len();
        let mut out: Vec<Kvpair> = Vec::new();
        let ghost mut src: Seq<int> = Seq::empty();
        let mut i: usize = 0;
        while i < n
            invariant
                s == self.entries@,
                no_dup(s),
                n == s.len(),
                i <= n,
                out@.len() == src.len(),
                forall|j: int| 0 <= j < src.len() ==> 0 <= #[trigger] src[j] < i,
                forall|j: int, l: int| 0 <= j < l < src.len() ==> src[j] < src[l],
                forall|j: int|
                    0 <= j < src.len() ==> s[#[trigger] src[j]].table@ == table@ && out@[j].key@ == s[src[j]].key@
                        && (out@[j].value matches Some(v) && v@ == s[src[j]].value@),
                forall|a: int| 0 <= a < i && #[trigger] s[a].table@ == table@ ==> exists|j: int| 0 <= j < src.len() && src[j] == a,
            decreases n - i,
        {
            let e = &self.entries[i];
            let ghost old_src = src;
            if str_eq(e.table.as_str(), table) {
                out.push(Kvpair { key: e.key.clone(), value: Some(e.value.duplicate()) });
                proof {
                    src = src.push(i as int);
                }
            }
            proof {
                assert forall|a: int| 0 <= a < i + 1 && #[trigger] s[a].table@ == table@ implies exists|j: int|
                    0 <= j < src.len() && src[j] == a by {
                    if a == i {
                        assert(src[src.len() - 1] == a);
                    } else {
                        let j = choose|j: int| 0 <= j < old_src.len() && old_src[j] == a;
                        assert(src[j] == a);
                    }
                }
            }
            i = i + 1;
        }
        proof {
            let ps = out@;
            let m = entries_model(s);
            assert forall|j: int| 0 <= j < ps.len() implies ((#[trigger] ps[j]).value matches Some(v)
                && m.contains_key((table@, ps[j].key@)) && m[(table@, ps[j].key@)] == v@) by {
                lemma_entry_in_model(s, src[j]);
            }
            assert forall|k: Seq<char>| #[trigger] m.contains_key((table@, k)) implies exists|j: int|
                0 <= j < ps.len() && (#[trigger] ps[j]).key@ == k by {
                let a = choose|a: int| 0 <= a < s.len() && ekey(s[a]) == (table@, k);
                assert(s[a].table@ == table@);
                let j = choose|j: int| 0 <= j < src.len() && src[j] == a;
                assert(ps[j].key@ == k);
            }
            assert forall|j: int, l: int| 0 <= j < ps.len() && 0 <= l < ps.len() && j != l implies ps[j].key@ != ps[l].key@ by {
                assert(src[j] != src[l]);
                assert(ekey(s[src[j]]) != ekey(s[src[l]]));
            }
        }
        Ok(out)
    }
}

} // verus!
