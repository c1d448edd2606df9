use vstd::prelude::*;
use crate::http::{Method, Response};
use crate::value::{StoredValue, ValueModel, StorageError};

verus! {

/// One observable step of chain execution, recorded in the context so that
/// the order of middleware pre- and post-processing is part of the state.
#[derive(PartialEq, Eq, Structural, Clone, Copy, Debug)]
pub enum TraceEvent {
    /// A wrapper's pre-processing ran (the wrapper's marker).
    Enter(u64),
    /// A wrapper's post-processing ran after its continuation returned.
    Leave(u64),
    /// The innermost continuation, the route handler, ran.
    HandlerRun,
}

/// The mutable per-request object threaded through the middleware chain:
/// the request line, the captured path segments, the in-progress response,
/// and the scoped key-value store for handoff between layers.
pub struct Context {
    pub method: Method,
    pub path: String,
    pub captures: Vec<String>,
    pub response: Option<Response>,
    pub locals: Vec<(String, StoredValue)>,
    pub param: Option<StoredValue>,
    pub trace: Vec<TraceEvent>,
}

/// The finite map that an association list denotes; a later entry for the
/// same key shadows an earlier one.
pub open spec fn assoc_model(s: Seq<(String, StoredValue)>) -> Map<Seq<char>, ValueModel>
    decreases s.len(),
{
    if s.len() == 0 {
        Map::empty()
    } else {
        assoc_model(s.drop_last()).insert(s.last().0@, s.last().1@)
    }
}

/// No two entries of the association list share a key.
pub open spec fn keys_distinct(s: Seq<(String, StoredValue)>) -> bool {
    forall|i: int, j: int| 0 <= i < j < s.len() ==> s[i].0@ != s[j].0@
}

proof fn lemma_assoc_contains(s: Seq<(String, StoredValue)>, k: Seq<char>)
    ensures
        assoc_model(s).contains_key(k) <==> exists|i: int| 0 <= i < s.len() && s[i].0@ == k,
    decreases s.len(),
{
    if s.len() > 0 {
        lemma_assoc_contains(s.drop_last(), k);
        if s.last().0@ == k {
            assert(s[s.len() - 1].0@ == k);
        } else {
            if assoc_model(s).contains_key(k) {
                let i = choose|i: int| 0 <= i < s.drop_last().len() && s.drop_last()[i].0@ == k;
                assert(s[i].0@ == k);
            }
            if exists|i: int| 0 <= i < s.len() && s[i].0@ == k {
                let i = choose|i: int| 0 <= i < s.len() && s[i].0@ == k;
                assert(s.drop_last()[i].0@ == k);
            }
        }
    }
}

proof fn lemma_assoc_remove(s: Seq<(String, StoredValue)>, i: int)
    requires
        keys_distinct(s),
        0 <= i < s.len(),
    ensures
        assoc_model(s).contains_key(s[i].0@),
        assoc_model(s)[s[i].0@] == s[i].1@,
        assoc_model(s.remove(i)) == assoc_model(s).remove(s[i].0@),
        keys_distinct(s.remove(i)),
    decreases s.len(),
{
    let k = s[i].0@;
    assert forall|p: int, q: int| 0 <= p < q < s.remove(i).len() implies s.remove(i)[p].0@
        != s.remove(i)[q].0@ by {
        let p0: int = if p < i { p } else { p + 1 };
        let q0: int = if q < i { q } else { q + 1 };
        assert(s.remove(i)[p] == s[p0]);
        assert(s.remove(i)[q] == s[q0]);
    }
    if i == s.len() - 1 {
        assert(s.remove(i) =~= s.drop_last());
        lemma_assoc_contains(s.drop_last(), k);
        assert(forall|j: int| 0 <= j < s.drop_last().len() ==> s[j].0@ != k);
        assert(!assoc_model(s.drop_last()).contains_key(k));
        assert(assoc_model(s).remove(k) =~= assoc_model(s.drop_last()));
    } else {
        lemma_assoc_remove(s.drop_last(), i);
        assert(s.remove(i).drop_last() =~= s.drop_last().remove(i));
        assert(s.remove(i).last() == s.last());
        assert(s.drop_last()[i] == s[i]);
        assert(assoc_model(s.remove(i)) == assoc_model(s.drop_last().remove(i)).insert(
            s.last().0@,
            s.last().1@,
        ));
        assert(s.last().0@ != k);
        assert(assoc_model(s.drop_last()).remove(k).insert(s.last().0@, s.last().1@)
            =~= assoc_model(s.drop_last()).insert(s.last().0@, s.last().1@).remove(k));
    }
}

proof fn lemma_assoc_update(s: Seq<(String, StoredValue)>, i: int, kv: (String, StoredValue))
    requires
        keys_distinct(s),
        0 <= i < s.len(),
        s[i].0@ == kv.0@,
    ensures
        assoc_model(s.update(i, kv)) == assoc_model(s).insert(kv.0@, kv.1@),
        keys_distinct(s.update(i, kv)),
    decreases s.len(),
{
    let k = kv.0@;
    if i == s.len() - 1 {
        assert(s.update(i, kv).drop_last() =~= s.drop_last());
        assert(s.update(i, kv).last() == kv);
        assert(assoc_model(s.drop_last()).insert(s.last().0@, s.last().1@).insert(k, kv.1@)
            =~= assoc_model(s.drop_last()).insert(k, kv.1@));
    } else {
        lemma_assoc_update(s.drop_last(), i, kv);
        assert(s.update(i, kv).drop_last() =~= s.drop_last().update(i, kv));
        assert(s.update(i, kv).last() == s.last());
        assert(s.last().0@ != k);
        assert(assoc_model(s.drop_last()).insert(k, kv.1@).insert(s.last().0@, s.last().1@)
            =~= assoc_model(s.drop_last()).insert(s.last().0@, s.last().1@).insert(k, kv.1@));
    }
}

impl Context {
    /// The scoped storage, as the finite map it denotes.
    pub open spec fn locals_model(&self) -> Map<Seq<char>, ValueModel> {
        assoc_model(self.locals@)
    }

    /// Internal well-formedness: the association list never holds two
    /// entries for one key.
    pub open spec fn locals_wf(&self) -> bool {
        keys_distinct(self.locals@)
    }

    /// A fresh context for one inbound request: no response yet, empty
    /// storage, empty trace.
    pub fn new(method: Method, path: String, captures: Vec<String>) -> (c: Context)
        ensures
            c.method == method,
            c.path == path,
            c.captures == captures,
            c.response is None,
            c.locals_model() == Map::<Seq<char>, ValueModel>::empty(),
            c.locals_wf(),
            c.param is None,
            c.trace@ == Seq::<TraceEvent>::empty(),
    {
        let c = Context {
            method,
            path,
            captures,
            response: None,
            locals: Vec::new(),
            param: None,
            trace: Vec::new(),
        };
        proof {
            assert(c.trace@ =~= Seq::<TraceEvent>::empty());
        }
        c
    }

    /// Everything except the scoped storage is unchanged.
    pub open spec fn same_outside_locals(self, other: Context) -> bool {
        &&& self.method == other.method
        &&& self.path == other.path
        &&& self.captures == other.captures
        &&& self.response == other.response
        &&& self.param == other.param
        &&& self.trace == other.trace
    }

    /// Store `val` under `key`; a value already stored under `key` is
    /// replaced. It becomes visible to every layer that runs afterward.
    pub fn set_local(&mut self, key: String, val: StoredValue)
        requires
            old(self).locals_wf(),
        ensures
            final(self).locals_wf(),
            final(self).locals_model() == old(self).locals_model().insert(key@, val@),
            old(self).same_outside_locals(*final(self)),
    {
        let ghost gkey = key@;
        let n = self.locals.len();
        let mut i: usize = 0;
        while i < n
            invariant
                *self == *old(self),
                old(self).locals_wf(),
                n == self.locals.len(),
                i <= n,
                forall|j: int| 0 <= j < i ==> self.locals@[j].0@ != gkey,
                key@ == gkey,
            decreases n - i,
        {
            if self.locals[i].0 == key {
                proof {
                    lemma_assoc_update(self.locals@, i as int, (key, val));
                }
                self.locals.set(i, (key, val));
                return ;
            }
            i = i + 1;
        }
        proof {
            lemma_assoc_contains(self.locals@, gkey);
            assert(self.locals@.push((key, val)).drop_last() =~= self.locals@);
        }
        self.locals.push((key, val));
    }

    /// Remove and return the value stored under `key`, or report that none
    /// is there. A second take without an intervening set finds nothing.
    pub fn take_local(&mut self, key: &String) -> (r: Option<StoredValue>)
        requires
            old(self).locals_wf(),
        ensures
            final(self).locals_wf(),
            old(self).same_outside_locals(*final(self)),
            old(self).locals_model().contains_key(key@) ==> {
                &&& r is Some
                &&& r->Some_0@ == old(self).locals_model()[key@]
                &&& final(self).locals_model() == old(self).locals_model().remove(key@)
            },
            !old(self).locals_model().contains_key(key@) ==> {
                &&& r is None
                &&& final(self).locals_model() == old(self).locals_model()
            },
    {
        let ghost gkey = key@;
        let n = self.locals.len();
        let mut i: usize = 0;
        while i < n
            invariant
                *self == *old(self),
                old(self).locals_wf(),
                n == self.locals.len(),
                i <= n,
                forall|j: int| 0 <= j < i ==> self.locals@[j].0@ != gkey,
                key@ == gkey,
            decreases n - i,
        {
            if self.locals[i].0 == *key {
                proof {
                    lemma_assoc_remove(self.locals@, i as int);
                }
                let kv = self.locals.remove(i);
                return Some(kv.1);
            }
            i = i + 1;
        }
        proof {
            lemma_assoc_contains(self.locals@, gkey);
        }
        None
    }

    /// Remove and return the integer stored under `key`; absence and a
    /// wrongly-tagged value are distinct, explicit errors. A wrongly-tagged
    /// value is still consumed: the read is destructive either way.
    pub fn take_local_int(&mut self, key: &String) -> (r: Result<i64, StorageError>)
        requires
            old(self).locals_wf(),
        ensures
            final(self).locals_wf(),
            old(self).same_outside_locals(*final(self)),
            !old(self).locals_model().contains_key(key@) ==> {
                &&& r == Result::<i64, StorageError>::Err(StorageError::Absent)
                &&& final(self).locals_model() == old(self).locals_model()
            },
            old(self).locals_model().contains_key(key@) ==> {
                &&& final(self).locals_model() == old(self).locals_model().remove(key@)
                &&& (match old(self).locals_model()[key@] {
                    ValueModel::IntM(i) => r == Result::<i64, StorageError>::Ok(i),
                    _ => r == Result::<i64, StorageError>::Err(StorageError::TypeMismatch),
                })
            },
    {
        match self.take_local(key) {
            None => Err(StorageError::Absent),
            Some(StoredValue::IntVal(i)) => Ok(i),
            Some(_) => Err(StorageError::TypeMismatch),
        }
    }

    /// Remove and return the boolean stored under `key`; as `take_local_int`.
    pub fn take_local_bool(&mut self, key: &String) -> (r: Result<bool, StorageError>)
        requires
            old(self).locals_wf(),
        ensures
            final(self).locals_wf(),
            old(self).same_outside_locals(*final(self)),
            !old(self).locals_model().contains_key(key@) ==> {
                &&& r == Result::<bool, StorageError>::Err(StorageError::Absent)
                &&& final(self).locals_model() == old(self).locals_model()
            },
            old(self).locals_model().contains_key(key@) ==> {
                &&& final(self).locals_model() == old(self).locals_model().remove(key@)
                &&& (match old(self).locals_model()[key@] {
                    ValueModel::BoolM(b) => r == Result::<bool, StorageError>::Ok(b),
                    _ => r == Result::<bool, StorageError>::Err(StorageError::TypeMismatch),
                })
            },
    {
        match self.take_local(key) {
            None => Err(StorageError::Absent),
            Some(StoredValue::BoolVal(b)) => Ok(b),
            Some(_) => Err(StorageError::TypeMismatch),
        }
    }

    /// Fill the single anonymous parameter slot; a value already there is
    /// replaced.
    pub fn set_param(&mut self, val: StoredValue)
        ensures
            *final(self) == (Context { param: Some(val), ..*old(self) }),
    {
        self.param = Some(val);
    }

    /// Remove and return the anonymous parameter slot's value, if any.
    pub fn take_param(&mut self) -> (r: Option<StoredValue>)
        ensures
            r == old(self).param,
            *final(self) == (Context { param: None, ..*old(self) }),
    {
        let r = self.param.take();
        r
    }

    /// Remove and return the boolean in the parameter slot; absence and a
    /// wrongly-tagged value are distinct, explicit errors.
    pub fn take_param_bool(&mut self) -> (r: Result<bool, StorageError>)
        ensures
            *final(self) == (Context { param: None, ..*old(self) }),
            match old(self).param {
                None => r == Result::<bool, StorageError>::Err(StorageError::Absent),
                Some(StoredValue::BoolVal(b)) => r == Result::<bool, StorageError>::Ok(b),
                Some(_) => r == Result::<bool, StorageError>::Err(StorageError::TypeMismatch),
            },
    {
        match self.take_param() {
            None => Err(StorageError::Absent),
            Some(StoredValue::BoolVal(b)) => Ok(b),
            Some(_) => Err(StorageError::TypeMismatch),
        }
    }

    /// Record one observable execution step.
    pub fn record(&mut self, ev: TraceEvent)
        ensures
            final(self).trace@ == old(self).trace@.push(ev),
            final(self).method == old(self).method,
            final(self).path == old(self).path,
            final(self).captures == old(self).captures,
            final(self).response == old(self).response,
            final(self).param == old(self).param,
            final(self).locals_model() == old(self).locals_model(),
            final(self).locals_wf() == old(self).locals_wf(),
    {
        self.trace.push(ev);
    }
}

/// Law: depositing a value under a key makes exactly that value available to
/// one later take of the key, and after that take the key is absent until a
/// new deposit. Stated over the storage model that `set_local`, `take_local`
/// and the typed takes are specified with.
pub proof fn law_local_handoff(m: Map<Seq<char>, ValueModel>, k: Seq<char>, v: ValueModel)
    ensures
        m.insert(k, v).contains_key(k),
        m.insert(k, v)[k] == v,
        !m.insert(k, v).remove(k).contains_key(k),
{
}

} // verus!
