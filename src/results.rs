//! The result store: a write-once mapping from (experiment, package,
//! toolchain) to an outcome and the log captured while producing it.
use vstd::prelude::*;

verus! {

/// Outcome of one task.
#[derive(Clone, Copy, Debug, PartialEq, Eq, Structural)]
pub enum TestResult {
    BuildFail,
    TestFail,
    TestSkipped,
    TestPass,
    CompileError,
    /// The package's preparation failed, so the task never ran.
    PrepareFailed,
    /// The sandbox was killed after the task's time limit.
    TimedOut,
    /// The sandbox could not run the task at all.
    Error,
}

/// Raised from inside the sandbox to classify a task ahead of time: the task
/// is then recorded as done with the carried outcome.
#[derive(Clone, Copy, Debug, PartialEq, Eq, Structural)]
pub struct OverrideResult(pub TestResult);

impl OverrideResult {
    /// The outcome that the task is recorded with.
    pub fn result(&self) -> (r: TestResult)
        ensures
            r == self.0,
    {
        self.0
    }
}

/// Identity of a stored result. Experiments, packages and toolchains are
/// opaque identities, here numbered by the caller.
#[derive(Clone, Copy, Debug, PartialEq, Eq, Structural)]
pub struct ResultKey {
    pub ex: u64,
    pub krate: u64,
    pub toolchain: u64,
}

/// Why a write was refused.
#[derive(Clone, Copy, Debug, PartialEq, Eq, Structural)]
pub enum StoreError {
    /// A different outcome is already stored under the key.
    Conflict { stored: TestResult, offered: TestResult },
}

pub struct StoredResult {
    pub key: ResultKey,
    pub result: TestResult,
    pub log: Vec<u8>,
}

/// Append-only store of results; each key is written at most once.
pub struct ResultStore {
    entries: Vec<StoredResult>,
}

/// Position of the last entry with key `k` in `s`, or -1.
pub open spec fn index_of(s: Seq<StoredResult>, k: ResultKey) -> int
    decreases s.len(),
{
    if s.len() == 0 {
        -1
    } else if s.last().key == k {
        s.len() - 1
    } else {
        index_of(s.drop_last(), k)
    }
}

proof fn lemma_index_of_range(s: Seq<StoredResult>, k: ResultKey)
    ensures
        -1 <= index_of(s, k) < s.len(),
        index_of(s, k) >= 0 ==> s[index_of(s, k)].key == k,
    decreases s.len(),
{
    if s.len() > 0 && s.last().key != k {
        lemma_index_of_range(s.drop_last(), k);
    }
}

proof fn lemma_index_of_push(s: Seq<StoredResult>, e: StoredResult, k: ResultKey)
    ensures
        index_of(s.push(e), k) == if e.key == k { s.len() as int } else { index_of(s, k) },
{
    assert(s.push(e).drop_last() =~= s);
}

impl ResultStore {
    /// The stored outcome of each key.
    pub closed spec fn view(&self) -> Map<ResultKey, TestResult> {
        Map::new(
            |k: ResultKey| index_of(self.entries@, k) >= 0,
            |k: ResultKey| self.entries@[index_of(self.entries@, k)].result,
        )
    }

    /// The stored log of each key.
    pub closed spec fn logs(&self) -> Map<ResultKey, Seq<u8>> {
        Map::new(
            |k: ResultKey| index_of(self.entries@, k) >= 0,
            |k: ResultKey| self.entries@[index_of(self.entries@, k)].log@,
        )
    }

    /// Each stored outcome has its log beside it.
    pub proof fn lemma_logs_domain(&self)
        ensures
            forall|k: ResultKey| #[trigger] self@.contains_key(k) == self.logs().contains_key(k),
    {
    }

    /// An empty store.
    pub fn new() -> (r: Self)
        ensures
            r@ == Map::<ResultKey, TestResult>::empty(),
            r.logs() == Map::<ResultKey, Seq<u8>>::empty(),
    {
        let r = ResultStore { entries: Vec::new() };
        assert(r@ =~= Map::<ResultKey, TestResult>::empty());
        assert(r.logs() =~= Map::<ResultKey, Seq<u8>>::empty());
        r
    }

    fn find(&self, key: &ResultKey) -> (r: Option<usize>)
        ensures
            match r {
                Some(i) => i < self.entries@.len() && i == index_of(self.entries@, *key),
                None => index_of(self.entries@, *key) == -1,
            },
    {
        let mut i: usize = self.entries.len();
        assert(self.entries@.subrange(0, i as int) =~= self.entries@);
        while i > 0
            invariant
                i <= self.entries@.len(),
                index_of(self.entries@.subrange(0, i as int), *key) == index_of(self.entries@, *key),
            decreases i,
        {
            let ghost pre = self.entries@.subrange(0, i as int);
            assert(pre.drop_last() =~= self.entries@.subrange(0, i - 1));
            if self.entries[i - 1].key == *key {
                return Some(i - 1);
            }
            i = i - 1;
        }
        assert(self.entries@.subrange(0, 0) =~= Seq::<StoredResult>::empty());
        None
    }

    /// Whether a result is stored under `key`.
    pub fn has(&self, key: &ResultKey) -> (r: bool)
        ensures
            r == self@.contains_key(*key),
    {
        self.find(key).is_some()
    }

    /// The outcome stored under `key`.
    pub fn get(&self, key: &ResultKey) -> (r: Option<TestResult>)
        ensures
            r == (if self@.contains_key(*key) { Some(self@[*key]) } else { None::<TestResult> }),
    {
        match self.find(key) {
            Some(i) => Some(self.entries[i].result),
            None => None,
        }
    }

    /// The log stored under `key`.
    pub fn get_log(&self, key: &ResultKey) -> (r: Option<&Vec<u8>>)
        ensures
            match r {
                Some(l) => self.logs().contains_key(*key) && l@ == self.logs()[*key],
                None => !self.logs().contains_key(*key),
            },
    {
        match self.find(key) {
            Some(i) => Some(&self.entries[i].log),
            None => None,
        }
    }

    /// Records `result` and `log` under `key`. A key that already holds the
    /// same outcome is left as it is; one that holds another outcome is
    /// refused.
    pub fn put(&mut self, key: ResultKey, result: TestResult, log: Vec<u8>) -> (r: Result<(), StoreError>)
        ensures
            (final(self)@, r) == put_outcome(old(self)@, key, result),
            final(self).logs() == (if old(self)@.contains_key(key) {
                old(self).logs()
            } else {
                old(self).logs().insert(key, log@)
            }),
    {
        match self.find(&key) {
            Some(i) => {
                let stored = self.entries[i].result;
                if stored == result {
                    Ok(())
                } else {
                    Err(StoreError::Conflict { stored, offered: result })
                }
            },
            None => {
                let ghost s0 = self.entries@;
                let e = StoredResult { key, result, log };
                self.entries.push(e);
                proof {
                    assert forall|k: ResultKey| index_of(self.entries@, k) == if k == key {
                        s0.len() as int
                    } else {
                        index_of(s0, k)
                    } by {
                        lemma_index_of_push(s0, e, k);
                    }
                    assert forall|k: ResultKey| #[trigger] index_of(s0, k) >= 0 implies self.entries@[index_of(s0, k)] == s0[index_of(s0, k)] by {
                        lemma_index_of_range(s0, k);
                    }
                    assert(self@ =~= old(self)@.insert(key, result));
                    assert(self.logs() =~= old(self).logs().insert(key, e.log@));
                }
                Ok(())
            },
        }
    }
}

/// The store after a write, and the answer to it.
pub open spec fn put_outcome(m: Map<ResultKey, TestResult>, key: ResultKey, result: TestResult) -> (
    Map<ResultKey, TestResult>,
    Result<(), StoreError>,
) {
    if !m.contains_key(key) {
        (m.insert(key, result), Ok(()))
    } else if m[key] == result {
        (m, Ok(()))
    } else {
        (m, Err(StoreError::Conflict { stored: m[key], offered: result }))
    }
}

/// Writing the same outcome twice under one key leaves the store as one write
/// does; writing another outcome the second time is refused and changes
/// nothing.
pub proof fn lemma_put_idempotent(m: Map<ResultKey, TestResult>, key: ResultKey, a: TestResult, b: TestResult)
    requires
        put_outcome(m, key, a).1 is Ok,
    ensures
        a == b ==> put_outcome(put_outcome(m, key, a).0, key, b) == (put_outcome(m, key, a).0, Ok::<(), StoreError>(())),
        a != b ==> put_outcome(put_outcome(m, key, a).0, key, b).1 is Err
            && put_outcome(put_outcome(m, key, a).0, key, b).0 == put_outcome(m, key, a).0,
{
}

/// A write that was accepted is what a read of its key then returns.
pub proof fn lemma_get_after_put(m: Map<ResultKey, TestResult>, key: ResultKey, v: TestResult)
    requires
        put_outcome(m, key, v).1 is Ok,
    ensures
        put_outcome(m, key, v).0.contains_key(key),
        put_outcome(m, key, v).0[key] == v,
{
}

} // verus!
