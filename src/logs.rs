//! Per-task log capture: a buffer of records bounded in bytes. When a new
//! record does not fit, the oldest records are dropped until it does, and the
//! buffer remembers that it overflowed.
use vstd::prelude::*;
use vstd::string::StringSliceAdditionalSpecFns;

verus! {

/// Total number of bytes in `s`.
pub open spec fn total(s: Seq<Seq<u8>>) -> nat
    decreases s.len(),
{
    if s.len() == 0 {
        0
    } else {
        total(s.drop_last()) + s.last().len()
    }
}

proof fn lemma_total_drop_first(s: Seq<Seq<u8>>)
    requires
        s.len() > 0,
    ensures
        total(s) == s[0].len() + total(s.subrange(1, s.len() as int)),
    decreases s.len(),
{
    if s.len() > 1 {
        lemma_total_drop_first(s.drop_last());
        assert(s.drop_last()[0] == s[0]);
        let t = s.subrange(1, s.len() as int);
        assert(s.drop_last().subrange(1, s.len() - 1) =~= t.drop_last());
        assert(t.last() == s.last());
        assert(total(t) == total(t.drop_last()) + t.last().len());
    } else {
        assert(s.subrange(1, s.len() as int) =~= Seq::<Seq<u8>>::empty());
        assert(s.drop_last() =~= Seq::<Seq<u8>>::empty());
    }
}

/// The records of `s` from `d` on fit in `max` bytes, and none from `d - 1`
/// on do: `d` is the fewest oldest records to drop.
pub open spec fn fewest_dropped(s: Seq<Seq<u8>>, d: int, max: nat) -> bool {
    &&& 0 <= d <= s.len()
    &&& total(s.subrange(d, s.len() as int)) <= max
    &&& d > 0 ==> total(s.subrange(d - 1, s.len() as int)) > max
}

/// Appended to a snapshot of a buffer that dropped records.
pub const OVERFLOW_MARKER: &'static str = "[log truncated: oldest records dropped]\n";

pub struct LogStorage {
    records: Vec<Vec<u8>>,
    size: usize,
    max_size: usize,
    truncated: bool,
}

impl LogStorage {
    pub closed spec fn view(&self) -> Seq<Seq<u8>> {
        self.records@.map_values(|r: Vec<u8>| r@)
    }

    pub closed spec fn max_size(&self) -> nat {
        self.max_size as nat
    }

    pub closed spec fn truncated(&self) -> bool {
        self.truncated
    }

    pub closed spec fn wf(&self) -> bool {
        &&& self.size as nat == total(self@)
        &&& self.size <= self.max_size
    }

    /// An empty buffer that holds at most `max_size` bytes.
    pub fn new(max_size: usize) -> (r: Self)
        ensures
            r.wf(),
            r@ == Seq::<Seq<u8>>::empty(),
            r.max_size() == max_size,
            !r.truncated(),
    {
        let r = LogStorage { records: Vec::new(), size: 0, max_size, truncated: false };
        assert(r@ =~= Seq::<Seq<u8>>::empty());
        r
    }

    /// Appends `record`, first dropping the fewest oldest records that make
    /// room for it; a record larger than the whole buffer leaves it empty.
    pub fn record(&mut self, record: Vec<u8>)
        requires
            old(self).wf(),
        ensures
            final(self).wf(),
            final(self).max_size() == old(self).max_size(),
            exists|d: int|
                fewest_dropped(old(self)@.push(record@), d, old(self).max_size())
                    && final(self)@ == old(self)@.push(record@).subrange(d, old(self)@.len() + 1 as int)
                    && final(self).truncated() == (old(self).truncated() || d > 0),
    {
        let ghost s1 = old(self)@.push(record@);
        let ghost n1 = s1.len() as int;
        let len = record.len();
        proof {
            assert(s1.drop_last() =~= old(self)@);
            assert(total(s1) == total(old(self)@) + len);
        }
        let ghost mut d: int = 0;
        if len > self.max_size {
            proof {
                // every suffix holding the new record is too large
                assert forall|j: int| 0 <= j <= old(self)@.len() implies total(#[trigger] s1.subrange(j, n1)) > self.max_size by {
                    lemma_total_last(s1.subrange(j, n1));
                    assert(s1.subrange(j, n1).drop_last() =~= s1.subrange(j, n1 - 1));
                }
                assert(s1.subrange(n1, n1) =~= Seq::<Seq<u8>>::empty());
                assert(self@.subrange(0, 0) =~= Seq::<Seq<u8>>::empty());
            }
            self.records = Vec::new();
            self.size = 0;
            self.truncated = true;
            proof {
                assert(self@ =~= s1.subrange(n1, n1));
                assert(fewest_dropped(s1, n1, self.max_size as nat));
            }
            return;
        }
        while self.size > self.max_size - len
            invariant
                self.wf(),
                self.max_size == old(self).max_size,
                s1 == old(self)@.push(record@),
                n1 == s1.len(),
                len == record@.len(),
                len <= self.max_size,
                0 <= d <= old(self)@.len(),
                self@ == old(self)@.subrange(d, old(self)@.len() as int),
                d > 0 ==> total(s1.subrange(d - 1, n1)) > self.max_size,
                self.truncated == (old(self).truncated || d > 0),
            decreases self@.len(),
        {
            let ghost prev = self@;
            proof {
                lemma_total_drop_first(prev);
                assert(s1.subrange(d, n1) =~= prev.push(record@));
                assert(prev.push(record@).drop_last() =~= prev);
            }
            let first = self.records.remove(0);
            proof {
                assert(first@ == prev[0]);
                assert(self@ =~= prev.subrange(1, prev.len() as int));
                assert(prev.subrange(1, prev.len() as int) =~= old(self)@.subrange(d + 1, old(self)@.len() as int));
            }
            self.size = self.size - first.len();
            self.truncated = true;
            proof {
                d = d + 1;
            }
        }
        self.records.push(record);
        self.size = self.size + len;
        proof {
            let ghost before = old(self)@.subrange(d, old(self)@.len() as int);
            assert(self@ =~= before.push(record@));
            assert(self@ =~= s1.subrange(d, n1));
            assert(self@.drop_last() =~= before);
            assert(total(self@) == total(before) + len);
            assert(fewest_dropped(s1, d, self.max_size as nat));
            assert(fewest_dropped(old(self)@.push(record@), d, old(self).max_size())
                && self@ == old(self)@.push(record@).subrange(d, old(self)@.len() + 1 as int)
                && self.truncated() == (old(self).truncated() || d > 0));
        }
    }

    /// The records held, oldest first and joined, followed by a marker when
    /// records were dropped to make room.
    pub fn snapshot(&self) -> (r: Vec<u8>)
        ensures
            r@ == self@.flatten() + if self.truncated() {
                OVERFLOW_MARKER.spec_bytes()
            } else {
                Seq::<u8>::empty()
            },
    {
        let mut out: Vec<u8> = Vec::new();
        let mut i: usize = 0;
        while i < self.records.len()
            invariant
                i <= self@.len(),
                self@.len() == self.records@.len(),
                out@ == self@.subrange(0, i as int).flatten(),
            decreases self@.len() - i,
        {
            let rec = &self.records[i];
            let mut j: usize = 0;
            let ghost start = out@;
            while j < rec.len()
                invariant
                    j <= rec@.len(),
                    out@ == start + rec@.subrange(0, j as int),
                decreases rec@.len() - j,
            {
                out.push(rec[j]);
                assert(rec@.subrange(0, j + 1) =~= rec@.subrange(0, j as int).push(rec@[j as int]));
                j = j + 1;
            }
            proof {
                assert(rec@.subrange(0, rec@.len() as int) =~= rec@);
                assert(self@.subrange(0, i + 1) =~= self@.subrange(0, i as int).push(self@[i as int]));
                self@.subrange(0, i as int).lemma_flatten_push(self@[i as int]);
            }
            i = i + 1;
        }
        assert(self@.subrange(0, self@.len() as int) =~= self@);
        if self.truncated {
            let m = OVERFLOW_MARKER.as_bytes();
            let mut k: usize = 0;
            let ghost start = out@;
            while k < m.len()
                invariant
                    k <= m@.len(),
                    m@ == OVERFLOW_MARKER.spec_bytes(),
                    out@ == start + m@.subrange(0, k as int),
                decreases m@.len() - k,
            {
                out.push(m[k]);
                assert(m@.subrange(0, k + 1) =~= m@.subrange(0, k as int).push(m@[k as int]));
                k = k + 1;
            }
            assert(m@.subrange(0, m@.len() as int) =~= m@);
        } else {
            assert(out@ =~= out@ + Seq::<u8>::empty());
        }
        out
    }

    /// The records held, oldest first.
    pub fn records(&self) -> (r: &Vec<Vec<u8>>)
        ensures
            r@.map_values(|x: Vec<u8>| x@) == self@,
    {
        &self.records
    }

    /// Whether records were dropped to make room.
    pub fn is_truncated(&self) -> (r: bool)
        ensures
            r == self.truncated(),
    {
        self.truncated
    }
}

proof fn lemma_total_last(s: Seq<Seq<u8>>)
    requires
        s.len() > 0,
    ensures
        total(s) == total(s.drop_last()) + s.last().len(),
{
}

} // verus!
