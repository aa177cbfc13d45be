use vstd::prelude::*;

verus! {

/// A record: the height at which a value took effect, and the value.
pub type Record = (u64, u128);

/// Heights strictly increase along the records.
pub open spec fn sorted(s: Seq<Record>) -> bool {
    forall|i: int, j: int| 0 <= i < j < s.len() ==> #[trigger] s[i].0 < #[trigger] s[j].0
}

/// The value of the last record whose height is at most `h`, if any.
pub open spec fn value_at(s: Seq<Record>, h: u64) -> Option<u128>
    decreases s.len(),
{
    if s.len() == 0 {
        None
    } else if s.last().0 <= h {
        Some(s.last().1)
    } else {
        value_at(s.drop_last(), h)
    }
}

/// The value as of height `h`, zero where nothing was recorded yet.
pub open spec fn amount_at(s: Seq<Record>, h: u64) -> u128 {
    match value_at(s, h) {
        Some(v) => v,
        None => 0,
    }
}

/// The value written last, if any.
pub open spec fn latest(s: Seq<Record>) -> Option<u128> {
    if s.len() == 0 {
        None
    } else {
        Some(s.last().1)
    }
}

/// No record is later than `h`.
pub open spec fn settled_by(s: Seq<Record>, h: u64) -> bool {
    s.len() == 0 || s.last().0 <= h
}

/// The records after writing `v` at height `h`, which is no earlier than any
/// record: a record at that very height is replaced, earlier ones stay.
pub open spec fn put_record(s: Seq<Record>, h: u64, v: u128) -> Seq<Record> {
    if s.len() > 0 && s.last().0 == h {
        s.drop_last().push((h, v))
    } else {
        s.push((h, v))
    }
}

/// The records that a run of writes leaves, from an empty history.
pub open spec fn replay(puts: Seq<Record>) -> Seq<Record>
    decreases puts.len(),
{
    if puts.len() == 0 {
        Seq::empty()
    } else {
        put_record(replay(puts.drop_last()), puts.last().0, puts.last().1)
    }
}

/// Heights never decrease along a run of writes.
pub open spec fn non_decreasing(puts: Seq<Record>) -> bool {
    forall|i: int, j: int| 0 <= i < j < puts.len() ==> #[trigger] puts[i].0 <= #[trigger] puts[j].0
}

/// Reading at or after the newest record gives the newest value.
pub proof fn lemma_at_settled(s: Seq<Record>, h: u64)
    requires
        settled_by(s, h),
    ensures
        value_at(s, h) == latest(s),
{
}

/// A write at `h` decides every read at `h` or later and no read before it.
pub proof fn lemma_put_record(s: Seq<Record>, h: u64, v: u128, q: u64)
    requires
        sorted(s),
        settled_by(s, h),
    ensures
        sorted(put_record(s, h, v)),
        settled_by(put_record(s, h, v), h),
        value_at(put_record(s, h, v), q) == (if q >= h {
            Some(v)
        } else {
            value_at(s, q)
        }),
{
    let t = put_record(s, h, v);
    if s.len() > 0 && s.last().0 == h {
        assert(t.drop_last() =~= s.drop_last());
        assert forall|i: int, j: int| 0 <= i < j < t.len() implies #[trigger] t[i].0
            < #[trigger] t[j].0 by {
            if j == t.len() - 1 {
                assert(s[i].0 < s[j].0);
            } else {
                assert(s[i].0 < s[j].0);
            }
        }
    } else {
        assert(t.drop_last() =~= s);
        assert forall|i: int, j: int| 0 <= i < j < t.len() implies #[trigger] t[i].0
            < #[trigger] t[j].0 by {
            if j == t.len() - 1 {
                if i < s.len() - 1 {
                    assert(s[i].0 < s[s.len() - 1].0);
                }
            } else {
                assert(s[i].0 < s[j].0);
            }
        }
    }
}

/// A history: the value of one key at every height at which it was written.
pub struct History {
    records: Vec<Record>,
}

impl View for History {
    type V = Seq<Record>;

    closed spec fn view(&self) -> Seq<Record> {
        self.records@
    }
}

impl History {
    pub open spec fn wf(&self) -> bool {
        sorted(self@)
    }

    /// A history with no record.
    pub fn new() -> (r: History)
        ensures
            r@ == Seq::<Record>::empty(),
            r.wf(),
    {
        History { records: Vec::new() }
    }

    /// The value written last, whatever its height.
    pub fn get_latest(&self) -> (r: Option<u128>)
        ensures
            r == latest(self@),
    {
        let n = self.records.len();
        if n == 0 {
            None
        } else {
            Some(self.records[n - 1].1)
        }
    }

    /// The height of the newest record, if any.
    pub fn newest_height(&self) -> (r: Option<u64>)
        ensures
            r == (if self@.len() == 0 {
                None
            } else {
                Some(self@.last().0)
            }),
    {
        let n = self.records.len();
        if n == 0 {
            None
        } else {
            Some(self.records[n - 1].0)
        }
    }

    /// The value in effect at height `h`: that of the newest record at or
    /// before `h`, found by walking back from the newest record.
    pub fn get_at(&self, h: u64) -> (r: Option<u128>)
        ensures
            r == value_at(self@, h),
    {
        let mut i: usize = self.records.len();
        assert(self@.subrange(0, i as int) =~= self@);
        while i > 0 && self.records[i - 1].0 > h
            invariant
                0 <= i <= self@.len(),
                self@ == self.records@,
                value_at(self@, h) == value_at(self@.subrange(0, i as int), h),
            decreases i,
        {
            proof {
                let s = self@.subrange(0, i as int);
                assert(s.drop_last() =~= self@.subrange(0, i - 1));
            }
            i = i - 1;
        }
        if i == 0 {
            None
        } else {
            Some(self.records[i - 1].1)
        }
    }

    /// `get_at`, with zero where nothing was recorded.
    pub fn amount_at(&self, h: u64) -> (r: u128)
        ensures
            r == amount_at(self@, h),
    {
        match self.get_at(h) {
            Some(v) => v,
            None => 0,
        }
    }

    /// Loads the value in effect at `h` (or `default` where there is none),
    /// applies `f`, and writes what it returns at `h`. Where `f` fails,
    /// nothing is written.
    pub fn update<E, F: Fn(u128) -> Result<u128, E>>(&mut self, h: u64, default: u128, f: F) -> (r:
        Result<u128, E>)
        requires
            old(self).wf(),
            settled_by(old(self)@, h),
            forall|v: u128| f.requires((v,)),
        ensures
            final(self).wf(),
            f.ensures(
                (match value_at(old(self)@, h) {
                    Some(v) => v,
                    None => default,
                },),
                r,
            ),
            r is Ok ==> final(self)@ == put_record(old(self)@, h, r->Ok_0),
            r is Err ==> final(self)@ == old(self)@,
    {
        let loaded = match self.get_at(h) {
            Some(v) => v,
            None => default,
        };
        let r = f(loaded);
        match r {
            Ok(v) => {
                self.put(h, v);
                Ok(v)
            },
            Err(e) => Err(e),
        }
    }

    /// Writes `v` as the value from height `h` on.
    pub fn put(&mut self, h: u64, v: u128)
        requires
            old(self).wf(),
            settled_by(old(self)@, h),
        ensures
            final(self)@ == put_record(old(self)@, h, v),
            final(self).wf(),
            settled_by(final(self)@, h),
    {
        proof {
            lemma_put_record(self@, h, v, h);
        }
        let n = self.records.len();
        if n > 0 && self.records[n - 1].0 == h {
            self.records.set(n - 1, (h, v));
            proof {
                assert(self@ =~= put_record(old(self)@, h, v));
            }
        } else {
            self.records.push((h, v));
        }
    }
}

/// The history that a run of writes with non-decreasing heights leaves answers
/// every read with the value of the last write at or before the height read,
/// or with nothing where no write came that early.
pub proof fn lemma_history_reads_last_write(puts: Seq<Record>, h: u64)
    requires
        non_decreasing(puts),
    ensures
        sorted(replay(puts)),
        puts.len() > 0 ==> settled_by(replay(puts), puts.last().0),
        puts.len() == 0 ==> replay(puts).len() == 0,
        value_at(replay(puts), h) == value_at(puts, h),
    decreases puts.len(),
{
    if puts.len() > 0 {
        let init = puts.drop_last();
        assert(non_decreasing(init)) by {
            assert forall|i: int, j: int| 0 <= i < j < init.len() implies #[trigger] init[i].0
                <= #[trigger] init[j].0 by {
                assert(puts[i].0 <= puts[j].0);
            }
        }
        lemma_history_reads_last_write(init, h);
        if init.len() > 0 {
            assert(init.last().0 <= puts.last().0) by {
                assert(puts[init.len() - 1].0 <= puts[puts.len() - 1].0);
            }
        }
        lemma_put_record(replay(init), puts.last().0, puts.last().1, h);
        lemma_put_record(replay(init), puts.last().0, puts.last().1, puts.last().0);
    }
}

/// Before the first write nothing is read; at or after the last write its
/// value is read.
pub proof fn lemma_history_bounds(puts: Seq<Record>, h: u64)
    requires
        non_decreasing(puts),
        puts.len() > 0,
    ensures
        h < puts[0].0 ==> value_at(replay(puts), h) is None,
        h >= puts.last().0 ==> value_at(replay(puts), h) == Some(puts.last().1),
{
    lemma_history_reads_last_write(puts, h);
    if h < puts[0].0 {
        lemma_none_before_first(puts, h);
    }
}

proof fn lemma_none_before_first(puts: Seq<Record>, h: u64)
    requires
        non_decreasing(puts),
        puts.len() > 0,
        h < puts[0].0,
    ensures
        value_at(puts, h) is None,
    decreases puts.len(),
{
    let init = puts.drop_last();
    assert(puts[0].0 <= puts.last().0);
    if init.len() > 0 {
        assert(non_decreasing(init)) by {
            assert forall|i: int, j: int| 0 <= i < j < init.len() implies #[trigger] init[i].0
                <= #[trigger] init[j].0 by {
                assert(puts[i].0 <= puts[j].0);
            }
        }
        lemma_none_before_first(init, h);
    }
}

} // verus!
