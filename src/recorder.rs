use vstd::multiset::Multiset;
use vstd::prelude::*;

use crate::traits::{LearnableId, MemorizerError, Record, Recorder};

verus! {

/// The records of a learnable, in the order they were stored.
pub open spec fn records_of(records: Seq<Record>, learnable: LearnableId) -> Seq<Record>
    decreases records.len(),
{
    if records.len() == 0 {
        records
    } else {
        let rest = records_of(records.drop_last(), learnable);
        if records.last().question.learnable == learnable {
            rest.push(records.last())
        } else {
            rest
        }
    }
}

/// Whether record `a` comes no later than record `b`: by time, and among records of one time by
/// score and then by the ids of the question, so that only identical records tie.
pub open spec fn record_le(a: Record, b: Record) -> bool {
    let (qa, qb) = (a.question, b.question);
    if a.time != b.time {
        a.time < b.time
    } else if a.score != b.score {
        a.score < b.score
    } else if qa.learnable != qb.learnable {
        qa.learnable.0 < qb.learnable.0
    } else if qa.from != qb.from {
        qa.from.0 < qb.from.0
    } else if qa.transform != qb.transform {
        qa.transform.0 < qb.transform.0
    } else {
        qa.to.0 <= qb.to.0
    }
}

/// `s` with `r` placed after every record that comes no later than it.
pub open spec fn insert_by_time(s: Seq<Record>, r: Record) -> Seq<Record>
    decreases s.len(),
{
    if s.len() == 0 {
        seq![r]
    } else if record_le(s.last(), r) {
        s.push(r)
    } else {
        insert_by_time(s.drop_last(), r).push(s.last())
    }
}

/// The records in chronological order, ties broken by `record_le`.
pub open spec fn chronological(s: Seq<Record>) -> Seq<Record>
    decreases s.len(),
{
    if s.len() == 0 {
        s
    } else {
        insert_by_time(chronological(s.drop_last()), s.last())
    }
}

/// Whether the records are in the order of `record_le`.
pub open spec fn ordered(s: Seq<Record>) -> bool {
    forall|i: int, j: int| 0 <= i < j < s.len() ==> record_le(s[i], s[j])
}

/// Whether the records are in time order.
pub open spec fn time_ordered(s: Seq<Record>) -> bool {
    forall|i: int, j: int| 0 <= i < j < s.len() ==> s[i].time <= s[j].time
}

proof fn lemma_le_facts(a: Record, b: Record, c: Record)
    ensures
        record_le(a, b) || record_le(b, a),
        record_le(a, b) && record_le(b, a) ==> a == b,
        record_le(a, b) && record_le(b, c) ==> record_le(a, c),
        record_le(a, b) ==> a.time <= b.time,
{
}

proof fn lemma_insert_keeps_order(s: Seq<Record>, r: Record)
    requires
        ordered(s),
    ensures
        ordered(insert_by_time(s, r)),
        insert_by_time(s, r).to_multiset() == s.to_multiset().insert(r),
    decreases s.len(),
{
    broadcast use vstd::seq_lib::group_to_multiset_ensures;

    if s.len() == 0 {
        assert(seq![r] == Seq::<Record>::empty().push(r));
    } else {
        let rest = s.drop_last();
        assert(s == rest.push(s.last()));
        if record_le(s.last(), r) {
            assert forall|i: int, j: int|
                0 <= i < j < s.len() + 1 implies record_le(
                #[trigger] s.push(r)[i],
                #[trigger] s.push(r)[j],
            ) by {
                if j == s.len() as int {
                    if i < s.len() - 1 {
                        lemma_le_facts(s[i], s.last(), r);
                    }
                }
            }
        } else {
            assert(ordered(rest));
            lemma_insert_keeps_order(rest, r);
            let t = insert_by_time(rest, r);
            lemma_le_facts(s.last(), r, r);
            assert forall|i: int| 0 <= i < t.len() implies record_le(#[trigger] t[i], s.last()) by {
                if t[i] != r {
                    assert(t.to_multiset().count(t[i]) > 0);
                    assert(rest.to_multiset().count(t[i]) > 0);
                    let k = choose|k: int| 0 <= k < rest.len() && rest[k] == t[i];
                    assert(s[k] == rest[k]);
                }
            }
            assert forall|i: int, j: int|
                0 <= i < j < t.len() + 1 implies record_le(
                #[trigger] t.push(s.last())[i],
                #[trigger] t.push(s.last())[j],
            ) by {
                if j == t.len() as int {
                    assert(record_le(t[i], s.last()));
                }
            }
            assert(t.push(s.last()).to_multiset() =~= s.to_multiset().insert(r));
        }
    }
}

proof fn lemma_chronological_facts(s: Seq<Record>)
    ensures
        ordered(chronological(s)),
        chronological(s).to_multiset() == s.to_multiset(),
    decreases s.len(),
{
    broadcast use vstd::seq_lib::group_to_multiset_ensures;

    if s.len() == 0 {
        assert(s.to_multiset() =~= Multiset::empty());
        assert(chronological(s).to_multiset() =~= Multiset::empty());
    } else {
        lemma_chronological_facts(s.drop_last());
        lemma_insert_keeps_order(chronological(s.drop_last()), s.last());
        assert(s == s.drop_last().push(s.last()));
    }
}

proof fn lemma_ordered_unique(a: Seq<Record>, b: Seq<Record>)
    requires
        ordered(a),
        ordered(b),
        a.to_multiset() == b.to_multiset(),
    ensures
        a == b,
    decreases a.len(),
{
    broadcast use vstd::seq_lib::group_to_multiset_ensures;
    broadcast use vstd::multiset::group_multiset_axioms;

    assert(a.to_multiset().len() == a.len());
    assert(b.to_multiset().len() == b.len());
    if a.len() == 0 {
        assert(b.to_multiset().len() == 0);
        assert(b =~= a);
    } else {
        assert(b.len() == a.len());
        let (x, y) = (a.last(), b.last());
        assert(a.to_multiset().count(y) > 0);
        assert(b.to_multiset().count(x) > 0);
        let i = choose|i: int| 0 <= i < a.len() && a[i] == y;
        let j = choose|j: int| 0 <= j < b.len() && b[j] == x;
        if i < a.len() - 1 {
            assert(record_le(a[i], a[a.len() - 1]));
        }
        if j < b.len() - 1 {
            assert(record_le(b[j], b[b.len() - 1]));
        }
        lemma_le_facts(x, y, x);
        assert(x == y);
        let (ra, rb) = (a.drop_last(), b.drop_last());
        assert(a == ra.push(x));
        assert(b == rb.push(x));
        assert(ra.to_multiset() =~= rb.to_multiset()) by {
            assert(ra.push(x).to_multiset() == ra.to_multiset().insert(x));
            assert(rb.push(x).to_multiset() == rb.to_multiset().insert(x));
            assert forall|z: Record| ra.to_multiset().count(z) == rb.to_multiset().count(z) by {
                let (ma, mb) = (ra.to_multiset(), rb.to_multiset());
                assert(a.to_multiset() == ma.insert(x));
                assert(b.to_multiset() == mb.insert(x));
                assert(ma.insert(x).count(z) == mb.insert(x).count(z));
                if z == x {
                    assert(ma.insert(x).count(z) == ma.count(z) + 1);
                    assert(mb.insert(x).count(z) == mb.count(z) + 1);
                } else {
                    assert(ma.insert(x).count(z) == ma.count(z));
                    assert(mb.insert(x).count(z) == mb.count(z));
                }
            }
        }
        assert(ordered(ra));
        assert(ordered(rb));
        lemma_ordered_unique(ra, rb);
    }
}

/// The chronological order of a history does not depend on the order in which the store
/// returns its records: any two listings of the same records give the same order.
pub proof fn lemma_chronological_ignores_order(s: Seq<Record>, t: Seq<Record>)
    requires
        s.to_multiset() == t.to_multiset(),
    ensures
        chronological(s) == chronological(t),
{
    lemma_chronological_facts(s);
    lemma_chronological_facts(t);
    lemma_ordered_unique(chronological(s), chronological(t));
}

proof fn lemma_insert_at(s: Seq<Record>, r: Record, j: int)
    requires
        0 <= j <= s.len(),
        j == 0 || record_le(s[j - 1], r),
        forall|k: int| j <= k < s.len() ==> !record_le(#[trigger] s[k], r),
    ensures
        insert_by_time(s, r) == s.insert(j, r),
    decreases s.len(),
{
    if s.len() == 0 {
        assert(s.insert(j, r) =~= seq![r]);
    } else if j == s.len() {
        assert(s.insert(j, r) =~= s.push(r));
    } else {
        assert(!record_le(s[s.len() - 1], r));
        lemma_insert_at(s.drop_last(), r, j);
        assert(s.drop_last().insert(j, r).push(s.last()) =~= s.insert(j, r));
    }
}

/// Whether record `a` comes no later than record `b`.
pub fn comes_no_later(a: &Record, b: &Record) -> (r: bool)
    ensures
        r == record_le(*a, *b),
{
    let (qa, qb) = (a.question, b.question);
    if a.time != b.time {
        a.time < b.time
    } else if a.score != b.score {
        a.score < b.score
    } else if qa.learnable != qb.learnable {
        qa.learnable.0 < qb.learnable.0
    } else if qa.from != qb.from {
        qa.from.0 < qb.from.0
    } else if qa.transform != qb.transform {
        qa.transform.0 < qb.transform.0
    } else {
        qa.to.0 <= qb.to.0
    }
}

/// Every record of `s`, in chronological order.
pub fn sort_by_time(s: &Vec<Record>) -> (r: Vec<Record>)
    ensures
        r@ == chronological(s@),
        ordered(r@),
        time_ordered(r@),
        r@.to_multiset() == s@.to_multiset(),
{
    proof {
        lemma_chronological_facts(s@);
        assert forall|i: int, j: int|
            0 <= i < j < chronological(s@).len() implies chronological(s@)[i].time
            <= chronological(s@)[j].time by {
            lemma_le_facts(chronological(s@)[i], chronological(s@)[j], chronological(s@)[j]);
        }
    }
    let mut res: Vec<Record> = Vec::new();
    let mut i: usize = 0;
    while i < s.len()
        invariant
            i <= s@.len(),
            res@ == chronological(s@.take(i as int)),
        decreases s@.len() - i,
    {
        let rec = s[i];
        let mut j: usize = res.len();
        while j > 0 && !comes_no_later(&res[j - 1], &rec)
            invariant
                j <= res@.len(),
                forall|k: int| j <= k < res@.len() ==> !record_le(#[trigger] res@[k], rec),
            decreases j,
        {
            j = j - 1;
        }
        proof {
            lemma_insert_at(res@, rec, j as int);
            assert(s@.take(i + 1).drop_last() == s@.take(i as int));
        }
        res.insert(j, rec);
        i = i + 1;
    }
    assert(s@.take(s@.len() as int) == s@);
    res
}

/// History store that keeps all records in memory.
#[derive(Debug, Default)]
pub struct MemoryRecorder {
    records: Vec<Record>,
}

impl MemoryRecorder {
    /// Every record stored so far, in the order stored.
    pub closed spec fn records(&self) -> Seq<Record> {
        self.records@
    }

    pub fn new() -> (r: Self)
        ensures
            r.records() == Seq::<Record>::empty(),
    {
        MemoryRecorder { records: Vec::new() }
    }

    /// Every record stored so far, in the order stored.
    pub fn all_records(&self) -> (r: &Vec<Record>)
        ensures
            r@ == self.records(),
    {
        &self.records
    }

    pub fn from(records: &[Record]) -> (r: Self)
        ensures
            r.records() == records@,
    {
        let mut res: Vec<Record> = Vec::new();
        let mut i: usize = 0;
        while i < records.len()
            invariant
                i <= records@.len(),
                res@ == records@.take(i as int),
            decreases records@.len() - i,
        {
            res.push(records[i]);
            proof {
                assert(records@.take(i + 1) == records@.take(i as int).push(records@[i as int]));
            }
            i = i + 1;
        }
        assert(records@.take(records@.len() as int) == records@);
        MemoryRecorder { records: res }
    }
}

impl Recorder for MemoryRecorder {
    open spec fn history(&self, learnable: LearnableId) -> Seq<Record> {
        records_of(self.records(), learnable)
    }

    open spec fn stored(&self) -> Seq<Record> {
        self.records()
    }

    open spec fn reliable(&self) -> bool {
        true
    }

    fn store_record(&mut self, record: &Record) -> (r: Result<(), MemorizerError>)
        ensures
            r is Ok,
            final(self).records() == old(self).records().push(*record),
    {
        self.records.push(*record);
        Ok(())
    }

    fn get_records_by_learnable(&self, learnable: LearnableId) -> (r: Result<
        Vec<Record>,
        MemorizerError,
    >)
        ensures
            r matches Ok(v) && v@ == records_of(self.records(), learnable),
    {
        Ok(select_learnable(&self.records, learnable))
    }
}

/// The records of a learnable, in the order given.
pub fn select_learnable(records: &Vec<Record>, learnable: LearnableId) -> (r: Vec<Record>)
    ensures
        r@ == records_of(records@, learnable),
{
    let mut res: Vec<Record> = Vec::new();
    let mut i: usize = 0;
    while i < records.len()
        invariant
            i <= records@.len(),
            res@ == records_of(records@.take(i as int), learnable),
        decreases records@.len() - i,
    {
        proof {
            assert(records@.take(i + 1).drop_last() == records@.take(i as int));
        }
        if records[i].question.learnable == learnable {
            res.push(records[i]);
        }
        i = i + 1;
    }
    assert(records@.take(records@.len() as int) == records@);
    res
}

/// Where a persistent history store writes: the whole history, after every new record.
pub trait Persist {
    /// Durably writes the given records, replacing what was written before.
    fn persist(&mut self, records: &Vec<Record>) -> Result<(), MemorizerError>;
}

/// A history store kept in memory and written through to a sink after every record. A record
/// whose write fails is taken back, so the history in memory stays the durable one.
#[derive(Debug)]
pub struct PersistentRecorder<P: Persist> {
    records: Vec<Record>,
    sink: P,
}

impl<P: Persist> PersistentRecorder<P> {
    /// The sink written to.
    pub closed spec fn sink_view(&self) -> P {
        self.sink
    }

    /// A store holding the given records (already durable), writing to `sink`.
    pub fn new(records: &[Record], sink: P) -> (r: Self)
        ensures
            r.stored() == records@,
            r.sink_view() == sink,
    {
        let memory = MemoryRecorder::from(records);
        PersistentRecorder { records: memory.records, sink }
    }

    /// Every record stored so far, in the order stored.
    pub fn all_records(&self) -> (r: &Vec<Record>)
        ensures
            r@ == self.stored(),
    {
        &self.records
    }

    /// The sink written to.
    pub fn sink(&self) -> (r: &P)
        ensures
            *r == self.sink_view(),
    {
        &self.sink
    }
}

impl<P: Persist> Recorder for PersistentRecorder<P> {
    closed spec fn history(&self, learnable: LearnableId) -> Seq<Record> {
        records_of(self.records@, learnable)
    }

    closed spec fn stored(&self) -> Seq<Record> {
        self.records@
    }

    open spec fn reliable(&self) -> bool {
        true
    }

    fn store_record(&mut self, record: &Record) -> (r: Result<(), MemorizerError>)
        ensures
            r is Err ==> final(self).stored() == old(self).stored(),
    {
        self.records.push(*record);
        match self.sink.persist(&self.records) {
            Ok(()) => Ok(()),
            Err(e) => {
                self.records.pop();
                proof {
                    assert(self.records@ =~= old(self).records@);
                }
                Err(e)
            },
        }
    }

    fn get_records_by_learnable(&self, learnable: LearnableId) -> (r: Result<
        Vec<Record>,
        MemorizerError,
    >) {
        Ok(select_learnable(&self.records, learnable))
    }
}

} // verus!
