use vstd::prelude::*;

use crate::chance::now_nanos;
use crate::recall_curve::{
    answered_entry, rebuilt_entry, weight_of, Entry, RecallCurveConfig,
    RecallCurveSelector,
};
use crate::supermemo2::{
    answered_info, due_questions, pending_questions, rebuilt_info,
    QuestionInfo, SuperMemo2Selector,
};
use crate::traits::{
    first_entry, lemma_first_entry_unique, MemorizerError, Question, QuestionEntry, Record,
    Recorder, Score,
};

verus! {

/// The scores of a history, in the order given.
pub open spec fn scores_of(history: Seq<Record>) -> Seq<Score> {
    history.map_values(|r: Record| r.score)
}

/// The queue after one turn: the head moves to the tail.
pub open spec fn rotate<T>(s: Seq<T>) -> Seq<T> {
    if s.len() == 0 {
        s
    } else {
        s.drop_first().push(s[0])
    }
}

/// The queue after `k` turns.
pub open spec fn rotations<T>(s: Seq<T>, k: nat) -> Seq<T>
    decreases k,
{
    if k == 0 {
        s
    } else {
        rotate(rotations(s, (k - 1) as nat))
    }
}

/// Trivial selector that yields the questions in order, cyclically.
#[derive(Debug)]
pub struct DummySelector {
    edges: Vec<(Question, Vec<Score>)>,
}

impl View for DummySelector {
    type V = Seq<(Question, Seq<Score>)>;

    closed spec fn view(&self) -> Seq<(Question, Seq<Score>)> {
        self.edges@.map_values(|e: (Question, Vec<Score>)| (e.0, e.1@))
    }
}

impl DummySelector {
    pub fn new() -> (r: Self)
        ensures
            r@ == Seq::<(Question, Seq<Score>)>::empty(),
    {
        let r = DummySelector { edges: Vec::new() };
        assert(r@ =~= Seq::<(Question, Seq<Score>)>::empty());
        r
    }

    /// Replaces the queue: the questions in order, each with the scores of its history.
    pub fn set_histories(&mut self, questions: &[Question], histories: &Vec<Vec<Record>>)
        requires
            questions@.len() == histories@.len(),
        ensures
            final(self)@ == Seq::new(
                questions@.len(),
                |i: int| (questions@[i], scores_of(histories@[i]@)),
            ),
    {
        let mut edges: Vec<(Question, Vec<Score>)> = Vec::new();
        let mut i: usize = 0;
        while i < questions.len()
            invariant
                i <= questions@.len(),
                questions@.len() == histories@.len(),
                edges@.len() == i,
                forall|k: int|
                    0 <= k < i ==> (#[trigger] edges@[k]).0 == questions@[k] && edges@[k].1@
                        == scores_of(histories@[k]@),
            decreases questions@.len() - i,
        {
            let history = &histories[i];
            let mut scores: Vec<Score> = Vec::new();
            let mut j: usize = 0;
            while j < history.len()
                invariant
                    j <= history@.len(),
                    scores@ =~= scores_of(history@.take(j as int)),
                decreases history@.len() - j,
            {
                scores.push(history[j].score);
                j = j + 1;
            }
            assert(history@.take(history@.len() as int) == history@);
            edges.push((questions[i], scores));
            i = i + 1;
        }
        self.edges = edges;
        assert(self@ =~= Seq::new(
            questions@.len(),
            |i: int| (questions@[i], scores_of(histories@[i]@)),
        ));
    }

    /// Takes in an answer; the queue does not depend on answers.
    pub fn store_record(&mut self, record: &Record)
        ensures
            final(self)@ == old(self)@,
    {
    }

    /// The question at the head of the queue, which moves to the tail; `None` for an empty queue.
    pub fn get_question(&mut self) -> (r: Option<Question>)
        ensures
            final(self)@ == rotate(old(self)@),
            r == if old(self)@.len() == 0 {
                None
            } else {
                Some(old(self)@[0].0)
            },
    {
        if self.edges.len() == 0 {
            return None;
        }
        let ghost before = self@;
        let first = self.edges.remove(0);
        let q = first.0;
        self.edges.push(first);
        assert(self@ =~= rotate(before));
        Some(q)
    }
}

proof fn lemma_rotations<T>(s: Seq<T>, k: nat)
    requires
        k <= s.len(),
    ensures
        rotations(s, k) == s.subrange(k as int, s.len() as int) + s.subrange(0, k as int),
    decreases k,
{
    if k > 0 {
        lemma_rotations(s, (k - 1) as nat);
        assert(rotations(s, k) =~= s.subrange(k as int, s.len() as int) + s.subrange(0, k as int));
    } else {
        assert(rotations(s, 0) =~= s.subrange(0, s.len() as int) + s.subrange(0, 0));
    }
}

/// Calling for the next question `n` times on a queue of `n` questions, with no answer in
/// between, yields each of them once, in queue order (the `k`-th call yields the question at
/// index `k`); the call after that yields the first again, the queue being back as it was.
pub proof fn lemma_round_robin_cycle<T>(s: Seq<T>, k: nat)
    requires
        k < s.len(),
    ensures
        rotations(s, k)[0] == s[k as int],
        rotations(s, s.len()) == s,
{
    lemma_rotations(s, k);
    assert(rotations(s, k)[0] == s.subrange(k as int, s.len() as int)[0]);
    lemma_rotations(s, s.len());
    assert(rotations(s, s.len()) =~= s);
}

proof fn lemma_rotations_compose<T>(s: Seq<T>, a: nat, b: nat)
    ensures
        rotations(s, a + b) == rotations(rotations(s, a), b),
    decreases b,
{
    if b > 0 {
        lemma_rotations_compose(s, a, (b - 1) as nat);
        assert((a + b - 1) as nat == a + (b - 1) as nat);
    }
}

/// Each call for the next question on a queue of `n` questions, with no rebuild in between
/// (answers leave the queue alone), yields the question after the one before, cyclically: the
/// call numbered `k` from zero yields the question at index `k mod n`, and never `None`.
pub proof fn lemma_round_robin_every_call<T>(s: Seq<T>, k: nat)
    requires
        s.len() > 0,
    ensures
        rotations(s, k).len() == s.len(),
        rotations(s, k)[0] == s[(k % s.len()) as int],
    decreases k,
{
    let n = s.len();
    if k < n {
        lemma_rotations(s, k);
        assert(rotations(s, k)[0] == s.subrange(k as int, n as int)[0]);
        assert(k % n == k) by (nonlinear_arith)
            requires
                k < n,
        ;
    } else {
        lemma_round_robin_cycle(s, 0);
        lemma_rotations_compose(s, n, (k - n) as nat);
        assert(n + (k - n) as nat == k);
        lemma_round_robin_every_call(s, (k - n) as nat);
        assert((k - n) as nat % n == k % n) by (nonlinear_arith)
            requires
                k >= n,
                n > 0,
        ;
    }
}

/// What a selector holds, variant by variant.
pub enum SelectorState {
    RoundRobin(Seq<(Question, Seq<Score>)>),
    SuperMemo2(Seq<QuestionInfo>),
    RecallCurve(RecallCurveConfig, Seq<Entry>),
}

/// The histories as sequences.
pub open spec fn histories_view(histories: Seq<Vec<Record>>) -> Seq<Seq<Record>> {
    histories.map_values(|h: Vec<Record>| h@)
}

/// The history that the store holds for the learnable of each question.
pub open spec fn histories_of<R: Recorder>(recorder: R, questions: Seq<Question>) -> Seq<
    Seq<Record>,
> {
    Seq::new(questions.len(), |k: int| recorder.history(questions[k].learnable))
}

/// The state of a selector of the same variant and settings as `prev`, rebuilt from scratch from
/// a working set and the history of each of its questions.
pub open spec fn rebuilt_state(
    prev: SelectorState,
    questions: Seq<Question>,
    histories: Seq<Seq<Record>>,
    now: u64,
) -> SelectorState {
    match prev {
        SelectorState::RoundRobin(_) => SelectorState::RoundRobin(
            Seq::new(questions.len(), |i: int| (questions[i], scores_of(histories[i]))),
        ),
        SelectorState::SuperMemo2(_) => SelectorState::SuperMemo2(
            Seq::new(questions.len(), |i: int| rebuilt_info(questions[i], histories[i], now)),
        ),
        SelectorState::RecallCurve(c, _) => SelectorState::RecallCurve(
            c,
            Seq::new(questions.len(), |i: int| rebuilt_entry(c, questions[i], histories[i], now)),
        ),
    }
}

/// The questions of the working set, in order.
pub open spec fn working_set(st: SelectorState) -> Seq<Question> {
    match st {
        SelectorState::RoundRobin(s) => s.map_values(|e: (Question, Seq<Score>)| e.0),
        SelectorState::SuperMemo2(s) => s.map_values(|e: QuestionInfo| e.question),
        SelectorState::RecallCurve(_, s) => s.map_values(|e: Entry| e.0),
    }
}

/// Whether the settings of the state are usable.
pub open spec fn state_wf(st: SelectorState) -> bool {
    match st {
        SelectorState::RecallCurve(c, _) => c.wf(),
        _ => true,
    }
}

/// The state after a call for the next question.
pub open spec fn after_next(st: SelectorState) -> SelectorState {
    match st {
        SelectorState::RoundRobin(s) => SelectorState::RoundRobin(rotate(s)),
        _ => st,
    }
}

/// Whether `r` may come back from a call for the next question at `now`.
pub open spec fn allowed_next(st: SelectorState, now: u64, r: Option<Question>) -> bool {
    match st {
        SelectorState::RoundRobin(s) => r == if s.len() == 0 {
            None
        } else {
            Some(s[0].0)
        },
        SelectorState::SuperMemo2(s) => {
            let due = due_questions(s, now);
            let pending = pending_questions(s);
            &&& r is None <==> due.len() == 0 && pending.len() == 0
            &&& r matches Some(q) ==> if due.len() > 0 {
                due.contains(q)
            } else {
                pending.contains(q)
            }
        },
        SelectorState::RecallCurve(_, s) => {
            &&& r is Some <==> s.len() > 0
            &&& r matches Some(q) ==> exists|k: int|
                0 <= k < s.len() && (#[trigger] s[k]).0 == q && (weight_of(s[k].3, s[k].2, now) > 0
                    || forall|j: int|
                    0 <= j < s.len() ==> weight_of(#[trigger] s[j].3, s[j].2, now) == 0)
        },
    }
}

/// The state after an answer to a question of the working set: the first entry of that
/// question takes it in.
pub open spec fn after_record(st: SelectorState, record: Record) -> SelectorState {
    match st {
        SelectorState::RoundRobin(_) => st,
        SelectorState::SuperMemo2(s) => {
            let k = choose|k: int| first_entry(s, record.question, k);
            SelectorState::SuperMemo2(s.update(k, answered_info(s[k], record)))
        },
        SelectorState::RecallCurve(c, s) => {
            let k = choose|k: int| first_entry(s, record.question, k);
            SelectorState::RecallCurve(c, s.update(k, answered_entry(c, s[k], record)))
        },
    }
}

/// Setting the same working set and histories twice in a row leaves the state that setting them
/// once leaves: the state is rebuilt from scratch, so the calls that follow see the same state
/// and behave alike.
pub proof fn lemma_replay_is_idempotent(
    st: SelectorState,
    questions: Seq<Question>,
    histories: Seq<Seq<Record>>,
    now: u64,
)
    ensures
        rebuilt_state(rebuilt_state(st, questions, histories, now), questions, histories, now)
            == rebuilt_state(st, questions, histories, now),
{
}

/// Rebuilt from a store, two questions of one learnable replay the same history, so they get the
/// same state: all of it but the question for SuperMemo-2, the same review time and forgetting
/// rate for the recall curve.
pub proof fn lemma_same_learnable_same_state<R: Recorder>(
    st: SelectorState,
    recorder: R,
    questions: Seq<Question>,
    now: u64,
    i: int,
    j: int,
)
    requires
        0 <= i < questions.len(),
        0 <= j < questions.len(),
        questions[i].learnable == questions[j].learnable,
    ensures
        match rebuilt_state(st, questions, histories_of(recorder, questions), now) {
            SelectorState::SuperMemo2(s) => s[i].state == s[j].state && s[i].last_time
                == s[j].last_time && s[i].pending_re_review == s[j].pending_re_review,
            SelectorState::RecallCurve(_, s) => s[i].1 == s[j].1 && s[i].2 == s[j].2 && s[i].3
                == s[j].3,
            SelectorState::RoundRobin(s) => s[i].1 == s[j].1,
        },
{
}

/// One of the selection algorithms.
#[derive(Debug)]
pub enum Selector {
    RoundRobin(DummySelector),
    SuperMemo2(SuperMemo2Selector),
    RecallCurve(RecallCurveSelector),
}

impl View for Selector {
    type V = SelectorState;

    open spec fn view(&self) -> SelectorState {
        match self {
            Selector::RoundRobin(s) => SelectorState::RoundRobin(s@),
            Selector::SuperMemo2(s) => SelectorState::SuperMemo2(s@),
            Selector::RecallCurve(s) => SelectorState::RecallCurve(s.settings(), s@),
        }
    }
}

impl Selector {
    /// Replaces the working set, rebuilding all state from scratch from the history of each
    /// question, at index `i` of `histories` for the question at index `i`.
    pub fn set_histories(&mut self, questions: &[Question], histories: &Vec<Vec<Record>>, now: u64)
        requires
            state_wf(old(self)@),
            questions@.len() == histories@.len(),
        ensures
            final(self)@ == rebuilt_state(
                old(self)@,
                questions@,
                histories_view(histories@),
                now,
            ),
            state_wf(final(self)@),
    {
        let ghost hs = histories_view(histories@);
        match self {
            Selector::RoundRobin(s) => {
                s.set_histories(questions, histories);
                assert(s@ =~= Seq::new(questions@.len(), |i: int| (questions@[i], scores_of(hs[i]))));
            },
            Selector::SuperMemo2(s) => {
                s.set_histories(questions, histories, now);
                assert(s@ =~= Seq::new(
                    questions@.len(),
                    |i: int| rebuilt_info(questions@[i], hs[i], now),
                ));
            },
            Selector::RecallCurve(s) => {
                let ghost c = s.settings();
                s.set_histories(questions, histories, now);
                assert(s@ =~= Seq::new(
                    questions@.len(),
                    |i: int| rebuilt_entry(c, questions@[i], hs[i], now),
                ));
            },
        }
    }

    /// Replaces the working set, replaying for every question the history that the store holds
    /// for its learnable; the clock gives the review time of questions without history. A
    /// failure of the store is returned and leaves the selector as it was.
    pub fn set_questions<R: Recorder>(&mut self, questions: &[Question], recorder: &R) -> (r:
        Result<(), MemorizerError>)
        requires
            state_wf(old(self)@),
        ensures
            state_wf(final(self)@),
            questions@.len() == 0 || recorder.reliable() ==> r is Ok,
            r is Err ==> final(self)@ == old(self)@,
            r is Ok ==> exists|now: u64|
                final(self)@ == #[trigger] rebuilt_state(
                    old(self)@,
                    questions@,
                    histories_of(*recorder, questions@),
                    now,
                ),
    {
        let mut histories: Vec<Vec<Record>> = Vec::new();
        let mut i: usize = 0;
        while i < questions.len()
            invariant
                i <= questions@.len(),
                histories@.len() == i,
                forall|k: int|
                    0 <= k < i ==> (#[trigger] histories@[k])@ == recorder.history(
                        questions@[k].learnable,
                    ),
                self@ == old(self)@,
                state_wf(old(self)@),
            decreases questions@.len() - i,
        {
            match recorder.get_records_by_learnable(questions[i].learnable) {
                Ok(records) => histories.push(records),
                Err(e) => return Err(e),
            }
            i = i + 1;
        }
        let now = now_nanos();
        self.set_histories(questions, &histories, now);
        assert(histories_view(histories@) =~= histories_of(*recorder, questions@));
        Ok(())
    }

    /// Next question to ask at `now`, or `None` when the session is complete.
    pub fn get_question_at(&mut self, now: u64) -> (r: Option<Question>)
        ensures
            allowed_next(old(self)@, now, r),
            final(self)@ == after_next(old(self)@),
    {
        match self {
            Selector::RoundRobin(s) => s.get_question(),
            Selector::SuperMemo2(s) => s.get_question(now),
            Selector::RecallCurve(s) => s.get_question(now),
        }
    }

    /// Next question to ask at the time the clock gives, or `None` when the session is complete.
    pub fn get_question(&mut self) -> (r: Option<Question>)
        ensures
            exists|now: u64| allowed_next(old(self)@, now, r),
            final(self)@ == after_next(old(self)@),
    {
        let now = now_nanos();
        self.get_question_at(now)
    }

    /// Takes in an answer to a question of the working set.
    pub fn store_record(&mut self, record: &Record)
        requires
            state_wf(old(self)@),
            working_set(old(self)@).contains(record.question),
        ensures
            state_wf(final(self)@),
            final(self)@ == after_record(old(self)@, *record),
    {
        let ghost ws = working_set(self@);
        let ghost k = choose|k: int| 0 <= k < ws.len() && ws[k] == record.question;
        match self {
            Selector::RoundRobin(s) => s.store_record(record),
            Selector::SuperMemo2(s) => {
                let ghost before = s@;
                assert(before[k].question == record.question);
                s.store_record(record);
                proof {
                    let j = choose|j: int|
                        first_entry(before, record.question, j) && s@ == before.update(
                            j,
                            answered_info(before[j], *record),
                        );
                    let c = choose|c: int| first_entry(before, record.question, c);
                    lemma_first_entry_unique(before, record.question, j, c);
                }
            },
            Selector::RecallCurve(s) => {
                let ghost before = s@;
                assert(before[k].0 == record.question);
                s.store_record(record);
                proof {
                    let j = choose|j: int|
                        first_entry(before, record.question, j) && s@ == before.update(
                            j,
                            answered_entry(s.settings(), before[j], *record),
                        );
                    let c = choose|c: int| first_entry(before, record.question, c);
                    lemma_first_entry_unique(before, record.question, j, c);
                }
            },
        }
    }
}

/// A state rebuilt from a working set holds exactly that working set.
pub proof fn lemma_rebuilt_working_set(
    st: SelectorState,
    questions: Seq<Question>,
    histories: Seq<Seq<Record>>,
    now: u64,
)
    requires
        histories.len() == questions.len(),
    ensures
        working_set(rebuilt_state(st, questions, histories, now)) == questions,
{
    assert(working_set(rebuilt_state(st, questions, histories, now)) =~= questions);
}

/// A call for the next question keeps every question in the working set.
pub proof fn lemma_next_keeps_questions(st: SelectorState, q: Question)
    requires
        working_set(st).contains(q),
    ensures
        working_set(after_next(st)).contains(q),
{
    if let SelectorState::RoundRobin(s) = st {
        let ws = working_set(st);
        let k = choose|k: int| 0 <= k < ws.len() && ws[k] == q;
        let r = rotate(s);
        if k == 0 {
            assert(working_set(after_next(st))[s.len() - 1] == q);
        } else {
            assert(r[k - 1] == s[k]);
            assert(working_set(after_next(st))[k - 1] == q);
        }
    }
}

proof fn lemma_first_exists<T: QuestionEntry>(s: Seq<T>, q: Question) -> (k: int)
    requires
        exists|k: int| 0 <= k < s.len() && s[k].entry_question() == q,
    ensures
        first_entry(s, q, k),
    decreases s.len(),
{
    let last = s.len() - 1;
    if exists|k: int| 0 <= k < last && s[k].entry_question() == q {
        let w = choose|k: int| 0 <= k < last && s[k].entry_question() == q;
        assert(s.drop_last()[w] == s[w]);
        let k = lemma_first_exists(s.drop_last(), q);
        assert forall|j: int| 0 <= j < k implies (#[trigger] s[j]).entry_question() != q by {
            assert(s.drop_last()[j] == s[j]);
        }
        k
    } else {
        last
    }
}

/// An answer to a question of the working set keeps the working set as it is.
pub proof fn lemma_record_keeps_questions(st: SelectorState, record: Record)
    requires
        working_set(st).contains(record.question),
    ensures
        working_set(after_record(st, record)) == working_set(st),
{
    let ws = working_set(st);
    let i = choose|i: int| 0 <= i < ws.len() && ws[i] == record.question;
    match st {
        SelectorState::RoundRobin(_) => {},
        SelectorState::SuperMemo2(s) => {
            assert(s[i].entry_question() == record.question);
            let k = lemma_first_exists(s, record.question);
            assert(working_set(after_record(st, record)) =~= ws);
        },
        SelectorState::RecallCurve(_, s) => {
            assert(s[i].entry_question() == record.question);
            let k = lemma_first_exists(s, record.question);
            assert(working_set(after_record(st, record)) =~= ws);
        },
    }
}

} // verus!
