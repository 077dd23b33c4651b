use vstd::prelude::*;

use crate::chance::choose_question;
use crate::recorder::{chronological, sort_by_time};
use crate::traits::{first_entry, PERFECT_SCORE, Question, QuestionEntry, Record, Score};

verus! {

/// Easiness factor of a new question, in hundredths.
pub const INITIAL_EASINESS: u64 = 250;

/// The easiness factor never goes below this, in hundredths.
pub const MIN_EASINESS: u64 = 130;

/// One day in nanoseconds.
pub const DAY_NANOS: u64 = 86_400_000_000_000;

/// Six hours in nanoseconds: a question is due this long before its interval ends, so that
/// reviewing at about the same time each day does not push the schedule later.
pub const GRACE_NANOS: u64 = 21_600_000_000_000;

/// The grade, 0 to 5, of a score: the thresholds are 0, 1/5, 2/5, 3/5 and 4/5 of a perfect score.
pub open spec fn grade_of(score: int) -> nat {
    if 5 * score <= 0 {
        0
    } else if 5 * score <= PERFECT_SCORE {
        1
    } else if 5 * score <= 2 * PERFECT_SCORE {
        2
    } else if 5 * score <= 3 * PERFECT_SCORE {
        3
    } else if 5 * score <= 4 * PERFECT_SCORE {
        4
    } else {
        5
    }
}

/// The SM-2 state of a question.
#[derive(Debug, Clone, Copy, PartialEq, Eq, Structural)]
pub struct QuestionState {
    /// Successful recalls (grade 3 or more) in a row since the last failure.
    pub repetition_number: u64,
    /// How quickly the interval grows, in hundredths.
    pub easiness_factor: u64,
    /// Days to wait after a review before asking again.
    pub inter_repetition: u64,
}

/// The state of a question that has never been answered.
pub open spec fn initial_state() -> QuestionState {
    QuestionState {
        repetition_number: 0,
        easiness_factor: INITIAL_EASINESS,
        inter_repetition: 0,
    }
}

/// `EF' = EF + (0.1 - (5 - g) * (0.08 + (5 - g) * 0.02))` in hundredths, floored at
/// `MIN_EASINESS` and saturating at `u64::MAX`.
pub open spec fn easiness_after(ef: int, grade: int) -> int {
    let s = 5 - grade;
    let e = ef + 10 - s * (8 + 2 * s);
    if e <= MIN_EASINESS {
        MIN_EASINESS as int
    } else if e > u64::MAX {
        u64::MAX as int
    } else {
        e
    }
}

/// The interval after an answer: one day after a failure or the first success, else the old
/// interval times the easiness factor, rounded half up and saturating at `u64::MAX`.
pub open spec fn interval_after(st: QuestionState, grade: int) -> int {
    if grade >= 3 && st.repetition_number != 0 {
        let x = (st.inter_repetition * st.easiness_factor + 50) / 100;
        if x > u64::MAX {
            u64::MAX as int
        } else {
            x
        }
    } else {
        1
    }
}

/// The repetition count after an answer: one more after a success (saturating), zero after a failure.
pub open spec fn repetitions_after(st: QuestionState, grade: int) -> int {
    if grade >= 3 {
        if st.repetition_number == u64::MAX {
            u64::MAX as int
        } else {
            st.repetition_number + 1
        }
    } else {
        0
    }
}

/// The SM-2 update rule for an answer of the given grade.
pub open spec fn state_after(st: QuestionState, grade: int) -> QuestionState {
    QuestionState {
        repetition_number: repetitions_after(st, grade) as u64,
        easiness_factor: easiness_after(st.easiness_factor as int, grade) as u64,
        inter_repetition: interval_after(st, grade) as u64,
    }
}

/// The state reached by answering with the grades of the records, in order, from `st`.
pub open spec fn replay(st: QuestionState, records: Seq<Record>) -> QuestionState
    decreases records.len(),
{
    if records.len() == 0 {
        st
    } else {
        state_after(replay(st, records.drop_last()), grade_of(records.last().score as int) as int)
    }
}

impl Default for QuestionState {
    fn default() -> (r: Self)
        ensures
            r == initial_state(),
    {
        QuestionState {
            repetition_number: 0,
            easiness_factor: INITIAL_EASINESS,
            inter_repetition: 0,
        }
    }
}

impl QuestionState {
    pub fn score_to_grade(score: Score) -> (r: u64)
        ensures
            r == grade_of(score as int),
    {
        let s: u64 = 5 * (score as u64);
        let p: u64 = PERFECT_SCORE as u64;
        if s == 0 {
            0
        } else if s <= p {
            1
        } else if s <= 2 * p {
            2
        } else if s <= 3 * p {
            3
        } else if s <= 4 * p {
            4
        } else {
            5
        }
    }

    pub fn update(&mut self, user_grade: u64)
        requires
            user_grade <= 5,
        ensures
            *final(self) == state_after(*old(self), user_grade as int),
    {
        let ghost st = *self;
        if user_grade >= 3 {
            if self.repetition_number == 0 {
                self.inter_repetition = 1;
            } else {
                let i = self.inter_repetition as u128;
                let e = self.easiness_factor as u128;
                assert(i * e <= 0xffff_ffff_ffff_ffffu128 * 0xffff_ffff_ffff_ffffu128) by (nonlinear_arith)
                    requires
                        i <= 0xffff_ffff_ffff_ffffu128,
                        e <= 0xffff_ffff_ffff_ffffu128,
                ;
                let x = (i * e + 50) / 100;
                self.inter_repetition = if x > u64::MAX as u128 {
                    u64::MAX
                } else {
                    x as u64
                };
            }
            if self.repetition_number < u64::MAX {
                self.repetition_number = self.repetition_number + 1;
            }
        } else {
            self.repetition_number = 0;
            self.inter_repetition = 1;
        }
        let s: u64 = 5 - user_grade;
        assert(s * (8 + 2 * s) <= 90) by (nonlinear_arith)
            requires
                s <= 5,
        ;
        let loss: u128 = (s * (8 + 2 * s)) as u128;
        let ef = self.easiness_factor as u128;
        self.easiness_factor = if ef + 10 <= loss + MIN_EASINESS as u128 {
            MIN_EASINESS
        } else {
            let e = ef + 10 - loss;
            if e > u64::MAX as u128 {
                u64::MAX
            } else {
                e as u64
            }
        };
    }

    pub fn inter_repetition(&self) -> (r: u64)
        ensures
            r == self.inter_repetition,
    {
        self.inter_repetition
    }
}

/// Three answers of grade 5 in a row give strictly increasing intervals, wherever that can
/// happen: the first interval times the easiness factor less one must reach half a day, and
/// the second interval must be below the saturation value.
pub proof fn lemma_three_perfect_answers(s0: QuestionState)
    requires
        ({
            let s1 = state_after(s0, 5);
            s1.inter_repetition * (s1.easiness_factor - 100) >= 50
        }),
        state_after(state_after(s0, 5), 5).inter_repetition < u64::MAX,
    ensures
        ({
            let s1 = state_after(s0, 5);
            let s2 = state_after(s1, 5);
            let s3 = state_after(s2, 5);
            s1.inter_repetition < s2.inter_repetition < s3.inter_repetition
        }),
{
    let s1 = state_after(s0, 5);
    let s2 = state_after(s1, 5);
    let i1 = s1.inter_repetition as int;
    let e1 = s1.easiness_factor as int;
    let i2 = s2.inter_repetition as int;
    let e2 = s2.easiness_factor as int;
    assert(e1 >= 130);
    assert(e2 >= e1);
    assert(i1 * e1 + 50 >= 100 * i1 + 100) by (nonlinear_arith)
        requires
            i1 * (e1 - 100) >= 50,
    ;
    assert(i2 >= i1 + 1);
    assert(i2 * (e2 - 100) >= i1 * (e1 - 100)) by (nonlinear_arith)
        requires
            i2 >= i1 + 1,
            i1 >= 0,
            e2 >= e1,
            e1 >= 130,
    ;
    assert(i2 * e2 + 50 >= 100 * i2 + 100) by (nonlinear_arith)
        requires
            i2 * (e2 - 100) >= 50,
    ;
}

/// A single failed answer (grade below 3) resets the interval to one day and the repetition
/// count to zero, whatever came before.
pub proof fn lemma_failure_resets(st: QuestionState, grade: int)
    requires
        0 <= grade < 3,
    ensures
        state_after(st, grade).inter_repetition == 1,
        state_after(st, grade).repetition_number == 0,
{
}

/// The easiness factor never drops below its floor, however many answers of any grade (for
/// instance, all of grade 0) are replayed from a new question.
pub proof fn lemma_easiness_floor(records: Seq<Record>)
    ensures
        replay(initial_state(), records).easiness_factor >= MIN_EASINESS,
    decreases records.len(),
{
    if records.len() > 0 {
        lemma_easiness_floor(records.drop_last());
    }
}

/// What the selector keeps of one question.
#[derive(Debug, Clone, Copy, PartialEq, Eq, Structural)]
pub struct QuestionInfo {
    /// The question itself.
    pub question: Question,
    /// When this question was last answered, in nanoseconds since the Unix epoch.
    pub last_time: u64,
    /// Whether the last answer had a grade below 4.
    pub pending_re_review: bool,
    /// The SM-2 state of this question.
    pub state: QuestionState,
}

/// A question's entry rebuilt from its history: the records are replayed in chronological
/// order, and the question is marked for re-review when the grade of the latest is below 4;
/// without records the question counts as reviewed at `now`.
pub open spec fn rebuilt_info(question: Question, history: Seq<Record>, now: u64) -> QuestionInfo {
    let recs = chronological(history);
    QuestionInfo {
        question,
        last_time: if recs.len() == 0 {
            now
        } else {
            recs.last().time
        },
        pending_re_review: recs.len() > 0 && grade_of(recs.last().score as int) < 4,
        state: replay(initial_state(), recs),
    }
}

/// A question's entry after an answer.
pub open spec fn answered_info(info: QuestionInfo, record: Record) -> QuestionInfo {
    let g = grade_of(record.score as int);
    QuestionInfo {
        question: info.question,
        last_time: record.time,
        pending_re_review: g < 4,
        state: state_after(info.state, g as int),
    }
}

/// Time since `last`, or zero for a `last` in the future.
pub open spec fn elapsed(now: u64, last: u64) -> int {
    if now >= last {
        now - last
    } else {
        0
    }
}

/// Whether the question's interval, less the grace window, has passed since its last review.
pub open spec fn is_due(info: QuestionInfo, now: u64) -> bool {
    let wait = info.state.inter_repetition * DAY_NANOS - GRACE_NANOS;
    elapsed(now, info.last_time) > if wait > 0 {
        wait
    } else {
        0
    }
}

/// The due questions, in working-set order.
pub open spec fn due_questions(infos: Seq<QuestionInfo>, now: u64) -> Seq<Question>
    decreases infos.len(),
{
    if infos.len() == 0 {
        Seq::empty()
    } else {
        let rest = due_questions(infos.drop_last(), now);
        if is_due(infos.last(), now) {
            rest.push(infos.last().question)
        } else {
            rest
        }
    }
}

/// The questions marked for re-review, in working-set order.
pub open spec fn pending_questions(infos: Seq<QuestionInfo>) -> Seq<Question>
    decreases infos.len(),
{
    if infos.len() == 0 {
        Seq::empty()
    } else {
        let rest = pending_questions(infos.drop_last());
        if infos.last().pending_re_review {
            rest.push(infos.last().question)
        } else {
            rest
        }
    }
}

impl QuestionEntry for QuestionInfo {
    open spec fn entry_question(&self) -> Question {
        self.question
    }
}

/// A selector that implements the SuperMemo-2 algorithm.
#[derive(Debug)]
pub struct SuperMemo2Selector {
    questions: Vec<QuestionInfo>,
}

impl View for SuperMemo2Selector {
    type V = Seq<QuestionInfo>;

    closed spec fn view(&self) -> Seq<QuestionInfo> {
        self.questions@
    }
}

impl SuperMemo2Selector {
    pub fn new() -> (r: Self)
        ensures
            r@ == Seq::<QuestionInfo>::empty(),
    {
        SuperMemo2Selector { questions: Vec::new() }
    }

    /// Replaces the working set; each question's state is rebuilt from scratch from the history
    /// of its learnable, at index `i` of `histories` for the question at index `i`.
    pub fn set_histories(&mut self, questions: &[Question], histories: &Vec<Vec<Record>>, now: u64)
        requires
            questions@.len() == histories@.len(),
        ensures
            final(self)@ == Seq::new(
                questions@.len(),
                |i: int| rebuilt_info(questions@[i], histories@[i]@, now),
            ),
    {
        let mut infos: Vec<QuestionInfo> = Vec::new();
        let mut i: usize = 0;
        while i < questions.len()
            invariant
                i <= questions@.len(),
                questions@.len() == histories@.len(),
                infos@ =~= Seq::new(
                    i as nat,
                    |k: int| rebuilt_info(questions@[k], histories@[k]@, now),
                ),
            decreases questions@.len() - i,
        {
            let records = sort_by_time(&histories[i]);
            let mut state = QuestionState::default();
            let mut last_time = now;
            let mut pending = false;
            let mut j: usize = 0;
            while j < records.len()
                invariant
                    j <= records@.len(),
                    state == replay(initial_state(), records@.take(j as int)),
                    pending == (j > 0 && grade_of(records@[j - 1].score as int) < 4),
                    last_time == if j == 0 {
                        now
                    } else {
                        records@[j - 1].time
                    },
                decreases records@.len() - j,
            {
                proof {
                    assert(records@.take(j + 1).drop_last() == records@.take(j as int));
                }
                last_time = records[j].time;
                let grade = QuestionState::score_to_grade(records[j].score);
                state.update(grade);
                pending = grade < 4;
                j = j + 1;
            }
            assert(records@.take(records@.len() as int) == records@);
            infos.push(
                QuestionInfo { question: questions[i], last_time, pending_re_review: pending, state },
            );
            i = i + 1;
        }
        self.questions = infos;
    }

    /// Next question to ask: one chosen at random among the due questions; if none is due, one
    /// chosen at random among those marked for re-review; if none is, the session is complete.
    pub fn get_question(&self, now: u64) -> (r: Option<Question>)
        ensures
            r is None <==> due_questions(self@, now).len() == 0 && pending_questions(self@).len()
                == 0,
            r matches Some(q) ==> if due_questions(self@, now).len() > 0 {
                due_questions(self@, now).contains(q)
            } else {
                pending_questions(self@).contains(q)
            },
    {
        let due = self.due(now);
        if due.len() > 0 {
            return choose_question(&due);
        }
        let pending = self.pending();
        choose_question(&pending)
    }

    /// The due questions.
    pub fn due(&self, now: u64) -> (r: Vec<Question>)
        ensures
            r@ == due_questions(self@, now),
    {
        let mut res: Vec<Question> = Vec::new();
        let mut i: usize = 0;
        while i < self.questions.len()
            invariant
                i <= self.questions@.len(),
                res@ == due_questions(self.questions@.take(i as int), now),
            decreases self.questions@.len() - i,
        {
            proof {
                assert(self.questions@.take(i + 1).drop_last() == self.questions@.take(i as int));
            }
            let info = self.questions[i];
            let since: u64 = if now >= info.last_time {
                now - info.last_time
            } else {
                0
            };
            let span = (info.state.inter_repetition as u128) * (DAY_NANOS as u128);
            let wait: u128 = if span > GRACE_NANOS as u128 {
                span - GRACE_NANOS as u128
            } else {
                0
            };
            if since as u128 > wait {
                res.push(info.question);
            }
            i = i + 1;
        }
        assert(self.questions@.take(self.questions@.len() as int) == self.questions@);
        res
    }

    /// The questions marked for re-review.
    pub fn pending(&self) -> (r: Vec<Question>)
        ensures
            r@ == pending_questions(self@),
    {
        let mut res: Vec<Question> = Vec::new();
        let mut i: usize = 0;
        while i < self.questions.len()
            invariant
                i <= self.questions@.len(),
                res@ == pending_questions(self.questions@.take(i as int)),
            decreases self.questions@.len() - i,
        {
            proof {
                assert(self.questions@.take(i + 1).drop_last() == self.questions@.take(i as int));
            }
            if self.questions[i].pending_re_review {
                res.push(self.questions[i].question);
            }
            i = i + 1;
        }
        assert(self.questions@.take(self.questions@.len() as int) == self.questions@);
        res
    }

    /// The entry at index `i` of the working set.
    pub fn info(&self, i: usize) -> (r: QuestionInfo)
        requires
            i < self@.len(),
        ensures
            r == self@[i as int],
    {
        self.questions[i]
    }

    /// Takes in an answer: the first entry of its question gets the grade of its score, is
    /// marked for re-review when that grade is below 4, and is last reviewed at its time. The
    /// question must be in the working set.
    pub fn store_record(&mut self, record: &Record)
        requires
            exists|k: int|
                0 <= k < old(self)@.len() && (#[trigger] old(self)@[k]).question == record.question,
        ensures
            exists|k: int|
                first_entry(old(self)@, record.question, k) && final(self)@ == old(self)@.update(
                    k,
                    answered_info(old(self)@[k], *record),
                ),
    {
        let mut k: usize = 0;
        while k < self.questions.len() && self.questions[k].question != record.question
            invariant
                k <= self.questions@.len(),
                forall|j: int| 0 <= j < k ==> (#[trigger] self.questions@[j]).question
                    != record.question,
            decreases self.questions@.len() - k,
        {
            k = k + 1;
        }
        assert(first_entry(self.questions@, record.question, k as int));
        let grade = QuestionState::score_to_grade(record.score);
        let mut info = self.questions[k];
        info.pending_re_review = grade < 4;
        info.state.update(grade);
        info.last_time = record.time;
        self.questions.set(k, info);
    }
}

} // verus!
