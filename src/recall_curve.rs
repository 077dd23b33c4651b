use vstd::prelude::*;

use crate::chance::{choose_question, weight_sum, weighted_index};
use crate::recorder::{chronological, sort_by_time};
use crate::supermemo2::elapsed;
use crate::traits::{first_entry, PERFECT_SCORE, Question, QuestionEntry, Record};

verus! {

// Rendering of the model in integers: factors (alpha, beta, q, recall) are in millionths of
// one, forgetting rates in units of 1e-12 per second and times in nanoseconds.
/// The factor one, in millionths.
pub const FACTOR_ONE: u64 = 1_000_000;

/// A rate times a time span (1e-12 per second times nanoseconds) in units of this divisor is
/// the dimensionless exponent in millionths.
pub const EXPONENT_DIVISOR: u128 = 1_000_000_000_000_000;

/// Exponents at or beyond this (64, in millionths) count as total forgetting.
pub const EXPONENT_CAP: u128 = 64_000_000;

/// The exponent `n_t * dt` in millionths, rounded up so that it is zero only when the product is.
pub open spec fn exponent(n_t: int, dt: int) -> int {
    (n_t * dt + EXPONENT_DIVISOR - 1) / EXPONENT_DIVISOR as int
}

/// `1 + x + x^2/2 + x^3/6 + x^4/24`, for `x` in millionths, in millionths.
pub open spec fn taylor_exp(x: int) -> int {
    let one = FACTOR_ONE as int;
    one + x + x * x / (2 * one) + x * x * x / (6 * one * one) + x * x * x * x / (24 * one * one
        * one)
}

/// Recall `exp(-x)` in millionths, for the exponent `x` in millionths: the reciprocal of the
/// exponential's series up to the fourth power, and zero from `EXPONENT_CAP` on.
pub open spec fn recall_of(x: int) -> int {
    if x >= EXPONENT_CAP {
        0
    } else {
        (FACTOR_ONE * FACTOR_ONE) as int / taylor_exp(x)
    }
}

/// The review weight of a question, `1 - m(t)` in millionths; the common factor `q^(-1/2)` of
/// the review intensity does not change a draw in proportion to it and is left out.
pub open spec fn weight_of(n_t: int, last_time: u64, now: u64) -> int {
    FACTOR_ONE - recall_of(exponent(n_t, elapsed(now, last_time)))
}

/// The rate after a correct answer, `n_t * (1 - alpha)`, rounded down.
pub open spec fn rate_after_correct(n_t: int, alpha: int) -> int {
    n_t * (FACTOR_ONE - alpha) / FACTOR_ONE as int
}

/// The rate after an incorrect answer, `n_t * (1 + beta)`, rounded up and saturating at `u64::MAX`.
pub open spec fn rate_after_incorrect(n_t: int, beta: int) -> int {
    let x = (n_t * (FACTOR_ONE + beta) + FACTOR_ONE - 1) / FACTOR_ONE as int;
    if x > u64::MAX {
        u64::MAX as int
    } else {
        x
    }
}

/// Recall, in millionths, of an item with forgetting rate `n_t` (1e-12 per second) at time `t`,
/// last reviewed at `t_last` (nanoseconds).
pub fn recall(n_t: u64, t: u64, t_last: u64) -> (r: u64)
    requires
        t_last <= t,
    ensures
        r == recall_of(exponent(n_t as int, t - t_last)),
        r <= FACTOR_ONE,
{
    let dt = t - t_last;
    let a = n_t as u128;
    let b = dt as u128;
    assert(a * b <= 0xffff_ffff_ffff_ffffu128 * 0xffff_ffff_ffff_ffffu128) by (nonlinear_arith)
        requires
            a <= 0xffff_ffff_ffff_ffffu128,
            b <= 0xffff_ffff_ffff_ffffu128,
    ;
    let p = a * b;
    let x = (p + (EXPONENT_DIVISOR - 1)) / EXPONENT_DIVISOR;
    if x >= EXPONENT_CAP {
        return 0;
    }
    let one = FACTOR_ONE as u128;
    assert(x * x * x * x <= 64_000_000u128 * 64_000_000u128 * 64_000_000u128 * 64_000_000u128)
        by (nonlinear_arith)
        requires
            x < 64_000_000u128,
    ;
    assert(x * x <= 64_000_000u128 * 64_000_000u128) by (nonlinear_arith)
        requires
            x < 64_000_000u128,
    ;
    assert(x * x * x <= 64_000_000u128 * 64_000_000u128 * 64_000_000u128) by (nonlinear_arith)
        requires
            x < 64_000_000u128,
    ;
    let taylor = one + x + x * x / (2 * one) + x * x * x / (6 * one * one) + x * x * x * x / (24
        * one * one * one);
    let m = (one * one) / taylor;
    assert(m <= one) by (nonlinear_arith)
        requires
            taylor >= one,
            one > 0,
            m == (one * one) / (taylor as int),
    ;
    m as u64
}

/// Settings of the recall-curve selector.
#[derive(Debug, Clone, Copy, PartialEq, Eq, Structural)]
pub struct RecallCurveConfig {
    /// Decay of the forgetting rate on a correct answer, in millionths.
    pub n_t_alpha_correct: u64,
    /// Growth of the forgetting rate on an incorrect answer, in millionths.
    pub n_t_beta_incorrect: u64,
    /// Forgetting rate of an item without history, in units of 1e-12 per second.
    pub n_t_default: u64,
    /// Review rate, in millionths.
    pub q: u64,
}

impl RecallCurveConfig {
    /// A decay of at most one keeps rates non-negative, and the growth factor fits in 64 bits.
    pub open spec fn wf(&self) -> bool {
        &&& self.n_t_alpha_correct <= FACTOR_ONE
        &&& self.n_t_beta_incorrect <= u64::MAX - FACTOR_ONE
    }

    /// The forgetting rate after an answer with the given score: only a perfect score is correct.
    pub open spec fn rate_after(&self, n_t: int, score: int) -> int {
        if score == PERFECT_SCORE {
            rate_after_correct(n_t, self.n_t_alpha_correct as int)
        } else {
            rate_after_incorrect(n_t, self.n_t_beta_incorrect as int)
        }
    }

    /// The forgetting rate reached by replaying the records, in order, from `n_t`.
    pub open spec fn replay_rate(&self, n_t: int, records: Seq<Record>) -> int
        decreases records.len(),
    {
        if records.len() == 0 {
            n_t
        } else {
            self.rate_after(self.replay_rate(n_t, records.drop_last()), records.last().score as int)
        }
    }

    /// The forgetting rate after an answer with the given score.
    pub fn next_rate(&self, n_t: u64, score: u32) -> (r: u64)
        requires
            self.wf(),
        ensures
            r == self.rate_after(n_t as int, score as int),
    {
        let one = FACTOR_ONE as u128;
        if score == PERFECT_SCORE {
            let keep = one - self.n_t_alpha_correct as u128;
            assert((n_t as u128) * keep <= 0xffff_ffff_ffff_ffffu128 * 1_000_000u128)
                by (nonlinear_arith)
                requires
                    keep <= 1_000_000u128,
                    n_t <= 0xffff_ffff_ffff_ffffu64,
            ;
            let x = (n_t as u128) * keep / one;
            assert(x <= n_t) by (nonlinear_arith)
                requires
                    keep <= one,
                    one > 0,
                    x == (n_t as u128) * keep / (one as int),
            ;
            x as u64
        } else {
            let grow = one + self.n_t_beta_incorrect as u128;
            assert((n_t as u128) * grow <= 0xffff_ffff_ffff_ffffu128 * 0xffff_ffff_ffff_ffffu128)
                by (nonlinear_arith)
                requires
                    grow <= 0xffff_ffff_ffff_ffffu128,
                    n_t <= 0xffff_ffff_ffff_ffffu64,
            ;
            let x = ((n_t as u128) * grow + (one - 1)) / one;
            if x > u64::MAX as u128 {
                u64::MAX
            } else {
                x as u64
            }
        }
    }
}

impl Default for RecallCurveConfig {
    fn default() -> (r: Self)
        ensures
            r.n_t_alpha_correct == 50_000,
            r.n_t_beta_incorrect == 200_000,
            r.n_t_default == 5_000_000,
            r.q == FACTOR_ONE,
            r.wf(),
    {
        RecallCurveConfig {
            n_t_alpha_correct: 50_000,
            n_t_beta_incorrect: 200_000,
            q: FACTOR_ONE,
            n_t_default: 5_000_000,
        }
    }
}

/// A correct answer shrinks a positive forgetting rate: `n_t' = n_t * (1 - alpha) < n_t`.
pub proof fn lemma_correct_answer_decays(config: RecallCurveConfig, n_t: int)
    requires
        config.wf(),
        config.n_t_alpha_correct > 0,
        n_t > 0,
    ensures
        0 <= config.rate_after(n_t, PERFECT_SCORE as int) < n_t,
{
    let a = config.n_t_alpha_correct as int;
    let one = FACTOR_ONE as int;
    assert(0 <= n_t * (one - a) / one < n_t) by (nonlinear_arith)
        requires
            0 < a <= one,
            n_t > 0,
            one > 0,
    ;
}

/// An incorrect answer grows a positive forgetting rate, `n_t' = n_t * (1 + beta) > n_t`, until
/// it saturates at `u64::MAX`.
pub proof fn lemma_incorrect_answer_grows(config: RecallCurveConfig, n_t: int, score: int)
    requires
        config.wf(),
        config.n_t_beta_incorrect > 0,
        0 < n_t < u64::MAX,
        score != PERFECT_SCORE,
    ensures
        n_t < config.rate_after(n_t, score) <= u64::MAX,
{
    let b = config.n_t_beta_incorrect as int;
    let one = FACTOR_ONE as int;
    assert((n_t * (one + b) + one - 1) / one > n_t) by (nonlinear_arith)
        requires
            b > 0,
            n_t > 0,
            one == 1_000_000,
    ;
}

/// Replaying a history of perfect scores never raises the forgetting rate, and each record
/// strictly lowers a positive one: the rate goes toward zero monotonically.
pub proof fn lemma_perfect_history_decays(config: RecallCurveConfig, n_t: int, records: Seq<Record>)
    requires
        config.wf(),
        config.n_t_alpha_correct > 0,
        n_t >= 0,
        forall|i: int| 0 <= i < records.len() ==> (#[trigger] records[i]).score == PERFECT_SCORE,
    ensures
        0 <= config.replay_rate(n_t, records) <= n_t,
        records.len() > 0 && config.replay_rate(n_t, records.drop_last()) > 0 ==> config.replay_rate(
            n_t,
            records,
        ) < config.replay_rate(n_t, records.drop_last()),
    decreases records.len(),
{
    if records.len() > 0 {
        let rest = records.drop_last();
        assert forall|i: int| 0 <= i < rest.len() implies (#[trigger] rest[i]).score
            == PERFECT_SCORE by {
            assert(rest[i] == records[i]);
        }
        lemma_perfect_history_decays(config, n_t, rest);
        let prev = config.replay_rate(n_t, rest);
        assert(records.last() == records[records.len() - 1]);
        let a = config.n_t_alpha_correct as int;
        let one = FACTOR_ONE as int;
        assert(0 <= prev * (one - a) / one <= prev) by (nonlinear_arith)
            requires
                0 < a <= one,
                prev >= 0,
                one > 0,
        ;
        if prev > 0 {
            lemma_correct_answer_decays(config, prev);
        }
    }
}

/// Replaying a history without a perfect score never lowers the forgetting rate, and each
/// record strictly raises a positive one below saturation.
pub proof fn lemma_incorrect_history_grows(config: RecallCurveConfig, n_t: int, records: Seq<Record>)
    requires
        config.wf(),
        config.n_t_beta_incorrect > 0,
        0 <= n_t <= u64::MAX,
        forall|i: int| 0 <= i < records.len() ==> (#[trigger] records[i]).score != PERFECT_SCORE,
    ensures
        n_t <= config.replay_rate(n_t, records) <= u64::MAX,
        records.len() > 0 && 0 < config.replay_rate(n_t, records.drop_last()) < u64::MAX
            ==> config.replay_rate(n_t, records.drop_last()) < config.replay_rate(n_t, records),
    decreases records.len(),
{
    if records.len() > 0 {
        let rest = records.drop_last();
        assert forall|i: int| 0 <= i < rest.len() implies (#[trigger] rest[i]).score
            != PERFECT_SCORE by {
            assert(rest[i] == records[i]);
        }
        lemma_incorrect_history_grows(config, n_t, rest);
        let prev = config.replay_rate(n_t, rest);
        let last = records.last();
        assert(last == records[records.len() - 1]);
        let b = config.n_t_beta_incorrect as int;
        let one = FACTOR_ONE as int;
        assert((prev * (one + b) + one - 1) / one >= prev) by (nonlinear_arith)
            requires
                b > 0,
                prev >= 0,
                one == 1_000_000,
        ;
        if 0 < prev < u64::MAX {
            lemma_incorrect_answer_grows(config, prev, last.score as int);
        }
    }
}

/// For a positive forgetting rate, recall is exactly one at the time of the last review and
/// only then.
pub proof fn lemma_full_recall_only_at_review(n_t: u64, t: u64, t_last: u64)
    requires
        n_t > 0,
        t_last <= t,
    ensures
        recall_of(exponent(n_t as int, t - t_last)) == FACTOR_ONE <==> t == t_last,
{
    let one = FACTOR_ONE as int;
    let dt = t - t_last;
    let x = exponent(n_t as int, dt);
    if dt == 0 {
        assert(n_t * dt == 0) by (nonlinear_arith)
            requires
                dt == 0,
        ;
        assert(x == 0) by (nonlinear_arith)
            requires
                x == (0 + EXPONENT_DIVISOR - 1) / EXPONENT_DIVISOR as int,
        ;
        let z: int = 0;
        assert(z * z == 0 && z * z * z == 0 && z * z * z * z == 0) by (nonlinear_arith)
            requires
                z == 0,
        ;
        assert(taylor_exp(z) == one);
        assert((one * one) / one == one) by (nonlinear_arith)
            requires
                one == 1_000_000,
        ;
    } else {
        assert(n_t * dt >= 1) by (nonlinear_arith)
            requires
                n_t >= 1,
                dt >= 1,
        ;
        assert(x >= 1);
        if x < EXPONENT_CAP {
            let tx = taylor_exp(x);
            assert(x * x / (2 * one) >= 0 && x * x * x / (6 * one * one) >= 0 && x * x * x * x / (24
                * one * one * one) >= 0) by (nonlinear_arith)
                requires
                    x >= 1,
                    one == 1_000_000,
            ;
            assert(tx > one);
            assert((one * one) / tx < one) by (nonlinear_arith)
                requires
                    tx > one,
                    one > 0,
            ;
        }
    }
}

/// A question's entry, as (question, records in chronological order, last review, forgetting rate).
pub type Entry = (Question, Seq<Record>, u64, int);

/// A question's entry rebuilt from its history: the records are replayed in chronological
/// order; without records the question counts as reviewed at `now`.
pub open spec fn rebuilt_entry(
    config: RecallCurveConfig,
    question: Question,
    history: Seq<Record>,
    now: u64,
) -> Entry {
    let recs = chronological(history);
    (
        question,
        recs,
        if recs.len() == 0 {
            now
        } else {
            recs.last().time
        },
        config.replay_rate(config.n_t_default as int, recs),
    )
}

/// A question's entry after an answer.
pub open spec fn answered_entry(config: RecallCurveConfig, e: Entry, record: Record) -> Entry {
    (e.0, e.1.push(record), record.time, config.rate_after(e.3, record.score as int))
}

impl QuestionEntry for Entry {
    open spec fn entry_question(&self) -> Question {
        self.0
    }
}

/// What the selector keeps of one question.
#[derive(Debug)]
pub struct QuestionInfo {
    question: Question,
    records: Vec<Record>,
    last_time: u64,
    n_t: u64,
}

impl QuestionInfo {
    pub closed spec fn entry(&self) -> Entry {
        (self.question, self.records@, self.last_time, self.n_t as int)
    }
}

/// A selector that draws questions in proportion to how much they have been forgotten.
#[derive(Debug)]
pub struct RecallCurveSelector {
    questions: Vec<QuestionInfo>,
    config: RecallCurveConfig,
}

impl View for RecallCurveSelector {
    type V = Seq<Entry>;

    closed spec fn view(&self) -> Seq<Entry> {
        self.questions@.map_values(|x: QuestionInfo| x.entry())
    }
}

impl RecallCurveSelector {
    /// The settings in use.
    pub closed spec fn settings(&self) -> RecallCurveConfig {
        self.config
    }

    pub fn new(config: RecallCurveConfig) -> (r: Self)
        requires
            config.wf(),
        ensures
            r@ == Seq::<Entry>::empty(),
            r.settings() == config,
    {
        let r = RecallCurveSelector { questions: Vec::new(), config };
        assert(r@ =~= Seq::<Entry>::empty());
        r
    }

    /// Replaces the working set; each question's state is rebuilt from scratch from the history
    /// of its learnable, at index `i` of `histories` for the question at index `i`.
    pub fn set_histories(&mut self, questions: &[Question], histories: &Vec<Vec<Record>>, now: u64)
        requires
            old(self).settings().wf(),
            questions@.len() == histories@.len(),
        ensures
            final(self).settings() == old(self).settings(),
            final(self)@ == Seq::new(
                questions@.len(),
                |i: int| rebuilt_entry(old(self).settings(), questions@[i], histories@[i]@, now),
            ),
    {
        let mut infos: Vec<QuestionInfo> = Vec::new();
        let mut i: usize = 0;
        while i < questions.len()
            invariant
                i <= questions@.len(),
                questions@.len() == histories@.len(),
                self.config.wf(),
                infos@.len() == i,
                forall|k: int|
                    0 <= k < i ==> (#[trigger] infos@[k]).entry() == rebuilt_entry(
                        self.config,
                        questions@[k],
                        histories@[k]@,
                        now,
                    ),
            decreases questions@.len() - i,
        {
            let records = sort_by_time(&histories[i]);
            let mut n_t = self.config.n_t_default;
            let mut last_time = now;
            let mut j: usize = 0;
            while j < records.len()
                invariant
                    j <= records@.len(),
                    self.config.wf(),
                    n_t == self.config.replay_rate(
                        self.config.n_t_default as int,
                        records@.take(j as int),
                    ),
                    last_time == if j == 0 {
                        now
                    } else {
                        records@[j - 1].time
                    },
                decreases records@.len() - j,
            {
                proof {
                    assert(records@.take(j + 1).drop_last() == records@.take(j as int));
                }
                last_time = records[j].time;
                n_t = self.config.next_rate(n_t, records[j].score);
                j = j + 1;
            }
            assert(records@.take(records@.len() as int) == records@);
            let info = QuestionInfo { question: questions[i], records, last_time, n_t };
            infos.push(info);
            i = i + 1;
        }
        self.questions = infos;
        assert(self@ =~= Seq::new(
            questions@.len(),
            |k: int| rebuilt_entry(self.config, questions@[k], histories@[k]@, now),
        ));
    }

    /// Next question to ask: drawn in proportion to the review weights at `now`; when every
    /// weight is zero (everything is still perfectly recalled), drawn uniformly. Never `None`
    /// while the working set is not empty.
    pub fn get_question(&self, now: u64) -> (r: Option<Question>)
        ensures
            r is Some <==> self@.len() > 0,
            r matches Some(q) ==> exists|k: int|
                0 <= k < self@.len() && (#[trigger] self@[k]).0 == q && (weight_of(
                    self@[k].3,
                    self@[k].2,
                    now,
                ) > 0 || forall|j: int|
                    0 <= j < self@.len() ==> weight_of(#[trigger] self@[j].3, self@[j].2, now)
                        == 0),
    {
        let mut weights: Vec<u128> = Vec::new();
        let mut i: usize = 0;
        while i < self.questions.len()
            invariant
                i <= self.questions@.len(),
                weights@.len() == i,
                forall|k: int|
                    0 <= k < i ==> #[trigger] weights@[k] == weight_of(
                        self@[k].3,
                        self@[k].2,
                        now,
                    ),
                forall|k: int| 0 <= k < i ==> #[trigger] weights@[k] <= FACTOR_ONE,
                weight_sum(weights@) <= i * FACTOR_ONE,
            decreases self.questions@.len() - i,
        {
            let info = &self.questions[i];
            let m = if now >= info.last_time {
                recall(info.n_t, now, info.last_time)
            } else {
                recall(info.n_t, 0, 0)
            };
            let ghost before = weights@;
            weights.push((FACTOR_ONE - m) as u128);
            assert(weights@.drop_last() == before);
            i = i + 1;
        }
        assert(weight_sum(weights@) <= u128::MAX) by (nonlinear_arith)
            requires
                weight_sum(weights@) <= weights@.len() * 1_000_000,
                weights@.len() <= 0xffff_ffff_ffff_ffff,
        ;
        match weighted_index(&weights) {
            Some(k) => Some(self.questions[k].question),
            None => {
                let mut all: Vec<Question> = Vec::new();
                let mut j: usize = 0;
                while j < self.questions.len()
                    invariant
                        j <= self.questions@.len(),
                        all@.len() == j,
                        forall|k: int| 0 <= k < j ==> #[trigger] all@[k] == self@[k].0,
                    decreases self.questions@.len() - j,
                {
                    all.push(self.questions[j].question);
                    j = j + 1;
                }
                let r = choose_question(&all);
                proof {
                    if let Some(q) = r {
                        let k = choose|k: int| 0 <= k < all@.len() && all@[k] == q;
                        assert(self@[k].0 == q);
                        assert forall|j: int| 0 <= j < self@.len() implies weight_of(
                            #[trigger] self@[j].3,
                            self@[j].2,
                            now,
                        ) == 0 by {
                            assert(!(weights@[j] > 0));
                        }
                    }
                }
                r
            },
        }
    }

    /// Takes in an answer: the first entry of its question keeps the record, is last reviewed
    /// at its time, and updates its forgetting rate. The question must be in the working set.
    pub fn store_record(&mut self, record: &Record)
        requires
            old(self).settings().wf(),
            exists|k: int| 0 <= k < old(self)@.len() && (#[trigger] old(self)@[k]).0 == record.question,
        ensures
            final(self).settings() == old(self).settings(),
            exists|k: int|
                first_entry(old(self)@, record.question, k) && final(self)@ == old(self)@.update(
                    k,
                    answered_entry(old(self).settings(), old(self)@[k], *record),
                ),
    {
        let mut k: usize = 0;
        while k < self.questions.len() && self.questions[k].question != record.question
            invariant
                k <= self.questions@.len(),
                forall|j: int| 0 <= j < k ==> (#[trigger] self@[j]).0 != record.question,
            decreases self.questions@.len() - k,
        {
            k = k + 1;
        }
        let ghost before = self@;
        assert(first_entry(before, record.question, k as int));
        let mut info = self.questions.remove(k);
        info.records.push(*record);
        info.last_time = record.time;
        info.n_t = self.config.next_rate(info.n_t, record.score);
        self.questions.insert(k, info);
        assert(self@ =~= before.update(k as int, answered_entry(self.config, before[k as int], *record)));
    }

    /// Forgetting rate of the question at index `i` of the working set.
    pub fn forgetting_rate(&self, i: usize) -> (r: u64)
        requires
            i < self@.len(),
        ensures
            r == self@[i as int].3,
    {
        self.questions[i].n_t
    }

    /// Last review time of the question at index `i` of the working set.
    pub fn last_review(&self, i: usize) -> (r: u64)
        requires
            i < self@.len(),
        ensures
            r == self@[i as int].2,
    {
        self.questions[i].last_time
    }
}

} // verus!
