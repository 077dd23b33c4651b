use memorizer::algorithm::{DummySelector, Selector};
use memorizer::recall_curve::{recall, RecallCurveConfig, RecallCurveSelector, FACTOR_ONE};
use memorizer::recorder::{sort_by_time, MemoryRecorder, Persist, PersistentRecorder};
use memorizer::supermemo2::{QuestionState, SuperMemo2Selector, DAY_NANOS};
use memorizer::text::{TextLearnable, TextLearnableStorage, TextRepresentation, TextTransform};
use memorizer::training::Training;
use memorizer::traits::{
    Learnable, LearnableId, MemorizerError, Question, Record, Recorder, Representation,
    RepresentationId, Transform, TransformId, PERFECT_SCORE,
};

const HOUR: u64 = 3_600_000_000_000;

fn rep(text: &str, id: u64) -> TextRepresentation {
    TextRepresentation::new(text, RepresentationId(id))
}

fn tr(text: &str, id: u64) -> TextTransform {
    TextTransform::new(text, TransformId(id))
}

fn question(l: u64, from: u64, t: u64, to: u64) -> Question {
    Question {
        learnable: LearnableId(l),
        from: RepresentationId(from),
        transform: TransformId(t),
        to: RepresentationId(to),
    }
}

fn record(q: Question, score: u32, time: u64) -> Record {
    Record { question: q, score, time }
}

fn binary_learnable() -> TextLearnable {
    let edges = vec![
        (rep("0", 0), tr("decimal to binary", 0), rep("0000", 1)),
        (rep("0000", 1), tr("binary to decimal", 1), rep("0", 0)),
    ];
    TextLearnable::new(&edges, LearnableId(0))
}

#[test]
fn test_examples() {
    // Forgetting rate 5e-6 per second, about 0.43 per day.
    let mut previous = FACTOR_ONE + 1;
    for t in 0..10u64 {
        let t = t * 24 * HOUR;
        let n_t = 5_000_000;
        let recallt = recall(n_t, t, 0);
        let reviewt = FACTOR_ONE - recallt;
        println!("Recall {t: >10}: {recallt}");
        println!("           review: {reviewt}");
        assert!(recallt < previous);
        previous = recallt;
    }
    // First day recall: 0.64; second day: 0.42; third day: 0.27.
    assert!((640_000..660_000).contains(&recall(5_000_000, 24 * HOUR, 0)));
    assert!((415_000..430_000).contains(&recall(5_000_000, 48 * HOUR, 0)));
    assert!((270_000..280_000).contains(&recall(5_000_000, 72 * HOUR, 0)));
}

#[test]
fn round_robin_single_question_repeats() {
    let edges = vec![(rep("0", 0), tr("decimal to binary", 0), rep("0000", 1))];
    let learnable = TextLearnable::new(&edges, LearnableId(0));
    let expected = question(0, 0, 0, 1);
    let mut training = Training::new(
        vec![learnable],
        MemoryRecorder::new(),
        Selector::RoundRobin(DummySelector::new()),
    )
    .unwrap();
    assert_eq!(training.question(), Some(expected));
    assert_eq!(training.question(), Some(expected));
}

#[test]
fn round_robin_cycles_through_working_set() {
    let qs = vec![question(0, 0, 0, 1), question(0, 1, 1, 0), question(1, 2, 0, 3)];
    let mut s = DummySelector::new();
    s.set_histories(&qs, &vec![vec![], vec![], vec![]]);
    let got: Vec<Question> = (0..3).map(|_| s.get_question().unwrap()).collect();
    assert_eq!(got, qs);
    assert_eq!(s.get_question(), Some(qs[0]));
}

#[test]
fn round_robin_empty_is_none() {
    let mut s = DummySelector::new();
    assert_eq!(s.get_question(), None);
}

#[test]
fn supermemo2_scenario_from_default_state() {
    let mut s = QuestionState::default();
    assert_eq!(s.repetition_number, 0);
    assert_eq!(s.easiness_factor, 250);
    assert_eq!(s.inter_repetition(), 0);
    s.update(5);
    assert_eq!(s.repetition_number, 1);
    assert_eq!(s.inter_repetition(), 1);
    assert_eq!(s.easiness_factor, 260);
    s.update(5);
    assert_eq!(s.inter_repetition(), 3);
    assert_eq!(s.easiness_factor, 270);
    s.update(5);
    assert_eq!(s.inter_repetition(), 8);
}

#[test]
fn supermemo2_failure_resets() {
    let mut s = QuestionState::default();
    for _ in 0..4 {
        s.update(5);
    }
    assert!(s.inter_repetition() > 1);
    s.update(2);
    assert_eq!(s.inter_repetition(), 1);
    assert_eq!(s.repetition_number, 0);
    // Grade 2 lowers EF by 0.32.
    assert_eq!(s.easiness_factor, 250 + 40 - 32);
}

#[test]
fn supermemo2_easiness_floor() {
    let mut s = QuestionState::default();
    for _ in 0..50 {
        s.update(0);
        assert!(s.easiness_factor >= 130);
    }
    assert_eq!(s.easiness_factor, 130);
    s.update(3);
    assert_eq!(s.easiness_factor, 130);
    assert_eq!(s.inter_repetition(), 1);
}

#[test]
fn supermemo2_easiness_changes_per_grade() {
    let expected = [250 - 80, 250 - 54, 250 - 32, 250 - 14, 250, 260];
    for g in 0..6u64 {
        let mut s = QuestionState::default();
        s.update(g);
        assert_eq!(s.easiness_factor, expected[g as usize]);
    }
}

#[test]
fn score_to_grade_thresholds() {
    assert_eq!(QuestionState::score_to_grade(0), 0);
    assert_eq!(QuestionState::score_to_grade(1), 1);
    assert_eq!(QuestionState::score_to_grade(200_000), 1);
    assert_eq!(QuestionState::score_to_grade(200_001), 2);
    assert_eq!(QuestionState::score_to_grade(400_000), 2);
    assert_eq!(QuestionState::score_to_grade(600_000), 3);
    assert_eq!(QuestionState::score_to_grade(800_000), 4);
    assert_eq!(QuestionState::score_to_grade(800_001), 5);
    assert_eq!(QuestionState::score_to_grade(PERFECT_SCORE), 5);
}

#[test]
fn supermemo2_replays_history_in_time_order() {
    let q = question(0, 0, 0, 1);
    let t0 = 1_000 * DAY_NANOS;
    // Stored out of order: the perfect answer came last.
    let history = vec![record(q, PERFECT_SCORE, t0 + DAY_NANOS), record(q, 0, t0)];
    let mut s = SuperMemo2Selector::new();
    s.set_histories(&[q], &vec![history], t0 + 2 * DAY_NANOS);
    let info = s.info(0);
    assert_eq!(info.last_time, t0 + DAY_NANOS);
    assert_eq!(info.state.repetition_number, 1);
    assert_eq!(info.state.inter_repetition, 1);
    assert_eq!(info.state.easiness_factor, 170 + 10);
    assert!(!info.pending_re_review);
}

#[test]
fn supermemo2_due_and_pending() {
    let a = question(0, 0, 0, 1);
    let b = question(0, 1, 1, 0);
    let now = 1_000 * DAY_NANOS;
    let mut s = SuperMemo2Selector::new();
    s.set_histories(&[a, b], &vec![vec![], vec![]], now);
    // Nothing has elapsed yet: nothing is due or pending.
    assert_eq!(s.get_question(now), None);
    // A moment later both new questions are due.
    let got = s.get_question(now + 1).unwrap();
    assert!(got == a || got == b);
    // Answer both: a perfectly, b poorly.
    s.store_record(&record(a, PERFECT_SCORE, now + 1));
    s.store_record(&record(b, 500_000, now + 1));
    assert_eq!(s.due(now + 2), vec![]);
    assert_eq!(s.pending(), vec![b]);
    assert_eq!(s.get_question(now + 2), Some(b));
    // One day minus the grace window later, both are due again.
    let later = now + 1 + DAY_NANOS - 6 * HOUR + 1;
    assert_eq!(s.due(later), vec![a, b]);
    assert_eq!(s.due(later - 1), vec![]);
}

#[test]
fn supermemo2_reset_is_idempotent() {
    let a = question(0, 0, 0, 1);
    let history = vec![vec![record(a, 700_000, 5), record(a, PERFECT_SCORE, 9)]];
    let mut s = SuperMemo2Selector::new();
    s.set_histories(&[a], &history, 100);
    let once = s.info(0);
    s.set_histories(&[a], &history, 100);
    assert_eq!(s.info(0), once);
    s.store_record(&record(a, 300_000, 200));
    let mut t = SuperMemo2Selector::new();
    t.set_histories(&[a], &history, 100);
    t.store_record(&record(a, 300_000, 200));
    assert_eq!(s.info(0), t.info(0));
}

#[test]
fn recall_curve_scenario_one_perfect_record() {
    let q = question(0, 0, 0, 1);
    let mut s = RecallCurveSelector::new(RecallCurveConfig::default());
    s.set_histories(&[q], &vec![vec![record(q, PERFECT_SCORE, 10)]], 20);
    assert_eq!(s.forgetting_rate(0), 4_750_000);
    assert_eq!(s.last_review(0), 10);
}

#[test]
fn recall_curve_default_config() {
    let c = RecallCurveConfig::default();
    assert_eq!(c.n_t_alpha_correct, 50_000);
    assert_eq!(c.n_t_beta_incorrect, 200_000);
    assert_eq!(c.n_t_default, 5_000_000);
    assert_eq!(c.q, FACTOR_ONE);
}

#[test]
fn recall_curve_rates_move_monotonically() {
    let c = RecallCurveConfig::default();
    let mut n = c.n_t_default;
    for _ in 0..20 {
        let next = c.next_rate(n, PERFECT_SCORE);
        assert!(next < n);
        n = next;
    }
    let mut n = c.n_t_default;
    for _ in 0..20 {
        let next = c.next_rate(n, 999_999);
        assert!(next > n);
        n = next;
    }
    assert_eq!(c.next_rate(5_000_000, 0), 6_000_000);
    assert_eq!(c.next_rate(u64::MAX, 0), u64::MAX);
}

#[test]
fn recall_is_one_exactly_at_review() {
    assert_eq!(recall(5_000_000, 77, 77), FACTOR_ONE);
    assert!(recall(5_000_000, 78, 77) < FACTOR_ONE);
    assert_eq!(recall(5_000_000, 1_000 * DAY_NANOS, 0), 0);
}

#[test]
fn recall_curve_store_record_updates_entry() {
    let q = question(0, 0, 0, 1);
    let mut s = RecallCurveSelector::new(RecallCurveConfig::default());
    s.set_histories(&[q], &vec![vec![]], 50);
    assert_eq!(s.forgetting_rate(0), 5_000_000);
    assert_eq!(s.last_review(0), 50);
    s.store_record(&record(q, 0, 70));
    assert_eq!(s.forgetting_rate(0), 6_000_000);
    assert_eq!(s.last_review(0), 70);
}

#[test]
fn recall_curve_draws_by_weight() {
    let a = question(0, 0, 0, 1);
    let b = question(0, 1, 1, 0);
    let now = 100 * DAY_NANOS;
    let mut s = RecallCurveSelector::new(RecallCurveConfig::default());
    // b was just reviewed, so only a has a positive weight.
    s.set_histories(&[a, b], &vec![vec![record(a, 0, 0)], vec![record(b, 0, now)]], now);
    for _ in 0..20 {
        assert_eq!(s.get_question(now), Some(a));
    }
    // All weights zero: a uniform draw, never none.
    let mut fresh = RecallCurveSelector::new(RecallCurveConfig::default());
    fresh.set_histories(&[a, b], &vec![vec![], vec![]], now);
    let got = fresh.get_question(now).unwrap();
    assert!(got == a || got == b);
    let empty = RecallCurveSelector::new(RecallCurveConfig::default());
    assert_eq!(empty.get_question(now), None);
}

#[test]
fn learnable_questions_resolve() {
    let l = binary_learnable();
    let edges = l.edges();
    assert_eq!(edges, vec![question(0, 0, 0, 1), question(0, 1, 1, 0)]);
    assert_eq!(l.id(), LearnableId(0));
    for q in edges.iter() {
        assert!(l.has_representation(q.from));
        assert!(l.has_representation(q.to));
        assert!(l.has_transform(q.transform));
        assert_eq!(l.representation(q.from).id(), q.from);
        assert_eq!(l.representation(q.to).id(), q.to);
        assert_eq!(l.transform(q.transform).id(), q.transform);
    }
    assert_eq!(l.representation(RepresentationId(1)).text(), "0000");
    assert_eq!(l.transform(TransformId(1)).description(), "binary to decimal");
    assert!(!l.has_representation(RepresentationId(7)));
}

#[test]
fn representation_similarity() {
    let a = rep("0101", 1);
    let b = rep("0101", 2);
    let c = rep("0100", 1);
    assert!(a.is_equal(&b));
    assert_eq!(a.get_similarity(&b), PERFECT_SCORE);
    assert!(!a.is_equal(&c));
    assert_eq!(a.get_similarity(&c), 0);
    let copy = TextRepresentation::from(&a);
    assert_eq!(copy.text(), "0101");
    assert_eq!(copy.id(), RepresentationId(1));
    let t = TextTransform::from(&tr("hex to binary", 4));
    assert_eq!(t.description(), "hex to binary");
    assert_eq!(t.id(), TransformId(4));
}

fn storage() -> TextLearnableStorage {
    TextLearnableStorage {
        name: "binary".to_string(),
        transformations: vec![tr("decimal to binary", 0), tr("binary to decimal", 1)],
        representations: vec![rep("0", 0), rep("0000", 1), rep("1", 2), rep("0001", 3)],
        learnables: vec![
            vec![
                (RepresentationId(0), TransformId(0), RepresentationId(1)),
                (RepresentationId(1), TransformId(1), RepresentationId(0)),
            ],
            vec![(RepresentationId(2), TransformId(0), RepresentationId(3))],
        ],
    }
}

#[test]
fn storage_builds_learnables() {
    let ls = storage().to_learnables().unwrap();
    assert_eq!(ls.len(), 2);
    assert_eq!(ls[1].id(), LearnableId(1));
    assert_eq!(ls[1].edges(), vec![question(1, 2, 0, 3)]);
    assert_eq!(ls[1].representation(RepresentationId(3)).text(), "0001");
    assert_eq!(ls[0].edges(), vec![question(0, 0, 0, 1), question(0, 1, 1, 0)]);
}

#[test]
fn storage_unknown_representation() {
    let mut s = storage();
    s.learnables[1][0].2 = RepresentationId(9);
    match s.to_learnables() {
        Err(MemorizerError::UnknownRepresentation(id)) => assert_eq!(id, RepresentationId(9)),
        other => panic!("unexpected: {:?}", other.map(|v| v.len())),
    }
}

#[test]
fn storage_unknown_transform() {
    let mut s = storage();
    s.learnables[0][1].1 = TransformId(5);
    match s.to_learnables() {
        Err(MemorizerError::UnknownTransform(id)) => assert_eq!(id, TransformId(5)),
        other => panic!("unexpected: {:?}", other.map(|v| v.len())),
    }
}

#[test]
fn storage_round_trip() {
    let ls = storage().to_learnables().unwrap();
    let saved = TextLearnableStorage::from_learnables("binary", &ls);
    assert_eq!(saved.name, "binary");
    let ids: Vec<RepresentationId> = saved.representations.iter().map(|r| r.id()).collect();
    assert_eq!(
        ids,
        vec![RepresentationId(0), RepresentationId(1), RepresentationId(2), RepresentationId(3)]
    );
    let tids: Vec<TransformId> = saved.transformations.iter().map(|t| t.id()).collect();
    assert_eq!(tids, vec![TransformId(0), TransformId(1)]);
    assert_eq!(saved.representations[3].text(), "0001");
    assert_eq!(saved.learnables, storage().learnables);
}

#[test]
fn storage_lists_only_referenced_items_sorted() {
    let edges = vec![
        (rep("b", 7), tr("t", 3), rep("a", 2)),
        (rep("a", 2), tr("u", 1), rep("b", 7)),
    ];
    let l = TextLearnable::new(&edges, LearnableId(0));
    let saved = TextLearnableStorage::from_learnables("x", &[l]);
    let ids: Vec<RepresentationId> = saved.representations.iter().map(|r| r.id()).collect();
    assert_eq!(ids, vec![RepresentationId(2), RepresentationId(7)]);
    let tids: Vec<TransformId> = saved.transformations.iter().map(|t| t.id()).collect();
    assert_eq!(tids, vec![TransformId(1), TransformId(3)]);
}

#[test]
fn memory_recorder_filters_by_learnable() {
    let a = question(0, 0, 0, 1);
    let b = question(1, 2, 0, 3);
    let mut r = MemoryRecorder::from(&[record(a, 1, 1), record(b, 2, 2)]);
    r.store_record(&record(a, 3, 3)).unwrap();
    let got = r.get_records_by_learnable(LearnableId(0)).unwrap();
    assert_eq!(got, vec![record(a, 1, 1), record(a, 3, 3)]);
    assert_eq!(r.get_records_by_learnable(LearnableId(5)).unwrap(), vec![]);
}

#[test]
fn records_sort_by_time_then_key() {
    let q = question(0, 0, 0, 1);
    let v = vec![record(q, 3, 30), record(q, 2, 10), record(q, 1, 30), record(q, 4, 20)];
    let sorted = sort_by_time(&v);
    let scores: Vec<u32> = sorted.iter().map(|r| r.score).collect();
    assert_eq!(scores, vec![2, 4, 1, 3]);
    // Records of one time come out in the same order whatever order they went in.
    let w = vec![record(q, 1, 30), record(q, 4, 20), record(q, 3, 30), record(q, 2, 10)];
    assert_eq!(sort_by_time(&w), sorted);
}

#[test]
fn supermemo2_replay_marks_failed_question_for_re_review() {
    let q = question(0, 0, 0, 1);
    let mut s = SuperMemo2Selector::new();
    s.set_histories(&[q], &vec![vec![record(q, PERFECT_SCORE, 5), record(q, 100_000, 9)]], 20);
    assert!(s.info(0).pending_re_review);
    assert_eq!(s.pending(), vec![q]);
    let mut fresh = SuperMemo2Selector::new();
    fresh.set_histories(&[q], &vec![vec![]], 20);
    assert!(!fresh.info(0).pending_re_review);
}

#[test]
fn training_proposes_and_finalizes() {
    let history = MemoryRecorder::new();
    let mut training =
        Training::new(vec![binary_learnable()], history, Selector::SuperMemo2(SuperMemo2Selector::new()))
            .unwrap();
    let q = question(0, 0, 0, 1);
    let (rec, truth) = training.propose_answer(&q, &rep("0000", 99)).unwrap();
    assert_eq!(truth.text(), "0000");
    assert_eq!(rec.score, PERFECT_SCORE);
    assert_eq!(rec.question, q);
    assert!(rec.time > 0);
    let (wrong, _) = training.propose_answer_at(&q, &rep("0001", 99), 5).unwrap();
    assert_eq!(wrong.score, 0);
    assert_eq!(wrong.time, 5);
    training.finalize_answer(rec).unwrap();
    let stored = training.recorder().get_records_by_learnable(LearnableId(0)).unwrap();
    assert_eq!(stored, vec![rec]);
    assert_eq!(training.get_answer(&q).unwrap().text(), "0000");
    assert_eq!(training.representation(RepresentationId(0)).text(), "0");
    assert_eq!(training.transform(TransformId(0)).description(), "decimal to binary");
    match training.get_answer(&question(0, 0, 0, 42)) {
        Err(MemorizerError::UnknownRepresentation(id)) => assert_eq!(id, RepresentationId(42)),
        _ => panic!("expected an unknown representation"),
    }
}

#[test]
fn training_replays_history_on_selector_swap() {
    let q = question(0, 0, 0, 1);
    let history = MemoryRecorder::from(&[record(q, PERFECT_SCORE, 10)]);
    let mut training =
        Training::new(vec![binary_learnable()], history, Selector::RoundRobin(DummySelector::new()))
            .unwrap();
    training
        .set_selector(Selector::RecallCurve(RecallCurveSelector::new(RecallCurveConfig::default())))
        .unwrap();
    let got = training.question().unwrap();
    assert!(got == q || got == question(0, 1, 1, 0));
}

#[test]
fn selector_set_questions_reads_store() {
    let a = question(0, 0, 0, 1);
    let b = question(3, 2, 0, 3);
    let store = MemoryRecorder::from(&[record(a, 600_000, 10), record(b, PERFECT_SCORE, 20)]);
    let mut s = Selector::RoundRobin(DummySelector::new());
    s.set_questions(&[a, b], &store).unwrap();
    assert_eq!(s.get_question(), Some(a));
    assert_eq!(s.get_question(), Some(b));
    assert_eq!(s.get_question_at(0), Some(a));
}

#[derive(Debug)]
struct FailingSink;

impl Persist for FailingSink {
    fn persist(&mut self, _records: &Vec<Record>) -> Result<(), MemorizerError> {
        Err(MemorizerError::Storage("disk full".to_string()))
    }
}

#[derive(Debug)]
struct CountingSink(usize);

impl Persist for CountingSink {
    fn persist(&mut self, records: &Vec<Record>) -> Result<(), MemorizerError> {
        self.0 = records.len();
        Ok(())
    }
}

#[test]
fn training_store_failure_is_returned() {
    let store = PersistentRecorder::new(&[], FailingSink);
    let mut training =
        Training::new(vec![binary_learnable()], store, Selector::RoundRobin(DummySelector::new()))
            .unwrap();
    let q = training.question().unwrap();
    let (rec, _) = training.propose_answer_at(&q, &rep("1111", 5), 9).unwrap();
    match training.finalize_answer(rec) {
        Err(MemorizerError::Storage(msg)) => assert_eq!(msg, "disk full"),
        _ => panic!("expected a storage error"),
    }
    // The failed record is not kept, and the queue moved only for the question asked.
    assert!(training.recorder().all_records().is_empty());
    assert_eq!(training.question(), Some(question(0, 1, 1, 0)));
}

#[test]
fn persistent_store_writes_through() {
    let q = question(0, 0, 0, 1);
    let mut store = PersistentRecorder::new(&[record(q, 1, 1)], CountingSink(0));
    store.store_record(&record(q, 2, 2)).unwrap();
    assert_eq!(store.sink().0, 2);
    assert_eq!(store.get_records_by_learnable(LearnableId(0)).unwrap().len(), 2);
    assert_eq!(store.all_records()[1], record(q, 2, 2));
}

#[test]
fn stale_history_is_replayed_without_failing() {
    let asked = question(0, 0, 0, 1);
    let stale = question(0, 5, 5, 6);
    let history = vec![vec![record(stale, 0, 10)]];
    let mut s = SuperMemo2Selector::new();
    s.set_histories(&[asked], &history, 20);
    assert_eq!(s.info(0).state.easiness_factor, 170);
    assert_eq!(s.info(0).last_time, 10);
}
