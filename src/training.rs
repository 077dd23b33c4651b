use vstd::prelude::*;

use crate::algorithm::{
    after_next, after_record, allowed_next, histories_of, lemma_next_keeps_questions,
    lemma_rebuilt_working_set, lemma_record_keeps_questions, rebuilt_state, state_wf, working_set,
    Selector,
};
use crate::chance::now_nanos;
use crate::text::{TextLearnable, TextRepresentation, TextTransform};
use crate::traits::{
    Learnable, MemorizerError, PERFECT_SCORE, Question, Record, Recorder, Representation,
    RepresentationId, Transform, TransformId,
};

verus! {

/// The questions of a corpus: the edges of each learnable, learnable after learnable.
pub open spec fn all_questions(learnables: Seq<TextLearnable>) -> Seq<Question>
    decreases learnables.len(),
{
    if learnables.len() == 0 {
        Seq::empty()
    } else {
        all_questions(learnables.drop_last()) + learnables.last().questions()
    }
}

/// The representation with the given id, as the last learnable of the corpus that holds one has it.
pub open spec fn lookup_representation(learnables: Seq<TextLearnable>, id: u64) -> Option<
    TextRepresentation,
>
    decreases learnables.len(),
{
    if learnables.len() == 0 {
        None
    } else if learnables.last().representation_map().contains_key(id) {
        Some(learnables.last().representation_map()[id])
    } else {
        lookup_representation(learnables.drop_last(), id)
    }
}

/// The transform with the given id, as the last learnable of the corpus that holds one has it.
pub open spec fn lookup_transform(learnables: Seq<TextLearnable>, id: u64) -> Option<TextTransform>
    decreases learnables.len(),
{
    if learnables.len() == 0 {
        None
    } else if learnables.last().transform_map().contains_key(id) {
        Some(learnables.last().transform_map()[id])
    } else {
        lookup_transform(learnables.drop_last(), id)
    }
}

/// Whether every learnable of the corpus is valid.
pub open spec fn all_valid(learnables: Seq<TextLearnable>) -> bool {
    forall|i: int| 0 <= i < learnables.len() ==> (#[trigger] learnables[i]).wf()
}

/// Every question of a corpus of valid learnables resolves: its representations and its
/// transform can be looked up, and carry the ids the question names.
pub proof fn lemma_corpus_resolves(learnables: Seq<TextLearnable>, q: Question)
    requires
        all_valid(learnables),
        all_questions(learnables).contains(q),
    ensures
        lookup_representation(learnables, q.from.0) is Some,
        lookup_representation(learnables, q.to.0) is Some,
        lookup_transform(learnables, q.transform.0) is Some,
        lookup_representation(learnables, q.from.0)->Some_0.ident() == q.from,
        lookup_representation(learnables, q.to.0)->Some_0.ident() == q.to,
        lookup_transform(learnables, q.transform.0)->Some_0.ident() == q.transform,
    decreases learnables.len(),
{
    let rest = learnables.drop_last();
    let l = learnables.last();
    assert(learnables[learnables.len() - 1] == l);
    assert(l.wf());
    assert(all_valid(rest)) by {
        assert forall|i: int| 0 <= i < rest.len() implies (#[trigger] rest[i]).wf() by {
            assert(rest[i] == learnables[i]);
        }
    }
    let all = all_questions(learnables);
    let k = choose|k: int| 0 <= k < all.len() && all[k] == q;
    let n = all_questions(rest).len();
    if k < n {
        assert(all_questions(rest)[k] == q);
        lemma_corpus_resolves(rest, q);
    } else {
        assert(l.questions()[k - n] == q);
        crate::text::lemma_questions_resolve(&l, k - n);
    }
    lemma_lookup_ident(learnables, q.from.0);
    lemma_lookup_ident(learnables, q.to.0);
    lemma_lookup_transform_ident(learnables, q.transform.0);
    if k >= n {
        assert(l.representation_map().contains_key(q.from.0));
    }
}

proof fn lemma_lookup_ident(learnables: Seq<TextLearnable>, id: u64)
    requires
        all_valid(learnables),
    ensures
        lookup_representation(learnables, id) matches Some(r) ==> r.ident().0 == id,
    decreases learnables.len(),
{
    if learnables.len() > 0 {
        let rest = learnables.drop_last();
        assert(learnables[learnables.len() - 1] == learnables.last());
        assert(all_valid(rest)) by {
            assert forall|i: int| 0 <= i < rest.len() implies (#[trigger] rest[i]).wf() by {
                assert(rest[i] == learnables[i]);
            }
        }
        lemma_lookup_ident(rest, id);
        crate::text::lemma_held_ids(&learnables.last(), id);
    }
}

proof fn lemma_lookup_transform_ident(learnables: Seq<TextLearnable>, id: u64)
    requires
        all_valid(learnables),
    ensures
        lookup_transform(learnables, id) matches Some(t) ==> t.ident().0 == id,
    decreases learnables.len(),
{
    if learnables.len() > 0 {
        let rest = learnables.drop_last();
        assert(learnables[learnables.len() - 1] == learnables.last());
        assert(all_valid(rest)) by {
            assert forall|i: int| 0 <= i < rest.len() implies (#[trigger] rest[i]).wf() by {
                assert(rest[i] == learnables[i]);
            }
        }
        lemma_lookup_transform_ident(rest, id);
        crate::text::lemma_held_ids(&learnables.last(), id);
    }
}

/// Every question of a corpus, learnable after learnable.
pub fn collect_questions(learnables: &[TextLearnable]) -> (r: Vec<Question>)
    ensures
        r@ == all_questions(learnables@),
{
    let mut questions: Vec<Question> = Vec::new();
    let mut i: usize = 0;
    while i < learnables.len()
        invariant
            i <= learnables@.len(),
            questions@ == all_questions(learnables@.take(i as int)),
        decreases learnables@.len() - i,
    {
        let edges = learnables[i].edges();
        let ghost start = questions@;
        let mut j: usize = 0;
        while j < edges.len()
            invariant
                j <= edges@.len(),
                questions@ == start + edges@.take(j as int),
            decreases edges@.len() - j,
        {
            questions.push(edges[j]);
            proof {
                assert(questions@ =~= start + edges@.take(j + 1));
            }
            j = j + 1;
        }
        proof {
            assert(edges@.take(edges@.len() as int) == edges@);
            assert(learnables@.take(i + 1).drop_last() == learnables@.take(i as int));
            assert(learnables@.take(i + 1).last() == learnables@[i as int]);
        }
        i = i + 1;
    }
    assert(learnables@.take(learnables@.len() as int) == learnables@);
    questions
}

/// The representation of a corpus with the given id, if any.
pub fn find_representation_in(learnables: &[TextLearnable], id: RepresentationId) -> (r: Option<
    &TextRepresentation,
>)
    ensures
        match r {
            Some(x) => lookup_representation(learnables@, id.0) == Some(*x),
            None => lookup_representation(learnables@, id.0) is None,
        },
{
    let mut k: usize = learnables.len();
    assert(learnables@.take(k as int) == learnables@);
    while k > 0
        invariant
            k <= learnables@.len(),
            lookup_representation(learnables@, id.0) == lookup_representation(
                learnables@.take(k as int),
                id.0,
            ),
        decreases k,
    {
        let ghost prefix = learnables@.take(k as int);
        assert(prefix.drop_last() == learnables@.take(k - 1));
        assert(prefix.last() == learnables@[k - 1]);
        let l = &learnables[k - 1];
        if l.has_representation(id) {
            return Some(l.representation(id));
        }
        k = k - 1;
    }
    None
}

/// The transform of a corpus with the given id, if any.
pub fn find_transform_in(learnables: &[TextLearnable], id: TransformId) -> (r: Option<&TextTransform>)
    ensures
        match r {
            Some(x) => lookup_transform(learnables@, id.0) == Some(*x),
            None => lookup_transform(learnables@, id.0) is None,
        },
{
    let mut k: usize = learnables.len();
    assert(learnables@.take(k as int) == learnables@);
    while k > 0
        invariant
            k <= learnables@.len(),
            lookup_transform(learnables@, id.0) == lookup_transform(
                learnables@.take(k as int),
                id.0,
            ),
        decreases k,
    {
        let ghost prefix = learnables@.take(k as int);
        assert(prefix.drop_last() == learnables@.take(k - 1));
        assert(prefix.last() == learnables@[k - 1]);
        let l = &learnables[k - 1];
        if l.has_transform(id) {
            return Some(l.transform(id));
        }
        k = k - 1;
    }
    None
}

/// Maintains the flow of a learning session: get a question, propose an answer, adjust its
/// score, finalize it. Also looks up the transforms and representations of the corpus.
pub struct Training<R: Recorder> {
    learnables: Vec<TextLearnable>,
    questions: Vec<Question>,
    recorder: R,
    selector: Selector,
}

impl<R: Recorder> Training<R> {
    /// The learnables of the corpus.
    pub closed spec fn corpus(&self) -> Seq<TextLearnable> {
        self.learnables@
    }

    /// The working set.
    pub closed spec fn questions(&self) -> Seq<Question> {
        self.questions@
    }

    /// The state of the active selector.
    pub closed spec fn selector_state(&self) -> crate::algorithm::SelectorState {
        self.selector@
    }

    /// The history store.
    pub closed spec fn store(&self) -> R {
        self.recorder
    }

    /// The corpus is valid, the working set is its questions, and the selector schedules them.
    pub open spec fn wf(&self) -> bool {
        &&& all_valid(self.corpus())
        &&& self.questions() == all_questions(self.corpus())
        &&& state_wf(self.selector_state())
        &&& forall|q: Question|
            #[trigger] self.questions().contains(q) ==> working_set(self.selector_state()).contains(q)
    }

    /// Loads a corpus, a history store and a selector: the working set is every edge of every
    /// learnable, and the selector replays the stored history for it. A failure of the store is
    /// returned.
    pub fn new(learnables: Vec<TextLearnable>, recorder: R, selector: Selector) -> (r: Result<
        Self,
        MemorizerError,
    >)
        requires
            all_valid(learnables@),
            state_wf(selector@),
        ensures
            all_questions(learnables@).len() == 0 || recorder.reliable() ==> r is Ok,
            r matches Ok(t) ==> {
                &&& t.wf()
                &&& t.corpus() == learnables@
                &&& t.questions() == all_questions(learnables@)
                &&& t.store() == recorder
                &&& exists|now: u64|
                    t.selector_state() == #[trigger] rebuilt_state(
                        selector@,
                        t.questions(),
                        histories_of(recorder, t.questions()),
                        now,
                    )
            },
    {
        let questions = collect_questions(learnables.as_slice());
        let mut selector = selector;
        let ghost initial = selector@;
        match selector.set_questions(questions.as_slice(), &recorder) {
            Ok(()) => {},
            Err(e) => return Err(e),
        }
        let ghost hs = histories_of(recorder, questions@);
        let ghost now = choose|now: u64| selector@ == rebuilt_state(initial, questions@, hs, now);
        proof {
            lemma_rebuilt_working_set(initial, questions@, hs, now);
        }
        let t = Training { learnables, questions, recorder, selector };
        assert(t.selector_state() == rebuilt_state(initial, t.questions(), hs, now));
        assert(t.wf());
        Ok(t)
    }

    /// Makes `selector` the active selector, replaying the stored history for the working set.
    /// A failure of the store is returned and keeps the selector that was active.
    pub fn set_selector(&mut self, selector: Selector) -> (r: Result<(), MemorizerError>)
        requires
            old(self).wf(),
            state_wf(selector@),
        ensures
            final(self).wf(),
            final(self).corpus() == old(self).corpus(),
            final(self).questions() == old(self).questions(),
            final(self).store() == old(self).store(),
            old(self).questions().len() == 0 || old(self).store().reliable() ==> r is Ok,
            r is Err ==> final(self).selector_state() == old(self).selector_state(),
            r is Ok ==> exists|now: u64|
                final(self).selector_state() == #[trigger] rebuilt_state(
                    selector@,
                    old(self).questions(),
                    histories_of(old(self).store(), old(self).questions()),
                    now,
                ),
    {
        let mut selector = selector;
        let ghost initial = selector@;
        match selector.set_questions(self.questions.as_slice(), &self.recorder) {
            Ok(()) => {},
            Err(e) => return Err(e),
        }
        proof {
            let hs = histories_of(self.recorder, self.questions@);
            let now = choose|now: u64| selector@ == rebuilt_state(initial, self.questions@, hs, now);
            lemma_rebuilt_working_set(initial, self.questions@, hs, now);
        }
        self.selector = selector;
        Ok(())
    }

    /// Obtains the next question, or `None` when there is nothing more to ask.
    pub fn question(&mut self) -> (r: Option<Question>)
        requires
            old(self).wf(),
        ensures
            final(self).wf(),
            final(self).corpus() == old(self).corpus(),
            final(self).questions() == old(self).questions(),
            final(self).store() == old(self).store(),
            exists|now: u64| allowed_next(old(self).selector_state(), now, r),
            final(self).selector_state() == after_next(old(self).selector_state()),
    {
        let ghost before = self.selector@;
        let r = self.selector.get_question();
        proof {
            assert forall|q: Question| #[trigger] self.questions@.contains(q) implies working_set(
                self.selector@,
            ).contains(q) by {
                lemma_next_keeps_questions(before, q);
            }
        }
        r
    }

    /// The history store.
    pub fn recorder(&self) -> (r: &R)
        ensures
            *r == self.store(),
    {
        &self.recorder
    }

    /// Obtains the representation with the given id, which must be in the corpus.
    pub fn representation(&self, id: RepresentationId) -> (r: &TextRepresentation)
        requires
            lookup_representation(self.corpus(), id.0) is Some,
        ensures
            *r == lookup_representation(self.corpus(), id.0)->Some_0,
    {
        find_representation_in(self.learnables.as_slice(), id).unwrap()
    }

    /// Obtains the transform with the given id, which must be in the corpus.
    pub fn transform(&self, id: TransformId) -> (r: &TextTransform)
        requires
            lookup_transform(self.corpus(), id.0) is Some,
        ensures
            *r == lookup_transform(self.corpus(), id.0)->Some_0,
    {
        find_transform_in(self.learnables.as_slice(), id).unwrap()
    }

    /// The true answer to a question; an error when its answer is not in the corpus.
    pub fn get_answer(&self, question: &Question) -> (r: Result<&TextRepresentation, MemorizerError>)
        ensures
            r is Ok <==> lookup_representation(self.corpus(), question.to.0) is Some,
            r matches Ok(x) ==> *x == lookup_representation(self.corpus(), question.to.0)->Some_0,
            r is Err ==> (r matches Err(MemorizerError::UnknownRepresentation(id)) && id == question.to),
    {
        match find_representation_in(self.learnables.as_slice(), question.to) {
            Some(x) => Ok(x),
            None => Err(MemorizerError::UnknownRepresentation(question.to)),
        }
    }

    /// The record proposed for an answer given at `time`, with the true answer: the score is
    /// the true answer's similarity to the given one. The record may be adjusted before it is
    /// finalized.
    pub fn propose_answer_at(
        &self,
        question: &Question,
        given_answer: &TextRepresentation,
        time: u64,
    ) -> (r: Result<(Record, &TextRepresentation), MemorizerError>)
        requires
            lookup_representation(self.corpus(), question.to.0) is Some,
        ensures
            r matches Ok((record, truth)) && {
                &&& *truth == lookup_representation(self.corpus(), question.to.0)->Some_0
                &&& record.question == *question
                &&& record.time == time
                &&& record.score == if truth.content() == given_answer.content() {
                    PERFECT_SCORE
                } else {
                    0
                }
            },
    {
        let truth = self.representation(question.to);
        let score = truth.get_similarity(given_answer);
        Ok((Record { question: *question, score, time }, truth))
    }

    /// The record proposed for an answer given now, with the true answer: the score is the
    /// true answer's similarity to the given one. The record may be adjusted before it is
    /// finalized.
    pub fn propose_answer(&self, question: &Question, given_answer: &TextRepresentation) -> (r:
        Result<(Record, &TextRepresentation), MemorizerError>)
        requires
            lookup_representation(self.corpus(), question.to.0) is Some,
        ensures
            r matches Ok((record, truth)) && {
                &&& *truth == lookup_representation(self.corpus(), question.to.0)->Some_0
                &&& record.question == *question
                &&& record.score == if truth.content() == given_answer.content() {
                    PERFECT_SCORE
                } else {
                    0
                }
            },
    {
        let time = now_nanos();
        self.propose_answer_at(question, given_answer, time)
    }

    /// Finalizes a record: it is stored first, and only once that succeeded the selector takes
    /// it in, so that a failure of the store leaves the selector consistent with the store.
    pub fn finalize_answer(&mut self, record: Record) -> (r: Result<(), MemorizerError>)
        requires
            old(self).wf(),
            record.score <= PERFECT_SCORE,
            old(self).questions().contains(record.question),
        ensures
            final(self).wf(),
            final(self).corpus() == old(self).corpus(),
            final(self).questions() == old(self).questions(),
            r is Err ==> final(self).selector_state() == old(self).selector_state(),
            r is Ok ==> final(self).selector_state() == after_record(
                old(self).selector_state(),
                record,
            ),
            r is Ok ==> final(self).store().stored() == old(self).store().stored().push(record),
    {
        match self.recorder.store_record(&record) {
            Ok(()) => {},
            Err(e) => return Err(e),
        }
        let ghost before = self.selector@;
        self.selector.store_record(&record);
        proof {
            lemma_record_keeps_questions(before, record);
        }
        Ok(())
    }
}

} // verus!
