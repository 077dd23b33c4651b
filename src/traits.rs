use vstd::prelude::*;

verus! {

/// The kind of content a representation holds.
#[derive(Debug, Clone, Copy, PartialEq, Eq, Structural)]
pub enum RepresentationType {
    Text,
}

/// Numeric part of every identifier.
pub type Id = u64;

/// Id for a learnable, a learnable represents a set of learnable edges.
/// Think of a normal flashcard as a single learnable with two edges (back to front, front to back).
#[derive(Debug, Clone, Copy, PartialEq, Eq, Structural, Hash, Default)]
pub struct LearnableId(pub Id);

/// Id for a representation, unique for the front or back of a traditional card.
#[derive(Debug, Clone, Copy, PartialEq, Eq, Structural, Hash, Default)]
pub struct RepresentationId(pub Id);

/// Id for a particular transformation, like going from language A to language B.
#[derive(Debug, Clone, Copy, PartialEq, Eq, Structural, Hash, Default)]
pub struct TransformId(pub Id);

/// A score in millionths: `0` is completely wrong, `PERFECT_SCORE` is exactly right.
pub type Score = u32;

/// The score of an exact answer.
pub const PERFECT_SCORE: Score = 1_000_000;

/// A question: an id-only handle on one edge of a learnable.
#[derive(Debug, Clone, Copy, PartialEq, Eq, Structural, Default)]
pub struct Question {
    /// From which learnable this question originates.
    pub learnable: LearnableId,
    /// The 'from' value, this is shown to the user.
    pub from: RepresentationId,
    /// The transformation the user is to perform.
    pub transform: TransformId,
    /// The true answer for this from and transformation.
    pub to: RepresentationId,
}

/// Record of a question, the score obtained answering it and when.
#[derive(Debug, Clone, Copy, PartialEq, Eq, Structural)]
pub struct Record {
    /// The question as posed.
    pub question: Question,
    /// The final score stored for this question, at most `PERFECT_SCORE`.
    pub score: Score,
    /// Nanoseconds since the Unix epoch.
    pub time: u64,
}

/// An entry of a selector's working set, held for one question.
pub trait QuestionEntry {
    /// The question the entry is held for.
    spec fn entry_question(&self) -> Question;
}

/// Whether `k` is the first entry for question `q`.
pub open spec fn first_entry<T: QuestionEntry>(entries: Seq<T>, q: Question, k: int) -> bool {
    &&& 0 <= k < entries.len()
    &&& entries[k].entry_question() == q
    &&& forall|j: int| 0 <= j < k ==> (#[trigger] entries[j]).entry_question() != q
}

/// A question has at most one first entry.
pub proof fn lemma_first_entry_unique<T: QuestionEntry>(s: Seq<T>, q: Question, a: int, b: int)
    requires
        first_entry(s, q, a),
        first_entry(s, q, b),
    ensures
        a == b,
{
    if a < b {
        assert(s[a].entry_question() == q);
    } else if b < a {
        assert(s[b].entry_question() == q);
    }
}

/// Why an operation of the library failed.
#[derive(Debug)]
pub enum MemorizerError {
    /// The history store could not read or write; the message says why.
    Storage(String),
    /// A representation id that nothing owns was referenced.
    UnknownRepresentation(RepresentationId),
    /// A transform id that nothing owns was referenced.
    UnknownTransform(TransformId),
}

/// A particular representation of data, think about the side of a card.
pub trait Representation: Sized {
    /// The kind of content held.
    spec fn kind(&self) -> RepresentationType;

    /// The content as text.
    spec fn content(&self) -> Seq<char>;

    /// The permanent identifier.
    spec fn ident(&self) -> RepresentationId;

    /// Whether two representations hold the same content, whatever their ids.
    spec fn same_content(&self, other: &Self) -> bool;

    /// Get the type of this representation.
    fn get_type(&self) -> (r: RepresentationType)
        ensures
            r == self.kind(),
    ;

    /// Get the textual representation.
    fn text(&self) -> (r: &str)
        ensures
            r@ == self.content(),
    ;

    /// Unique id for this representation.
    fn id(&self) -> (r: RepresentationId)
        ensures
            r == self.ident(),
    ;

    /// Check if this representation holds the same content as another; ids are not compared.
    fn is_equal(&self, other: &Self) -> (r: bool)
        ensures
            r == self.same_content(other),
    ;

    /// How close another representation comes to this one, from `0` (completely wrong)
    /// to `PERFECT_SCORE` (exactly equal); ids are not compared.
    fn get_similarity(&self, other: &Self) -> (r: Score)
        ensures
            r <= PERFECT_SCORE,
            self.same_content(other) ==> r == PERFECT_SCORE,
    ;
}

/// A transformation, like Hex->Binary or 'from language A into language B': the direction
/// in which a card is learnt.
pub trait Transform: Sized {
    /// The description as text.
    spec fn described(&self) -> Seq<char>;

    /// The permanent identifier.
    spec fn ident(&self) -> TransformId;

    /// A string describing the particular transformation to be performed.
    fn description(&self) -> (r: &str)
        ensures
            r@ == self.described(),
    ;

    /// Unique id for this transformation.
    fn id(&self) -> (r: TransformId)
        ensures
            r == self.ident(),
    ;
}

/// Something that relates transformations and representations to each other and owns them:
/// a single card with any number of sides.
pub trait Learnable: Sized {
    /// The edges of this learnable, as questions.
    spec fn questions(&self) -> Seq<Question>;

    /// The permanent identifier.
    spec fn ident(&self) -> LearnableId;

    /// Get the possible edges for this learnable.
    fn edges(&self) -> (r: Vec<Question>)
        ensures
            r@ == self.questions(),
    ;

    /// Unique id for this learnable.
    fn id(&self) -> (r: LearnableId)
        ensures
            r == self.ident(),
    ;
}

/// Something that keeps past performance: the history store.
pub trait Recorder {
    /// The records stored for a learnable, in the order reads return them.
    spec fn history(&self, learnable: LearnableId) -> Seq<Record>;

    /// Every record stored, in the order stored.
    spec fn stored(&self) -> Seq<Record>;

    /// Whether reads never fail.
    spec fn reliable(&self) -> bool;

    /// Durably store an answer; on success it is appended to what is stored.
    fn store_record(&mut self, record: &Record) -> (r: Result<(), MemorizerError>)
        ensures
            r is Ok ==> final(self).stored() == old(self).stored().push(*record),
    ;

    /// All records of a learnable, in no particular order; empty for an unknown id.
    fn get_records_by_learnable(&self, learnable: LearnableId) -> (r: Result<
        Vec<Record>,
        MemorizerError,
    >)
        ensures
            r matches Ok(v) ==> v@ == self.history(learnable),
            self.reliable() ==> r is Ok,
    ;
}

} // verus!
