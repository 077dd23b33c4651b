use std::collections::HashMap;

use vstd::prelude::*;

use crate::training::{
    all_questions, all_valid, collect_questions, find_representation_in, find_transform_in,
    lemma_corpus_resolves, lookup_representation, lookup_transform,
};
use crate::traits::{
    Learnable, LearnableId, MemorizerError, PERFECT_SCORE, Question, Representation,
    RepresentationId, RepresentationType, Score, Transform, TransformId,
};

verus! {

broadcast use vstd::std_specs::hash::group_hash_axioms;

/// Simplest implementation for a text representation.
#[derive(Debug)]
pub struct TextRepresentation {
    text: String,
    id: RepresentationId,
}

impl Clone for TextRepresentation {
    fn clone(&self) -> (r: Self)
        ensures
            r == *self,
    {
        TextRepresentation { text: self.text.clone(), id: self.id }
    }
}

impl TextRepresentation {
    pub fn new(text: &str, id: RepresentationId) -> (r: Self)
        ensures
            r.content() == text@,
            r.ident() == id,
    {
        TextRepresentation { text: text.to_owned(), id }
    }

    /// A text representation with the text and id of any other representation.
    pub fn from<R: Representation>(other: &R) -> (r: Self)
        ensures
            r.content() == other.content(),
            r.ident() == other.ident(),
    {
        TextRepresentation { text: other.text().to_owned(), id: other.id() }
    }
}

impl Representation for TextRepresentation {
    closed spec fn kind(&self) -> RepresentationType {
        RepresentationType::Text
    }

    closed spec fn content(&self) -> Seq<char> {
        self.text@
    }

    closed spec fn ident(&self) -> RepresentationId {
        self.id
    }

    closed spec fn same_content(&self, other: &Self) -> bool {
        self.text@ == other.text@
    }

    fn get_type(&self) -> (r: RepresentationType) {
        RepresentationType::Text
    }

    fn text(&self) -> (r: &str) {
        self.text.as_str()
    }

    fn id(&self) -> (r: RepresentationId) {
        self.id
    }

    fn is_equal(&self, other: &Self) -> (r: bool)
        ensures
            r == (self.content() == other.content()),
    {
        self.text == other.text
    }

    fn get_similarity(&self, other: &Self) -> (r: Score)
        ensures
            r == if self.content() == other.content() {
                PERFECT_SCORE
            } else {
                0
            },
    {
        if self.is_equal(other) {
            PERFECT_SCORE
        } else {
            0
        }
    }
}

/// Simplest implementation for a text transformation.
#[derive(Debug)]
pub struct TextTransform {
    text: String,
    id: TransformId,
}

impl Clone for TextTransform {
    fn clone(&self) -> (r: Self)
        ensures
            r == *self,
    {
        TextTransform { text: self.text.clone(), id: self.id }
    }
}

impl TextTransform {
    pub fn new(text: &str, id: TransformId) -> (r: Self)
        ensures
            r.described() == text@,
            r.ident() == id,
    {
        TextTransform { text: text.to_owned(), id }
    }

    /// A text transform with the description and id of any other transform.
    pub fn from<T: Transform>(other: &T) -> (r: Self)
        ensures
            r.described() == other.described(),
            r.ident() == other.ident(),
    {
        TextTransform { text: other.description().to_owned(), id: other.id() }
    }
}

impl Transform for TextTransform {
    closed spec fn described(&self) -> Seq<char> {
        self.text@
    }

    closed spec fn ident(&self) -> TransformId {
        self.id
    }

    fn description(&self) -> (r: &str) {
        self.text.as_str()
    }

    fn id(&self) -> (r: TransformId) {
        self.id
    }
}

/// One edge of a learnable: from a representation, through a transform, to a representation.
pub type TextEdge = (TextRepresentation, TextTransform, TextRepresentation);

/// The question that an edge of learnable `id` poses.
pub open spec fn edge_question(e: TextEdge, id: LearnableId) -> Question {
    Question { learnable: id, from: e.0.ident(), transform: e.1.ident(), to: e.2.ident() }
}

/// The questions that the edges of learnable `id` pose, in order.
pub open spec fn edge_questions(edges: Seq<TextEdge>, id: LearnableId) -> Seq<Question> {
    edges.map_values(|e: TextEdge| edge_question(e, id))
}

/// The representations that a run of edges holds, by id; a later one replaces an earlier one.
pub open spec fn representations_of(edges: Seq<TextEdge>) -> Map<u64, TextRepresentation>
    decreases edges.len(),
{
    if edges.len() == 0 {
        Map::empty()
    } else {
        let e = edges.last();
        representations_of(edges.drop_last()).insert(e.0.ident().0, e.0).insert(e.2.ident().0, e.2)
    }
}

/// The transforms that a run of edges holds, by id; a later one replaces an earlier one.
pub open spec fn transforms_of(edges: Seq<TextEdge>) -> Map<u64, TextTransform>
    decreases edges.len(),
{
    if edges.len() == 0 {
        Map::empty()
    } else {
        let e = edges.last();
        transforms_of(edges.drop_last()).insert(e.1.ident().0, e.1)
    }
}

/// A text learnable: a set of edges, with the representations and transforms they reference.
#[derive(Debug)]
pub struct TextLearnable {
    representations: HashMap<u64, TextRepresentation>,
    transforms: HashMap<u64, TextTransform>,
    edges: Vec<Question>,
    id: LearnableId,
}

impl TextLearnable {
    /// The representations held, by id.
    pub closed spec fn representation_map(&self) -> Map<u64, TextRepresentation> {
        self.representations@
    }

    /// The transforms held, by id.
    pub closed spec fn transform_map(&self) -> Map<u64, TextTransform> {
        self.transforms@
    }

    /// The closure invariant: every question belongs to this learnable and every id in it
    /// resolves here, to a value that carries that id.
    pub closed spec fn wf(&self) -> bool {
        &&& forall|i: int|
            0 <= i < self.edges@.len() ==> {
                let q = #[trigger] self.edges@[i];
                &&& q.learnable == self.id
                &&& self.representations@.contains_key(q.from.0)
                &&& self.representations@.contains_key(q.to.0)
                &&& self.transforms@.contains_key(q.transform.0)
            }
        &&& forall|k: u64|
            #[trigger] self.representations@.contains_key(k) ==> self.representations@[k].ident().0
                == k
        &&& forall|k: u64|
            #[trigger] self.transforms@.contains_key(k) ==> self.transforms@[k].ident().0 == k
    }

    /// Every question belongs to this learnable, and its ids resolve through its own lookup to
    /// values that carry them.
    pub open spec fn resolves_questions(&self) -> bool {
        forall|k: int|
            0 <= k < self.questions().len() ==> {
                let q = #[trigger] self.questions()[k];
                &&& q.learnable == self.ident()
                &&& self.representation_map().contains_key(q.from.0)
                &&& self.representation_map()[q.from.0].ident() == q.from
                &&& self.representation_map().contains_key(q.to.0)
                &&& self.representation_map()[q.to.0].ident() == q.to
                &&& self.transform_map().contains_key(q.transform.0)
                &&& self.transform_map()[q.transform.0].ident() == q.transform
            }
    }

    pub fn new(edges: &[TextEdge], id: LearnableId) -> (r: Self)
        ensures
            r.wf(),
            r.resolves_questions(),
            r.ident() == id,
            r.questions() == edge_questions(edges@, id),
            r.representation_map() == representations_of(edges@),
            r.transform_map() == transforms_of(edges@),
    {
        let mut res = TextLearnable {
            representations: HashMap::new(),
            transforms: HashMap::new(),
            edges: Vec::new(),
            id,
        };
        let mut i: usize = 0;
        while i < edges.len()
            invariant
                i <= edges@.len(),
                res.wf(),
                res.id == id,
                res.edges@ == edge_questions(edges@.take(i as int), id),
                res.representations@ == representations_of(edges@.take(i as int)),
                res.transforms@ == transforms_of(edges@.take(i as int)),
            decreases edges@.len() - i,
        {
            let (r1, transform, r2) = &edges[i];
            res.representations.insert(r1.id().0, r1.clone());
            res.representations.insert(r2.id().0, r2.clone());
            res.transforms.insert(transform.id().0, transform.clone());
            res.edges.push(Question { learnable: id, from: r1.id(), transform: transform.id(), to: r2.id() });
            proof {
                let next = edges@.take(i + 1);
                assert(next.drop_last() == edges@.take(i as int));
                assert(next.last() == edges@[i as int]);
                assert(res.edges@ =~= edge_questions(next, id));
            }
            i = i + 1;
        }
        assert(edges@.take(edges@.len() as int) == edges@);
        proof {
            lemma_valid_resolves(&res);
        }
        res
    }

    /// Whether a representation with the given id is known to this learnable.
    pub fn has_representation(&self, id: RepresentationId) -> (r: bool)
        ensures
            r == self.representation_map().contains_key(id.0),
    {
        self.representations.contains_key(&id.0)
    }

    /// Whether a transform with the given id is known to this learnable.
    pub fn has_transform(&self, id: TransformId) -> (r: bool)
        ensures
            r == self.transform_map().contains_key(id.0),
    {
        self.transforms.contains_key(&id.0)
    }

    /// The representation with the given id, which must be known to this learnable.
    pub fn representation(&self, id: RepresentationId) -> (r: &TextRepresentation)
        requires
            self.representation_map().contains_key(id.0),
        ensures
            *r == self.representation_map()[id.0],
    {
        self.representations.get(&id.0).unwrap()
    }

    /// The transform with the given id, which must be known to this learnable.
    pub fn transform(&self, id: TransformId) -> (r: &TextTransform)
        requires
            self.transform_map().contains_key(id.0),
        ensures
            *r == self.transform_map()[id.0],
    {
        self.transforms.get(&id.0).unwrap()
    }
}

impl Learnable for TextLearnable {
    closed spec fn questions(&self) -> Seq<Question> {
        self.edges@
    }

    closed spec fn ident(&self) -> LearnableId {
        self.id
    }

    fn edges(&self) -> (r: Vec<Question>) {
        self.edges.clone()
    }

    fn id(&self) -> (r: LearnableId) {
        self.id
    }
}

/// One edge of a stored learnable, by ids: from, transform, to.
pub type StoredEdge = (RepresentationId, TransformId, RepresentationId);

/// The last representation of a list with the given id.
pub open spec fn find_representation(
    reps: Seq<TextRepresentation>,
    id: RepresentationId,
) -> Option<TextRepresentation>
    decreases reps.len(),
{
    if reps.len() == 0 {
        None
    } else if reps.last().ident() == id {
        Some(reps.last())
    } else {
        find_representation(reps.drop_last(), id)
    }
}

/// The last transform of a list with the given id.
pub open spec fn find_transform(trs: Seq<TextTransform>, id: TransformId) -> Option<TextTransform>
    decreases trs.len(),
{
    if trs.len() == 0 {
        None
    } else if trs.last().ident() == id {
        Some(trs.last())
    } else {
        find_transform(trs.drop_last(), id)
    }
}

/// A question as a stored edge.
pub open spec fn stored_edge(q: Question) -> StoredEdge {
    (q.from, q.transform, q.to)
}

/// Whether a list of ids is strictly increasing.
pub open spec fn strictly_increasing(s: Seq<u64>) -> bool {
    forall|i: int, j: int| 0 <= i < j < s.len() ==> s[i] < s[j]
}

/// Whether some question of a corpus starts or ends at the representation with id `k`.
pub open spec fn references_representation(learnables: Seq<TextLearnable>, k: u64) -> bool {
    let qs = all_questions(learnables);
    exists|i: int| 0 <= i < qs.len() && (#[trigger] qs[i].from.0 == k || qs[i].to.0 == k)
}

/// Whether some question of a corpus goes through the transform with id `k`.
pub open spec fn references_transform(learnables: Seq<TextLearnable>, k: u64) -> bool {
    let qs = all_questions(learnables);
    exists|i: int| 0 <= i < qs.len() && #[trigger] qs[i].transform.0 == k
}

/// The ids of a list of representations.
pub open spec fn representation_ids(reps: Seq<TextRepresentation>) -> Seq<u64> {
    reps.map_values(|r: TextRepresentation| r.ident().0)
}

/// The ids of a list of transforms.
pub open spec fn transform_ids(trs: Seq<TextTransform>) -> Seq<u64> {
    trs.map_values(|t: TextTransform| t.ident().0)
}

/// Adds `x` to a strictly increasing list of ids, where it is not in it yet.
fn insert_unique(v: &mut Vec<u64>, x: u64)
    requires
        strictly_increasing(old(v)@),
    ensures
        strictly_increasing(final(v)@),
        forall|y: u64| #[trigger] final(v)@.contains(y) <==> (old(v)@.contains(y) || y == x),
{
    let mut p: usize = 0;
    while p < v.len() && v[p] < x
        invariant
            p <= v@.len(),
            v@ == old(v)@,
            forall|i: int| 0 <= i < p ==> v@[i] < x,
        decreases v@.len() - p,
    {
        p = p + 1;
    }
    if p < v.len() && v[p] == x {
        assert(v@.contains(x));
        return;
    }
    let ghost before = v@;
    assert(forall|i: int| p <= i < before.len() ==> before[i] > x) by {
        assert forall|i: int| p <= i < before.len() implies before[i] > x by {
            if i > p {
                assert(before[p as int] < before[i]);
            }
        }
    }
    v.insert(p, x);
    assert forall|y: u64| #[trigger] v@.contains(y) <==> (before.contains(y) || y == x) by {
        if v@.contains(y) {
            let j = choose|j: int| 0 <= j < v@.len() && v@[j] == y;
            if j > p {
                assert(before[j - 1] == y);
            } else if j < p {
                assert(before[j] == y);
            }
        }
        if before.contains(y) {
            let j = choose|j: int| 0 <= j < before.len() && before[j] == y;
            if j < p {
                assert(v@[j] == y);
            } else {
                assert(v@[j + 1] == y);
            }
        }
        if y == x {
            assert(v@[p as int] == y);
        }
    }
}

/// Stored form of a corpus: representations and transforms listed once, learnables by ids.
#[derive(Debug)]
pub struct TextLearnableStorage {
    pub name: String,
    pub transformations: Vec<TextTransform>,
    pub representations: Vec<TextRepresentation>,
    pub learnables: Vec<Vec<StoredEdge>>,
}

impl TextLearnableStorage {
    /// Whether the ids of a stored edge all resolve in the lists.
    pub open spec fn edge_resolves(&self, e: StoredEdge) -> bool {
        &&& find_representation(self.representations@, e.0) is Some
        &&& find_transform(self.transformations@, e.1) is Some
        &&& find_representation(self.representations@, e.2) is Some
    }

    /// Whether every id that a stored learnable references resolves in the lists.
    pub open spec fn all_resolve(&self) -> bool {
        forall|i: int, j: int|
            0 <= i < self.learnables@.len() && 0 <= j < self.learnables@[i]@.len()
                ==> self.edge_resolves(#[trigger] self.learnables@[i]@[j])
    }

    /// A stored edge with its ids replaced by the values they resolve to.
    pub open spec fn resolve_edge(&self, e: StoredEdge) -> TextEdge {
        (
            find_representation(self.representations@, e.0)->Some_0,
            find_transform(self.transformations@, e.1)->Some_0,
            find_representation(self.representations@, e.2)->Some_0,
        )
    }

    /// The edges of the stored learnable at `i`, resolved.
    pub open spec fn resolved_edges(&self, i: int) -> Seq<TextEdge> {
        self.learnables@[i]@.map_values(|e: StoredEdge| self.resolve_edge(e))
    }

    /// The stored form of a corpus: each learnable as its edges by ids, and each representation
    /// and transform that an edge references listed once, by increasing id.
    pub fn from_learnables(name: &str, learnables: &[TextLearnable]) -> (r: Self)
        requires
            all_valid(learnables@),
        ensures
            r.name@ == name@,
            r.learnables@.len() == learnables@.len(),
            forall|i: int|
                0 <= i < learnables@.len() ==> (#[trigger] r.learnables@[i])@
                    == learnables@[i].questions().map_values(|q: Question| stored_edge(q)),
            strictly_increasing(representation_ids(r.representations@)),
            forall|k: u64|
                representation_ids(r.representations@).contains(k)
                    <==> references_representation(learnables@, k),
            forall|j: int|
                0 <= j < r.representations@.len() ==> Some(#[trigger] r.representations@[j])
                    == lookup_representation(learnables@, r.representations@[j].ident().0),
            strictly_increasing(transform_ids(r.transformations@)),
            forall|k: u64|
                transform_ids(r.transformations@).contains(k) <==> references_transform(
                    learnables@,
                    k,
                ),
            forall|j: int|
                0 <= j < r.transformations@.len() ==> Some(#[trigger] r.transformations@[j])
                    == lookup_transform(learnables@, r.transformations@[j].ident().0),
    {
        let all = collect_questions(learnables);
        let mut rep_ids: Vec<u64> = Vec::new();
        let mut tr_ids: Vec<u64> = Vec::new();
        let mut j: usize = 0;
        while j < all.len()
            invariant
                j <= all@.len(),
                all@ == all_questions(learnables@),
                strictly_increasing(rep_ids@),
                strictly_increasing(tr_ids@),
                forall|k: u64|
                    rep_ids@.contains(k) <==> exists|i: int|
                        0 <= i < j && (#[trigger] all@[i].from.0 == k || all@[i].to.0 == k),
                forall|k: u64|
                    tr_ids@.contains(k) <==> exists|i: int|
                        0 <= i < j && #[trigger] all@[i].transform.0 == k,
            decreases all@.len() - j,
        {
            let q = all[j];
            insert_unique(&mut rep_ids, q.from.0);
            insert_unique(&mut rep_ids, q.to.0);
            insert_unique(&mut tr_ids, q.transform.0);
            proof {
                assert forall|k: u64|
                    rep_ids@.contains(k) <==> exists|i: int|
                        0 <= i < j + 1 && (#[trigger] all@[i].from.0 == k || all@[i].to.0 == k) by {
                    if k == q.from.0 || k == q.to.0 {
                        assert(all@[j as int].from.0 == k || all@[j as int].to.0 == k);
                    }
                }
                assert forall|k: u64|
                    tr_ids@.contains(k) <==> exists|i: int|
                        0 <= i < j + 1 && #[trigger] all@[i].transform.0 == k by {
                    if k == q.transform.0 {
                        assert(all@[j as int].transform.0 == k);
                    }
                }
            }
            j = j + 1;
        }
        let mut representations: Vec<TextRepresentation> = Vec::new();
        let mut i: usize = 0;
        while i < rep_ids.len()
            invariant
                i <= rep_ids@.len(),
                all_valid(learnables@),
                all@ == all_questions(learnables@),
                forall|k: u64|
                    rep_ids@.contains(k) <==> exists|i: int|
                        0 <= i < all@.len() && (#[trigger] all@[i].from.0 == k || all@[i].to.0
                            == k),
                representations@.len() == i,
                forall|m: int|
                    0 <= m < i ==> Some(#[trigger] representations@[m]) == lookup_representation(
                        learnables@,
                        rep_ids@[m],
                    ) && representations@[m].ident().0 == rep_ids@[m],
            decreases rep_ids@.len() - i,
        {
            let id = rep_ids[i];
            proof {
                assert(rep_ids@.contains(id));
                let w = choose|w: int| 0 <= w < all@.len() && (all@[w].from.0 == id || all@[w].to.0 == id);
                assert(all_questions(learnables@).contains(all@[w]));
                lemma_corpus_resolves(learnables@, all@[w]);
            }
            let rep = find_representation_in(learnables, RepresentationId(id)).unwrap();
            representations.push(rep.clone());
            i = i + 1;
        }
        let mut transformations: Vec<TextTransform> = Vec::new();
        let mut i: usize = 0;
        while i < tr_ids.len()
            invariant
                i <= tr_ids@.len(),
                all_valid(learnables@),
                all@ == all_questions(learnables@),
                forall|k: u64|
                    tr_ids@.contains(k) <==> exists|i: int|
                        0 <= i < all@.len() && #[trigger] all@[i].transform.0 == k,
                transformations@.len() == i,
                forall|m: int|
                    0 <= m < i ==> Some(#[trigger] transformations@[m]) == lookup_transform(
                        learnables@,
                        tr_ids@[m],
                    ) && transformations@[m].ident().0 == tr_ids@[m],
            decreases tr_ids@.len() - i,
        {
            let id = tr_ids[i];
            proof {
                assert(tr_ids@.contains(id));
                let w = choose|w: int| 0 <= w < all@.len() && all@[w].transform.0 == id;
                assert(all_questions(learnables@).contains(all@[w]));
                lemma_corpus_resolves(learnables@, all@[w]);
            }
            let tr = find_transform_in(learnables, TransformId(id)).unwrap();
            transformations.push(tr.clone());
            i = i + 1;
        }
        let mut stored: Vec<Vec<StoredEdge>> = Vec::new();
        let mut i: usize = 0;
        while i < learnables.len()
            invariant
                i <= learnables@.len(),
                stored@.len() == i,
                forall|m: int|
                    0 <= m < i ==> (#[trigger] stored@[m])@ == learnables@[m].questions().map_values(
                        |q: Question| stored_edge(q),
                    ),
            decreases learnables@.len() - i,
        {
            let edges = learnables[i].edges();
            let mut row: Vec<StoredEdge> = Vec::new();
            let mut j: usize = 0;
            while j < edges.len()
                invariant
                    j <= edges@.len(),
                    row@ =~= edges@.take(j as int).map_values(|q: Question| stored_edge(q)),
                decreases edges@.len() - j,
            {
                row.push((edges[j].from, edges[j].transform, edges[j].to));
                j = j + 1;
            }
            assert(edges@.take(edges@.len() as int) == edges@);
            stored.push(row);
            i = i + 1;
        }
        assert(representation_ids(representations@) =~= rep_ids@);
        assert(transform_ids(transformations@) =~= tr_ids@);
        TextLearnableStorage {
            name: name.to_owned(),
            transformations,
            representations,
            learnables: stored,
        }
    }

    /// Builds the learnables of a loaded corpus, the one at index `i` with id `i`. Fails on the
    /// first id that does not resolve: the corpus is then malformed.
    pub fn to_learnables(&self) -> (r: Result<Vec<TextLearnable>, MemorizerError>)
        requires
            self.learnables@.len() <= u64::MAX,
        ensures
            r is Ok <==> self.all_resolve(),
            r matches Ok(ls) ==> {
                &&& ls@.len() == self.learnables@.len()
                &&& forall|i: int|
                    0 <= i < ls@.len() ==> {
                        let l = #[trigger] ls@[i];
                        &&& l.wf()
                        &&& l.resolves_questions()
                        &&& l.ident() == LearnableId(i as u64)
                        &&& l.questions() == edge_questions(
                            self.resolved_edges(i),
                            LearnableId(i as u64),
                        )
                        &&& l.representation_map() == representations_of(self.resolved_edges(i))
                        &&& l.transform_map() == transforms_of(self.resolved_edges(i))
                    }
            },
            r matches Err(MemorizerError::UnknownRepresentation(id)) ==> exists|i: int, j: int|
                0 <= i < self.learnables@.len() && 0 <= j < self.learnables@[i]@.len() && {
                    let e = #[trigger] self.learnables@[i]@[j];
                    (e.0 == id || e.2 == id) && find_representation(self.representations@, id)
                        is None
                },
            r matches Err(MemorizerError::UnknownTransform(id)) ==> exists|i: int, j: int|
                0 <= i < self.learnables@.len() && 0 <= j < self.learnables@[i]@.len() && {
                    let e = #[trigger] self.learnables@[i]@[j];
                    e.1 == id && find_transform(self.transformations@, id) is None
                },
            !(r matches Err(MemorizerError::Storage(_))),
    {
        let mut res: Vec<TextLearnable> = Vec::new();
        let mut i: usize = 0;
        while i < self.learnables.len()
            invariant
                i <= self.learnables@.len(),
                self.learnables@.len() <= u64::MAX,
                res@.len() == i,
                forall|a: int, b: int|
                    0 <= a < i && 0 <= b < self.learnables@[a]@.len() ==> self.edge_resolves(
                        #[trigger] self.learnables@[a]@[b],
                    ),
                forall|a: int|
                    0 <= a < i ==> {
                        let l = #[trigger] res@[a];
                        &&& l.wf()
                        &&& l.resolves_questions()
                        &&& l.ident() == LearnableId(a as u64)
                        &&& l.questions() == edge_questions(
                            self.resolved_edges(a),
                            LearnableId(a as u64),
                        )
                        &&& l.representation_map() == representations_of(self.resolved_edges(a))
                        &&& l.transform_map() == transforms_of(self.resolved_edges(a))
                    },
            decreases self.learnables@.len() - i,
        {
            let relations = &self.learnables[i];
            let mut edges: Vec<TextEdge> = Vec::new();
            let mut j: usize = 0;
            while j < relations.len()
                invariant
                    i < self.learnables@.len(),
                    relations == self.learnables@[i as int],
                    j <= relations@.len(),
                    edges@.len() == j,
                    forall|b: int|
                        0 <= b < j ==> self.edge_resolves(#[trigger] relations@[b])
                            && edges@[b] == self.resolve_edge(relations@[b]),
                decreases relations@.len() - j,
            {
                let (r1, t, r2) = relations[j];
                let repr1 = match self.find_representation(r1) {
                    Some(x) => x,
                    None => {
                        assert(!self.edge_resolves(self.learnables@[i as int]@[j as int]));
                        return Err(MemorizerError::UnknownRepresentation(r1));
                    },
                };
                let repr2 = match self.find_representation(r2) {
                    Some(x) => x,
                    None => {
                        assert(!self.edge_resolves(self.learnables@[i as int]@[j as int]));
                        return Err(MemorizerError::UnknownRepresentation(r2));
                    },
                };
                let tr = match self.find_transform(t) {
                    Some(x) => x,
                    None => {
                        assert(!self.edge_resolves(self.learnables@[i as int]@[j as int]));
                        return Err(MemorizerError::UnknownTransform(t));
                    },
                };
                edges.push((repr1.clone(), tr.clone(), repr2.clone()));
                j = j + 1;
            }
            assert(edges@ =~= self.resolved_edges(i as int));
            let learnable = TextLearnable::new(edges.as_slice(), LearnableId(i as u64));
            res.push(learnable);
            i = i + 1;
        }
        Ok(res)
    }

    /// The last stored representation with the given id.
    fn find_representation(&self, id: RepresentationId) -> (r: Option<&TextRepresentation>)
        ensures
            match r {
                Some(x) => find_representation(self.representations@, id) == Some(*x),
                None => find_representation(self.representations@, id) is None,
            },
    {
        let mut k: usize = self.representations.len();
        assert(self.representations@.take(k as int) == self.representations@);
        while k > 0
            invariant
                k <= self.representations@.len(),
                find_representation(self.representations@, id) == find_representation(
                    self.representations@.take(k as int),
                    id,
                ),
            decreases k,
        {
            let ghost prefix = self.representations@.take(k as int);
            assert(prefix.drop_last() == self.representations@.take(k - 1));
            if self.representations[k - 1].id() == id {
                return Some(&self.representations[k - 1]);
            }
            k = k - 1;
        }
        None
    }

    /// The last stored transform with the given id.
    fn find_transform(&self, id: TransformId) -> (r: Option<&TextTransform>)
        ensures
            match r {
                Some(x) => find_transform(self.transformations@, id) == Some(*x),
                None => find_transform(self.transformations@, id) is None,
            },
    {
        let mut k: usize = self.transformations.len();
        assert(self.transformations@.take(k as int) == self.transformations@);
        while k > 0
            invariant
                k <= self.transformations@.len(),
                find_transform(self.transformations@, id) == find_transform(
                    self.transformations@.take(k as int),
                    id,
                ),
            decreases k,
        {
            let ghost prefix = self.transformations@.take(k as int);
            assert(prefix.drop_last() == self.transformations@.take(k - 1));
            if self.transformations[k - 1].id() == id {
                return Some(&self.transformations[k - 1]);
            }
            k = k - 1;
        }
        None
    }
}

/// Every valid learnable resolves all of its questions.
pub proof fn lemma_valid_resolves(l: &TextLearnable)
    requires
        l.wf(),
    ensures
        l.resolves_questions(),
{
    assert forall|k: int| 0 <= k < l.questions().len() implies {
        let q = #[trigger] l.questions()[k];
        &&& q.learnable == l.ident()
        &&& l.representation_map().contains_key(q.from.0)
        &&& l.representation_map()[q.from.0].ident() == q.from
        &&& l.representation_map().contains_key(q.to.0)
        &&& l.representation_map()[q.to.0].ident() == q.to
        &&& l.transform_map().contains_key(q.transform.0)
        &&& l.transform_map()[q.transform.0].ident() == q.transform
    } by {
        lemma_questions_resolve(l, k);
    }
}

/// Every representation and transform that a valid learnable holds carries the id it is held under.
pub proof fn lemma_held_ids(l: &TextLearnable, id: u64)
    requires
        l.wf(),
    ensures
        l.representation_map().contains_key(id) ==> l.representation_map()[id].ident().0 == id,
        l.transform_map().contains_key(id) ==> l.transform_map()[id].ident().0 == id,
{
}

/// For every valid learnable, the ids of each of its questions resolve through its own lookup,
/// and the question belongs to it.
pub proof fn lemma_questions_resolve(l: &TextLearnable, i: int)
    requires
        l.wf(),
        0 <= i < l.questions().len(),
    ensures
        l.questions()[i].learnable == l.ident(),
        l.representation_map().contains_key(l.questions()[i].from.0),
        l.representation_map().contains_key(l.questions()[i].to.0),
        l.transform_map().contains_key(l.questions()[i].transform.0),
        l.representation_map()[l.questions()[i].from.0].ident() == l.questions()[i].from,
        l.representation_map()[l.questions()[i].to.0].ident() == l.questions()[i].to,
        l.transform_map()[l.questions()[i].transform.0].ident() == l.questions()[i].transform,
{
    let q = l.edges@[i];
    assert(l.representations@.contains_key(q.from.0));
    assert(l.representations@.contains_key(q.to.0));
    assert(l.transforms@.contains_key(q.transform.0));
}

} // verus!
