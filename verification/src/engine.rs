//! The compliance engine: an immutable knowledge store of regulatory text
//! chunks, ranked similarity search over it, and the severity-ordered
//! decision rules applied to the ranked results.

use crate::policy::{
    allow_reason, build_allow_reason, build_deny_reason, build_high_risk_reason,
    build_no_articles_reason, deny_reason, high_risk_reason, is_article_5, is_high_risk,
    no_articles_reason, spec_is_article_5, spec_is_high_risk, Decision,
};
use crate::search::{entries_valid, select_top, spec_select};
use crate::similarity::{Similarity, TOP_K};
use vstd::prelude::*;
use vstd::string::StringExecFns;

verus! {

/// Optional descriptive metadata carried by a knowledge chunk.
pub struct ChunkMetadata {
    pub article_ref: Option<String>,
    pub section: Option<String>,
    pub title: Option<String>,
    pub simplified_explanation: Option<String>,
}

/// Mathematical model of [`ChunkMetadata`]: every field as a character
/// sequence.
pub struct ChunkMetadataView {
    pub article_ref: Option<Seq<char>>,
    pub section: Option<Seq<char>>,
    pub title: Option<Seq<char>>,
    pub simplified_explanation: Option<Seq<char>>,
}

impl View for ChunkMetadata {
    type V = ChunkMetadataView;

    open spec fn view(&self) -> ChunkMetadataView {
        ChunkMetadataView {
            article_ref: self.article_ref.deep_view(),
            section: self.section.deep_view(),
            title: self.title.deep_view(),
            simplified_explanation: self.simplified_explanation.deep_view(),
        }
    }
}

impl DeepView for ChunkMetadata {
    type V = ChunkMetadataView;

    open spec fn deep_view(&self) -> ChunkMetadataView {
        self.view()
    }
}

impl Clone for ChunkMetadata {
    /// Field-for-field copy: the model is unchanged.
    fn clone(&self) -> (r: Self)
        ensures
            r@ == self@,
    {
        ChunkMetadata {
            article_ref: clone_opt_string(&self.article_ref),
            section: clone_opt_string(&self.section),
            title: clone_opt_string(&self.title),
            simplified_explanation: clone_opt_string(&self.simplified_explanation),
        }
    }
}

/// One compliance knowledge chunk: text, optional metadata, and its
/// embedding, the latter held as opaque per-dimension words whose only
/// property the store uses is whether there are any.
pub struct ComplianceChunk {
    pub id: Option<String>,
    pub content: String,
    pub metadata: Option<ChunkMetadata>,
    pub embedding: Vec<u32>,
}

/// Mathematical model of [`ComplianceChunk`].
pub struct ChunkView {
    pub id: Option<Seq<char>>,
    pub content: Seq<char>,
    pub metadata: Option<ChunkMetadataView>,
    pub embedding: Seq<u32>,
}

impl View for ComplianceChunk {
    type V = ChunkView;

    open spec fn view(&self) -> ChunkView {
        ChunkView {
            id: self.id.deep_view(),
            content: self.content@,
            metadata: self.metadata.deep_view(),
            embedding: self.embedding@,
        }
    }
}

impl DeepView for ComplianceChunk {
    type V = ChunkView;

    open spec fn deep_view(&self) -> ChunkView {
        self.view()
    }
}

impl Clone for ComplianceChunk {
    /// Deep copy: the model is unchanged.
    fn clone(&self) -> (r: Self)
        ensures
            r@ == self@,
    {
        ComplianceChunk {
            id: clone_opt_string(&self.id),
            content: self.content.clone(),
            metadata: match &self.metadata {
                Some(m) => Some(m.clone()),
                None => None,
            },
            embedding: clone_words(&self.embedding),
        }
    }
}

/// Clone an optional string; the model is unchanged.
fn clone_opt_string(s: &Option<String>) -> (r: Option<String>)
    ensures
        r.deep_view() == s.deep_view(),
{
    match s {
        Some(v) => Some(v.clone()),
        None => None,
    }
}

/// Copy a vector of words element by element.
fn clone_words(v: &Vec<u32>) -> (r: Vec<u32>)
    ensures
        r@ == v@,
{
    let mut r: Vec<u32> = Vec::new();
    let mut i: usize = 0;
    while i < v.len()
        invariant
            i <= v@.len(),
            r@ == v@.subrange(0, i as int),
        decreases v@.len() - i,
    {
        r.push(v[i]);
        proof {
            assert(v@.subrange(0, i + 1) =~= v@.subrange(0, i as int).push(v@[i as int]));
        }
        i += 1;
    }
    proof {
        assert(v@.subrange(0, v@.len() as int) =~= v@);
    }
    r
}

/// Result of the similarity search: one chunk with its score.
pub struct SearchResult {
    pub chunk: ComplianceChunk,
    pub similarity: Similarity,
}

/// Mathematical model of [`SearchResult`].
pub struct SearchResultView {
    pub chunk: ChunkView,
    pub similarity: Similarity,
}

impl View for SearchResult {
    type V = SearchResultView;

    open spec fn view(&self) -> SearchResultView {
        SearchResultView { chunk: self.chunk@, similarity: self.similarity }
    }
}

impl DeepView for SearchResult {
    type V = SearchResultView;

    open spec fn deep_view(&self) -> SearchResultView {
        self.view()
    }
}

/// Response of one evaluation call.
pub struct EvaluateResponse {
    pub decision: Decision,
    pub reason: String,
    pub article_ref: Option<String>,
    pub audit_id: String,
}

/// Mathematical model of [`EvaluateResponse`].
pub struct EvaluateResponseView {
    pub decision: Decision,
    pub reason: Seq<char>,
    pub article_ref: Option<Seq<char>>,
    pub audit_id: Seq<char>,
}

impl View for EvaluateResponse {
    type V = EvaluateResponseView;

    open spec fn view(&self) -> EvaluateResponseView {
        EvaluateResponseView {
            decision: self.decision,
            reason: self.reason@,
            article_ref: self.article_ref.deep_view(),
            audit_id: self.audit_id@,
        }
    }
}

/// Construction-time failure: either no supplied chunk was usable, or an
/// external source could not be read or parsed. Once an engine exists,
/// evaluation is total and never fails.
#[derive(Clone, Copy, Debug, PartialEq, Eq, Structural)]
pub enum EngineError {
    ConfigurationError,
    LoadError,
}

impl EngineError {
    /// A short fixed description of the error.
    pub fn message(&self) -> (r: String)
        ensures
            *self == EngineError::ConfigurationError ==> r@ == "No chunks with embeddings"@,
            *self == EngineError::LoadError ==> r@ == "Failed to load knowledge"@,
    {
        match self {
            EngineError::ConfigurationError => String::from_str("No chunks with embeddings"),
            EngineError::LoadError => String::from_str("Failed to load knowledge"),
        }
    }
}

/// The article reference a chunk is judged by: the one in its metadata,
/// or the literal `Unknown` when there is none.
pub open spec fn ref_of(c: ChunkView) -> Seq<char> {
    match c.metadata {
        Some(m) => match m.article_ref {
            Some(r) => r,
            None => "Unknown"@,
        },
        None => "Unknown"@,
    }
}

/// The article reference of a chunk, with `Unknown` standing in for
/// missing metadata.
fn chunk_article_ref(c: &ComplianceChunk) -> (r: String)
    ensures
        r@ == ref_of(c@),
{
    match &c.metadata {
        Some(m) => match &m.article_ref {
            Some(a) => a.clone(),
            None => String::from_str("Unknown"),
        },
        None => String::from_str("Unknown"),
    }
}

/// Position of the first result whose article reference satisfies `p`,
/// in rank order; negative when none does.
pub open spec fn first_match_index(
    results: Seq<SearchResultView>,
    p: spec_fn(Seq<char>) -> bool,
) -> int
    decreases results.len(),
{
    if results.len() == 0 {
        -1
    } else if p(ref_of(results[0].chunk)) {
        0
    } else {
        let rest = first_match_index(results.drop_first(), p);
        if rest < 0 {
            -1
        } else {
            rest + 1
        }
    }
}

/// A match at `i` with none before it is the first match.
proof fn lemma_first_match_found(
    results: Seq<SearchResultView>,
    p: spec_fn(Seq<char>) -> bool,
    i: int,
)
    requires
        0 <= i < results.len(),
        p(ref_of(results[i].chunk)),
        forall|k: int| 0 <= k < i ==> !p(ref_of((#[trigger] results[k]).chunk)),
    ensures
        first_match_index(results, p) == i,
    decreases i,
{
    if i > 0 {
        assert(results.drop_first()[i - 1] == results[i]);
        assert(forall|k: int|
            0 <= k < i - 1 ==> (#[trigger] results.drop_first()[k]) == results[k + 1]);
        lemma_first_match_found(results.drop_first(), p, i - 1);
    }
}

/// With no match anywhere, there is no first match.
proof fn lemma_first_match_none(results: Seq<SearchResultView>, p: spec_fn(Seq<char>) -> bool)
    requires
        forall|k: int| 0 <= k < results.len() ==> !p(ref_of((#[trigger] results[k]).chunk)),
    ensures
        first_match_index(results, p) == -1,
    decreases results.len(),
{
    if results.len() > 0 {
        assert(forall|k: int|
            0 <= k < results.len() - 1 ==> (#[trigger] results.drop_first()[k]) == results[k + 1]);
        lemma_first_match_none(results.drop_first(), p);
    }
}

/// The decision policy over ranked results, in severity order. Any result
/// matching the prohibited-practice rule denies; otherwise any matching
/// the high-risk rule warns; otherwise the call is allowed, citing the
/// top-ranked result's reference; no results at all warn with a fixed
/// reason and no reference.
pub open spec fn spec_decide(results: Seq<SearchResultView>) -> (Decision, Seq<char>, Option<
    Seq<char>,
>) {
    if results.len() == 0 {
        (Decision::Warning, no_articles_reason(), None)
    } else {
        let i5 = first_match_index(results, |r: Seq<char>| spec_is_article_5(r));
        let ihr = first_match_index(results, |r: Seq<char>| spec_is_high_risk(r));
        if i5 >= 0 {
            let a = ref_of(results[i5].chunk);
            (Decision::Deny, deny_reason(a), Some(a))
        } else if ihr >= 0 {
            let a = ref_of(results[ihr].chunk);
            (Decision::Warning, high_risk_reason(a), Some(a))
        } else {
            let a = ref_of(results[0].chunk);
            (Decision::Allow, allow_reason(a), Some(a))
        }
    }
}

/// Rule-based decision from the ranked results: the strictest applicable
/// rule wins, scanning every result for deny, then every result for
/// warning, before allowing.
pub fn decision_from_results(results: &Vec<SearchResult>) -> (r: (Decision, String, Option<String>))
    ensures
        ({
            let outcome = spec_decide(results.deep_view());
            r.0 == outcome.0 && r.1@ == outcome.1 && r.2.deep_view() == outcome.2
        }),
{
    let n = results.len();
    if n == 0 {
        return (Decision::Warning, build_no_articles_reason(), None);
    }
    let mut i: usize = 0;
    while i < n
        invariant
            i <= n,
            n == results.deep_view().len(),
            forall|k: int|
                0 <= k < i ==> !spec_is_article_5(ref_of(
                    (#[trigger] results.deep_view()[k]).chunk,
                )),
        decreases n - i,
    {
        let aref = chunk_article_ref(&results[i].chunk);
        if is_article_5(aref.as_str()) {
            proof {
                lemma_first_match_found(
                    results.deep_view(),
                    |r: Seq<char>| spec_is_article_5(r),
                    i as int,
                );
            }
            let reason = build_deny_reason(aref.as_str());
            return (Decision::Deny, reason, Some(aref));
        }
        i += 1;
    }
    proof {
        lemma_first_match_none(results.deep_view(), |r: Seq<char>| spec_is_article_5(r));
    }
    let mut i: usize = 0;
    while i < n
        invariant
            i <= n,
            n == results.deep_view().len(),
            first_match_index(results.deep_view(), |r: Seq<char>| spec_is_article_5(r)) == -1,
            forall|k: int|
                0 <= k < i ==> !spec_is_high_risk(ref_of(
                    (#[trigger] results.deep_view()[k]).chunk,
                )),
        decreases n - i,
    {
        let aref = chunk_article_ref(&results[i].chunk);
        if is_high_risk(aref.as_str()) {
            proof {
                lemma_first_match_found(
                    results.deep_view(),
                    |r: Seq<char>| spec_is_high_risk(r),
                    i as int,
                );
            }
            let reason = build_high_risk_reason(aref.as_str());
            return (Decision::Warning, reason, Some(aref));
        }
        i += 1;
    }
    proof {
        lemma_first_match_none(results.deep_view(), |r: Seq<char>| spec_is_high_risk(r));
    }
    let aref = chunk_article_ref(&results[0].chunk);
    let reason = build_allow_reason(aref.as_str());
    (Decision::Allow, reason, Some(aref))
}

/// The chunks that survive validation: those with a non-empty embedding,
/// in their original order.
pub open spec fn valid_chunks(chunks: Seq<ChunkView>) -> Seq<ChunkView>
    decreases chunks.len(),
{
    if chunks.len() == 0 {
        Seq::empty()
    } else if chunks.last().embedding.len() > 0 {
        valid_chunks(chunks.drop_last()).push(chunks.last())
    } else {
        valid_chunks(chunks.drop_last())
    }
}

/// Some chunk survives validation exactly when some chunk has a
/// non-empty embedding.
proof fn lemma_valid_chunks_nonempty(chunks: Seq<ChunkView>)
    ensures
        valid_chunks(chunks).len() > 0 <==> exists|i: int|
            0 <= i < chunks.len() && (#[trigger] chunks[i]).embedding.len() > 0,
    decreases chunks.len(),
{
    if chunks.len() > 0 {
        lemma_valid_chunks_nonempty(chunks.drop_last());
        if chunks.last().embedding.len() > 0 {
            assert(chunks[chunks.len() - 1].embedding.len() > 0);
        } else {
            assert forall|i: int|
                0 <= i < chunks.len() && (#[trigger] chunks[i]).embedding.len()
                    > 0 implies exists|j: int|
                0 <= j < chunks.len() - 1 && (#[trigger] chunks.drop_last()[j]).embedding.len()
                    > 0 by {
                assert(chunks.drop_last()[i] == chunks[i]);
            }
        }
    }
}

/// Extending the validated prefix by one chunk matches the validation of
/// the one longer prefix.
proof fn lemma_valid_chunks_step(chunks: Seq<ChunkView>, i: int)
    requires
        0 <= i < chunks.len(),
    ensures
        valid_chunks(chunks.subrange(0, i + 1)) == if chunks[i].embedding.len() > 0 {
            valid_chunks(chunks.subrange(0, i)).push(chunks[i])
        } else {
            valid_chunks(chunks.subrange(0, i))
        },
{
    let t = chunks.subrange(0, i + 1);
    assert(t.drop_last() =~= chunks.subrange(0, i));
    assert(t.last() == chunks[i]);
}

/// The search results over a store: the selected candidates, each
/// carrying its chunk and score.
pub open spec fn spec_search(
    chunks: Seq<ChunkView>,
    scores: Seq<Similarity>,
    limit: int,
) -> Seq<SearchResultView> {
    let sel = spec_select(scores, limit);
    Seq::new(
        sel.len(),
        |i: int| SearchResultView { chunk: chunks[sel[i].idx as int], similarity: sel[i].sim },
    )
}

/// Everything an evaluation response promises apart from its audit
/// identifier: the decision, reason and article reference are the ones
/// the decision policy assigns to the ranked search results.
pub open spec fn evaluate_post(
    chunks: Seq<ChunkView>,
    scores: Seq<Similarity>,
    resp: EvaluateResponseView,
) -> bool {
    let outcome = spec_decide(spec_search(chunks, scores, TOP_K as int));
    resp.decision == outcome.0 && resp.reason == outcome.1 && resp.article_ref == outcome.2
}

/// The decision, reason and article reference of a response are a
/// function of the store and the scores alone: two evaluations of the
/// same scores against the same store agree on all three, whatever their
/// audit identifiers.
pub proof fn lemma_evaluate_deterministic(
    chunks: Seq<ChunkView>,
    scores: Seq<Similarity>,
    r1: EvaluateResponseView,
    r2: EvaluateResponseView,
)
    requires
        evaluate_post(chunks, scores, r1),
        evaluate_post(chunks, scores, r2),
    ensures
        r1.decision == r2.decision,
        r1.reason == r2.reason,
        r1.article_ref == r2.article_ref,
{
}

/// Relies on `uuid::Uuid::new_v4` and its hyphenated display form: a
/// fresh random 128-bit identifier rendered as a 36-character string.
/// Nothing further holds of the value; distinct calls may return
/// anything of that shape.
#[verifier::external_body]
fn fresh_audit_id() -> (r: String)
    ensures
        r@.len() == 36,
{
    uuid::Uuid::new_v4().to_string()
}

/// The compliance engine: an immutable, validated store of chunks.
pub struct ComplianceEngine {
    chunks: Vec<ComplianceChunk>,
}

impl View for ComplianceEngine {
    type V = Seq<ChunkView>;

    closed spec fn view(&self) -> Seq<ChunkView> {
        self.chunks.deep_view()
    }
}

impl ComplianceEngine {
    /// Build an engine from loaded chunks, keeping deep copies of those
    /// with a non-empty embedding in their original order; when none
    /// survives, no engine is produced and construction reports a
    /// configuration error.
    pub fn new(chunks: Vec<ComplianceChunk>) -> (r: Result<ComplianceEngine, EngineError>)
        ensures
            (exists|i: int|
                0 <= i < chunks.deep_view().len() && (#[trigger] chunks.deep_view()[i]).embedding.len()
                    > 0) <==> r is Ok,
            r is Ok ==> (r->Ok_0)@ == valid_chunks(chunks.deep_view()),
            r is Err ==> r->Err_0 == EngineError::ConfigurationError,
    {
        let n = chunks.len();
        let mut valid: Vec<ComplianceChunk> = Vec::new();
        let mut i: usize = 0;
        while i < n
            invariant
                i <= n,
                n == chunks.deep_view().len(),
                valid.deep_view() == valid_chunks(chunks.deep_view().subrange(0, i as int)),
            decreases n - i,
        {
            proof {
                lemma_valid_chunks_step(chunks.deep_view(), i as int);
            }
            if chunks[i].embedding.len() > 0 {
                valid.push(chunks[i].clone());
                proof {
                    assert(valid.deep_view() =~= valid_chunks(
                        chunks.deep_view().subrange(0, i + 1),
                    ));
                }
            }
            i += 1;
        }
        proof {
            assert(chunks.deep_view().subrange(0, n as int) =~= chunks.deep_view());
            lemma_valid_chunks_nonempty(chunks.deep_view());
        }
        if valid.len() == 0 {
            return Err(EngineError::ConfigurationError);
        }
        Ok(ComplianceEngine { chunks: valid })
    }

    /// Rank every stored chunk by its score, keep the top `limit`
    /// candidates strictly above the similarity threshold, and fall back
    /// to the single best candidate when none passes: the result is never
    /// empty while the store is not (and `limit` is positive). `scores`
    /// carries one score per stored chunk, in store order.
    pub fn search(&self, scores: &Vec<Similarity>, limit: usize) -> (results: Vec<SearchResult>)
        requires
            scores@.len() == self@.len(),
        ensures
            results.deep_view() == spec_search(self@, scores@, limit as int),
            results@.len() <= limit,
            self@.len() > 0 && limit > 0 ==> results@.len() > 0,
    {
        let sel = select_top(scores, limit);
        let mut results: Vec<SearchResult> = Vec::new();
        let mut i: usize = 0;
        while i < sel.len()
            invariant
                i <= sel@.len(),
                scores@.len() == self@.len(),
                entries_valid(sel@, scores@),
                results.deep_view().len() == i,
                forall|k: int|
                    0 <= k < i ==> #[trigger] results.deep_view()[k] == (SearchResultView {
                        chunk: self@[sel@[k].idx as int],
                        similarity: sel@[k].sim,
                    }),
            decreases sel@.len() - i,
        {
            let entry = sel[i];
            let c = self.chunks[entry.idx].clone();
            let ghost cv = c@;
            let ghost pre = results@;
            let ghost pre_deep = results.deep_view();
            results.push(SearchResult { chunk: c, similarity: entry.sim });
            proof {
                assert forall|k: int| 0 <= k < i + 1 implies #[trigger] results.deep_view()[k]
                    == (SearchResultView {
                    chunk: self@[sel@[k].idx as int],
                    similarity: sel@[k].sim,
                }) by {
                    assert(results.deep_view()[k] == results@[k].deep_view());
                    if k < i {
                        assert(results@[k] == pre[k]);
                        assert(pre_deep[k] == pre[k].deep_view());
                    } else {
                        assert(results@[k].deep_view() == (SearchResultView {
                            chunk: cv,
                            similarity: entry.sim,
                        }));
                        assert(cv == self@[entry.idx as int]);
                    }
                }
            }
            i += 1;
        }
        proof {
            assert(results.deep_view() =~= spec_search(self@, scores@, limit as int));
        }
        results
    }

    /// Evaluate one query: rank the store against its scores, apply the
    /// decision policy to the top candidates, and stamp the response with
    /// a fresh audit identifier. The store is never changed; the
    /// decision, reason and reference depend on the scores alone.
    pub fn evaluate(&self, scores: &Vec<Similarity>) -> (resp: EvaluateResponse)
        requires
            scores@.len() == self@.len(),
        ensures
            evaluate_post(self@, scores@, resp@),
            resp@.audit_id.len() == 36,
    {
        let audit_id = fresh_audit_id();
        let results = self.search(scores, TOP_K);
        let (decision, reason, article_ref) = decision_from_results(&results);
        EvaluateResponse { decision, reason, article_ref, audit_id }
    }

    /// The stored embedding of chunk `i`, as its opaque per-dimension
    /// words, for the caller that computes similarity scores.
    pub fn chunk_embedding(&self, i: usize) -> (r: &Vec<u32>)
        requires
            i < self@.len(),
        ensures
            r@ == self@[i as int].embedding,
    {
        &self.chunks[i].embedding
    }

    /// How many validated chunks the store holds.
    pub fn num_chunks(&self) -> (n: usize)
        ensures
            n == self@.len(),
    {
        self.chunks.len()
    }
}

} // verus!
