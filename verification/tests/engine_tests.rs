//! End-to-end tests of the engine: construction, evaluation, and the
//! decision scenarios, with similarity scores computed from raw float
//! vectors the way a caller of the library computes them.

use compliance_engine::{
    decision_from_results, ChunkMetadata, ComplianceChunk, ComplianceEngine, Decision, EngineError,
    Similarity,
};

/// Encode a raw cosine score in the order-preserving integer form the
/// library ranks by.
fn encode(x: f32) -> Similarity {
    if x.is_nan() {
        Similarity { nan: true, key: 0 }
    } else {
        let x = if x == 0.0 { 0.0f32 } else { x };
        let bits = x.to_bits();
        let key = if bits & 0x8000_0000 != 0 {
            !bits
        } else {
            bits | 0x8000_0000
        };
        Similarity { nan: false, key }
    }
}

/// Straightforward cosine similarity, with the degenerate cases fixed at
/// zero.
fn cosine(a: &[f32], b: &[f32]) -> f32 {
    let n = a.len();
    if n != b.len() || n == 0 {
        return 0.0;
    }
    let dot: f32 = a.iter().zip(b.iter()).map(|(x, y)| x * y).sum();
    let norm_a: f32 = a.iter().map(|x| x * x).sum::<f32>().sqrt();
    let norm_b: f32 = b.iter().map(|x| x * x).sum::<f32>().sqrt();
    let magnitude = norm_a * norm_b;
    if magnitude <= 0.0 {
        return 0.0;
    }
    (dot / magnitude).clamp(-1.0, 1.0)
}

/// One score per stored embedding, in store order.
fn scores_for(query: &[f32], embeddings: &[Vec<f32>]) -> Vec<Similarity> {
    embeddings.iter().map(|e| encode(cosine(query, e))).collect()
}

fn dummy_chunk(article_ref: &str, embedding: Vec<f32>) -> ComplianceChunk {
    ComplianceChunk {
        id: None,
        content: String::new(),
        metadata: Some(ChunkMetadata {
            article_ref: Some(article_ref.into()),
            section: None,
            title: None,
            simplified_explanation: None,
        }),
        embedding: embedding.iter().map(|x| x.to_bits()).collect(),
    }
}

#[test]
fn decision_article5_deny() {
    let chunks = vec![dummy_chunk("Article 5(1)(f)", vec![0.1; 1536])];
    let engine = ComplianceEngine::new(chunks).unwrap();
    let scores = scores_for(&vec![0.1; 1536], &[vec![0.1; 1536]]);
    let resp = engine.evaluate(&scores);
    assert_eq!(resp.decision, Decision::Deny);
}

#[test]
fn decision_article6_warning() {
    let chunks = vec![dummy_chunk("Article 6 & Annex III(4)", vec![0.1; 1536])];
    let engine = ComplianceEngine::new(chunks).unwrap();
    let scores = scores_for(&vec![0.1; 1536], &[vec![0.1; 1536]]);
    let resp = engine.evaluate(&scores);
    assert_eq!(resp.decision, Decision::Warning);
}

#[test]
fn decision_article50_allow() {
    let chunks = vec![dummy_chunk("Article 50", vec![0.1; 1536])];
    let engine = ComplianceEngine::new(chunks).unwrap();
    let scores = scores_for(&vec![0.1; 1536], &[vec![0.1; 1536]]);
    let resp = engine.evaluate(&scores);
    assert_eq!(resp.decision, Decision::Allow);
}

#[test]
fn allow_cites_top_reference() {
    let chunks = vec![dummy_chunk("Article 50", vec![0.1; 1536])];
    let engine = ComplianceEngine::new(chunks).unwrap();
    let scores = scores_for(&vec![0.1; 1536], &[vec![0.1; 1536]]);
    let resp = engine.evaluate(&scores);
    assert_eq!(resp.decision, Decision::Allow);
    assert_eq!(resp.article_ref, Some("Article 50".to_string()));
    assert_eq!(
        resp.reason,
        "No prohibited or high-risk provisions identified. Reference: Article 50."
    );
}

#[test]
fn empty_results_warning() {
    let (decision, reason, article_ref) = decision_from_results(&vec![]);
    assert_eq!(decision, Decision::Warning);
    assert_eq!(
        reason,
        "Unable to retrieve relevant EU AI Act articles. Manual review recommended."
    );
    assert_eq!(article_ref, None);
}

#[test]
fn evaluate_deterministic_fresh_audit() {
    let chunks = vec![
        dummy_chunk("Article 50", vec![0.3, 0.1, 0.5]),
        dummy_chunk("Article 6", vec![0.2, 0.4, 0.1]),
    ];
    let engine = ComplianceEngine::new(chunks).unwrap();
    let query = vec![0.25, 0.2, 0.3];
    let scores = scores_for(&query, &[vec![0.3, 0.1, 0.5], vec![0.2, 0.4, 0.1]]);
    let a = engine.evaluate(&scores);
    let b = engine.evaluate(&scores);
    assert_eq!(a.decision, b.decision);
    assert_eq!(a.reason, b.reason);
    assert_eq!(a.article_ref, b.article_ref);
    assert_ne!(a.audit_id, b.audit_id);
    assert_eq!(a.audit_id.len(), 36);
    assert_eq!(b.audit_id.len(), 36);
}

#[test]
fn all_empty_embeddings_rejected() {
    let chunks = vec![dummy_chunk("Article 50", vec![]), dummy_chunk("Article 6", vec![])];
    let r = ComplianceEngine::new(chunks);
    assert_eq!(r.err(), Some(EngineError::ConfigurationError));
}

#[test]
fn no_chunks_rejected() {
    let r = ComplianceEngine::new(vec![]);
    assert_eq!(r.err(), Some(EngineError::ConfigurationError));
}

#[test]
fn empty_embeddings_filtered_in_order() {
    let chunks = vec![
        dummy_chunk("Article 50", vec![]),
        dummy_chunk("Article 49", vec![1.0, 0.0]),
        dummy_chunk("Article 48", vec![]),
        dummy_chunk("Article 47", vec![0.0, 1.0]),
    ];
    let engine = ComplianceEngine::new(chunks).unwrap();
    assert_eq!(engine.num_chunks(), 2);
    // The surviving chunks keep their original order: a query aligned
    // with the first survivor ranks it first.
    let scores = scores_for(&[1.0, 0.0], &[vec![1.0, 0.0], vec![0.0, 1.0]]);
    let results = engine.search(&scores, 3);
    assert_eq!(results.len(), 1);
    let meta = results[0].chunk.metadata.as_ref().unwrap();
    assert_eq!(meta.article_ref.as_deref(), Some("Article 49"));
}

#[test]
fn deny_found_anywhere_in_top_k() {
    // The prohibited-practice scan covers every ranked result, not only
    // the best one: the Article 5(1) chunk ranks second yet still denies.
    let e0 = vec![1.0, 0.0, 0.0];
    let e1 = vec![0.8, 0.6, 0.0];
    let chunks = vec![
        dummy_chunk("Article 50", e0.clone()),
        dummy_chunk("Article 5(1)(c)", e1.clone()),
    ];
    let engine = ComplianceEngine::new(chunks).unwrap();
    let query = vec![1.0, 0.0, 0.0];
    let scores = scores_for(&query, &[e0, e1]);
    let resp = engine.evaluate(&scores);
    assert_eq!(resp.decision, Decision::Deny);
    assert_eq!(resp.article_ref, Some("Article 5(1)(c)".to_string()));
    assert_eq!(
        resp.reason,
        "Prohibited practice under Article 5(1)(c) of the EU AI Act. Request denied."
    );
}

#[test]
fn warning_found_anywhere_in_top_k() {
    let e0 = vec![1.0, 0.0, 0.0];
    let e1 = vec![0.8, 0.6, 0.0];
    let chunks = vec![
        dummy_chunk("Article 50", e0.clone()),
        dummy_chunk("Annex III(2)", e1.clone()),
    ];
    let engine = ComplianceEngine::new(chunks).unwrap();
    let query = vec![1.0, 0.0, 0.0];
    let scores = scores_for(&query, &[e0, e1]);
    let resp = engine.evaluate(&scores);
    assert_eq!(resp.decision, Decision::Warning);
    assert_eq!(resp.article_ref, Some("Annex III(2)".to_string()));
    assert_eq!(
        resp.reason,
        "High-risk AI system under Annex III(2). Compliance measures required."
    );
}

#[test]
fn allow_ignores_lower_ranked_references() {
    // The allow path cites the top-ranked reference only, even when a
    // different harmless chunk also matched.
    let e0 = vec![1.0, 0.0, 0.0];
    let e1 = vec![0.8, 0.6, 0.0];
    let chunks = vec![
        dummy_chunk("Article 50", e0.clone()),
        dummy_chunk("Article 49", e1.clone()),
    ];
    let engine = ComplianceEngine::new(chunks).unwrap();
    let query = vec![0.8, 0.6, 0.0];
    let scores = scores_for(&query, &[e0, e1]);
    let resp = engine.evaluate(&scores);
    assert_eq!(resp.decision, Decision::Allow);
    assert_eq!(resp.article_ref, Some("Article 49".to_string()));
}

#[test]
fn chunk_data_survives_storage() {
    // The store keeps deep copies: everything a chunk carried comes back
    // unchanged in the search results.
    let chunk = ComplianceChunk {
        id: Some("chunk-1".to_string()),
        content: "Transparency obligations.".to_string(),
        metadata: Some(ChunkMetadata {
            article_ref: Some("Article 50".to_string()),
            section: Some("IV".to_string()),
            title: Some("Transparency".to_string()),
            simplified_explanation: Some("Disclose AI use.".to_string()),
        }),
        embedding: vec![0x3DCC_CCCD; 4],
    };
    let engine = ComplianceEngine::new(vec![chunk]).unwrap();
    let results = engine.search(&vec![encode(0.9)], 3);
    assert_eq!(results.len(), 1);
    let c = &results[0].chunk;
    assert_eq!(c.id.as_deref(), Some("chunk-1"));
    assert_eq!(c.content, "Transparency obligations.");
    assert_eq!(c.embedding, vec![0x3DCC_CCCD; 4]);
    let m = c.metadata.as_ref().unwrap();
    assert_eq!(m.article_ref.as_deref(), Some("Article 50"));
    assert_eq!(m.section.as_deref(), Some("IV"));
    assert_eq!(m.title.as_deref(), Some("Transparency"));
    assert_eq!(m.simplified_explanation.as_deref(), Some("Disclose AI use."));
}

#[test]
fn error_messages() {
    assert_eq!(
        EngineError::ConfigurationError.message(),
        "No chunks with embeddings"
    );
    assert_eq!(EngineError::LoadError.message(), "Failed to load knowledge");
}

#[test]
fn missing_metadata_reads_unknown() {
    // A chunk without an article reference is judged as the literal
    // `Unknown`, which matches no rule and is cited verbatim.
    let chunk = ComplianceChunk {
        id: None,
        content: String::new(),
        metadata: None,
        embedding: vec![0x3DCC_CCCD; 4],
    };
    let results = vec![compliance_engine::SearchResult {
        chunk,
        similarity: encode(0.9),
    }];
    let (decision, reason, article_ref) = decision_from_results(&results);
    assert_eq!(decision, Decision::Allow);
    assert_eq!(article_ref, Some("Unknown".to_string()));
    assert_eq!(
        reason,
        "No prohibited or high-risk provisions identified. Reference: Unknown."
    );
}

#[test]
fn evaluate_zero_query_still_decides() {
    // An all-zero query scores zero against everything; the fall-back
    // still surfaces one chunk and the no-signal default never fires.
    let chunks = vec![dummy_chunk("Article 50", vec![0.1; 1536])];
    let engine = ComplianceEngine::new(chunks).unwrap();
    let scores = scores_for(&vec![0.0; 1536], &[vec![0.1; 1536]]);
    let resp = engine.evaluate(&scores);
    assert_eq!(resp.decision, Decision::Allow);
    assert_eq!(resp.article_ref, Some("Article 50".to_string()));
}
