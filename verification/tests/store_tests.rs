use vector_chat::chunker::chunk_text;
use vector_chat::errors::RagError;
use vector_chat::store::{
    accept_search_results, build_points, collection_exists, make_point_ids, plan_collection_setup,
    CollectionPlan, SearchHit,
};

fn hit(id: u64, score_centi: i32) -> SearchHit {
    SearchHit {
        id,
        score_centi,
        chunk_text: Some(format!("chunk {}", id)),
        source: None,
        model_name: None,
    }
}

#[test]
fn point_ids_start_at_one() {
    assert_eq!(make_point_ids(4), vec![1, 2, 3, 4]);
    assert!(make_point_ids(0).is_empty());
}

#[test]
fn build_points_pairs_one_to_one() {
    let payloads = chunk_text("A. B. C. D.", 2, "doc");
    let ids = make_point_ids(payloads.len());
    let vectors = vec![vec![0.1f32], vec![0.2f32]];
    let points = build_points(ids, vectors, payloads).unwrap();
    assert_eq!(points.len(), 2);
    assert_eq!(points[0].id, 1);
    assert_eq!(points[0].vector, vec![0.1f32]);
    assert_eq!(points[0].payload.text, "A. B.");
    assert_eq!(points[1].id, 2);
    assert_eq!(points[1].payload.text, "C. D.");
}

#[test]
fn build_points_rejects_mismatched_lengths() {
    let payloads = chunk_text("A. B.", 1, "doc");
    let ids = make_point_ids(1);
    let vectors: Vec<Vec<f32>> = vec![vec![0.1], vec![0.2]];
    match build_points(ids, vectors, payloads) {
        Err(RagError::Argument(detail)) => {
            assert_eq!(detail, "Ids, vectors, and payloads must have the same length");
        }
        _ => panic!("expected an argument error"),
    }
}

#[test]
fn collection_lookup_compares_full_names() {
    let names = vec!["alpha".to_string(), "beta".to_string()];
    assert!(collection_exists(&names, "beta"));
    assert!(!collection_exists(&names, "bet"));
    assert!(!collection_exists(&names, "gamma"));
}

#[test]
fn setup_uses_an_existing_collection() {
    match plan_collection_setup("c", true, Some(1536)) {
        Ok(CollectionPlan::UseExisting) => {}
        _ => panic!("expected the existing collection to be used"),
    }
}

#[test]
fn setup_creates_an_absent_collection_when_sized() {
    match plan_collection_setup("c", false, Some(3072)) {
        Ok(CollectionPlan::Create(size)) => assert_eq!(size, 3072),
        _ => panic!("expected a creation plan"),
    }
}

#[test]
fn setup_fails_without_a_size_for_an_absent_collection() {
    match plan_collection_setup("mine", false, None) {
        Err(RagError::Configuration(detail)) => {
            assert_eq!(
                detail,
                "Collection 'mine' does not exist. Provide vector_size to create it."
            );
        }
        _ => panic!("expected a configuration error"),
    }
}

#[test]
fn search_results_below_the_threshold_are_dropped() {
    let hits = vec![hit(1, 90), hit(2, 50), hit(3, 20)];
    let accepted = accept_search_results(hits, 3, 30);
    assert_eq!(accepted.len(), 2);
    assert_eq!(accepted[0].id, 1);
    assert_eq!(accepted[1].id, 2);
}

#[test]
fn search_results_are_cut_off_after_top_k() {
    let hits = vec![hit(1, 90), hit(2, 80), hit(3, 70)];
    let accepted = accept_search_results(hits, 2, 0);
    assert_eq!(accepted.len(), 2);
    assert_eq!(accepted[0].id, 1);
    assert_eq!(accepted[1].id, 2);
}

#[test]
fn no_hit_clears_an_unreachable_threshold() {
    let hits = vec![hit(1, 90), hit(2, 80)];
    assert!(accept_search_results(hits, 3, 95).is_empty());
}
