use vector_chat::retrieve::{format_score, retrieve_context_from_hits};
use vector_chat::store::SearchHit;

fn hit(
    score_centi: i32,
    chunk_text: Option<&str>,
    source: Option<&str>,
    model_name: Option<&str>,
) -> SearchHit {
    SearchHit {
        id: 0,
        score_centi,
        chunk_text: chunk_text.map(|s| s.to_string()),
        source: source.map(|s| s.to_string()),
        model_name: model_name.map(|s| s.to_string()),
    }
}

#[test]
fn no_hits_no_context() {
    let hits: Vec<SearchHit> = Vec::new();
    let (found, context) = retrieve_context_from_hits(&hits);
    assert!(!found);
    assert!(context.is_none());
}

#[test]
fn two_hits_compose_two_ranked_blocks() {
    let hits = vec![
        hit(90, Some("x"), Some("doc1"), None),
        hit(50, Some("y"), None, None),
    ];
    let (found, context) = retrieve_context_from_hits(&hits);
    assert!(found);
    assert_eq!(
        context.unwrap(),
        "Context 1 (Relevance: 0.90) (from doc1): x\n\nContext 2 (Relevance: 0.50) (from unknown source): y"
    );
}

#[test]
fn hits_without_chunk_text_are_silently_skipped() {
    let hits = vec![
        hit(90, None, Some("doc1"), None),
        hit(50, Some("y"), None, None),
    ];
    let (found, context) = retrieve_context_from_hits(&hits);
    assert!(found);
    // The rank counts the hit's position among all hits, as before.
    assert_eq!(
        context.unwrap(),
        "Context 2 (Relevance: 0.50) (from unknown source): y"
    );
}

#[test]
fn all_hits_without_chunk_text_give_an_empty_block() {
    let hits = vec![hit(90, None, None, None)];
    let (found, context) = retrieve_context_from_hits(&hits);
    assert!(found);
    assert_eq!(context.unwrap(), "");
}

#[test]
fn model_name_appears_in_its_suffix() {
    let hits = vec![hit(75, Some("z"), Some("notes.txt"), Some("text-embedding-3-small"))];
    let (_, context) = retrieve_context_from_hits(&hits);
    assert_eq!(
        context.unwrap(),
        "Context 1 (Relevance: 0.75) (from notes.txt) [model: text-embedding-3-small]: z"
    );
}

#[test]
fn scores_render_to_two_decimals() {
    assert_eq!(format_score(90), "0.90");
    assert_eq!(format_score(50), "0.50");
    assert_eq!(format_score(100), "1.00");
    assert_eq!(format_score(7), "0.07");
    assert_eq!(format_score(0), "0.00");
    assert_eq!(format_score(-50), "-0.50");
    assert_eq!(format_score(234), "2.34");
}
