use vector_chat::config::{
    config_from_env, embedding_dimension_for, is_text_file_extension, resolve_client_settings,
    validate_environment, DEFAULT_MAX_SENTENCES_PER_CHUNK, DEFAULT_SCORE_THRESHOLD_CENTI,
    DEFAULT_TOP_K,
};
use vector_chat::errors::RagError;

#[test]
fn defaults_fill_absent_settings() {
    let cfg = config_from_env(None, None, None, None, None, None);
    assert!(cfg.openai_api_key.is_none());
    assert_eq!(cfg.qdrant_url, "http://localhost:6333");
    assert!(cfg.qdrant_api_key.is_none());
    assert_eq!(cfg.qdrant_collection, "openai_embeddings");
    assert_eq!(cfg.chat_model, "gpt-4o");
    assert_eq!(cfg.embedding_model, "text-embedding-3-small");
    assert_eq!(cfg.max_sentences_per_chunk, DEFAULT_MAX_SENTENCES_PER_CHUNK);
    assert_eq!(cfg.top_k, DEFAULT_TOP_K);
    assert_eq!(cfg.score_threshold_centi, DEFAULT_SCORE_THRESHOLD_CENTI);
    assert_eq!(DEFAULT_MAX_SENTENCES_PER_CHUNK, 3);
    assert_eq!(DEFAULT_TOP_K, 3);
    assert_eq!(DEFAULT_SCORE_THRESHOLD_CENTI, 30);
}

#[test]
fn given_settings_win_over_defaults() {
    let cfg = config_from_env(
        Some("SECRET-REDACTED".to_string()),
        Some("http://qdrant:6333".to_string()),
        Some("SECRET-REDACTED".to_string()),
        Some("my_collection".to_string()),
        Some("gpt-4o-mini".to_string()),
        Some("text-embedding-3-large".to_string()),
    );
    assert_eq!(cfg.qdrant_url, "http://qdrant:6333");
    assert_eq!(cfg.qdrant_collection, "my_collection");
    assert_eq!(cfg.chat_model, "gpt-4o-mini");
    assert_eq!(cfg.embedding_model, "text-embedding-3-large");
}

#[test]
fn the_environment_is_valid_only_with_a_key() {
    assert!(validate_environment(&Some("SECRET-REDACTED".to_string())));
    assert!(!validate_environment(&None));
}

#[test]
fn dimensions_follow_the_model() {
    assert_eq!(embedding_dimension_for("text-embedding-3-small"), 1536);
    assert_eq!(embedding_dimension_for("text-embedding-3-large"), 3072);
    assert_eq!(embedding_dimension_for("text-embedding-ada-002"), 1536);
    assert_eq!(embedding_dimension_for("some-future-model"), 1536);
}

#[test]
fn client_settings_prefer_the_explicit_key() {
    let settings = resolve_client_settings(
        Some("SECRET-REDACTED-A".to_string()),
        Some("SECRET-REDACTED-B".to_string()),
        None,
        "gpt-4o",
        Some("text-embedding-3-large".to_string()),
        "text-embedding-3-small",
    )
    .unwrap();
    assert_eq!(settings.api_key, "SECRET-REDACTED-A");
    assert_eq!(settings.chat_model, "gpt-4o");
    assert_eq!(settings.embedding_model, "text-embedding-3-large");
    assert_eq!(settings.embedding_dimension, 3072);
}

#[test]
fn client_settings_fall_back_to_the_environment_key() {
    let settings = resolve_client_settings(
        None,
        Some("SECRET-REDACTED-B".to_string()),
        Some("gpt-4o-mini".to_string()),
        "gpt-4o",
        None,
        "text-embedding-3-small",
    )
    .unwrap();
    assert_eq!(settings.api_key, "SECRET-REDACTED-B");
    assert_eq!(settings.chat_model, "gpt-4o-mini");
    assert_eq!(settings.embedding_model, "text-embedding-3-small");
    assert_eq!(settings.embedding_dimension, 1536);
}

#[test]
fn client_settings_require_some_key() {
    match resolve_client_settings(None, None, None, "gpt-4o", None, "text-embedding-3-small") {
        Err(RagError::Configuration(detail)) => {
            assert_eq!(
                detail,
                "OpenAI API key is required. Set OPENAI_API_KEY environment variable or pass as parameter."
            );
        }
        _ => panic!("expected a configuration error"),
    }
}

#[test]
fn known_text_extensions_are_accepted() {
    for ext in [".txt", ".md", ".py", ".js", ".html", ".css", ".json", ".csv", ".xml", ".yaml", ".yml"] {
        assert!(is_text_file_extension(ext), "{} should be accepted", ext);
    }
    assert!(!is_text_file_extension(".exe"));
    assert!(!is_text_file_extension("txt"));
    assert!(!is_text_file_extension(""));
}
