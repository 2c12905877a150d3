//! Configuration of the pipeline: the explicit settings struct built once at
//! process start from environment values the application hands in, the
//! hard-coded fallback defaults, and the per-model embedding dimensions.

use vstd::prelude::*;

use crate::errors::RagError;
use crate::text::str_eq;

verus! {

/// Default number of sentences per chunk.
pub const DEFAULT_MAX_SENTENCES_PER_CHUNK: usize = 3;

/// Default number of hits requested from a search during interactive
/// retrieval.
pub const DEFAULT_TOP_K: usize = 3;

/// Default similarity threshold for interactive retrieval, in hundredths
/// (a score of `0.30`).
pub const DEFAULT_SCORE_THRESHOLD_CENTI: i32 = 30;

/// The value of an optional setting, or its default.
pub open spec fn or_view(v: Option<String>, d: Seq<char>) -> Seq<char> {
    match v {
        Some(s) => s@,
        None => d,
    }
}

/// All settings of one session, resolved from environment values and
/// defaults, passed to every component; no ambient global state.
pub struct Config {
    pub openai_api_key: Option<String>,
    pub qdrant_url: String,
    pub qdrant_api_key: Option<String>,
    pub qdrant_collection: String,
    pub chat_model: String,
    pub embedding_model: String,
    pub max_sentences_per_chunk: usize,
    pub top_k: usize,
    pub score_threshold_centi: i32,
}

/// Build the session configuration from the environment values the
/// application read, filling in the hard-coded defaults where a value is
/// absent.
pub fn config_from_env(
    openai_api_key: Option<String>,
    qdrant_url: Option<String>,
    qdrant_api_key: Option<String>,
    qdrant_collection: Option<String>,
    chat_model: Option<String>,
    embedding_model: Option<String>,
) -> (r: Config)
    ensures
        r.openai_api_key == openai_api_key,
        r.qdrant_url@ == or_view(qdrant_url, "http://localhost:6333"@),
        r.qdrant_api_key == qdrant_api_key,
        r.qdrant_collection@ == or_view(qdrant_collection, "openai_embeddings"@),
        r.chat_model@ == or_view(chat_model, "gpt-4o"@),
        r.embedding_model@ == or_view(embedding_model, "text-embedding-3-small"@),
        r.max_sentences_per_chunk == DEFAULT_MAX_SENTENCES_PER_CHUNK,
        r.top_k == DEFAULT_TOP_K,
        r.score_threshold_centi == DEFAULT_SCORE_THRESHOLD_CENTI,
{
    Config {
        openai_api_key,
        qdrant_url: match qdrant_url {
            Some(u) => u,
            None => "http://localhost:6333".to_owned(),
        },
        qdrant_api_key,
        qdrant_collection: match qdrant_collection {
            Some(c) => c,
            None => "openai_embeddings".to_owned(),
        },
        chat_model: match chat_model {
            Some(m) => m,
            None => "gpt-4o".to_owned(),
        },
        embedding_model: match embedding_model {
            Some(m) => m,
            None => "text-embedding-3-small".to_owned(),
        },
        max_sentences_per_chunk: DEFAULT_MAX_SENTENCES_PER_CHUNK,
        top_k: DEFAULT_TOP_K,
        score_threshold_centi: DEFAULT_SCORE_THRESHOLD_CENTI,
    }
}

/// Whether the required credential is present: the pipeline cannot start
/// without an API key for the embedding and completion provider.
pub fn validate_environment(openai_api_key: &Option<String>) -> (r: bool)
    ensures
        r == (openai_api_key is Some),
{
    openai_api_key.is_some()
}

/// The vector dimension the embedding model produces.
pub open spec fn spec_embedding_dimension(model: Seq<char>) -> usize {
    if model == "text-embedding-3-small"@ {
        1536
    } else if model == "text-embedding-3-large"@ {
        3072
    } else if model == "text-embedding-ada-002"@ {
        1536
    } else {
        1536
    }
}

/// Look up the embedding dimension for `model`; unknown models fall back to
/// the most common dimension.
pub fn embedding_dimension_for(model: &str) -> (d: usize)
    ensures
        d == spec_embedding_dimension(model@),
{
    if str_eq(model, "text-embedding-3-small") {
        1536
    } else if str_eq(model, "text-embedding-3-large") {
        3072
    } else if str_eq(model, "text-embedding-ada-002") {
        1536
    } else {
        1536
    }
}

/// Whether `ext` (a lower-cased extension with its leading dot) marks a file
/// the embedding command offers for ingestion.
pub fn is_text_file_extension(ext: &str) -> (r: bool)
    ensures
        r == (ext@ == ".txt"@ || ext@ == ".md"@ || ext@ == ".py"@ || ext@ == ".js"@ || ext@
            == ".html"@ || ext@ == ".css"@ || ext@ == ".json"@ || ext@ == ".csv"@ || ext@
            == ".xml"@ || ext@ == ".yaml"@ || ext@ == ".yml"@),
{
    str_eq(ext, ".txt") || str_eq(ext, ".md") || str_eq(ext, ".py") || str_eq(ext, ".js")
        || str_eq(ext, ".html") || str_eq(ext, ".css") || str_eq(ext, ".json") || str_eq(
        ext,
        ".csv",
    ) || str_eq(ext, ".xml") || str_eq(ext, ".yaml") || str_eq(ext, ".yml")
}

/// The settings of one provider client: the credential and models it uses,
/// resolved from explicit arguments, the environment value, and defaults.
pub struct ClientSettings {
    pub api_key: String,
    pub chat_model: String,
    pub embedding_model: String,
    pub embedding_dimension: usize,
}

/// Resolve the provider client's settings. An explicitly passed API key wins
/// over the environment's; without either the client cannot be built and a
/// configuration error is reported. Models fall back to the given defaults,
/// and the embedding dimension follows the resolved embedding model.
pub fn resolve_client_settings(
    api_key: Option<String>,
    env_api_key: Option<String>,
    chat_model: Option<String>,
    default_chat_model: &str,
    embedding_model: Option<String>,
    default_embedding_model: &str,
) -> (r: Result<ClientSettings, RagError>)
    ensures
        match r {
            Ok(s) => {
                &&& api_key is Some || env_api_key is Some
                &&& s.api_key@ == (if api_key is Some {
                    api_key->0@
                } else {
                    env_api_key->0@
                })
                &&& s.chat_model@ == or_view(chat_model, default_chat_model@)
                &&& s.embedding_model@ == or_view(embedding_model, default_embedding_model@)
                &&& s.embedding_dimension == spec_embedding_dimension(s.embedding_model@)
            },
            Err(e) => {
                &&& api_key is None && env_api_key is None
                &&& e is Configuration
                &&& e.detail()
                    == "OpenAI API key is required. Set OPENAI_API_KEY environment variable or pass as parameter."@
            },
        },
{
    let key = match api_key {
        Some(k) => k,
        None => match env_api_key {
            Some(k) => k,
            None => {
                return Err(
                    RagError::Configuration(
                        "OpenAI API key is required. Set OPENAI_API_KEY environment variable or pass as parameter.".to_owned(),
                    ),
                );
            },
        },
    };
    let chat = match chat_model {
        Some(m) => m,
        None => default_chat_model.to_owned(),
    };
    let embedding = match embedding_model {
        Some(m) => m,
        None => default_embedding_model.to_owned(),
    };
    let dimension = embedding_dimension_for(embedding.as_str());
    Ok(
        ClientSettings {
            api_key: key,
            chat_model: chat,
            embedding_model: embedding,
            embedding_dimension: dimension,
        },
    )
}

} // verus!
