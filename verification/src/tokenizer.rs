//! Token counting: the models the tool knows, the port through which a
//! concrete tokenizer is consumed, and a cache of token counts keyed by
//! content hash and model identifier.
//!
//! Concrete tokenizers (API-backed or library-backed) are outside
//! collaborators; the scanner only consumes the [`Tokenizer`] trait.

use vstd::prelude::*;
use vstd::std_specs::hash::DefaultHasherAdditionalSpecFns;
use vstd::string::StringSliceAdditionalSpecFns;
use crate::utils::str_eq;

verus! {

/// Supported LLM models for tokenization.
#[derive(Debug, Clone, Copy, PartialEq, Eq, Structural)]
pub enum Model {
    Gpt4,
    Gpt4Turbo,
    Gpt4o,
    Llama2_7b,
    Llama3_8b,
    MistralSmall24B,
    MistralLargeInstruct,
    Pixtral12B,
    MistralSmall,
}

/// Model providers.
#[derive(Debug, Clone, Copy, PartialEq, Eq, Structural)]
pub enum ModelProvider {
    /// OpenAI (GPT models)
    OpenAI,
    /// HuggingFace models
    HuggingFace,
}

/// The identifier under which a model's provider knows it.
pub open spec fn spec_model_id(m: Model) -> Seq<char> {
    match m {
        Model::Gpt4 => "gpt-4"@,
        Model::Gpt4Turbo => "gpt-4-0125-preview"@,
        Model::Gpt4o => "gpt-4o"@,
        Model::Llama2_7b => "meta-llama/Llama-2-7b-hf"@,
        Model::Llama3_8b => "meta-llama/Llama-3-8b-hf"@,
        Model::MistralSmall24B => "mistralai/Mistral-Small-3.1-24B-Base-2503"@,
        Model::MistralLargeInstruct => "mistralai/Mistral-Large-Instruct-2411"@,
        Model::Pixtral12B => "mistralai/Pixtral-12B-Base-2409"@,
        Model::MistralSmall => "mistralai/Mistral-Small-Instruct-2409"@,
    }
}

/// A model's context window, in tokens.
pub open spec fn spec_context_window(m: Model) -> int {
    match m {
        Model::Gpt4 => 8192,
        Model::Gpt4Turbo => 128000,
        Model::Gpt4o => 8192,
        Model::Llama2_7b => 4096,
        Model::Llama3_8b => 8192,
        Model::MistralSmall24B => 128000,
        Model::MistralLargeInstruct => 128000,
        Model::Pixtral12B => 128000,
        Model::MistralSmall => 32000,
    }
}

/// A model's provider.
pub open spec fn spec_provider(m: Model) -> ModelProvider {
    match m {
        Model::Gpt4 => ModelProvider::OpenAI,
        Model::Gpt4Turbo => ModelProvider::OpenAI,
        Model::Gpt4o => ModelProvider::OpenAI,
        Model::Llama2_7b => ModelProvider::HuggingFace,
        Model::Llama3_8b => ModelProvider::HuggingFace,
        Model::MistralSmall24B => ModelProvider::HuggingFace,
        Model::MistralLargeInstruct => ModelProvider::HuggingFace,
        Model::Pixtral12B => ModelProvider::HuggingFace,
        Model::MistralSmall => ModelProvider::HuggingFace,
    }
}

impl Model {
    /// Get the context window size for this model.
    pub fn context_window(&self) -> (n: usize)
        ensures
            n as int == spec_context_window(*self),
    {
        match self {
            Model::Gpt4 => 8192,
            Model::Gpt4Turbo => 128000,
            Model::Gpt4o => 8192,
            Model::Llama2_7b => 4096,
            Model::Llama3_8b => 8192,
            Model::MistralSmall24B => 128000,
            Model::MistralLargeInstruct => 128000,
            Model::Pixtral12B => 128000,
            Model::MistralSmall => 32000,
        }
    }

    /// Get the provider of this model.
    pub fn provider(&self) -> (p: ModelProvider)
        ensures
            p == spec_provider(*self),
    {
        match self {
            Model::Gpt4 => ModelProvider::OpenAI,
            Model::Gpt4Turbo => ModelProvider::OpenAI,
            Model::Gpt4o => ModelProvider::OpenAI,
            Model::Llama2_7b => ModelProvider::HuggingFace,
            Model::Llama3_8b => ModelProvider::HuggingFace,
            Model::MistralSmall24B => ModelProvider::HuggingFace,
            Model::MistralLargeInstruct => ModelProvider::HuggingFace,
            Model::Pixtral12B => ModelProvider::HuggingFace,
            Model::MistralSmall => ModelProvider::HuggingFace,
        }
    }

    /// Get the model identifier as used by the provider's API.
    pub fn model_id(&self) -> (r: &'static str)
        ensures
            r@ == spec_model_id(*self),
    {
        match self {
            Model::Gpt4 => "gpt-4",
            Model::Gpt4Turbo => "gpt-4-0125-preview",
            Model::Gpt4o => "gpt-4o",
            Model::Llama2_7b => "meta-llama/Llama-2-7b-hf",
            Model::Llama3_8b => "meta-llama/Llama-3-8b-hf",
            Model::MistralSmall24B => "mistralai/Mistral-Small-3.1-24B-Base-2503",
            Model::MistralLargeInstruct => "mistralai/Mistral-Large-Instruct-2411",
            Model::Pixtral12B => "mistralai/Pixtral-12B-Base-2409",
            Model::MistralSmall => "mistralai/Mistral-Small-Instruct-2409",
        }
    }
}

/// The result of counting tokens in a text.
#[derive(Debug, Clone, Copy)]
pub struct TokenCount {
    /// Number of tokens in the text
    pub tokens: usize,
    /// Whether the count came from a cache (when caching is enabled)
    pub cached: Option<bool>,
}

/// Errors from tokenizer operations.
#[derive(Debug, Clone)]
pub enum TokenizerError {
    /// Error calling an API
    ApiError(String),
    /// Error inside a tokenizer library
    TokenizerError(String),
    /// Model is not supported
    UnsupportedModel(String),
    /// Required environment variable not set
    EnvVarError(String),
}

impl TokenizerError {
    /// A human-readable description of the error.
    pub fn message(&self) -> (r: String)
        ensures
            (self matches TokenizerError::ApiError(m) ==> r@ == "API error: "@ + m@),
            (self matches TokenizerError::TokenizerError(m) ==> r@ == "Tokenizer error: "@ + m@),
            (self matches TokenizerError::UnsupportedModel(m) ==> r@ == "Unsupported model: "@
                + m@),
            (self matches TokenizerError::EnvVarError(m) ==> r@ == "Environment variable error: "@
                + m@),
    {
        match self {
            TokenizerError::ApiError(m) => {
                let mut s = "API error: ".to_owned();
                s.append(m.as_str());
                s
            },
            TokenizerError::TokenizerError(m) => {
                let mut s = "Tokenizer error: ".to_owned();
                s.append(m.as_str());
                s
            },
            TokenizerError::UnsupportedModel(m) => {
                let mut s = "Unsupported model: ".to_owned();
                s.append(m.as_str());
                s
            },
            TokenizerError::EnvVarError(m) => {
                let mut s = "Environment variable error: ".to_owned();
                s.append(m.as_str());
                s
            },
        }
    }
}

/// Seconds in a week: remembered counts older than this are dropped by
/// cache upkeep.
pub const CACHE_MAX_AGE: u64 = 604800;

/// The cache entries younger than a week at time `now`, in order.
pub open spec fn cache_fresh_entries(s: Seq<TokenCacheEntry>, now: u64) -> Seq<TokenCacheEntry>
    decreases s,
{
    if s.len() == 0 {
        Seq::empty()
    } else {
        cache_fresh_entries(s.drop_last(), now) + (if s.last().timestamp + CACHE_MAX_AGE
            > now {
            seq![s.last()]
        } else {
            Seq::<TokenCacheEntry>::empty()
        })
    }
}

/// Cache effectiveness counters, as reported for a whole run.
#[derive(Debug, Clone, Copy, PartialEq, Eq, Structural)]
pub struct CacheStats {
    /// Number of cache hits
    pub hits: u64,
    /// Number of cache misses
    pub misses: u64,
}

/// The port through which the scanner counts tokens.  Implementations call
/// out to a provider or a local library; nothing is assumed of the count
/// they return.
pub trait Tokenizer {
    /// Count tokens in the given text.
    fn count_tokens(&mut self, text: &str) -> Result<TokenCount, TokenizerError>;

    /// Get the context window size of the tokenizer's model.
    fn model_context_window(&self) -> usize;
}

/// One remembered token count.
#[derive(Debug, Clone)]
pub struct TokenCacheEntry {
    /// Hash of the content
    pub hash: u64,
    /// Identifier of the model the count was made with
    pub model: String,
    /// The token count
    pub tokens: usize,
    /// Seconds since the Unix epoch when the entry was created
    pub timestamp: u64,
}

/// First cache entry matching a hash and model identifier.
pub open spec fn cache_lookup(s: Seq<TokenCacheEntry>, hash: u64, model: Seq<char>) -> Option<
    usize,
>
    decreases s,
{
    if s.len() == 0 {
        None
    } else if s[0].hash == hash && s[0].model@ == model {
        Some(s[0].tokens)
    } else {
        cache_lookup(s.drop_first(), hash, model)
    }
}

/// The cache entries that survive inserting a new count for `hash` and
/// `model`: all entries remembered for a different pair, in order.
pub open spec fn cache_without(s: Seq<TokenCacheEntry>, hash: u64, model: Seq<char>) -> Seq<
    TokenCacheEntry,
>
    decreases s,
{
    if s.len() == 0 {
        Seq::empty()
    } else {
        cache_without(s.drop_last(), hash, model) + if s.last().hash == hash && s.last().model@
            == model {
            Seq::empty()
        } else {
            seq![s.last()]
        }
    }
}

/// The hash under which a content string is remembered: the standard
/// hasher's digest of its UTF-8 bytes.
pub open spec fn spec_content_hash(content: Seq<u8>) -> u64 {
    std::collections::hash_map::DefaultHasher::spec_finish(seq![content])
}

/// Cache of token counts, to avoid tokenizing the same content twice.
#[derive(Debug)]
pub struct TokenCache {
    /// Remembered counts
    pub entries: Vec<TokenCacheEntry>,
    /// Number of cache hits
    pub hits: usize,
    /// Number of cache misses
    pub misses: usize,
}

impl TokenCache {
    /// Create a new empty token cache.
    pub fn new() -> (r: Self)
        ensures
            r.entries@.len() == 0,
            r.hits == 0,
            r.misses == 0,
    {
        TokenCache { entries: Vec::new(), hits: 0, misses: 0 }
    }

    /// Calculate the hash under which a content string is remembered.
    pub fn hash_content(&self, content: &str) -> (h: u64)
        ensures
            h == spec_content_hash(content.spec_bytes()),
    {
        let mut hasher = std::collections::hash_map::DefaultHasher::new();
        std::hash::Hasher::write(&mut hasher, content.as_bytes());
        let h = std::hash::Hasher::finish(&hasher);
        proof {
            assert(hasher@ =~= seq![content.spec_bytes()]);
        }
        h
    }

    /// Get a token count from the cache if one is remembered for this
    /// content and model, counting the query as a hit or a miss.
    pub fn get(&mut self, content: &str, model_id: &str) -> (r: Option<usize>)
        requires
            old(self).hits < usize::MAX,
            old(self).misses < usize::MAX,
        ensures
            r == cache_lookup(
                old(self).entries@,
                spec_content_hash(content.spec_bytes()),
                model_id@,
            ),
            final(self).entries == old(self).entries,
            r is Some ==> final(self).hits == old(self).hits + 1 && final(self).misses == old(
                self,
            ).misses,
            r is None ==> final(self).misses == old(self).misses + 1 && final(self).hits == old(
                self,
            ).hits,
    {
        let hash = self.hash_content(content);
        proof {
            assert(self.entries@.subrange(0, self.entries@.len() as int) =~= self.entries@);
        }
        let mut i: usize = 0;
        while i < self.entries.len()
            invariant
                i <= self.entries@.len(),
                *self == *old(self),
                old(self).hits < usize::MAX,
                old(self).misses < usize::MAX,
                hash == spec_content_hash(content.spec_bytes()),
                cache_lookup(self.entries@, hash, model_id@) == cache_lookup(
                    self.entries@.subrange(i as int, self.entries@.len() as int),
                    hash,
                    model_id@,
                ),
            decreases self.entries@.len() - i,
        {
            let e = &self.entries[i];
            proof {
                assert(self.entries@.subrange(i as int, self.entries@.len() as int).drop_first()
                    =~= self.entries@.subrange(i + 1, self.entries@.len() as int));
                assert(self.entries@.subrange(i as int, self.entries@.len() as int)[0]
                    == self.entries@[i as int]);
            }
            if e.hash == hash && str_eq(e.model.as_str(), model_id) {
                let t = e.tokens;
                self.hits = self.hits + 1;
                return Some(t);
            }
            i = i + 1;
        }
        self.misses = self.misses + 1;
        None
    }

    /// Get cache statistics: hits and misses so far.
    pub fn get_stats(&self) -> (r: (usize, usize))
        ensures
            r.0 == self.hits,
            r.1 == self.misses,
    {
        (self.hits, self.misses)
    }

    /// Drop every remembered count older than a week at time `now`,
    /// keeping the rest in order.
    pub fn clean_old_entries(&mut self, now: u64)
        ensures
            final(self).entries@ =~= cache_fresh_entries(old(self).entries@, now),
            final(self).hits == old(self).hits,
            final(self).misses == old(self).misses,
    {
        let mut kept: Vec<TokenCacheEntry> = Vec::new();
        let mut i: usize = 0;
        proof {
            assert(self.entries@.subrange(0, 0) =~= Seq::<TokenCacheEntry>::empty());
            assert(kept@ =~= cache_fresh_entries(self.entries@.subrange(0, 0), now));
        }
        while i < self.entries.len()
            invariant
                i <= self.entries@.len(),
                kept@ =~= cache_fresh_entries(self.entries@.subrange(0, i as int), now),
            decreases self.entries@.len() - i,
        {
            let e = &self.entries[i];
            proof {
                assert(self.entries@.subrange(0, i + 1).drop_last() =~= self.entries@.subrange(
                    0,
                    i as int,
                ));
                assert(self.entries@.subrange(0, i + 1).last() == self.entries@[i as int]);
            }
            if e.timestamp > u64::MAX - CACHE_MAX_AGE || e.timestamp + CACHE_MAX_AGE > now {
                kept.push(
                    TokenCacheEntry {
                        hash: e.hash,
                        model: e.model.clone(),
                        tokens: e.tokens,
                        timestamp: e.timestamp,
                    },
                );
                proof {
                    assert(TokenCacheEntry {
                        hash: e.hash,
                        model: e.model,
                        tokens: e.tokens,
                        timestamp: e.timestamp,
                    } == self.entries@[i as int]);
                }
            }
            i = i + 1;
            proof {
                assert(kept@ =~= cache_fresh_entries(self.entries@.subrange(0, i as int), now));
            }
        }
        proof {
            assert(self.entries@.subrange(0, self.entries@.len() as int) =~= self.entries@);
        }
        self.entries = kept;
    }

    /// Remember a token count for a content string and model.  The new entry
    /// is placed first and any entry previously remembered for the same pair
    /// is dropped; everything else is kept in order.
    pub fn insert(&mut self, content: &str, model_id: &str, count: usize, timestamp: u64)
        ensures
            ({
                let hash = spec_content_hash(content.spec_bytes());
                let fresh = TokenCacheEntry {
                    hash,
                    model: final(self).entries@[0].model,
                    tokens: count,
                    timestamp,
                };
                &&& final(self).entries@ == seq![fresh] + cache_without(
                    old(self).entries@,
                    hash,
                    model_id@,
                )
                &&& final(self).entries@[0].model@ == model_id@
                &&& cache_lookup(final(self).entries@, hash, model_id@) == Some(count)
            }),
            final(self).hits == old(self).hits,
            final(self).misses == old(self).misses,
    {
        let hash = self.hash_content(content);
        let mut kept: Vec<TokenCacheEntry> = Vec::new();
        kept.push(TokenCacheEntry { hash, model: model_id.to_owned(), tokens: count, timestamp });
        let ghost fresh = kept@[0];
        let mut i: usize = 0;
        while i < self.entries.len()
            invariant
                i <= self.entries@.len(),
                kept@ =~= seq![fresh] + cache_without(
                    self.entries@.subrange(0, i as int),
                    hash,
                    model_id@,
                ),
                fresh.hash == hash,
                fresh.model@ == model_id@,
                fresh.tokens == count,
                fresh.timestamp == timestamp,
            decreases self.entries@.len() - i,
        {
            let e = &self.entries[i];
            proof {
                assert(self.entries@.subrange(0, i + 1).drop_last() =~= self.entries@.subrange(
                    0,
                    i as int,
                ));
                assert(self.entries@.subrange(0, i + 1).last() == self.entries@[i as int]);
            }
            if !(e.hash == hash && str_eq(e.model.as_str(), model_id)) {
                kept.push(
                    TokenCacheEntry {
                        hash: e.hash,
                        model: e.model.clone(),
                        tokens: e.tokens,
                        timestamp: e.timestamp,
                    },
                );
                proof {
                    assert(TokenCacheEntry {
                        hash: e.hash,
                        model: e.model,
                        tokens: e.tokens,
                        timestamp: e.timestamp,
                    } == self.entries@[i as int]);
                }
            }
            i = i + 1;
            proof {
                assert(kept@ =~= seq![fresh] + cache_without(
                    self.entries@.subrange(0, i as int),
                    hash,
                    model_id@,
                ));
            }
        }
        proof {
            assert(self.entries@.subrange(0, self.entries@.len() as int) =~= self.entries@);
        }
        self.entries = kept;
    }
}

} // verus!
