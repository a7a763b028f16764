//! The agent's memory service: configuration, the bounded short-term buffer,
//! memory items and the shape of search results.

use vstd::prelude::*;
use crate::text::{chars_of, parse_bounded, parse_unsigned, push_str, string_from};

verus! {

/// How many items the short-term memory holds.
pub const STM_CAPACITY: usize = 20;

/// The service configuration.
#[derive(Debug, Clone)]
pub struct Config {
    pub ollama_endpoint: String,
    pub embedding_model: String,
    pub qdrant_endpoint: String,
    pub qdrant_collection_name: String,
    pub embedding_dimension: u64,
    pub bind_address: String,
}

/// Why the configuration was refused.
#[derive(Debug, PartialEq, Eq)]
pub enum ConfigError {
    /// `EMBEDDING_DIMENSION` is not an unsigned 64-bit number.
    InvalidDimension(String),
}

/// A setting, or its default when it is not set.
pub open spec fn setting(v: Option<String>, default: Seq<char>) -> Seq<char> {
    match v {
        Some(s) => s@,
        None => default,
    }
}

fn setting_or(v: Option<String>, default: &str) -> (r: String)
    ensures
        r@ == setting(v, default@),
{
    match v {
        Some(s) => s,
        None => default.to_string(),
    }
}

impl Config {
    /// Builds the configuration from the settings that are present; a missing
    /// setting takes its default. The embedding dimension must be an unsigned
    /// 64-bit number, as `u64::from_str` reads it.
    pub fn from_values(
        ollama_endpoint: Option<String>,
        embedding_model: Option<String>,
        qdrant_endpoint: Option<String>,
        qdrant_collection_name: Option<String>,
        embedding_dimension: Option<String>,
        bind_address: Option<String>,
    ) -> (r: Result<Config, ConfigError>)
        ensures
            ({
                let dim = setting(embedding_dimension, "1024"@);
                match r {
                    Ok(c) => {
                        &&& parse_unsigned(dim, u64::MAX as nat) == Some(c.embedding_dimension as nat)
                        &&& c.ollama_endpoint@ == setting(ollama_endpoint, "http://localhost:11434"@)
                        &&& c.embedding_model@ == setting(embedding_model, "bge-m3"@)
                        &&& c.qdrant_endpoint@ == setting(qdrant_endpoint, "http://localhost:6334"@)
                        &&& c.qdrant_collection_name@ == setting(qdrant_collection_name, "agent_memory_rmcp"@)
                        &&& c.bind_address@ == setting(bind_address, "127.0.0.1:8002"@)
                    },
                    Err(ConfigError::InvalidDimension(s)) => {
                        &&& parse_unsigned(dim, u64::MAX as nat) is None
                        &&& s@ == dim
                    },
                }
            }),
    {
        let dim = setting_or(embedding_dimension, "1024");
        let dc = chars_of(dim.as_str());
        let parsed = parse_bounded(&dc, u64::MAX);
        match parsed {
            None => Err(ConfigError::InvalidDimension(dim)),
            Some(d) => Ok(Config {
                ollama_endpoint: setting_or(ollama_endpoint, "http://localhost:11434"),
                embedding_model: setting_or(embedding_model, "bge-m3"),
                qdrant_endpoint: setting_or(qdrant_endpoint, "http://localhost:6334"),
                qdrant_collection_name: setting_or(qdrant_collection_name, "agent_memory_rmcp"),
                embedding_dimension: d,
                bind_address: setting_or(bind_address, "127.0.0.1:8002"),
            }),
        }
    }
}

/// Where the embedding model is reached.
#[derive(Debug, Clone)]
pub struct OllamaService {
    pub ollama_endpoint: String,
    pub embedding_model: String,
}

impl OllamaService {
    /// Takes the endpoint and the model from the configuration.
    pub fn new(config: &Config) -> (r: OllamaService)
        ensures
            r.ollama_endpoint@ == config.ollama_endpoint@,
            r.embedding_model@ == config.embedding_model@,
    {
        OllamaService {
            ollama_endpoint: config.ollama_endpoint.clone(),
            embedding_model: config.embedding_model.clone(),
        }
    }

    /// The URL of the embeddings endpoint.
    pub fn embeddings_url(&self) -> (r: String)
        ensures
            r@ == self.ollama_endpoint@ + "/api/embeddings"@,
    {
        let mut v = chars_of(self.ollama_endpoint.as_str());
        push_str(&mut v, "/api/embeddings");
        string_from(v.as_slice())
    }
}

/// How many memories a query returns when it does not say.
pub fn default_top_k() -> (r: usize)
    ensures
        r == 5,
{
    5
}

/// A remembered text, with the moment it was stored and, once computed, its embedding.
#[derive(Debug, Clone)]
pub struct MemoryItem<E> {
    pub id: u128,
    pub text: String,
    /// Seconds since the Unix epoch.
    pub timestamp: i64,
    pub embedding: Option<E>,
}

impl<E> MemoryItem<E> {
    /// A new item without an embedding; the id and the time are the caller's.
    pub fn new(id: u128, text: String, timestamp: i64) -> (r: MemoryItem<E>)
        ensures
            r.id == id,
            r.text == text,
            r.timestamp == timestamp,
            r.embedding is None,
    {
        MemoryItem { id, text, timestamp, embedding: None }
    }
}

/// The short-term memory after adding `x`: appended, the oldest item
/// dropped first when the memory is full.
pub open spec fn stm_push<T>(s: Seq<T>, x: T) -> Seq<T> {
    if s.len() < STM_CAPACITY {
        s.push(x)
    } else {
        s.drop_first().push(x)
    }
}

/// The short-term memory after adding `items` in order to an empty one.
pub open spec fn stm_fill<T>(items: Seq<T>) -> Seq<T>
    decreases items.len(),
{
    if items.len() == 0 {
        Seq::empty()
    } else {
        stm_push(stm_fill(items.drop_last()), items.last())
    }
}

/// The short-term memory holds the newest items: after any sequence of
/// additions it holds the last `STM_CAPACITY` of them (all, if fewer), oldest
/// first.
pub proof fn lemma_stm_keeps_newest<T>(items: Seq<T>)
    ensures
        stm_fill(items) == items.skip(if items.len() > STM_CAPACITY { items.len() - STM_CAPACITY } else { 0 }),
    decreases items.len(),
{
    if items.len() > 0 {
        let p = items.drop_last();
        lemma_stm_keeps_newest(p);
        if p.len() < STM_CAPACITY {
            assert(stm_fill(items) =~= items.skip(0));
        } else {
            assert(stm_fill(items) =~= items.skip(items.len() - STM_CAPACITY));
        }
    } else {
        assert(stm_fill(items) =~= items.skip(0));
    }
}

/// The short-term memory: the latest items, oldest first, at most `STM_CAPACITY` of them.
#[derive(Debug)]
pub struct ShortTermMemory<T> {
    items: Vec<T>,
}

impl<T> ShortTermMemory<T> {
    /// The items held, oldest first.
    pub closed spec fn view(&self) -> Seq<T> {
        self.items@
    }

    /// At most `STM_CAPACITY` items are held.
    pub open spec fn wf(&self) -> bool {
        self.view().len() <= STM_CAPACITY
    }

    /// An empty memory.
    pub fn new() -> (r: Self)
        ensures
            r.wf(),
            r.view() == Seq::<T>::empty(),
    {
        ShortTermMemory { items: Vec::new() }
    }

    /// How many items are held.
    pub fn len(&self) -> (n: usize)
        ensures
            n == self.view().len(),
    {
        self.items.len()
    }

    /// Adds an item; when the memory is full the oldest item is dropped first.
    pub fn add(&mut self, item: T)
        requires
            old(self).wf(),
        ensures
            final(self).wf(),
            old(self).view().len() < STM_CAPACITY ==> final(self).view() == old(self).view().push(item),
            old(self).view().len() >= STM_CAPACITY ==> final(self).view() == old(self).view().drop_first().push(item),
            final(self).view() == stm_push(old(self).view(), item),
    {
        if self.items.len() >= STM_CAPACITY {
            self.items.remove(0);
            proof {
                assert(self.items@ =~= old(self).view().drop_first());
            }
        }
        self.items.push(item);
    }
}

/// The id of a search hit as the vector store gives it.
#[derive(Debug, Clone, PartialEq, Eq)]
pub enum PointIdView {
    Uuid(String),
    Num(u64),
    /// The hit carries no id.
    Missing,
}

/// The text a hit's id is shown as; a hit without one gets `fresh`.
pub open spec fn point_id_text(id: PointIdView, fresh: Seq<char>) -> Seq<char> {
    match id {
        PointIdView::Uuid(s) => s@,
        PointIdView::Num(n) => crate::text::decimal(n as nat),
        PointIdView::Missing => fresh,
    }
}

/// Shows a hit's id: a UUID as it is, a number in decimal, and `fresh` when there is none.
pub fn id_text(id: PointIdView, fresh: String) -> (r: String)
    ensures
        r@ == point_id_text(id, fresh@),
{
    match id {
        PointIdView::Uuid(s) => s,
        PointIdView::Num(n) => {
            let d = crate::text::to_decimal(n);
            string_from(d.as_slice())
        },
        PointIdView::Missing => fresh,
    }
}

/// The text to remember.
#[derive(Debug, Clone)]
pub struct AddMemoryParams {
    pub memory: String,
}

/// A memory query: the text to search for and how many memories to return.
#[derive(Debug, Clone)]
pub struct QueryMemoryParams {
    pub query_text: String,
    pub top_k: usize,
}

/// The texts of the memories a query found, best first.
#[derive(Debug, Clone)]
pub struct QueryMemoryResponse {
    pub results: Vec<String>,
}

impl QueryMemoryParams {
    /// A query for the default number of memories.
    pub fn new(query_text: String) -> (r: QueryMemoryParams)
        ensures
            r.query_text == query_text,
            r.top_k == 5,
    {
        QueryMemoryParams { query_text, top_k: default_top_k() }
    }
}

/// A memory found by a query, as returned to the caller.
#[derive(Debug, Clone)]
pub struct QueryResultItem {
    pub id: String,
    pub text: String,
    /// The time the memory was stored, in UTC (RFC 3339); `None` when the
    /// stored time does not parse, for the caller to fill in with the
    /// current time.
    pub timestamp: Option<String>,
}

/// What `chrono` makes of an RFC 3339 time: the time in UTC, written as its
/// serde form writes it, or `None` when the text does not parse.
pub uninterp spec fn rfc3339_utc(s: Seq<char>) -> Option<Seq<char>>;

/// Parses an RFC 3339 time with `chrono::DateTime::parse_from_rfc3339` and
/// writes it in UTC with `to_rfc3339_opts(SecondsFormat::AutoSi, true)`, the
/// form `chrono`'s serde writes a `DateTime<Utc>` in; `None` when it does
/// not parse. The result is named by `rfc3339_utc`.
#[verifier::external_body]
fn to_utc_rfc3339(s: &str) -> (r: Option<String>)
    ensures
        match r {
            Some(t) => rfc3339_utc(s@) == Some(t@),
            None => rfc3339_utc(s@) is None,
        },
{
    chrono::DateTime::parse_from_rfc3339(s)
        .ok()
        .map(|d| d.with_timezone(&chrono::Utc).to_rfc3339_opts(chrono::SecondsFormat::AutoSi, true))
}

/// A search hit as a result: its id shown as text (`fresh` when it has
/// none), its stored text, and its stored time in UTC; `None` when the hit
/// lacks its text or its time.
pub fn hit_to_item(id: PointIdView, text: Option<String>, timestamp: Option<String>, fresh: String) -> (r: Option<QueryResultItem>)
    ensures
        match (text, timestamp) {
            (Some(t), Some(ts)) => r matches Some(item) && item.id@ == point_id_text(id, fresh@) && item.text == t
                && match item.timestamp {
                    Some(u) => rfc3339_utc(ts@) == Some(u@),
                    None => rfc3339_utc(ts@) is None,
                },
            _ => r is None,
        },
{
    match (text, timestamp) {
        (Some(t), Some(ts)) => {
            let utc = to_utc_rfc3339(ts.as_str());
            Some(QueryResultItem { id: id_text(id, fresh), text: t, timestamp: utc })
        },
        _ => None,
    }
}

/// What a request to the memory service brings, step by step.
#[derive(Debug)]
pub enum MemoryEvent {
    /// A request: the text to remember or to search for, and for a query
    /// the number of memories asked for, if it says.
    Request { text: String, top_k: Option<usize> },
    /// The embedding of the text was made, or failed with this error.
    Embedded(Result<(), String>),
    /// The memory was stored in the long-term store, or failed with this error.
    Stored(Result<(), String>),
    /// The long-term store was searched, or failed with this error.
    Searched(Result<(), String>),
}

/// What the memory service does next for a request.
#[derive(Debug)]
pub enum MemoryAction {
    /// Add the text to the short-term memory and make its embedding.
    RememberAndEmbed(String),
    /// Store the embedded memory in the long-term store.
    Store,
    /// Answer that the memory was added, with its id and time.
    ReplyAdded,
    /// Make the embedding of the query text, to search for `top_k` memories.
    EmbedQuery { text: String, top_k: usize },
    /// Search the long-term store with the query's embedding.
    Search,
    /// Answer with the memories found.
    ReplyResults,
    /// Answer with this error status and message.
    ReplyError(u16, String),
}

/// The events a request to `method` can bring: any request; for `add_memory`
/// the embedding and the storing; for `query_memory` the embedding and the search.
pub open spec fn memory_expects(method: Seq<char>, ev: MemoryEvent) -> bool {
    match ev {
        MemoryEvent::Request { .. } => true,
        MemoryEvent::Embedded(_) => method == "add_memory"@ || method == "query_memory"@,
        MemoryEvent::Stored(_) => method == "add_memory"@,
        MemoryEvent::Searched(_) => method == "query_memory"@,
    }
}

/// Decides the memory service's next step for a request to `method`: a
/// memory is added to the short-term memory, embedded and stored; a query
/// (five memories unless it says) is embedded and searched; each failure is
/// answered with status 500 and its message, an unknown method with 404.
pub fn memory_step(method: &str, ev: MemoryEvent) -> (r: MemoryAction)
    requires
        memory_expects(method@, ev),
    ensures
        match ev {
            MemoryEvent::Request { text, top_k } => if method@ == "add_memory"@ {
                r matches MemoryAction::RememberAndEmbed(t) && t == text
            } else if method@ == "query_memory"@ {
                r matches MemoryAction::EmbedQuery { text: t, top_k: k } && t == text
                    && k == match top_k { Some(k) => k, None => 5 }
            } else {
                r matches MemoryAction::ReplyError(c, m) && c == 404 && m@ == "Method not found"@
            },
            MemoryEvent::Embedded(res) => if method@ == "add_memory"@ {
                match res {
                    Ok(_) => r is Store,
                    Err(e) => r matches MemoryAction::ReplyError(c, m) && c == 500 && m@ == "Ollama embedding error: "@ + e@,
                }
            } else {
                match res {
                    Ok(_) => r is Search,
                    Err(e) => r matches MemoryAction::ReplyError(c, m) && c == 500
                        && m@ == "Ollama query embedding error: "@ + e@,
                }
            },
            MemoryEvent::Stored(res) => match res {
                Ok(_) => r is ReplyAdded,
                Err(e) => r matches MemoryAction::ReplyError(c, m) && c == 500 && m@ == "Qdrant error: "@ + e@,
            },
            MemoryEvent::Searched(res) => match res {
                Ok(_) => r is ReplyResults,
                Err(e) => r matches MemoryAction::ReplyError(c, m) && c == 500 && m@ == "Qdrant search error: "@ + e@,
            },
        },
{
    let m = chars_of(method);
    let is_add = crate::text::same_chars(&m, &chars_of("add_memory"));
    let is_query = crate::text::same_chars(&m, &chars_of("query_memory"));
    proof {
        reveal_strlit("add_memory");
        reveal_strlit("query_memory");
    }
    match ev {
        MemoryEvent::Request { text, top_k } => if is_add {
            MemoryAction::RememberAndEmbed(text)
        } else if is_query {
            let k = match top_k {
                Some(k) => k,
                None => default_top_k(),
            };
            MemoryAction::EmbedQuery { text, top_k: k }
        } else {
            MemoryAction::ReplyError(404, String::from_str("Method not found"))
        },
        MemoryEvent::Embedded(res) => match res {
            Ok(_) => if is_add {
                MemoryAction::Store
            } else {
                MemoryAction::Search
            },
            Err(e) => if is_add {
                MemoryAction::ReplyError(500, prefixed("Ollama embedding error: ", e.as_str()))
            } else {
                MemoryAction::ReplyError(500, prefixed("Ollama query embedding error: ", e.as_str()))
            },
        },
        MemoryEvent::Stored(res) => match res {
            Ok(_) => MemoryAction::ReplyAdded,
            Err(e) => MemoryAction::ReplyError(500, prefixed("Qdrant error: ", e.as_str())),
        },
        MemoryEvent::Searched(res) => match res {
            Ok(_) => MemoryAction::ReplyResults,
            Err(e) => MemoryAction::ReplyError(500, prefixed("Qdrant search error: ", e.as_str())),
        },
    }
}

fn prefixed(p: &str, e: &str) -> (r: String)
    ensures
        r@ == p@ + e@,
{
    let mut v: Vec<char> = Vec::new();
    push_str(&mut v, p);
    push_str(&mut v, e);
    string_from(v.as_slice())
}

/// What setting up the long-term store does.
#[derive(Debug)]
pub enum CollectionSetup {
    /// Create the collection, for vectors of this size compared by cosine.
    Create { name: String, dimension: u64 },
    /// The collection is there already.
    Keep,
}

/// Decides the set-up of the long-term store from the collections it
/// lists: the configured collection is created only when it is not listed;
/// a failed listing is an error.
pub fn collection_setup(listed: Result<Vec<String>, String>, config: &Config) -> (r: Result<CollectionSetup, String>)
    ensures
        match listed {
            Err(e) => r matches Err(m) && m@ == "Failed to connect to Qdrant or list collections: "@ + e@,
            Ok(names) => if exists|k: int| 0 <= k < names.len() && (#[trigger] names@[k])@ == config.qdrant_collection_name@ {
                r matches Ok(CollectionSetup::Keep)
            } else {
                r matches Ok(CollectionSetup::Create { name, dimension })
                    && name@ == config.qdrant_collection_name@ && dimension == config.embedding_dimension
            },
        },
{
    match listed {
        Err(e) => Err(prefixed("Failed to connect to Qdrant or list collections: ", e.as_str())),
        Ok(names) => {
            let want = chars_of(config.qdrant_collection_name.as_str());
            let mut found = false;
            let mut i: usize = 0;
            while i < names.len()
                invariant
                    i <= names.len(),
                    want@ == config.qdrant_collection_name@,
                    found == exists|k: int| 0 <= k < i && (#[trigger] names@[k])@ == config.qdrant_collection_name@,
                decreases names.len() - i,
            {
                let c = chars_of(names[i].as_str());
                if crate::text::same_chars(&c, &want) {
                    assert(names@[i as int]@ == config.qdrant_collection_name@);
                    found = true;
                }
                i = i + 1;
            }
            if found {
                return Ok(CollectionSetup::Keep);
            }
            Ok(CollectionSetup::Create { name: config.qdrant_collection_name.clone(), dimension: config.embedding_dimension })
        },
    }
}

} // verus!
