//! Settings of a knowledge base, of web search and of the embedding engine,
//! with their defaults, and the service that knows where they are stored.
use vstd::prelude::*;

verus! {

/// Settings of one knowledge base.
#[derive(Debug, Clone)]
pub struct KbConfig {
    pub name: String,
    pub template_name: String,
    pub language: String,
    /// `strict`, `balanced` or `auto`.
    pub review_mode: String,
    pub allow_ai_generation: bool,
}

/// The value of `allow_ai_generation` when a stored configuration lacks it.
pub fn default_allow_ai_generation() -> (b: bool)
    ensures
        b,
{
    true
}

impl Default for KbConfig {
    fn default() -> (c: Self)
        ensures
            c.name@ == "我的知识库"@,
            c.template_name@ == "general"@,
            c.language@ == "zh-CN"@,
            c.review_mode@ == "balanced"@,
            c.allow_ai_generation,
    {
        KbConfig {
            name: String::from_str("我的知识库"),
            template_name: String::from_str("general"),
            language: String::from_str("zh-CN"),
            review_mode: String::from_str("balanced"),
            allow_ai_generation: true,
        }
    }
}

/// Settings of web search.
#[derive(Debug, Clone)]
pub struct WebSearchConfig {
    pub engine: String,
    pub max_results: u32,
    pub searxng_url: String,
    pub brave_api_key: String,
    pub bing_api_key: String,
    pub bing_endpoint: String,
}

impl Default for WebSearchConfig {
    fn default() -> (c: Self)
        ensures
            c.engine@ == "duckduckgo"@,
            c.max_results == 10,
            c.searxng_url@.len() == 0,
            c.brave_api_key@.len() == 0,
            c.bing_api_key@.len() == 0,
            c.bing_endpoint@ == "https://api.bing.microsoft.com/"@,
    {
        WebSearchConfig {
            engine: String::from_str("duckduckgo"),
            max_results: 10,
            searxng_url: String::new(),
            brave_api_key: String::new(),
            bing_api_key: String::new(),
            bing_endpoint: String::from_str("https://api.bing.microsoft.com/"),
        }
    }
}

/// Knows the directory that holds the configuration files.
pub struct ConfigService {
    config_dir: String,
}

impl ConfigService {
    pub closed spec fn spec_config_dir(&self) -> Seq<char> {
        self.config_dir@
    }

    pub fn new(config_dir: &str) -> (s: Self)
        ensures
            s.spec_config_dir() == config_dir@,
    {
        ConfigService { config_dir: String::from_str(config_dir) }
    }

    pub fn get_config_dir(&self) -> (d: &str)
        ensures
            d@ == self.spec_config_dir(),
    {
        self.config_dir.as_str()
    }
}

/// Knows the file of the application database.
pub struct DatabaseService {
    db_path: String,
}

impl DatabaseService {
    pub closed spec fn spec_path(&self) -> Seq<char> {
        self.db_path@
    }

    /// A service for the database file at `db_path` (opening and migrating
    /// the file is the caller's work).
    pub fn from_path(db_path: &str) -> (s: Self)
        ensures
            s.spec_path() == db_path@,
    {
        DatabaseService { db_path: String::from_str(db_path) }
    }

    pub fn path(&self) -> (p: &str)
        ensures
            p@ == self.spec_path(),
    {
        self.db_path.as_str()
    }
}

// ---------------------------------------------------------------------------
// Embedding engine settings
// ---------------------------------------------------------------------------

/// Settings of the embedding engine.
#[derive(Debug, Clone)]
pub struct EmbeddingConfig {
    pub engine_type: String,
    pub model_path: Option<String>,
    pub num_threads: u32,
    pub graph_opt_level: String,
    pub max_seq_len: usize,
    pub pooling_strategy: String,
    pub l2_normalize: bool,
}

pub fn default_graph_opt_level() -> (s: String)
    ensures
        s@ == "level3"@,
{
    String::from_str("level3")
}

pub fn default_max_seq_len() -> (n: usize)
    ensures
        n == 512,
{
    512
}

pub fn default_pooling_strategy() -> (s: String)
    ensures
        s@ == "mean"@,
{
    String::from_str("mean")
}

pub fn default_l2_normalize() -> (b: bool)
    ensures
        b,
{
    true
}

/// The thread count stored for `n` logical CPUs.
pub open spec fn thread_count(n: usize) -> u32 {
    n as u32
}

/// Calls `num_cpus::get`, the number of logical CPUs available to the
/// process, which its documentation says is always at least 1. The number
/// depends on the machine, so nothing more is stated.
#[verifier::external_body]
fn logical_cpus() -> (n: usize)
    ensures
        n >= 1,
{
    num_cpus::get()
}

impl Default for EmbeddingConfig {
    fn default() -> (c: Self)
        ensures
            c.engine_type@ == "builtin"@,
            c.model_path is None,
            exists|n: usize| n >= 1 && c.num_threads == #[trigger] thread_count(n),
            c.graph_opt_level@ == "level3"@,
            c.max_seq_len == 512,
            c.pooling_strategy@ == "mean"@,
            c.l2_normalize,
    {
        let cpus = logical_cpus();
        let n = if cpus > 1 {
            cpus
        } else {
            1
        };
        assert(n >= 1 && n as u32 == thread_count(n));
        EmbeddingConfig {
            engine_type: String::from_str("builtin"),
            model_path: None,
            num_threads: n as u32,
            graph_opt_level: default_graph_opt_level(),
            max_seq_len: default_max_seq_len(),
            pooling_strategy: default_pooling_strategy(),
            l2_normalize: default_l2_normalize(),
        }
    }
}

} // verus!
