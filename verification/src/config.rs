//! Configuration: the recognised options and their defaults.

use vstd::prelude::*;

verus! {

/// System-level options.
#[derive(Debug, Clone)]
pub struct SystemConfig {
    /// System name.
    pub name: String,
    /// System version.
    pub version: String,
    /// Logging level.
    pub log_level: String,
}

impl Default for SystemConfig {
    fn default() -> (c: SystemConfig)
        ensures
            c.name@ == "Sorcerer"@,
            c.version@ == "0.1.0"@,
            c.log_level@ == "info"@,
    {
        SystemConfig {
            name: "Sorcerer".to_owned(),
            version: "0.1.0".to_owned(),
            log_level: "info".to_owned(),
        }
    }
}

/// Database options.
#[derive(Debug, Clone)]
pub struct DatabaseConfig {
    /// Database host.
    pub host: String,
    /// Database port.
    pub port: u16,
    /// Database name.
    pub name: String,
    /// Size of the connection pool.
    pub pool_size: u32,
    /// Connection timeout in seconds.
    pub timeout_secs: u32,
}

impl Default for DatabaseConfig {
    fn default() -> (c: DatabaseConfig)
        ensures
            c.host@ == "localhost"@,
            c.port == 5432,
            c.name@ == "sorcerer_index"@,
            c.pool_size == 20,
            c.timeout_secs == 30,
    {
        DatabaseConfig {
            host: "localhost".to_owned(),
            port: 5432,
            name: "sorcerer_index".to_owned(),
            pool_size: 20,
            timeout_secs: 30,
        }
    }
}

/// Indexing options.
#[derive(Debug, Clone)]
pub struct IndexingConfig {
    /// Dimensions of embedding vectors.
    pub vector_dimensions: usize,
    /// Batch size of bulk operations.
    pub batch_size: usize,
    /// Seconds between automatic commits.
    pub auto_commit_interval_secs: u32,
}

impl Default for IndexingConfig {
    fn default() -> (c: IndexingConfig)
        ensures
            c.vector_dimensions == 1536,
            c.batch_size == 100,
            c.auto_commit_interval_secs == 300,
    {
        IndexingConfig { vector_dimensions: 1536, batch_size: 100, auto_commit_interval_secs: 300 }
    }
}

/// Crawler options.
#[derive(Debug, Clone)]
pub struct CrawlerConfig {
    /// User agent string.
    pub user_agent: String,
    /// Most crawls at the same time.
    pub max_concurrent_crawls: usize,
    /// Timeout in seconds.
    pub timeout_secs: u32,
}

impl Default for CrawlerConfig {
    fn default() -> (c: CrawlerConfig)
        ensures
            c.user_agent@ == "Sorcerer/0.1.0 (+http://sorcerer.ai)"@,
            c.max_concurrent_crawls == 10,
            c.timeout_secs == 30,
    {
        CrawlerConfig {
            user_agent: "Sorcerer/0.1.0 (+http://sorcerer.ai)".to_owned(),
            max_concurrent_crawls: 10,
            timeout_secs: 30,
        }
    }
}

/// Agent options.
#[derive(Debug, Clone, Copy)]
pub struct AgentsConfig {
    /// Most children of one task.
    pub max_sub_agents: usize,
    /// Hours that an agent's memory keeps an entry.
    pub memory_ttl_hours: u32,
    /// Seconds that a task may run by default.
    pub default_timeout_secs: u32,
}

impl Default for AgentsConfig {
    fn default() -> (c: AgentsConfig)
        ensures
            c.max_sub_agents == 5,
            c.memory_ttl_hours == 24,
            c.default_timeout_secs == 300,
    {
        AgentsConfig { max_sub_agents: 5, memory_ttl_hours: 24, default_timeout_secs: 300 }
    }
}

/// API options.
#[derive(Debug, Clone)]
pub struct ApiConfig {
    /// API host.
    pub host: String,
    /// HTTP port.
    pub port: u16,
    /// gRPC port.
    pub grpc_port: u16,
}

impl Default for ApiConfig {
    fn default() -> (c: ApiConfig)
        ensures
            c.host@ == "0.0.0.0"@,
            c.port == 8080,
            c.grpc_port == 50051,
    {
        ApiConfig { host: "0.0.0.0".to_owned(), port: 8080, grpc_port: 50051 }
    }
}

/// The whole configuration. It is loaded once and read-only afterwards.
#[derive(Debug, Clone)]
pub struct SorcererConfig {
    /// System-level options.
    pub system: SystemConfig,
    /// Database options.
    pub database: DatabaseConfig,
    /// Indexing options.
    pub indexing: IndexingConfig,
    /// Crawler options.
    pub crawler: CrawlerConfig,
    /// Agent options.
    pub agents: AgentsConfig,
    /// API options.
    pub api: ApiConfig,
}

impl SorcererConfig {
    /// Every option has its default value.
    pub open spec fn is_default(&self) -> bool {
        &&& self.system.name@ == "Sorcerer"@
        &&& self.system.version@ == "0.1.0"@
        &&& self.system.log_level@ == "info"@
        &&& self.database.host@ == "localhost"@
        &&& self.database.port == 5432
        &&& self.database.name@ == "sorcerer_index"@
        &&& self.database.pool_size == 20
        &&& self.database.timeout_secs == 30
        &&& self.indexing.vector_dimensions == 1536
        &&& self.indexing.batch_size == 100
        &&& self.indexing.auto_commit_interval_secs == 300
        &&& self.crawler.user_agent@ == "Sorcerer/0.1.0 (+http://sorcerer.ai)"@
        &&& self.crawler.max_concurrent_crawls == 10
        &&& self.crawler.timeout_secs == 30
        &&& self.agents.max_sub_agents == 5
        &&& self.agents.memory_ttl_hours == 24
        &&& self.agents.default_timeout_secs == 300
        &&& self.api.host@ == "0.0.0.0"@
        &&& self.api.port == 8080
        &&& self.api.grpc_port == 50051
    }

    /// The configuration used when no file is given.
    pub fn load_default() -> (c: SorcererConfig)
        ensures
            c.is_default(),
    {
        SorcererConfig {
            system: SystemConfig::default(),
            database: DatabaseConfig::default(),
            indexing: IndexingConfig::default(),
            crawler: CrawlerConfig::default(),
            agents: AgentsConfig::default(),
            api: ApiConfig::default(),
        }
    }

    /// What loading gives: the configuration that was read, or the
    /// defaults where there was no file.
    pub fn or_default(loaded: Option<SorcererConfig>) -> (c: SorcererConfig)
        ensures
            match loaded {
                Some(given) => c == given,
                None => c.is_default(),
            },
    {
        match loaded {
            Some(given) => given,
            None => SorcererConfig::load_default(),
        }
    }
}

} // verus!
