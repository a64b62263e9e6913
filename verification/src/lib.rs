//! Orchestration core of a multi-modal retrieval engine: trust-weighted
//! ranking, constraint filtering, index backends, and a task scheduler with
//! parent/child hierarchies.

pub mod agent;
pub mod api;
pub mod config;
pub mod crawler;
pub mod error;
pub mod index;
pub mod keyword;
pub mod outside;
pub mod planner;
pub mod query;
pub mod ranking;
pub mod result;
pub mod scheduler;
pub mod score;
pub mod text;

pub use agent::{Agent, AgentError, AgentResult, AgentType, ExecutionStatus, Memory, Task};
pub use api::SearchApi;
pub use config::{
    AgentsConfig, ApiConfig, CrawlerConfig, DatabaseConfig, IndexingConfig, SorcererConfig,
    SystemConfig,
};
pub use crawler::Crawler;
pub use error::SorcererError;
pub use index::{
    Document, Entity, IndexError, IndexStore, Metadata, SearchQuery as IndexSearchQuery,
    SearchResult as IndexSearchResult,
};
pub use query::{QueryAction, QueryConstraints, QueryMode, SearchQuery};
pub use result::{QueryResult, SearchResult};
