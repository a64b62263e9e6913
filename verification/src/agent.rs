//! Agents, the tasks they execute, and what they remember.

use vstd::hash_map::StringHashMap;
use vstd::prelude::*;
use vstd::string::StringExecFns;
use crate::config::AgentsConfig;
use crate::outside::{fresh_id, is_hyphenated_id, now_millis};
use crate::query::{QueryConstraints, DEFAULT_MAX_RESULTS};
use crate::score::Score;

verus! {

/// The kinds of agents.
#[derive(Debug, Clone, Copy, PartialEq, Eq, Structural)]
pub enum AgentType {
    /// Discovery and exploration.
    Scout,
    /// Deep reading and analysis.
    Analyst,
    /// Fact-checking and verification.
    Verifier,
    /// Execution of actions.
    Executor,
    /// Long-term context management.
    Memory,
}

/// A unit of work for an agent.
#[derive(Debug)]
pub struct Task {
    /// Identifier, unique and never changed.
    pub id: String,
    /// The query or command to execute.
    pub query: String,
    /// Constraints on the execution.
    pub constraints: QueryConstraints,
    /// Identifier of the parent task, if this is a child.
    pub parent_id: Option<String>,
    /// Creation time, in milliseconds since the Unix epoch.
    pub created_at: i64,
}

/// What a `Task` holds.
pub ghost struct TaskView {
    pub id: Seq<char>,
    pub query: Seq<char>,
    pub constraints: QueryConstraints,
    pub parent_id: Option<Seq<char>>,
    pub created_at: int,
}

impl View for Task {
    type V = TaskView;

    open spec fn view(&self) -> TaskView {
        TaskView {
            id: self.id@,
            query: self.query@,
            constraints: self.constraints,
            parent_id: match self.parent_id {
                Some(p) => Some(p@),
                None => None,
            },
            created_at: self.created_at as int,
        }
    }
}

impl Clone for Task {
    fn clone(&self) -> (r: Task)
        ensures
            r@ == self@,
    {
        Task {
            id: self.id.clone(),
            query: self.query.clone(),
            constraints: self.constraints,
            parent_id: match &self.parent_id {
                Some(p) => Some(p.clone()),
                None => None,
            },
            created_at: self.created_at,
        }
    }
}

impl Task {
    /// A root task with the given identifier and creation time, and
    /// default constraints.
    pub fn with_id(id: String, query: &str, now: i64) -> (t: Task)
        ensures
            t.id == id,
            t.query@ == query@,
            t.constraints.updated_after.is_none(),
            t.constraints.min_trust_score.is_none(),
            t.constraints.max_results == DEFAULT_MAX_RESULTS,
            t.constraints.max_results > 0,
            t.parent_id.is_none(),
            t.created_at == now,
    {
        Task {
            id,
            query: query.to_owned(),
            constraints: QueryConstraints::default(),
            parent_id: None,
            created_at: now,
        }
    }

    /// A root task with a freshly generated identifier, created now.
    pub fn new(query: &str) -> (t: Task)
        ensures
            is_hyphenated_id(t.id@),
            t.query@ == query@,
            t.constraints.updated_after.is_none(),
            t.constraints.min_trust_score.is_none(),
            t.constraints.max_results == DEFAULT_MAX_RESULTS,
            t.constraints.max_results > 0,
            t.parent_id.is_none(),
            t.created_at >= 0,
    {
        let now = now_millis();
        Task::with_id(fresh_id(), query, now)
    }

    /// A child of `self` with the given identifier. It inherits the
    /// constraints, and is created at `now` or, if that would be earlier,
    /// at the parent's own creation time.
    pub fn child_with_id(&self, id: String, query: &str, now: i64) -> (t: Task)
        ensures
            t.id == id,
            t.query@ == query@,
            t.constraints == self.constraints,
            t@.parent_id == Some(self.id@),
            t.created_at == if now >= self.created_at {
                now
            } else {
                self.created_at
            },
            t.created_at >= self.created_at,
    {
        Task {
            id,
            query: query.to_owned(),
            constraints: self.constraints,
            parent_id: Some(self.id.clone()),
            created_at: if now >= self.created_at {
                now
            } else {
                self.created_at
            },
        }
    }

    /// A child of `self` with a freshly generated identifier, created
    /// no earlier than its parent.
    pub fn child(&self, query: &str) -> (t: Task)
        ensures
            is_hyphenated_id(t.id@),
            t.query@ == query@,
            t.constraints == self.constraints,
            t@.parent_id == Some(self.id@),
            t.created_at >= self.created_at,
    {
        let now = now_millis();
        self.child_with_id(fresh_id(), query, now)
    }
}

/// Where a task stands. A task starts `Pending`, becomes `Running`, and
/// ends in one of the three other states.
#[derive(Debug)]
pub enum ExecutionStatus {
    /// Waiting to be executed.
    Pending,
    /// Being executed.
    Running,
    /// Completed.
    Success,
    /// Failed, with the reason.
    Failed(String),
    /// The deadline passed before the task completed.
    TimedOut,
}

/// What an `ExecutionStatus` holds.
pub ghost enum StatusView {
    Pending,
    Running,
    Success,
    Failed(Seq<char>),
    TimedOut,
}

impl StatusView {
    /// No transition leaves this state.
    pub open spec fn is_terminal(self) -> bool {
        self is Success || self is Failed || self is TimedOut
    }

    /// A task in this state may pass to `next` in one step.
    pub open spec fn may_become(self, next: StatusView) -> bool {
        match self {
            StatusView::Pending => next is Running,
            StatusView::Running => next.is_terminal(),
            _ => false,
        }
    }
}

/// A terminal state is final, and no task ends without having run.
pub proof fn lemma_terminal_is_final(s: StatusView, next: StatusView)
    ensures
        s.is_terminal() ==> !s.may_become(next),
        s is Pending ==> !s.may_become(next) || !next.is_terminal(),
{
}

impl View for ExecutionStatus {
    type V = StatusView;

    open spec fn view(&self) -> StatusView {
        match self {
            ExecutionStatus::Pending => StatusView::Pending,
            ExecutionStatus::Running => StatusView::Running,
            ExecutionStatus::Success => StatusView::Success,
            ExecutionStatus::Failed(reason) => StatusView::Failed(reason@),
            ExecutionStatus::TimedOut => StatusView::TimedOut,
        }
    }
}

impl Clone for ExecutionStatus {
    fn clone(&self) -> (r: ExecutionStatus)
        ensures
            r@ == self@,
    {
        match self {
            ExecutionStatus::Pending => ExecutionStatus::Pending,
            ExecutionStatus::Running => ExecutionStatus::Running,
            ExecutionStatus::Success => ExecutionStatus::Success,
            ExecutionStatus::Failed(reason) => ExecutionStatus::Failed(reason.clone()),
            ExecutionStatus::TimedOut => ExecutionStatus::TimedOut,
        }
    }
}

impl ExecutionStatus {
    /// Whether this state is final.
    pub fn is_terminal(&self) -> (r: bool)
        ensures
            r == self@.is_terminal(),
    {
        match self {
            ExecutionStatus::Pending => false,
            ExecutionStatus::Running => false,
            _ => true,
        }
    }

    /// Whether a task in this state may pass to `next` in one step.
    pub fn may_become(&self, next: &ExecutionStatus) -> (r: bool)
        ensures
            r == self@.may_become(next@),
    {
        match self {
            ExecutionStatus::Pending => match next {
                ExecutionStatus::Running => true,
                _ => false,
            },
            ExecutionStatus::Running => next.is_terminal(),
            _ => false,
        }
    }
}

/// The outcome of one task.
#[derive(Debug)]
pub struct AgentResult {
    /// Identifier of the task.
    pub task_id: String,
    /// How the execution ended.
    pub status: ExecutionStatus,
    /// Output payload.
    pub output: serde_json::Value,
    /// Confidence; it means something only when the status is `Success`.
    pub confidence: Score,
    /// Time taken, in milliseconds.
    pub execution_time_ms: u64,
}

/// What an `AgentResult` holds.
pub ghost struct AgentResultView {
    pub task_id: Seq<char>,
    pub status: StatusView,
    pub output: serde_json::Value,
    pub confidence: nat,
    pub execution_time_ms: u64,
}

impl View for AgentResult {
    type V = AgentResultView;

    open spec fn view(&self) -> AgentResultView {
        AgentResultView {
            task_id: self.task_id@,
            status: self.status@,
            output: self.output,
            confidence: self.confidence@,
            execution_time_ms: self.execution_time_ms,
        }
    }
}

impl Clone for AgentResult {
    fn clone(&self) -> (r: AgentResult)
        ensures
            r@ == self@,
    {
        AgentResult {
            task_id: self.task_id.clone(),
            status: self.status.clone(),
            output: self.output.clone(),
            confidence: self.confidence,
            execution_time_ms: self.execution_time_ms,
        }
    }
}

/// What went wrong in an agent.
#[derive(Debug, Clone)]
pub enum AgentError {
    /// The execution failed.
    ExecutionFailed(String),
    /// The task was invalid; the caller is at fault and a retry is pointless.
    InvalidTask(String),
    /// The operation timed out.
    Timeout,
}

/// The text of an `AgentError`.
pub open spec fn agent_error_text(e: AgentError) -> Seq<char> {
    match e {
        AgentError::ExecutionFailed(msg) => "Execution failed: "@ + msg@,
        AgentError::InvalidTask(msg) => "Invalid task: "@ + msg@,
        AgentError::Timeout => "Agent execution timeout"@,
    }
}

impl AgentError {
    /// Whether the same work may be tried again as a new task: yes after a
    /// timeout or a failed execution, no for a task that was invalid.
    pub fn is_retryable(&self) -> (r: bool)
        ensures
            r == !(self is InvalidTask),
    {
        match self {
            AgentError::InvalidTask(_) => false,
            _ => true,
        }
    }

    /// A human-readable description of the error.
    pub fn message(&self) -> (s: String)
        ensures
            s@ == agent_error_text(*self),
    {
        match self {
            AgentError::ExecutionFailed(msg) => "Execution failed: ".to_owned().concat(
                msg.as_str(),
            ),
            AgentError::InvalidTask(msg) => "Invalid task: ".to_owned().concat(msg.as_str()),
            AgentError::Timeout => "Agent execution timeout".to_owned(),
        }
    }
}

/// Milliseconds in an hour.
pub const MILLIS_PER_HOUR: i64 = 3_600_000;

/// Hours that an entry lives unless the memory says otherwise.
pub const DEFAULT_TTL_HOURS: u32 = 24;

/// A remembered value and the time it was stored.
pub struct MemoryEntry {
    /// The value.
    pub value: serde_json::Value,
    /// When it was stored, in milliseconds since the Unix epoch.
    pub stored_at: i64,
}

/// An entry stored at `stored_at` is older than `ttl_hours` at `now`.
pub open spec fn is_expired(stored_at: int, now: int, ttl_hours: int) -> bool {
    now - stored_at > ttl_hours * MILLIS_PER_HOUR
}

/// An agent's context, kept across executions. Entries older than the
/// time-to-live read as absent; they are not removed until asked.
pub struct Memory {
    /// The entries by key.
    pub context: StringHashMap<MemoryEntry>,
    /// Creation time, in milliseconds since the Unix epoch.
    pub created_at: i64,
    /// Hours after which an entry reads as absent.
    pub ttl_hours: u32,
}

impl Default for Memory {
    fn default() -> (m: Memory)
        ensures
            m.context@ == Map::<Seq<char>, MemoryEntry>::empty(),
            m.created_at == 0,
            m.ttl_hours == DEFAULT_TTL_HOURS,
    {
        Memory { context: StringHashMap::new(), created_at: 0, ttl_hours: DEFAULT_TTL_HOURS }
    }
}

impl Memory {
    /// What reading `key` at `now` gives: the stored value, unless there
    /// is none or it has expired.
    pub open spec fn recall(&self, key: Seq<char>, now: int) -> Option<serde_json::Value> {
        if self.context@.dom().contains(key) && !is_expired(
            self.context@[key].stored_at as int,
            now,
            self.ttl_hours as int,
        ) {
            Some(self.context@[key].value)
        } else {
            None
        }
    }

    /// An empty memory created at `now`.
    pub fn with_ttl(ttl_hours: u32, now: i64) -> (m: Memory)
        ensures
            m.context@ == Map::<Seq<char>, MemoryEntry>::empty(),
            m.created_at == now,
            m.ttl_hours == ttl_hours,
    {
        Memory { context: StringHashMap::new(), created_at: now, ttl_hours }
    }

    /// An empty memory created at `now`, with the time-to-live that the
    /// configuration sets.
    pub fn from_config(config: &AgentsConfig, now: i64) -> (m: Memory)
        ensures
            m.context@ == Map::<Seq<char>, MemoryEntry>::empty(),
            m.created_at == now,
            m.ttl_hours == config.memory_ttl_hours,
    {
        Memory::with_ttl(config.memory_ttl_hours, now)
    }

    /// An empty memory created now, with the default time-to-live.
    pub fn new() -> (m: Memory)
        ensures
            m.context@ == Map::<Seq<char>, MemoryEntry>::empty(),
            m.created_at >= 0,
            m.ttl_hours == DEFAULT_TTL_HOURS,
    {
        Memory::with_ttl(DEFAULT_TTL_HOURS, now_millis())
    }

    /// Decides `is_expired` for this memory's time-to-live.
    pub fn expired(&self, stored_at: i64, now: i64) -> (r: bool)
        ensures
            r == is_expired(stored_at as int, now as int, self.ttl_hours as int),
    {
        let age: i128 = now as i128 - stored_at as i128;
        let ttl: i128 = self.ttl_hours as i128 * 3_600_000;
        age > ttl
    }

    /// Stores `value` under `key` as of `now`, in the place of any earlier
    /// value.
    pub fn remember(&mut self, key: &str, value: serde_json::Value, now: i64)
        ensures
            final(self).context@ == old(self).context@.insert(
                key@,
                MemoryEntry { value, stored_at: now },
            ),
            final(self).created_at == old(self).created_at,
            final(self).ttl_hours == old(self).ttl_hours,
            final(self).recall(key@, now as int) == Some(value),
    {
        self.context.insert(key.to_owned(), MemoryEntry { value, stored_at: now });
    }

    /// The value stored under `key`, unless it has expired at `now`.
    pub fn get(&self, key: &str, now: i64) -> (r: Option<&serde_json::Value>)
        ensures
            match r {
                Some(v) => self.recall(key@, now as int) == Some(*v),
                None => self.recall(key@, now as int).is_none(),
            },
    {
        match self.context.get(key) {
            Some(entry) => {
                if self.expired(entry.stored_at, now) {
                    None
                } else {
                    Some(&entry.value)
                }
            },
            None => None,
        }
    }

    /// Removes whatever is stored under `key` and says whether anything
    /// was, expired or not.
    pub fn forget(&mut self, key: &str) -> (removed: bool)
        ensures
            removed == old(self).context@.dom().contains(key@),
            final(self).context@ == old(self).context@.remove(key@),
            final(self).created_at == old(self).created_at,
            final(self).ttl_hours == old(self).ttl_hours,
    {
        let present = self.context.contains_key(key);
        self.context.remove(key);
        present
    }

    /// The number of stored entries, expired ones included.
    pub fn len(&self) -> (n: usize)
        ensures
            n == self.context@.len(),
    {
        self.context.len()
    }
}

/// Expiry is lazy: past its time-to-live an entry reads as absent, though
/// it is still stored.
pub proof fn lemma_expiry_is_lazy(m: Memory, key: Seq<char>, now: int)
    requires
        m.context@.dom().contains(key),
        now - m.context@[key].stored_at > m.ttl_hours * MILLIS_PER_HOUR,
    ensures
        m.recall(key, now).is_none(),
        m.context@.dom().contains(key),
{
}

/// An agent. One instance handles one task at a time and owns its memory.
pub trait Agent {
    /// The agent's name.
    fn name(&self) -> &str;

    /// The kind of agent.
    fn agent_type(&self) -> AgentType;

    /// Executes a task.
    fn execute(&mut self, task: Task) -> Result<AgentResult, AgentError>;

    /// The agent's memory.
    fn memory(&self) -> &Memory;
}

} // verus!
