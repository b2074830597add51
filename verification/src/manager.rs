//! The supervisor's registry state: agent records addressed by an opaque
//! identifier, the process-lifetime counters, and every bookkeeping decision
//! of create / send-input / reset / stop / list / read-buffer. The blocking
//! work around these decisions — spawning a child, writing to its input
//! pipe, killing it and polling for exit — happens outside this crate's
//! verified core and reports its outcome back through these methods'
//! arguments.

use vstd::prelude::*;
use crate::errors::AgentError;
use crate::model::{
    AgentInfo, AgentOutputBuffer, CreateAgentRequest, CreateAgentResponse, concat_lines,
    pushed_lines, str_eq,
};

verus! {

/// The intent carried by a stop request. Both intents currently resolve to
/// the same forceful termination primitive; the distinction is kept in the
/// interface.
#[derive(Clone, Copy, Debug)]
pub enum StopSignal {
    Term,
    Kill,
}

/// Process-lifetime cumulative counters. Counters only grow (saturating at
/// the type's maximum); nothing is ever subtracted from them.
#[derive(Clone, Copy, Debug)]
pub struct AgentMetrics {
    pub created_count: u64,
    pub stopped_count: u64,
    pub total_input_bytes: u64,
    pub total_output_bytes: u64,
}

/// A read of the counters plus the registry size at read time.
#[derive(Clone, Copy, Debug)]
pub struct AgentMetricsSnapshot {
    pub created_count: u64,
    pub stopped_count: u64,
    pub active_count: u64,
    pub total_input_bytes: u64,
    pub total_output_bytes: u64,
}

/// One supervised agent: identity, output buffer, and the original spawn
/// configuration kept so a hard reset can respawn an equivalent process
/// under the same identifier. The live process itself is held by the caller
/// that spawned it; this record tracks its pid.
pub struct AgentRecord {
    pub id: String,
    pub name: Option<String>,
    /// Creation time as a Unix timestamp in seconds; immutable.
    pub created_at: i64,
    /// Pid of the currently live process; replaced only by a hard reset.
    pub pid: u32,
    pub buffer: AgentOutputBuffer,
    pub orig_args: Vec<String>,
    pub orig_env: Vec<(String, String)>,
    pub orig_working_dir: Option<String>,
    /// Last time this agent produced output or received input.
    pub last_used: i64,
}

/// `c + n`, saturating at `u64::MAX`.
pub open spec fn sat_add(c: u64, n: nat) -> u64 {
    if c + n > u64::MAX {
        u64::MAX
    } else {
        (c + n) as u64
    }
}

/// Whether some record in `agents` carries the identifier `id`.
pub open spec fn has_agent_id(agents: Seq<AgentRecord>, id: Seq<char>) -> bool {
    exists|i: int| 0 <= i < agents.len() && agents[i].id@ == id
}

/// The index of the record carrying `id` (unique when ids are distinct).
pub open spec fn agent_index(agents: Seq<AgentRecord>, id: Seq<char>) -> int {
    choose|i: int| 0 <= i < agents.len() && agents[i].id@ == id
}

/// The record carrying `id`.
pub open spec fn agent_rec(agents: Seq<AgentRecord>, id: Seq<char>) -> AgentRecord {
    agents[agent_index(agents, id)]
}

/// No two records carry the same identifier.
pub open spec fn distinct_ids(agents: Seq<AgentRecord>) -> bool {
    forall|i: int, j: int|
        0 <= i < agents.len() && 0 <= j < agents.len() && i != j ==> agents[i].id@ != agents[j].id@
}

/// Everything of a record that a reset — soft or hard — must leave alone:
/// identifier, display name, creation time, and the original spawn
/// configuration.
pub open spec fn same_identity(a: AgentRecord, b: AgentRecord) -> bool {
    &&& b.id == a.id
    &&& b.name == a.name
    &&& b.created_at == a.created_at
    &&& b.orig_args == a.orig_args
    &&& b.orig_env == a.orig_env
    &&& b.orig_working_dir == a.orig_working_dir
}

/// With distinct ids, any index holding `id` is the `agent_index`.
proof fn lemma_agent_index_is(agents: Seq<AgentRecord>, id: Seq<char>, i: int)
    requires
        distinct_ids(agents),
        0 <= i < agents.len(),
        agents[i].id@ == id,
    ensures
        has_agent_id(agents, id),
        agent_index(agents, id) == i,
{
    assert(has_agent_id(agents, id));
    let j = agent_index(agents, id);
    if j != i {
        assert(agents[i].id@ != agents[j].id@);
    }
}

/// Removing the record at `k` does not affect which other identifiers are
/// present.
proof fn lemma_remove_preserves_others(agents: Seq<AgentRecord>, k: int)
    requires
        0 <= k < agents.len(),
    ensures
        forall|id2: Seq<char>|
            id2 != agents[k].id@ ==> (has_agent_id(agents.remove(k), id2) == has_agent_id(
                agents,
                id2,
            )),
{
    let removed = agents.remove(k);
    assert forall|id2: Seq<char>| id2 != agents[k].id@ implies (has_agent_id(removed, id2)
        == has_agent_id(agents, id2)) by {
        if has_agent_id(removed, id2) {
            let i = choose|i: int| 0 <= i < removed.len() && removed[i].id@ == id2;
            if i < k {
                assert(agents[i].id@ == id2);
            } else {
                assert(agents[i + 1].id@ == id2);
            }
            assert(has_agent_id(agents, id2));
        }
        if has_agent_id(agents, id2) {
            let i = choose|i: int| 0 <= i < agents.len() && agents[i].id@ == id2;
            if i < k {
                assert(removed[i].id@ == id2);
            } else {
                assert(i != k);
                assert(removed[i - 1].id@ == id2);
            }
            assert(has_agent_id(removed, id2));
        }
    }
}

/// Appending a record does not affect which other identifiers are present.
proof fn lemma_push_preserves_others(agents: Seq<AgentRecord>, rec: AgentRecord)
    ensures
        forall|id2: Seq<char>|
            id2 != rec.id@ ==> (has_agent_id(agents.push(rec), id2) == has_agent_id(agents, id2)),
{
    let pushed = agents.push(rec);
    assert forall|id2: Seq<char>| id2 != rec.id@ implies (has_agent_id(pushed, id2)
        == has_agent_id(agents, id2)) by {
        if has_agent_id(pushed, id2) {
            let i = choose|i: int| 0 <= i < pushed.len() && pushed[i].id@ == id2;
            assert(i < agents.len());
            assert(has_agent_id(agents, id2));
        }
        if has_agent_id(agents, id2) {
            let i = choose|i: int| 0 <= i < agents.len() && agents[i].id@ == id2;
            assert(pushed[i].id@ == id2);
            assert(has_agent_id(pushed, id2));
        }
    }
}

/// Relies on `uuid::Uuid::new_v4` and its `Display` impl: a fresh random
/// version-4 identifier rendered in the 36-character hyphenated form. The
/// value is random, so only its length is stated.
#[verifier::external_body]
fn new_agent_id() -> (r: String)
    ensures
        r@.len() == 36,
{
    uuid::Uuid::new_v4().to_string()
}

/// Relies on `which::which`: searches the execution environment's binary
/// search path for the given name. The result depends on that environment,
/// so nothing is promised of it.
#[verifier::external_body]
fn which_binary(name: &str) -> (r: Result<String, String>) {
    match which::which(name) {
        Ok(p) => Ok(p.to_string_lossy().to_string()),
        Err(e) => Err(e.to_string()),
    }
}

/// Relies on `time::OffsetDateTime::now_utc`: the current wall-clock time as
/// a Unix timestamp. The value depends on the clock, so nothing is promised
/// of it.
#[verifier::external_body]
fn now_unix_seconds() -> (r: i64) {
    time::OffsetDateTime::now_utc().unix_timestamp()
}

/// The supervisor's registry plus its configuration and counters.
pub struct AgentManagerImpl {
    pub cursor_agent_path: Option<String>,
    pub buffer_bytes: usize,
    pub agents: Vec<AgentRecord>,
    pub metrics: AgentMetrics,
}

impl AgentManagerImpl {
    /// The registry invariant: identifiers are unique, and every buffer is
    /// well-formed with the configured capacity.
    pub open spec fn wf(&self) -> bool {
        &&& distinct_ids(self.agents@)
        &&& forall|i: int|
            0 <= i < self.agents@.len() ==> (#[trigger] self.agents@[i]).buffer.wf()
                && self.agents@[i].buffer.capacity_bytes == self.buffer_bytes
    }

    pub fn new(cursor_agent_path: Option<String>, buffer_bytes: usize) -> (m: Self)
        ensures
            m.wf(),
            m.cursor_agent_path == cursor_agent_path,
            m.buffer_bytes == buffer_bytes,
            m.agents@.len() == 0,
            m.metrics.created_count == 0,
            m.metrics.stopped_count == 0,
            m.metrics.total_input_bytes == 0,
            m.metrics.total_output_bytes == 0,
    {
        AgentManagerImpl {
            cursor_agent_path,
            buffer_bytes,
            agents: Vec::new(),
            metrics: AgentMetrics {
                created_count: 0,
                stopped_count: 0,
                total_input_bytes: 0,
                total_output_bytes: 0,
            },
        }
    }

    /// The binary to spawn: an explicitly configured path wins; otherwise the
    /// execution environment's search path decides, and a miss is a spawn
    /// error.
    fn resolve_binary(&self) -> (r: Result<String, AgentError>)
        ensures
            match (&self.cursor_agent_path, &r) {
                (Some(p), Ok(q)) => q@ == p@,
                (Some(_), Err(_)) => false,
                (None, Ok(_)) => true,
                (None, Err(e)) => e matches AgentError::Spawn(_),
            },
    {
        match &self.cursor_agent_path {
            Some(p) => Ok(p.clone()),
            None => match which_binary("cursor-agent") {
                Ok(p) => Ok(p),
                Err(e) => {
                    let mut msg = String::from_str("cursor-agent not found: ");
                    msg.append(e.as_str());
                    Err(AgentError::Spawn(msg))
                },
            },
        }
    }

    /// Public face of the binary resolution.
    pub fn resolve_binary_path(&self) -> (r: Result<String, AgentError>)
        ensures
            match (&self.cursor_agent_path, &r) {
                (Some(p), Ok(q)) => q@ == p@,
                (Some(_), Err(_)) => false,
                (None, Ok(_)) => true,
                (None, Err(e)) => e matches AgentError::Spawn(_),
            },
    {
        self.resolve_binary()
    }

    /// Index of the record carrying `agent_id`, if any.
    fn find_agent(&self, agent_id: &str) -> (r: Option<usize>)
        ensures
            match r {
                Some(i) => i < self.agents@.len() && self.agents@[i as int].id@ == agent_id@,
                None => !has_agent_id(self.agents@, agent_id@),
            },
    {
        let n = self.agents.len();
        let mut i: usize = 0;
        while i < n
            invariant
                n == self.agents@.len(),
                i <= n,
                forall|j: int| 0 <= j < i ==> self.agents@[j].id@ != agent_id@,
            decreases n - i,
        {
            if str_eq(self.agents[i].id.as_str(), agent_id) {
                return Some(i);
            }
            i = i + 1;
        }
        None
    }

    /// Whether an agent with this identifier is currently registered.
    pub fn has_agent(&self, agent_id: &str) -> (r: bool)
        ensures
            r == has_agent_id(self.agents@, agent_id@),
    {
        match self.find_agent(agent_id) {
            Some(i) => {
                proof {
                    assert(has_agent_id(self.agents@, agent_id@));
                }
                true
            },
            None => false,
        }
    }

    /// Register a freshly spawned agent process under a new identifier:
    /// stores a record with an empty buffer and the original spawn
    /// configuration, and counts the creation. The caller has already
    /// spawned the process and passes its pid.
    pub fn create(&mut self, req: CreateAgentRequest, pid: u32) -> (r: CreateAgentResponse)
        requires
            old(self).wf(),
        ensures
            final(self).wf(),
            final(self).cursor_agent_path == old(self).cursor_agent_path,
            final(self).buffer_bytes == old(self).buffer_bytes,
            r.pid == pid,
            r.agent_id@.len() == 36,
            final(self).agents@.len() >= 1,
            final(self).agents@.last().id@ == r.agent_id@,
            final(self).agents@.last().name == req.name,
            final(self).agents@.last().pid == pid,
            final(self).agents@.last().orig_args == req.args,
            final(self).agents@.last().orig_env == req.env,
            final(self).agents@.last().orig_working_dir == req.working_dir,
            final(self).agents@.last().buffer.lines_view() =~= Seq::<Seq<char>>::empty(),
            has_agent_id(final(self).agents@, r.agent_id@),
            forall|id2: Seq<char>|
                id2 != r.agent_id@ ==> (has_agent_id(final(self).agents@, id2) == has_agent_id(
                    old(self).agents@,
                    id2,
                )),
            final(self).metrics.created_count == sat_add(old(self).metrics.created_count, 1),
            final(self).metrics.stopped_count == old(self).metrics.stopped_count,
            final(self).metrics.total_input_bytes == old(self).metrics.total_input_bytes,
            final(self).metrics.total_output_bytes == old(self).metrics.total_output_bytes,
    {
        let id = new_agent_id();
        let now = now_unix_seconds();
        // A colliding identifier would break the registry's uniqueness
        // invariant; replace any record that carries it.
        match self.find_agent(id.as_str()) {
            Some(i) => {
                proof {
                    lemma_remove_preserves_others(self.agents@, i as int);
                }
                let ghost pre = self.agents@;
                let _ = self.agents.remove(i);
                proof {
                    assert forall|j: int, k: int|
                        0 <= j < self.agents@.len() && 0 <= k < self.agents@.len() && j
                            != k implies self.agents@[j].id@ != self.agents@[k].id@ by {
                        assert(distinct_ids(pre));
                    }
                    assert(!has_agent_id(self.agents@, id@)) by {
                        if has_agent_id(self.agents@, id@) {
                            let x = choose|x: int|
                                0 <= x < self.agents@.len() && self.agents@[x].id@ == id@;
                            if x < i {
                                assert(pre[x].id@ == id@);
                                assert(pre[i as int].id@ == id@);
                            } else {
                                assert(pre[x + 1].id@ == id@);
                                assert(pre[i as int].id@ == id@);
                            }
                        }
                    }
                }
            },
            None => {},
        }
        let rec = AgentRecord {
            id: id.clone(),
            name: req.name,
            created_at: now,
            pid,
            buffer: AgentOutputBuffer::new(self.buffer_bytes),
            orig_args: req.args,
            orig_env: req.env,
            orig_working_dir: req.working_dir,
            last_used: now,
        };
        proof {
            lemma_push_preserves_others(self.agents@, rec);
        }
        self.agents.push(rec);
        self.metrics.created_count = bump(self.metrics.created_count);
        CreateAgentResponse { agent_id: id, pid }
    }

    /// Account for one line of input successfully written to the agent:
    /// stamps activity and counts the line's bytes plus its newline. Fails
    /// with `NotFound` when the identifier is unknown, changing nothing.
    pub fn note_input(&mut self, agent_id: &str, input_len: usize) -> (r: Result<(), AgentError>)
        requires
            old(self).wf(),
        ensures
            final(self).wf(),
            final(self).cursor_agent_path == old(self).cursor_agent_path,
            final(self).buffer_bytes == old(self).buffer_bytes,
            match r {
                Ok(_) => {
                    &&& has_agent_id(old(self).agents@, agent_id@)
                    &&& final(self).metrics.total_input_bytes == sat_add(
                        old(self).metrics.total_input_bytes,
                        input_len as nat + 1,
                    )
                    &&& final(self).metrics.created_count == old(self).metrics.created_count
                    &&& final(self).metrics.stopped_count == old(self).metrics.stopped_count
                    &&& final(self).metrics.total_output_bytes == old(self).metrics.total_output_bytes
                    &&& final(self).agents@.len() == old(self).agents@.len()
                    &&& forall|j: int|
                        0 <= j < old(self).agents@.len() ==> same_identity(
                            old(self).agents@[j],
                            final(self).agents@[j],
                        ) && final(self).agents@[j].pid == old(self).agents@[j].pid && (final(self)).agents@[j].buffer == old(self).agents@[j].buffer
                },
                Err(e) => {
                    &&& !has_agent_id(old(self).agents@, agent_id@)
                    &&& *final(self) == *old(self)
                    &&& e matches AgentError::NotFound(s) && s@ == agent_id@
                },
            },
    {
        match self.find_agent(agent_id) {
            None => Err(AgentError::NotFound(String::from_str(agent_id))),
            Some(i) => {
                proof {
                    assert(has_agent_id(self.agents@, agent_id@));
                }
                let ghost pre = self.agents@;
                let now = now_unix_seconds();
                let mut rec = self.agents.remove(i);
                rec.last_used = now;
                self.agents.insert(i, rec);
                proof {
                    assert(self.agents@ =~= pre.update(i as int, self.agents@[i as int]));
                }
                let n64 = input_len as u64;
                let with_input = if n64 > u64::MAX - self.metrics.total_input_bytes {
                    u64::MAX
                } else {
                    self.metrics.total_input_bytes + n64
                };
                self.metrics.total_input_bytes = bump(with_input);
                Ok(())
            },
        }
    }

    /// Push one captured output line into the agent's buffer, tagging lines
    /// from the error stream, stamp activity, and count the raw line's bytes
    /// plus its separator. Fails with `NotFound` when the identifier is
    /// unknown, changing nothing.
    pub fn record_output_line(&mut self, agent_id: &str, line: String, from_stderr: bool) -> (r:
        Result<(), AgentError>)
        requires
            old(self).wf(),
        ensures
            final(self).wf(),
            final(self).cursor_agent_path == old(self).cursor_agent_path,
            final(self).buffer_bytes == old(self).buffer_bytes,
            match r {
                Ok(_) => {
                    &&& has_agent_id(old(self).agents@, agent_id@)
                    &&& final(self).agents@.len() == old(self).agents@.len()
                    &&& {
                        let k = agent_index(old(self).agents@, agent_id@);
                        let stored = if from_stderr {
                            "[stderr] "@ + line@
                        } else {
                            line@
                        };
                        &&& final(self).agents@[k].buffer.lines_view() == pushed_lines(
                            old(self).agents@[k].buffer.lines_view(),
                            old(self).agents@[k].buffer.capacity_bytes as nat,
                            stored,
                        )
                        &&& same_identity(old(self).agents@[k], final(self).agents@[k])
                        &&& final(self).agents@[k].pid == old(self).agents@[k].pid
                        &&& forall|j: int|
                            0 <= j < old(self).agents@.len() && j != k ==> final(self).agents@[j]
                                == old(self).agents@[j]
                    }
                    &&& final(self).metrics.total_output_bytes == sat_add(
                        old(self).metrics.total_output_bytes,
                        crate::model::line_bytes(line@) + 1,
                    )
                    &&& final(self).metrics.created_count == old(self).metrics.created_count
                    &&& final(self).metrics.stopped_count == old(self).metrics.stopped_count
                    &&& final(self).metrics.total_input_bytes == old(self).metrics.total_input_bytes
                },
                Err(e) => {
                    &&& !has_agent_id(old(self).agents@, agent_id@)
                    &&& *final(self) == *old(self)
                    &&& e matches AgentError::NotFound(s) && s@ == agent_id@
                },
            },
    {
        match self.find_agent(agent_id) {
            None => Err(AgentError::NotFound(String::from_str(agent_id))),
            Some(i) => {
                proof {
                    lemma_agent_index_is(self.agents@, agent_id@, i as int);
                }
                let ghost pre = self.agents@;
                let line_len = line.as_str().as_bytes().len();
                let stored = if from_stderr {
                    let mut s = String::from_str("[stderr] ");
                    s.append(line.as_str());
                    s
                } else {
                    line
                };
                let now = now_unix_seconds();
                let mut rec = self.agents.remove(i);
                rec.buffer.push_line(stored);
                rec.last_used = now;
                self.agents.insert(i, rec);
                proof {
                    assert(self.agents@ =~= pre.update(i as int, self.agents@[i as int]));
                }
                let n64 = line_len as u64;
                let with_out = if n64 > u64::MAX - self.metrics.total_output_bytes {
                    u64::MAX
                } else {
                    self.metrics.total_output_bytes + n64
                };
                self.metrics.total_output_bytes = bump(with_out);
                Ok(())
            },
        }
    }

    /// Soft reset: clear the agent's buffer in place; the process, its pid
    /// and the record's identity are untouched. Fails with `NotFound` when
    /// the identifier is unknown.
    pub fn reset_soft(&mut self, agent_id: &str) -> (r: Result<(), AgentError>)
        requires
            old(self).wf(),
        ensures
            final(self).wf(),
            final(self).cursor_agent_path == old(self).cursor_agent_path,
            final(self).buffer_bytes == old(self).buffer_bytes,
            final(self).metrics == old(self).metrics,
            match r {
                Ok(_) => {
                    &&& has_agent_id(old(self).agents@, agent_id@)
                    &&& final(self).agents@.len() == old(self).agents@.len()
                    &&& {
                        let k = agent_index(old(self).agents@, agent_id@);
                        &&& same_identity(old(self).agents@[k], final(self).agents@[k])
                        &&& final(self).agents@[k].pid == old(self).agents@[k].pid
                        &&& final(self).agents@[k].last_used == old(self).agents@[k].last_used
                        &&& final(self).agents@[k].buffer.lines_view() =~= Seq::<
                            Seq<char>,
                        >::empty()
                        &&& forall|j: int|
                            0 <= j < old(self).agents@.len() && j != k ==> final(self).agents@[j]
                                == old(self).agents@[j]
                    }
                },
                Err(e) => {
                    &&& !has_agent_id(old(self).agents@, agent_id@)
                    &&& *final(self) == *old(self)
                    &&& e matches AgentError::NotFound(s) && s@ == agent_id@
                },
            },
    {
        match self.find_agent(agent_id) {
            None => Err(AgentError::NotFound(String::from_str(agent_id))),
            Some(i) => {
                proof {
                    lemma_agent_index_is(self.agents@, agent_id@, i as int);
                }
                let ghost pre = self.agents@;
                let mut rec = self.agents.remove(i);
                rec.buffer.clear();
                self.agents.insert(i, rec);
                proof {
                    assert(self.agents@ =~= pre.update(i as int, self.agents@[i as int]));
                }
                Ok(())
            },
        }
    }

    /// The original spawn configuration of an agent, for respawning an
    /// equivalent process during a hard reset. Fails with `NotFound` when
    /// the identifier is unknown.
    pub fn spawn_config(&self, agent_id: &str) -> (r: Result<CreateAgentRequest, AgentError>)
        requires
            self.wf(),
        ensures
            match r {
                Ok(cfg) => {
                    &&& has_agent_id(self.agents@, agent_id@)
                    &&& {
                        let rec = agent_rec(self.agents@, agent_id@);
                        &&& cfg.name == rec.name
                        &&& cfg.working_dir == rec.orig_working_dir
                        &&& cfg.args@ == rec.orig_args@
                        &&& cfg.env@ == rec.orig_env@
                    }
                },
                Err(e) => {
                    &&& !has_agent_id(self.agents@, agent_id@)
                    &&& e matches AgentError::NotFound(s) && s@ == agent_id@
                },
            },
    {
        match self.find_agent(agent_id) {
            None => Err(AgentError::NotFound(String::from_str(agent_id))),
            Some(i) => {
                proof {
                    lemma_agent_index_is(self.agents@, agent_id@, i as int);
                }
                let rec = &self.agents[i];
                let name = clone_opt_string(&rec.name);
                let working_dir = clone_opt_string(&rec.orig_working_dir);
                let args = clone_string_vec(&rec.orig_args);
                let env = clone_env_vec(&rec.orig_env);
                Ok(CreateAgentRequest { name, working_dir, env, args })
            },
        }
    }

    /// Complete a hard reset after the replacement process has been spawned:
    /// swap in the new pid and clear the buffer. The identifier and every
    /// other identity field are unchanged. Fails with `NotFound` when the
    /// identifier is unknown.
    pub fn complete_hard_reset(&mut self, agent_id: &str, new_pid: u32) -> (r: Result<
        (),
        AgentError,
    >)
        requires
            old(self).wf(),
        ensures
            final(self).wf(),
            final(self).cursor_agent_path == old(self).cursor_agent_path,
            final(self).buffer_bytes == old(self).buffer_bytes,
            final(self).metrics == old(self).metrics,
            match r {
                Ok(_) => {
                    &&& has_agent_id(old(self).agents@, agent_id@)
                    &&& final(self).agents@.len() == old(self).agents@.len()
                    &&& {
                        let k = agent_index(old(self).agents@, agent_id@);
                        &&& same_identity(old(self).agents@[k], final(self).agents@[k])
                        &&& final(self).agents@[k].pid == new_pid
                        &&& final(self).agents@[k].buffer.lines_view() =~= Seq::<
                            Seq<char>,
                        >::empty()
                        &&& forall|j: int|
                            0 <= j < old(self).agents@.len() && j != k ==> final(self).agents@[j]
                                == old(self).agents@[j]
                    }
                },
                Err(e) => {
                    &&& !has_agent_id(old(self).agents@, agent_id@)
                    &&& *final(self) == *old(self)
                    &&& e matches AgentError::NotFound(s) && s@ == agent_id@
                },
            },
    {
        match self.find_agent(agent_id) {
            None => Err(AgentError::NotFound(String::from_str(agent_id))),
            Some(i) => {
                proof {
                    lemma_agent_index_is(self.agents@, agent_id@, i as int);
                }
                let ghost pre = self.agents@;
                let mut rec = self.agents.remove(i);
                rec.pid = new_pid;
                rec.buffer.clear();
                self.agents.insert(i, rec);
                proof {
                    assert(self.agents@ =~= pre.update(i as int, self.agents@[i as int]));
                }
                Ok(())
            },
        }
    }

    /// Remove the agent from the registry — so no further operation can
    /// target it — and count the stop. Termination of the underlying process
    /// is the caller's best-effort follow-up; both signal intents resolve to
    /// the same forceful primitive. Fails with `NotFound` when the
    /// identifier is unknown (or already stopped).
    pub fn stop(&mut self, agent_id: &str, signal: StopSignal) -> (r: Result<(), AgentError>)
        requires
            old(self).wf(),
        ensures
            final(self).wf(),
            final(self).cursor_agent_path == old(self).cursor_agent_path,
            final(self).buffer_bytes == old(self).buffer_bytes,
            match r {
                Ok(_) => {
                    &&& has_agent_id(old(self).agents@, agent_id@)
                    &&& !has_agent_id(final(self).agents@, agent_id@)
                    &&& final(self).agents@.len() == old(self).agents@.len() - 1
                    &&& forall|id2: Seq<char>|
                        id2 != agent_id@ ==> (has_agent_id(final(self).agents@, id2)
                            == has_agent_id(old(self).agents@, id2))
                    &&& final(self).metrics.stopped_count == sat_add(
                        old(self).metrics.stopped_count,
                        1,
                    )
                    &&& final(self).metrics.created_count == old(self).metrics.created_count
                    &&& final(self).metrics.total_input_bytes == old(self).metrics.total_input_bytes
                    &&& final(self).metrics.total_output_bytes == old(self).metrics.total_output_bytes
                },
                Err(e) => {
                    &&& !has_agent_id(old(self).agents@, agent_id@)
                    &&& *final(self) == *old(self)
                    &&& e matches AgentError::NotFound(s) && s@ == agent_id@
                },
            },
    {
        match self.find_agent(agent_id) {
            None => Err(AgentError::NotFound(String::from_str(agent_id))),
            Some(i) => {
                proof {
                    lemma_agent_index_is(self.agents@, agent_id@, i as int);
                    lemma_remove_preserves_others(self.agents@, i as int);
                }
                let ghost pre = self.agents@;
                let _ = self.agents.remove(i);
                proof {
                    assert forall|j: int, k: int|
                        0 <= j < self.agents@.len() && 0 <= k < self.agents@.len() && j
                            != k implies self.agents@[j].id@ != self.agents@[k].id@ by {
                        assert(distinct_ids(pre));
                    }
                    assert(!has_agent_id(self.agents@, agent_id@)) by {
                        if has_agent_id(self.agents@, agent_id@) {
                            let x = choose|x: int|
                                0 <= x < self.agents@.len() && self.agents@[x].id@ == agent_id@;
                            if x < i {
                                assert(pre[x].id@ == agent_id@);
                                assert(pre[i as int].id@ == agent_id@);
                            } else {
                                assert(pre[x + 1].id@ == agent_id@);
                                assert(pre[i as int].id@ == agent_id@);
                            }
                        }
                    }
                }
                self.metrics.stopped_count = bump(self.metrics.stopped_count);
                Ok(())
            },
        }
    }

    /// Snapshot every registered agent: identifier, name, pid, creation
    /// time, and the constant "running" status.
    pub fn list(&self) -> (r: Vec<AgentInfo>)
        ensures
            r@.len() == self.agents@.len(),
            forall|i: int|
                0 <= i < r@.len() ==> {
                    &&& (#[trigger] r@[i]).agent_id@ == self.agents@[i].id@
                    &&& r@[i].name == self.agents@[i].name
                    &&& r@[i].pid == self.agents@[i].pid
                    &&& r@[i].created_at == self.agents@[i].created_at
                    &&& r@[i].status@ == "running"@
                },
    {
        let mut r: Vec<AgentInfo> = Vec::new();
        let n = self.agents.len();
        let mut i: usize = 0;
        while i < n
            invariant
                n == self.agents@.len(),
                i <= n,
                r@.len() == i,
                forall|j: int|
                    0 <= j < i ==> {
                        &&& (#[trigger] r@[j]).agent_id@ == self.agents@[j].id@
                        &&& r@[j].name == self.agents@[j].name
                        &&& r@[j].pid == self.agents@[j].pid
                        &&& r@[j].created_at == self.agents@[j].created_at
                        &&& r@[j].status@ == "running"@
                    },
            decreases n - i,
        {
            let rec = &self.agents[i];
            let info = AgentInfo {
                agent_id: rec.id.clone(),
                name: clone_opt_string(&rec.name),
                pid: rec.pid,
                created_at: rec.created_at,
                status: String::from_str("running"),
            };
            r.push(info);
            i = i + 1;
        }
        r
    }

    /// The full reading of the agent's output buffer. Fails with `NotFound`
    /// when the identifier is unknown.
    pub fn get_buffer(&self, agent_id: &str) -> (r: Result<String, AgentError>)
        requires
            self.wf(),
        ensures
            match r {
                Ok(s) => {
                    &&& has_agent_id(self.agents@, agent_id@)
                    &&& s@ == concat_lines(agent_rec(self.agents@, agent_id@).buffer.lines_view())
                },
                Err(e) => {
                    &&& !has_agent_id(self.agents@, agent_id@)
                    &&& e matches AgentError::NotFound(s) && s@ == agent_id@
                },
            },
    {
        match self.find_agent(agent_id) {
            None => Err(AgentError::NotFound(String::from_str(agent_id))),
            Some(i) => {
                proof {
                    lemma_agent_index_is(self.agents@, agent_id@, i as int);
                }
                Ok(self.agents[i].buffer.concat())
            },
        }
    }

    /// Read all four cumulative counters plus the registry size; no side
    /// effects.
    pub fn metrics_snapshot(&self) -> (r: AgentMetricsSnapshot)
        ensures
            r.created_count == self.metrics.created_count,
            r.stopped_count == self.metrics.stopped_count,
            r.active_count == self.agents@.len(),
            r.total_input_bytes == self.metrics.total_input_bytes,
            r.total_output_bytes == self.metrics.total_output_bytes,
    {
        AgentMetricsSnapshot {
            created_count: self.metrics.created_count,
            stopped_count: self.metrics.stopped_count,
            active_count: self.agents.len() as u64,
            total_input_bytes: self.metrics.total_input_bytes,
            total_output_bytes: self.metrics.total_output_bytes,
        }
    }

    /// The identifiers of every registered agent, oldest first.
    pub fn agent_ids(&self) -> (r: Vec<String>)
        ensures
            r@.len() == self.agents@.len(),
            forall|i: int| 0 <= i < r@.len() ==> (#[trigger] r@[i])@ == self.agents@[i].id@,
    {
        let mut r: Vec<String> = Vec::new();
        let n = self.agents.len();
        let mut i: usize = 0;
        while i < n
            invariant
                n == self.agents@.len(),
                i <= n,
                r@.len() == i,
                forall|j: int| 0 <= j < i ==> (#[trigger] r@[j])@ == self.agents@[j].id@,
            decreases n - i,
        {
            r.push(self.agents[i].id.clone());
            i = i + 1;
        }
        r
    }
}

/// `c + 1`, saturating at `u64::MAX`.
fn bump(c: u64) -> (r: u64)
    ensures
        r == sat_add(c, 1),
{
    if c == u64::MAX {
        c
    } else {
        c + 1
    }
}

fn clone_opt_string(o: &Option<String>) -> (r: Option<String>)
    ensures
        r == o,
{
    match o {
        Some(s) => Some(s.clone()),
        None => None,
    }
}

fn clone_string_vec(v: &Vec<String>) -> (r: Vec<String>)
    ensures
        r@ == v@,
{
    let mut r: Vec<String> = Vec::new();
    let n = v.len();
    let mut i: usize = 0;
    while i < n
        invariant
            n == v@.len(),
            i <= n,
            r@ =~= v@.take(i as int),
        decreases n - i,
    {
        r.push(v[i].clone());
        proof {
            assert(r@ =~= v@.take(i + 1));
        }
        i = i + 1;
    }
    proof {
        assert(v@.take(n as int) =~= v@);
    }
    r
}

fn clone_env_vec(v: &Vec<(String, String)>) -> (r: Vec<(String, String)>)
    ensures
        r@ == v@,
{
    let mut r: Vec<(String, String)> = Vec::new();
    let n = v.len();
    let mut i: usize = 0;
    while i < n
        invariant
            n == v@.len(),
            i <= n,
            r@ =~= v@.take(i as int),
        decreases n - i,
    {
        let pair = &v[i];
        r.push((pair.0.clone(), pair.1.clone()));
        proof {
            assert((pair.0, pair.1) == v@[i as int]);
            assert(r@ =~= v@.take(i + 1));
        }
        i = i + 1;
    }
    proof {
        assert(v@.take(n as int) =~= v@);
    }
    r
}

} // verus!
