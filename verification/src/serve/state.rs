//! What the routes of the server share: who is attached, what the health report says, and
//! how long a peer waits after a bad token.

use vstd::prelude::*;
use vstd::string::*;

use crate::serve::auth::{AuthError, Claims, plausible_token, token_shape_is_plausible};
use crate::serve::session::SessionMeta;
use crate::serve::token::AuthConfig;
use crate::serve::wire::{ControlFrame, LogFrame};
use crate::text::{same, texts};

verus! {

/// How many signatures are verified at once.
pub const VERIFY_CONCURRENCY: usize = 4;

/// How long a peer waits after a first bad token, in milliseconds.
pub const AUTH_FAILURE_DELAY_MS: u64 = 250;

/// By how much that is multiplied at most.
pub const AUTH_PENALTY_MAX_STEPS: u32 = 8;

/// A streak of bad tokens is forgotten after this many milliseconds without one.
pub const AUTH_PENALTY_RESET_MS: u64 = 60_000;

/// How many peers with a streak are remembered.
pub const AUTH_PENALTY_PEERS: usize = 1024;

/// The address of a peer.
#[derive(Debug, Clone, Copy, PartialEq, Eq, Structural)]
pub enum Peer {
    V4(u32),
    V6(u128),
}

impl Peer {
    /// An address of the machine itself.
    pub open spec fn loopback(self) -> bool {
        match self {
            Peer::V4(a) => 0x7f00_0000 <= a <= 0x7fff_ffff,
            Peer::V6(a) => a == 1,
        }
    }

    /// Whether this is an address of the machine itself.
    pub fn is_loopback(&self) -> (r: bool)
        ensures
            r == self.loopback(),
    {
        match self {
            Peer::V4(a) => 0x7f00_0000 <= *a && *a <= 0x7fff_ffff,
            Peer::V6(a) => *a == 1,
        }
    }
}

/// A streak of bad tokens of one peer.
#[derive(Debug, Clone, Copy)]
pub struct PeerPenalty {
    pub peer: Peer,
    pub consecutive_failures: u32,
    /// When the last one came, in milliseconds.
    pub last_failure: u64,
}

/// The time since an earlier moment; none where that is in the future.
pub open spec fn elapsed(now: u64, earlier: u64) -> int {
    if now > earlier {
        now - earlier
    } else {
        0
    }
}

/// The place of a peer's streak, or the number of streaks.
pub open spec fn streak_place(table: Seq<PeerPenalty>, peer: Peer) -> int
    decreases table.len(),
{
    if table.len() == 0 || table[0].peer == peer {
        0
    } else {
        1 + streak_place(table.skip(1), peer)
    }
}

/// Whether a peer has a streak.
pub open spec fn has_streak(table: Seq<PeerPenalty>, peer: Peer) -> bool {
    streak_place(table, peer) < table.len()
}

/// How many bad tokens a peer sent in a row, as of now.
pub open spec fn streak(table: Seq<PeerPenalty>, peer: Peer, now: u64) -> u32 {
    let k = streak_place(table, peer);
    if k < table.len() && elapsed(now, table[k].last_failure) < AUTH_PENALTY_RESET_MS {
        table[k].consecutive_failures
    } else {
        0
    }
}

/// The streaks that are not forgotten yet.
pub open spec fn live(table: Seq<PeerPenalty>, now: u64) -> Seq<PeerPenalty>
    decreases table.len(),
{
    if table.len() == 0 {
        Seq::empty()
    } else {
        let rest = live(table.drop_last(), now);
        if elapsed(now, table.last().last_failure) < AUTH_PENALTY_RESET_MS {
            rest.push(table.last())
        } else {
            rest
        }
    }
}

/// The place of the first of the oldest streaks.
pub open spec fn oldest(table: Seq<PeerPenalty>) -> int
    decreases table.len(),
{
    if table.len() <= 1 {
        0
    } else {
        let k = oldest(table.drop_last());
        if table.last().last_failure < table[k].last_failure {
            table.len() - 1
        } else {
            k
        }
    }
}

/// The table with room for one more: streaks that are over go first, and if that is not
/// enough the oldest goes.
pub open spec fn with_room(table: Seq<PeerPenalty>, now: u64) -> Seq<PeerPenalty> {
    let rest = live(table, now);
    if rest.len() >= AUTH_PENALTY_PEERS {
        rest.remove(oldest(rest))
    } else {
        rest
    }
}

/// One more in a row.
pub open spec fn one_more(failures: u32) -> u32 {
    if failures == u32::MAX {
        u32::MAX
    } else {
        (failures + 1) as u32
    }
}

/// The table after a bad token of a peer.
pub open spec fn after_failure(table: Seq<PeerPenalty>, peer: Peer, now: u64) -> Seq<PeerPenalty> {
    let entry = PeerPenalty {
        peer,
        consecutive_failures: one_more(streak(table, peer, now)),
        last_failure: now,
    };
    if has_streak(table, peer) {
        table.update(streak_place(table, peer), entry)
    } else if table.len() >= AUTH_PENALTY_PEERS {
        with_room(table, now).push(entry)
    } else {
        table.push(entry)
    }
}

/// The table without a peer's streak.
pub open spec fn without(table: Seq<PeerPenalty>, peer: Peer) -> Seq<PeerPenalty> {
    if has_streak(table, peer) {
        table.remove(streak_place(table, peer))
    } else {
        table
    }
}

/// How long a peer waits after this many bad tokens in a row, in milliseconds.
pub open spec fn penalty_ms(failures: u32) -> int {
    AUTH_FAILURE_DELAY_MS * if failures < AUTH_PENALTY_MAX_STEPS {
        failures as int
    } else {
        AUTH_PENALTY_MAX_STEPS as int
    }
}

/// No peer has two streaks.
pub open spec fn distinct_peers(table: Seq<PeerPenalty>) -> bool {
    forall|i: int, j: int|
        0 <= i < j < table.len() ==> (#[trigger] table[i]).peer != (#[trigger] table[j]).peer
}

/// A table that is within its limit and has one streak for a peer at most.
pub open spec fn table_ok(table: Seq<PeerPenalty>) -> bool {
    table.len() <= AUTH_PENALTY_PEERS && distinct_peers(table)
}

proof fn lemma_streak_place(table: Seq<PeerPenalty>, peer: Peer)
    ensures
        0 <= streak_place(table, peer) <= table.len(),
        streak_place(table, peer) < table.len() ==> table[streak_place(table, peer)].peer == peer,
        forall|i: int| 0 <= i < streak_place(table, peer) ==> (#[trigger] table[i]).peer != peer,
    decreases table.len(),
{
    if table.len() > 0 && table[0].peer != peer {
        lemma_streak_place(table.skip(1), peer);
        assert forall|i: int| 0 <= i < streak_place(table, peer) implies (#[trigger] table[i]).peer
            != peer by {
            if i > 0 {
                assert(table[i] == table.skip(1)[i - 1]);
            }
        }
    }
}

proof fn lemma_streak_place_is(table: Seq<PeerPenalty>, peer: Peer, k: int)
    requires
        0 <= k <= table.len(),
        k < table.len() ==> table[k].peer == peer,
        forall|i: int| 0 <= i < k ==> (#[trigger] table[i]).peer != peer,
    ensures
        streak_place(table, peer) == k,
    decreases k,
{
    if k > 0 {
        assert forall|i: int| 0 <= i < k - 1 implies (#[trigger] table.skip(1)[i]).peer != peer by {
            assert(table[i + 1].peer != peer);
        }
        lemma_streak_place_is(table.skip(1), peer, k - 1);
    }
}

proof fn lemma_live(table: Seq<PeerPenalty>, now: u64)
    ensures
        live(table, now).len() <= table.len(),
        forall|i: int|
            0 <= i < live(table, now).len() ==> table.contains(#[trigger] live(table, now)[i])
                && elapsed(now, live(table, now)[i].last_failure) < AUTH_PENALTY_RESET_MS,
        distinct_peers(table) ==> distinct_peers(live(table, now)),
    decreases table.len(),
{
    if table.len() > 0 {
        let front = table.drop_last();
        lemma_live(front, now);
        let rest = live(front, now);
        let all = live(table, now);
        assert forall|i: int| 0 <= i < all.len() implies table.contains(#[trigger] all[i])
            && elapsed(now, all[i].last_failure) < AUTH_PENALTY_RESET_MS by {
            if i < rest.len() {
                assert(all[i] == rest[i]);
                let j = choose|j: int| 0 <= j < front.len() && front[j] == rest[i];
                assert(table[j] == rest[i]);
            } else {
                assert(table[table.len() - 1] == all[i]);
            }
        }
        if distinct_peers(table) {
            assert forall|i: int, j: int| 0 <= i < j < front.len() implies (
            #[trigger] front[i]).peer != (#[trigger] front[j]).peer by {
                assert(table[i].peer != table[j].peer);
            }
            assert forall|i: int, j: int| 0 <= i < j < all.len() implies (#[trigger] all[i]).peer
                != (#[trigger] all[j]).peer by {
                assert(all[i] == rest[i]);
                if j < rest.len() {
                    assert(all[j] == rest[j]);
                } else {
                    let k = choose|k: int| 0 <= k < front.len() && front[k] == rest[i];
                    assert(table[k].peer != table[table.len() - 1].peer);
                }
            }
        }
    }
}

proof fn lemma_oldest(table: Seq<PeerPenalty>)
    requires
        table.len() > 0,
    ensures
        0 <= oldest(table) < table.len(),
        forall|i: int|
            0 <= i < table.len() ==> table[oldest(table)].last_failure <= (
            #[trigger] table[i]).last_failure,
    decreases table.len(),
{
    if table.len() > 1 {
        lemma_oldest(table.drop_last());
        let k = oldest(table.drop_last());
        assert forall|i: int| 0 <= i < table.len() implies table[oldest(table)].last_failure <= (
        #[trigger] table[i]).last_failure by {
            if i < table.len() - 1 {
                assert(table.drop_last()[i] == table[i]);
            }
        }
    }
}

proof fn lemma_remove_distinct(table: Seq<PeerPenalty>, k: int)
    requires
        distinct_peers(table),
        0 <= k < table.len(),
    ensures
        distinct_peers(table.remove(k)),
{
    let after = table.remove(k);
    assert forall|i: int, j: int| 0 <= i < j < after.len() implies (#[trigger] after[i]).peer != (
    #[trigger] after[j]).peer by {
        let a = if i < k {
            i
        } else {
            i + 1
        };
        let b = if j < k {
            j
        } else {
            j + 1
        };
        assert(after[i] == table[a]);
        assert(after[j] == table[b]);
    }
}

/// Room is made for one more streak, without a peer that had none getting one.
proof fn lemma_with_room(table: Seq<PeerPenalty>, now: u64, peer: Peer)
    requires
        table_ok(table),
        !has_streak(table, peer),
    ensures
        with_room(table, now).len() < AUTH_PENALTY_PEERS,
        distinct_peers(with_room(table, now)),
        forall|i: int|
            0 <= i < with_room(table, now).len() ==> (#[trigger] with_room(table, now)[i]).peer
                != peer,
{
    lemma_live(table, now);
    lemma_streak_place(table, peer);
    let rest = live(table, now);
    if rest.len() >= AUTH_PENALTY_PEERS {
        lemma_oldest(rest);
        lemma_remove_distinct(rest, oldest(rest));
    }
    let t = with_room(table, now);
    assert forall|i: int| 0 <= i < t.len() implies (#[trigger] t[i]).peer != peer by {
        let j = if rest.len() >= AUTH_PENALTY_PEERS && i >= oldest(rest) {
            i + 1
        } else {
            i
        };
        assert(t[i] == rest[j]);
        assert(table.contains(rest[j]));
        let k = choose|k: int| 0 <= k < table.len() && table[k] == rest[j];
        assert(table[k].peer != peer);
    }
}

/// The streaks of bad tokens.
pub struct Penalties {
    pub table: Vec<PeerPenalty>,
}

impl Penalties {
    pub open spec fn wf(self) -> bool {
        table_ok(self.table@)
    }

    /// No streaks.
    pub fn new() -> (r: Penalties)
        ensures
            r.wf(),
            r.table@.len() == 0,
    {
        Penalties { table: Vec::new() }
    }

    fn find(&self, peer: Peer) -> (k: usize)
        ensures
            k == streak_place(self.table@, peer),
            k <= self.table@.len(),
    {
        let mut k: usize = 0;
        while k < self.table.len() && self.table[k].peer != peer
            invariant
                k <= self.table@.len(),
                forall|i: int| 0 <= i < k ==> (#[trigger] self.table@[i]).peer != peer,
            decreases self.table@.len() - k,
        {
            k = k + 1;
        }
        proof {
            lemma_streak_place_is(self.table@, peer, k as int);
        }
        k
    }

    /// Forgets a peer's streak.
    pub fn clear_penalty(&mut self, peer: Peer)
        requires
            old(self).wf(),
        ensures
            final(self).wf(),
            final(self).table@ == without(old(self).table@, peer),
    {
        let k = self.find(peer);
        if k < self.table.len() {
            proof {
                lemma_remove_distinct(self.table@, k as int);
            }
            let _ = self.table.remove(k);
        }
    }

    fn make_room(&mut self, now: u64)
        requires
            old(self).wf(),
        ensures
            final(self).table@ == with_room(old(self).table@, now),
    {
        let ghost all = self.table@;
        let mut rest: Vec<PeerPenalty> = Vec::new();
        let mut i: usize = 0;
        while i < self.table.len()
            invariant
                i <= self.table@.len(),
                self.table@ == all,
                rest@ == live(all.take(i as int), now),
            decreases self.table@.len() - i,
        {
            proof {
                assert(all.take(i + 1).drop_last() =~= all.take(i as int));
            }
            let entry = self.table[i];
            if now.saturating_sub(entry.last_failure) < AUTH_PENALTY_RESET_MS {
                rest.push(entry);
            }
            i = i + 1;
        }
        proof {
            assert(all.take(i as int) =~= all);
        }
        if rest.len() >= AUTH_PENALTY_PEERS {
            let ghost r = rest@;
            let mut k: usize = 0;
            let mut j: usize = 1;
            proof {
                assert(r.take(1).len() == 1);
            }
            while j < rest.len()
                invariant
                    1 <= j <= rest@.len(),
                    rest@ == r,
                    k == oldest(r.take(j as int)),
                    k < j,
                decreases rest@.len() - j,
            {
                proof {
                    assert(r.take(j + 1).drop_last() =~= r.take(j as int));
                }
                if rest[j].last_failure < rest[k].last_failure {
                    k = j;
                }
                j = j + 1;
            }
            proof {
                assert(r.take(j as int) =~= r);
            }
            let _ = rest.remove(k);
        }
        self.table = rest;
    }

    /// Notes a bad token of a peer. Returns how long the peer waits, in milliseconds.
    pub fn record_failure(&mut self, peer: Peer, now: u64) -> (r: u64)
        requires
            old(self).wf(),
        ensures
            final(self).wf(),
            final(self).table@ == after_failure(old(self).table@, peer, now),
            r == penalty_ms(one_more(streak(old(self).table@, peer, now))),
    {
        let ghost before = self.table@;
        let k = self.find(peer);
        let known = k < self.table.len();
        let mut failures: u32 = 0;
        if known && now.saturating_sub(self.table[k].last_failure) < AUTH_PENALTY_RESET_MS {
            failures = self.table[k].consecutive_failures;
        }
        failures = failures.saturating_add(1);
        let entry = PeerPenalty { peer, consecutive_failures: failures, last_failure: now };
        if known {
            self.table.set(k, entry);
            proof {
                lemma_streak_place(before, peer);
                assert(self.table@ =~= after_failure(before, peer, now));
                assert forall|i: int, j: int| 0 <= i < j < self.table@.len() implies (
                #[trigger] self.table@[i]).peer != (#[trigger] self.table@[j]).peer by {
                    assert(before[i].peer != before[j].peer);
                }
            }
        } else {
            proof {
                lemma_with_room(before, now, peer);
                lemma_streak_place(before, peer);
            }
            if self.table.len() >= AUTH_PENALTY_PEERS {
                self.make_room(now);
            }
            self.table.push(entry);
            proof {
                assert(self.table@ =~= after_failure(before, peer, now));
            }
        }
        let steps: u32 = if failures < AUTH_PENALTY_MAX_STEPS {
            failures
        } else {
            AUTH_PENALTY_MAX_STEPS
        };
        AUTH_FAILURE_DELAY_MS * steps as u64
    }
}

/// How the server was started.
pub struct ServeConfig {
    pub build: String,
    pub version: String,
    pub workspace_id: String,
    /// Exactly these origins may ask from elsewhere; none means no check.
    pub allowed_origins: Vec<String>,
    /// The build that a client must fit.
    pub client_build: Option<String>,
}

/// The report on the state of the server.
#[derive(Debug)]
pub struct HealthResponse {
    pub build: String,
    pub version: String,
    pub uptime_secs: u64,
    pub workspace_id: String,
    /// Whether a client is attached.
    pub session_active: bool,
    /// An attached session.
    pub session: Option<SessionMeta>,
    /// When the user last did something, in unix milliseconds.
    pub last_input_at: Option<u64>,
    pub worktrees: Option<Vec<String>>,
    /// How many files have unsaved edits.
    pub dirty_buffers: Option<u32>,
    /// How many tokens were refused.
    pub auth_failures: Option<u64>,
}

/// What the routes share. `L` is where log records of a session go.
pub struct ServeState<L> {
    /// When the server started, in milliseconds.
    pub started_at_ms: u64,
    pub build: String,
    pub version: String,
    pub workspace_id: String,
    pub allowed_origins: Vec<String>,
    pub client_build: Option<String>,
    pub auth_failures: u64,
    pub penalties: Penalties,
    pub sessions: Vec<SessionMeta>,
    /// Zero where the user has done nothing yet.
    pub last_input_at_ms: u64,
    pub worktrees: Vec<String>,
    pub dirty_buffers: u32,
    pub log_frame_sinks: Vec<(String, L)>,
    pub pending_connections: usize,
}

/// The place of the session with this id, or the number of sessions.
pub open spec fn session_place(sessions: Seq<SessionMeta>, id: Seq<char>) -> int
    decreases sessions.len(),
{
    if sessions.len() == 0 || sessions[0].session_id@ == id {
        0
    } else {
        1 + session_place(sessions.skip(1), id)
    }
}

/// The sessions with one more, in the place of one with the same id.
pub open spec fn with_session(sessions: Seq<SessionMeta>, meta: SessionMeta) -> Seq<SessionMeta> {
    let k = session_place(sessions, meta.session_id@);
    if k < sessions.len() {
        sessions.update(k, meta)
    } else {
        sessions.push(meta)
    }
}

/// The sessions without the one with this id.
pub open spec fn without_session(sessions: Seq<SessionMeta>, id: Seq<char>) -> Seq<SessionMeta> {
    let k = session_place(sessions, id);
    if k < sessions.len() {
        sessions.remove(k)
    } else {
        sessions
    }
}

/// The session that log records belong to: the only one, if there is exactly one.
pub open spec fn log_session(sessions: Seq<SessionMeta>) -> Option<(Seq<char>, u64)> {
    if sessions.len() == 1 {
        Some((sessions[0].session_id@, sessions[0].epoch))
    } else {
        None
    }
}

/// No two sessions have the same id.
pub open spec fn distinct_sessions(sessions: Seq<SessionMeta>) -> bool {
    forall|i: int, j: int|
        0 <= i < j < sessions.len() ==> (#[trigger] sessions[i]).session_id@ != (
        #[trigger] sessions[j]).session_id@
}

proof fn lemma_session_place(sessions: Seq<SessionMeta>, id: Seq<char>)
    ensures
        0 <= session_place(sessions, id) <= sessions.len(),
        session_place(sessions, id) < sessions.len() ==> sessions[session_place(
            sessions,
            id,
        )].session_id@ == id,
        forall|i: int|
            0 <= i < session_place(sessions, id) ==> (#[trigger] sessions[i]).session_id@ != id,
    decreases sessions.len(),
{
    if sessions.len() > 0 && sessions[0].session_id@ != id {
        lemma_session_place(sessions.skip(1), id);
        assert forall|i: int| 0 <= i < session_place(sessions, id) implies (
        #[trigger] sessions[i]).session_id@ != id by {
            if i > 0 {
                assert(sessions[i] == sessions.skip(1)[i - 1]);
            }
        }
    }
}

proof fn lemma_session_place_is(sessions: Seq<SessionMeta>, id: Seq<char>, k: int)
    requires
        0 <= k <= sessions.len(),
        k < sessions.len() ==> sessions[k].session_id@ == id,
        forall|i: int| 0 <= i < k ==> (#[trigger] sessions[i]).session_id@ != id,
    ensures
        session_place(sessions, id) == k,
    decreases k,
{
    if k > 0 {
        assert forall|i: int| 0 <= i < k - 1 implies (#[trigger] sessions.skip(1)[i]).session_id@
            != id by {
            assert(sessions[i + 1].session_id@ != id);
        }
        lemma_session_place_is(sessions.skip(1), id, k - 1);
    }
}

/// The sinks without the one of this session.
pub open spec fn without_sink<L>(sinks: Seq<(String, L)>, id: Seq<char>) -> Seq<(String, L)>
    decreases sinks.len(),
{
    if sinks.len() == 0 {
        Seq::empty()
    } else {
        let rest = without_sink(sinks.drop_last(), id);
        if sinks.last().0@ == id {
            rest
        } else {
            rest.push(sinks.last())
        }
    }
}

impl<L> ServeState<L> {
    pub open spec fn wf(self) -> bool {
        self.penalties.wf() && distinct_sessions(self.sessions@)
    }

    /// The state of a server that starts now.
    pub fn new(config: ServeConfig, started_at_ms: u64) -> (r: ServeState<L>)
        ensures
            r.wf(),
            r.started_at_ms == started_at_ms,
            r.build == config.build,
            r.version == config.version,
            r.workspace_id == config.workspace_id,
            r.allowed_origins == config.allowed_origins,
            r.client_build == config.client_build,
            r.auth_failures == 0,
            r.penalties.table@.len() == 0,
            r.sessions@.len() == 0,
            r.last_input_at_ms == 0,
            r.worktrees@.len() == 0,
            r.dirty_buffers == 0,
            r.log_frame_sinks@.len() == 0,
            r.pending_connections == 0,
    {
        ServeState {
            started_at_ms,
            build: config.build,
            version: config.version,
            workspace_id: config.workspace_id,
            allowed_origins: config.allowed_origins,
            client_build: config.client_build,
            auth_failures: 0,
            penalties: Penalties::new(),
            sessions: Vec::new(),
            last_input_at_ms: 0,
            worktrees: Vec::new(),
            dirty_buffers: 0,
            log_frame_sinks: Vec::new(),
            pending_connections: 0,
        }
    }

    /// Notes that the user did something now.
    pub fn touch_input(&mut self, now_ms: u64)
        ensures
            *final(self) == (ServeState { last_input_at_ms: now_ms, ..*old(self) }),
    {
        self.last_input_at_ms = now_ms;
    }

    /// When the user last did something.
    pub open spec fn input_time(self) -> Option<u64> {
        if self.last_input_at_ms == 0 {
            None
        } else {
            Some(self.last_input_at_ms)
        }
    }

    /// When the user last did something.
    pub fn last_input_at(&self) -> (r: Option<u64>)
        ensures
            r == self.input_time(),
    {
        if self.last_input_at_ms == 0 {
            None
        } else {
            Some(self.last_input_at_ms)
        }
    }

    fn log_session(&self) -> (r: Option<(String, u64)>)
        ensures
            match r {
                Some((id, epoch)) => log_session(self.sessions@) == Some((id@, epoch)),
                None => log_session(self.sessions@) is None,
            },
    {
        if self.sessions.len() == 1 {
            Some((self.sessions[0].session_id.clone(), self.sessions[0].epoch))
        } else {
            None
        }
    }

    fn find_session(&self, id: &str) -> (k: usize)
        ensures
            k == session_place(self.sessions@, id@),
            k <= self.sessions@.len(),
    {
        let mut k: usize = 0;
        while k < self.sessions.len() && !same(self.sessions[k].session_id.as_str(), id)
            invariant
                k <= self.sessions@.len(),
                forall|i: int| 0 <= i < k ==> (#[trigger] self.sessions@[i]).session_id@ != id@,
            decreases self.sessions@.len() - k,
        {
            k = k + 1;
        }
        proof {
            lemma_session_place_is(self.sessions@, id@, k as int);
        }
        k
    }

    /// Notes an attached session, or that there is none. Returns the session that log
    /// records belong to from now on.
    pub fn set_session(&mut self, meta: Option<SessionMeta>) -> (r: Option<(String, u64)>)
        requires
            old(self).wf(),
        ensures
            final(self).wf(),
            final(self).sessions@ == match meta {
                Some(meta) => with_session(old(self).sessions@, meta),
                None => Seq::empty(),
            },
            *final(self) == (ServeState { sessions: final(self).sessions, ..*old(self) }),
            match r {
                Some((id, epoch)) => log_session(final(self).sessions@) == Some((id@, epoch)),
                None => log_session(final(self).sessions@) is None,
            },
    {
        let ghost before = self.sessions@;
        match meta {
            Some(meta) => {
                let k = self.find_session(meta.session_id.as_str());
                proof {
                    lemma_session_place(before, meta.session_id@);
                }
                if k < self.sessions.len() {
                    self.sessions.set(k, meta);
                } else {
                    self.sessions.push(meta);
                }
                proof {
                    assert(self.sessions@ =~= with_session(before, meta));
                    assert forall|i: int, j: int| 0 <= i < j < self.sessions@.len() implies (
                    #[trigger] self.sessions@[i]).session_id@ != (
                    #[trigger] self.sessions@[j]).session_id@ by {
                        if j < before.len() {
                            assert(before[i].session_id@ != before[j].session_id@);
                        }
                    }
                }
            },
            None => {
                self.sessions = Vec::new();
                proof {
                    assert(self.sessions@ =~= Seq::<SessionMeta>::empty());
                }
            },
        }
        self.log_session()
    }

    /// Notes that a session has ended. Returns the session that log records belong to from
    /// now on.
    pub fn remove_session(&mut self, session_id: &str) -> (r: Option<(String, u64)>)
        requires
            old(self).wf(),
        ensures
            final(self).wf(),
            final(self).sessions@ == without_session(old(self).sessions@, session_id@),
            *final(self) == (ServeState { sessions: final(self).sessions, ..*old(self) }),
            match r {
                Some((id, epoch)) => log_session(final(self).sessions@) == Some((id@, epoch)),
                None => log_session(final(self).sessions@) is None,
            },
    {
        let ghost before = self.sessions@;
        let k = self.find_session(session_id);
        if k < self.sessions.len() {
            let _ = self.sessions.remove(k);
            proof {
                assert forall|i: int, j: int| 0 <= i < j < self.sessions@.len() implies (
                #[trigger] self.sessions@[i]).session_id@ != (
                #[trigger] self.sessions@[j]).session_id@ by {
                    let a = if i < k {
                        i
                    } else {
                        i + 1
                    };
                    let b = if j < k {
                        j
                    } else {
                        j + 1
                    };
                    assert(before[a].session_id@ != before[b].session_id@);
                }
            }
        }
        self.log_session()
    }

    /// An attached session: the one that attached first.
    pub fn session(&self) -> (r: Option<SessionMeta>)
        ensures
            r == if self.sessions@.len() == 0 {
                None
            } else {
                Some(self.sessions@[0])
            },
    {
        if self.sessions.len() == 0 {
            None
        } else {
            Some(self.sessions[0].clone())
        }
    }

    /// Notes the directories that are open.
    pub fn set_worktrees(&mut self, roots: Vec<String>)
        ensures
            *final(self) == (ServeState { worktrees: roots, ..*old(self) }),
    {
        self.worktrees = roots;
    }

    /// Notes how many files have unsaved edits.
    pub fn set_dirty_buffers(&mut self, count: u32)
        ensures
            *final(self) == (ServeState { dirty_buffers: count, ..*old(self) }),
    {
        self.dirty_buffers = count;
    }

    /// How many tokens were refused.
    pub fn auth_failures(&self) -> (r: u64)
        ensures
            r == self.auth_failures,
    {
        self.auth_failures
    }

    /// Whether an answer says how the server is.
    pub open spec fn reported(self, full: bool, now_ms: u64, r: HealthResponse) -> bool {
        &&& r.build == self.build
        &&& r.version == self.version
        &&& r.uptime_secs == elapsed(now_ms, self.started_at_ms) / 1000
        &&& r.workspace_id == self.workspace_id
        &&& r.session_active == (self.sessions@.len() > 0)
        &&& if full {
            &&& r.session == if self.sessions@.len() == 0 {
                None
            } else {
                Some(self.sessions@[0])
            }
            &&& r.last_input_at == self.input_time()
            &&& r.worktrees is Some
            &&& texts(r.worktrees->0@) == texts(self.worktrees@)
            &&& r.dirty_buffers == Some(self.dirty_buffers)
            &&& r.auth_failures == Some(self.auth_failures)
        } else {
            &&& r.session is None
            &&& r.last_input_at is None
            &&& r.worktrees is None
            &&& r.dirty_buffers is None
            &&& r.auth_failures is None
        }
    }

    /// The report on the state of the server; `full` adds what only the machine itself and
    /// those with a token may see.
    pub fn health(&self, full: bool, now_ms: u64) -> (r: HealthResponse)
        ensures
            self.reported(full, now_ms, r),
    {
        let session = self.session();
        let session_active = session.is_some();
        let mut worktrees: Vec<String> = Vec::new();
        let mut i: usize = 0;
        while i < self.worktrees.len()
            invariant
                i <= self.worktrees@.len(),
                worktrees@.len() == i,
                forall|j: int| 0 <= j < i ==> (#[trigger] worktrees@[j])@ == self.worktrees@[j]@,
            decreases self.worktrees@.len() - i,
        {
            worktrees.push(self.worktrees[i].clone());
            i = i + 1;
        }
        proof {
            assert(texts(worktrees@) =~= texts(self.worktrees@));
        }
        HealthResponse {
            build: self.build.clone(),
            version: self.version.clone(),
            uptime_secs: now_ms.saturating_sub(self.started_at_ms) / 1000,
            workspace_id: self.workspace_id.clone(),
            session_active,
            session: if full {
                session
            } else {
                None
            },
            last_input_at: if full {
                self.last_input_at()
            } else {
                None
            },
            worktrees: if full {
                Some(worktrees)
            } else {
                None
            },
            dirty_buffers: if full {
                Some(self.dirty_buffers)
            } else {
                None
            },
            auth_failures: if full {
                Some(self.auth_failures)
            } else {
                None
            },
        }
    }

    /// The state once a token was good or bad, with these penalties. The count of bad tokens
    /// begins anew after the largest number.
    pub open spec fn settled(self, good: bool, penalties: Penalties) -> ServeState<L> {
        ServeState {
            penalties,
            auth_failures: if good {
                self.auth_failures
            } else if self.auth_failures == u64::MAX {
                0
            } else {
                (self.auth_failures + 1) as u64
            },
            ..self
        }
    }

    /// Takes in whether a token of a peer was good. A good one ends the peer's streak; a bad
    /// one is counted, and the peer waits. Returns how long, in milliseconds.
    pub fn settle_verification(&mut self, good: bool, peer: Peer, now_ms: u64) -> (r: u64)
        requires
            old(self).wf(),
        ensures
            final(self).wf(),
            *final(self) == old(self).settled(good, final(self).penalties),
            (r as int, final(self).penalties.table@) == after_token(
                old(self).penalties.table@,
                good,
                peer,
                now_ms,
            ),
    {
        if good {
            self.penalties.clear_penalty(peer);
            0
        } else {
            self.auth_failures = self.auth_failures.wrapping_add(1);
            self.penalties.record_failure(peer, now_ms)
        }
    }

    /// Verifies the token of a peer, and says how long the peer waits for the answer, in
    /// milliseconds: not at all for a good token.
    pub fn verify(&mut self, auth: &AuthConfig, token: &str, peer: Peer, now_ms: u64) -> (r: (
        Result<Claims, AuthError>,
        u64,
    ))
        requires
            old(self).wf(),
        ensures
            final(self).wf(),
            token_verdict(*auth, token@, r.0),
            *final(self) == old(self).settled(r.0 is Ok, final(self).penalties),
            (r.1 as int, final(self).penalties.table@) == after_token(
                old(self).penalties.table@,
                r.0 is Ok,
                peer,
                now_ms,
            ),
    {
        let result = verify_token(auth, token);
        let good = result.is_ok();
        let delay: u64 = self.settle_verification(good, peer, now_ms);
        (result, delay)
    }

    /// Notes where log records of a session go, or that they go nowhere.
    pub fn set_log_frame_sink(&mut self, session_id: &str, sink: Option<L>)
        ensures
            *final(self) == (ServeState {
                log_frame_sinks: final(self).log_frame_sinks,
                ..*old(self)
            }),
            match sink {
                None => final(self).log_frame_sinks@ == without_sink(
                    old(self).log_frame_sinks@,
                    session_id@,
                ),
                Some(sink) => {
                    &&& final(self).log_frame_sinks@.len() > 0
                    &&& final(self).log_frame_sinks@.drop_last() == without_sink(
                        old(self).log_frame_sinks@,
                        session_id@,
                    )
                    &&& final(self).log_frame_sinks@.last().0@ == session_id@
                    &&& final(self).log_frame_sinks@.last().1 == sink
                },
            },
            old(self).wf() ==> final(self).wf(),
    {
        let ghost before = self.log_frame_sinks@;
        let mut i: usize = 0;
        let mut done: usize = 0;
        proof {
            assert(before.take(0) =~= Seq::<(String, L)>::empty());
            assert(self.log_frame_sinks@ =~= without_sink(before.take(0), session_id@)
                + before.skip(0));
        }
        let count: usize = self.log_frame_sinks.len();
        while done < count
            invariant
                i <= done <= count,
                count == before.len(),
                i == without_sink(before.take(done as int), session_id@).len(),
                self.log_frame_sinks@ == without_sink(before.take(done as int), session_id@)
                    + before.skip(done as int),
                *self == (ServeState { log_frame_sinks: self.log_frame_sinks, ..*old(self) }),
            decreases count - done,
        {
            let ghost kept = without_sink(before.take(done as int), session_id@);
            proof {
                assert(before.take(done + 1).drop_last() =~= before.take(done as int));
                assert(self.log_frame_sinks@[i as int] == before[done as int]);
            }
            if same(self.log_frame_sinks[i].0.as_str(), session_id) {
                let _ = self.log_frame_sinks.remove(i);
                proof {
                    assert(self.log_frame_sinks@ =~= kept + before.skip(done + 1));
                }
            } else {
                i = i + 1;
                proof {
                    assert(self.log_frame_sinks@ =~= kept.push(before[done as int])
                        + before.skip(done + 1));
                }
            }
            done = done + 1;
        }
        proof {
            assert(before.take(done as int) =~= before);
            assert(self.log_frame_sinks@ =~= without_sink(before, session_id@));
        }
        if let Some(sink) = sink {
            self.log_frame_sinks.push((session_id.to_owned(), sink));
            proof {
                assert(self.log_frame_sinks@.drop_last() =~= without_sink(before, session_id@));
            }
        }
    }

    /// Counts a socket that is on its way to the broker.
    pub fn pending_connection(&mut self)
        requires
            old(self).pending_connections < usize::MAX,
        ensures
            *final(self) == (ServeState {
                pending_connections: (old(self).pending_connections + 1) as usize,
                ..*old(self)
            }),
    {
        self.pending_connections = self.pending_connections + 1;
    }

    /// Counts a socket that has reached the broker, or has ended.
    pub fn connection_done(&mut self)
        requires
            old(self).pending_connections > 0,
        ensures
            *final(self) == (ServeState {
                pending_connections: (old(self).pending_connections - 1) as usize,
                ..*old(self)
            }),
    {
        self.pending_connections = self.pending_connections - 1;
    }

    /// How many sockets are on their way to the broker.
    pub fn pending_connections(&self) -> (r: usize)
        ensures
            r == self.pending_connections,
    {
        self.pending_connections
    }
}

/// What is known of the verdict on a token: one that cannot be a token at all is malformed,
/// and any other is verified.
pub open spec fn token_verdict(
    auth: AuthConfig,
    token: Seq<char>,
    r: Result<Claims, AuthError>,
) -> bool {
    if plausible_token(token) {
        auth.verified(token, r)
    } else {
        r == Err::<Claims, AuthError>(AuthError::Malformed)
    }
}

/// Verifies a token that could be one at all.
pub fn verify_token(auth: &AuthConfig, token: &str) -> (r: Result<Claims, AuthError>)
    ensures
        token_verdict(*auth, token@, r),
{
    if token_shape_is_plausible(token) {
        auth.verify(token)
    } else {
        Err(AuthError::Malformed)
    }
}

/// Log records of this severity and of more severe ones go to the client. A smaller number
/// is more severe.
pub const LOG_FRAME_MAX_LEVEL: usize = 2;

/// The frame by which a log record goes to the client: none for one that is not severe
/// enough.
pub fn mirror_record(record: LogFrame) -> (r: Option<ControlFrame>)
    ensures
        r == mirrored(record),
{
    if record.level > LOG_FRAME_MAX_LEVEL {
        None
    } else {
        Some(ControlFrame::Log(record))
    }
}

/// The milliseconds of a clock reading since 1970; zero where the clock is before that.
pub fn clock_ms(reading: Option<u128>) -> (r: u64)
    ensures
        r == match reading {
            Some(ms) => ms as u64,
            None => 0,
        },
{
    match reading {
        Some(ms) => {
            #[verifier::truncate]
            (ms as u64)
        },
        None => 0,
    }
}

/// A reading of the clock.
#[verifier::external_type_specification]
#[verifier::external_body]
pub struct ExSystemTime(std::time::SystemTime);

/// Calls `SystemTime::now`. Nothing is stated of what the clock shows.
#[verifier::external_body]
fn read_clock() -> std::time::SystemTime {
    std::time::SystemTime::now()
}

/// The time from the start of 1970 to a reading, where the reading is not before that.
pub uninterp spec fn since_1970(reading: std::time::SystemTime) -> Option<std::time::Duration>;

/// Calls `SystemTime::duration_since` with the start of 1970. The outcome is a function of
/// the reading; the error is dropped.
#[verifier::external_body]
fn time_since_1970(reading: std::time::SystemTime) -> (r: Option<std::time::Duration>)
    ensures
        r == since_1970(reading),
{
    reading.duration_since(std::time::UNIX_EPOCH).ok()
}

/// The whole milliseconds of a duration.
pub uninterp spec fn whole_millis(duration: std::time::Duration) -> u128;

/// Calls `Duration::as_millis`. The number is a function of the duration.
#[verifier::external_body]
fn millis_of(duration: std::time::Duration) -> (r: u128)
    ensures
        r == whole_millis(duration),
{
    duration.as_millis()
}

/// The milliseconds between the start of 1970 and a reading of the clock; zero where the
/// clock is before that.
pub open spec fn millis_at(reading: std::time::SystemTime) -> u64 {
    match since_1970(reading) {
        Some(duration) => whole_millis(duration) as u64,
        None => 0,
    }
}

/// Unix milliseconds now. What the clock shows is up to the machine.
pub fn unix_ms() -> (r: u64)
    ensures
        exists|reading: std::time::SystemTime| r == #[trigger] millis_at(reading),
{
    let reading = read_clock();
    let millis = match time_since_1970(reading) {
        Some(duration) => Some(millis_of(duration)),
        None => None,
    };
    let r: u64 = clock_ms(millis);
    proof {
        assert(r == millis_at(reading));
    }
    r
}

/// Bad tokens of one peer change nothing for another: neither a flood from one address nor
/// its penalty delays a token from elsewhere, as long as there is room to remember both.
pub proof fn law_penalties_are_per_peer(
    table: Seq<PeerPenalty>,
    peer: Peer,
    other: Peer,
    now: u64,
    later: u64,
)
    requires
        table_ok(table),
        peer != other,
        table.len() < AUTH_PENALTY_PEERS || has_streak(table, peer),
    ensures
        streak(after_failure(table, peer, now), other, later) == streak(table, other, later),
{
    lemma_streak_place(table, peer);
    lemma_streak_place(table, other);
    let after = after_failure(table, peer, now);
    let k = streak_place(table, other);
    if k < table.len() {
        lemma_streak_place_is(after, other, k);
    } else {
        lemma_streak_place_is(after, other, after.len() as int);
    }
}

/// A streak grows by one with every bad token, up to the largest number.
pub proof fn law_streaks_grow(table: Seq<PeerPenalty>, peer: Peer, now: u64)
    requires
        table_ok(table),
    ensures
        streak(after_failure(table, peer, now), peer, now) == one_more(streak(table, peer, now)),
        table_ok(after_failure(table, peer, now)),
{
    lemma_streak_place(table, peer);
    let after = after_failure(table, peer, now);
    if has_streak(table, peer) {
        lemma_streak_place_is(after, peer, streak_place(table, peer));
        assert forall|i: int, j: int| 0 <= i < j < after.len() implies (#[trigger] after[i]).peer
            != (#[trigger] after[j]).peer by {
            assert(table[i].peer != table[j].peer);
        }
    } else {
        lemma_with_room(table, now, peer);
        lemma_streak_place_is(after, peer, after.len() - 1);
    }
}

/// A good token ends the streak of its peer, and a peer without a streak waits the least.
pub proof fn law_success_ends_the_streak(table: Seq<PeerPenalty>, peer: Peer, now: u64)
    requires
        table_ok(table),
    ensures
        streak(without(table, peer), peer, now) == 0,
        penalty_ms(one_more(streak(without(table, peer), peer, now))) == AUTH_FAILURE_DELAY_MS,
{
    lemma_streak_place(table, peer);
    let after = without(table, peer);
    if has_streak(table, peer) {
        let k = streak_place(table, peer);
        assert forall|i: int| 0 <= i < after.len() implies (#[trigger] after[i]).peer != peer by {
            if i < k {
                assert(after[i] == table[i]);
            } else {
                assert(after[i] == table[i + 1]);
                assert(table[k].peer != table[i + 1].peer);
            }
        }
        lemma_streak_place_is(after, peer, after.len() as int);
    }
}

/// No peer waits longer than the largest penalty.
pub proof fn law_penalties_are_capped(failures: u32)
    ensures
        penalty_ms(failures) <= AUTH_FAILURE_DELAY_MS * AUTH_PENALTY_MAX_STEPS,
        failures >= 1 ==> penalty_ms(failures) >= AUTH_FAILURE_DELAY_MS,
{
}

/// The n-th bad token in a row costs n quarters of a second, and the eighth and every further
/// one two seconds.
pub proof fn law_penalties_grow_by_steps(failures: u32)
    ensures
        failures <= 8 ==> penalty_ms(failures) == 250 * failures,
        failures >= 8 ==> penalty_ms(failures) == 2000,
        failures < u32::MAX ==> one_more(failures) == failures + 1,
        one_more(u32::MAX) == u32::MAX,
{
}

/// A peer's streak is what is remembered of it, for a minute after its last bad token; who is
/// not remembered has none.
pub proof fn law_streaks_last_a_minute(table: Seq<PeerPenalty>, i: int, peer: Peer, now: u64)
    requires
        table_ok(table),
        0 <= i < table.len(),
    ensures
        now < table[i].last_failure + 60_000 ==> streak(table, table[i].peer, now)
            == table[i].consecutive_failures,
        now >= table[i].last_failure + 60_000 ==> streak(table, table[i].peer, now) == 0,
        (forall|j: int| 0 <= j < table.len() ==> (#[trigger] table[j]).peer != peer) ==> streak(
            table,
            peer,
            now,
        ) == 0,
{
    assert forall|j: int| 0 <= j < i implies (#[trigger] table[j]).peer != table[i].peer by {
        assert(table[j].peer != table[i].peer);
    }
    lemma_streak_place_is(table, table[i].peer, i);
    if forall|j: int| 0 <= j < table.len() ==> (#[trigger] table[j]).peer != peer {
        lemma_streak_place_is(table, peer, table.len() as int);
    }
}

/// A bad token is remembered, and as long as there is room nothing else is forgotten for it.
pub proof fn law_failures_are_remembered(table: Seq<PeerPenalty>, peer: Peer, now: u64, i: int)
    requires
        table_ok(table),
        0 <= i < table.len(),
        table[i].peer != peer,
        table.len() < 1024,
    ensures
        after_failure(table, peer, now).contains(table[i]),
        after_failure(table, peer, now).contains(
            PeerPenalty {
                peer,
                consecutive_failures: one_more(streak(table, peer, now)),
                last_failure: now,
            },
        ),
        after_failure(table, peer, now).len() <= table.len() + 1,
{
    lemma_streak_place(table, peer);
    let after = after_failure(table, peer, now);
    assert(after[i] == table[i]);
    if has_streak(table, peer) {
        assert(after[streak_place(table, peer)].peer == peer);
    } else {
        assert(after[table.len() as int].peer == peer);
    }
}

proof fn lemma_live_keeps(table: Seq<PeerPenalty>, now: u64, i: int)
    requires
        0 <= i < table.len(),
        elapsed(now, table[i].last_failure) < AUTH_PENALTY_RESET_MS,
    ensures
        live(table, now).contains(table[i]),
    decreases table.len(),
{
    let rest = live(table.drop_last(), now);
    let all = live(table, now);
    if i < table.len() - 1 {
        lemma_live_keeps(table.drop_last(), now, i);
        let k = choose|k: int| 0 <= k < rest.len() && rest[k] == table.drop_last()[i];
        assert(all[k] == table[i]);
    } else {
        assert(all[all.len() - 1] == table[i]);
    }
}

/// Where there is no room, streaks that are over are forgotten, and if that is not enough, one
/// that is as old as any; every other streak is kept.
pub proof fn law_the_oldest_streak_makes_room(
    table: Seq<PeerPenalty>,
    peer: Peer,
    now: u64,
    i: int,
    j: int,
)
    requires
        table_ok(table),
        0 <= i < table.len(),
        0 <= j < table.len(),
        table[i].peer != peer,
        now < table[i].last_failure + 60_000,
        now < table[j].last_failure + 60_000,
        table[j].last_failure < table[i].last_failure,
    ensures
        after_failure(table, peer, now).contains(table[i]),
{
    lemma_streak_place(table, peer);
    let after = after_failure(table, peer, now);
    if has_streak(table, peer) || table.len() < AUTH_PENALTY_PEERS {
        assert(after[i] == table[i]);
    } else {
        lemma_live_keeps(table, now, i);
        lemma_live_keeps(table, now, j);
        let rest = live(table, now);
        let a = choose|a: int| 0 <= a < rest.len() && rest[a] == table[i];
        let b = choose|b: int| 0 <= b < rest.len() && rest[b] == table[j];
        lemma_oldest(rest);
        let k = oldest(rest);
        assert(k != a);
        let kept = with_room(table, now);
        if rest.len() >= AUTH_PENALTY_PEERS {
            if a < k {
                assert(kept[a] == rest[a]);
                assert(after[a] == table[i]);
            } else {
                assert(kept[a - 1] == rest[a]);
                assert(after[a - 1] == table[i]);
            }
        } else {
            assert(after[a] == table[i]);
        }
    }
}

/// A good token forgets the streak of its peer and no other.
pub proof fn law_other_streaks_stay(table: Seq<PeerPenalty>, peer: Peer, i: int)
    requires
        table_ok(table),
        0 <= i < table.len(),
    ensures
        table[i].peer != peer ==> without(table, peer).contains(table[i]),
        forall|j: int|
            0 <= j < without(table, peer).len() ==> (#[trigger] without(table, peer)[j]).peer
                != peer,
        without(table, peer).len() <= table.len(),
{
    lemma_streak_place(table, peer);
    let k = streak_place(table, peer);
    let after = without(table, peer);
    if k < table.len() {
        if i < k {
            assert(after[i] == table[i]);
        } else if i > k {
            assert(after[i - 1] == table[i]);
        }
        assert forall|j: int| 0 <= j < after.len() implies (#[trigger] after[j]).peer != peer by {
            if j < k {
                assert(after[j] == table[j]);
            } else {
                assert(after[j] == table[j + 1]);
                assert(table[k].peer != table[j + 1].peer);
            }
        }
    } else {
        assert(after[i] == table[i]);
    }
}

/// A session that is attached is listed, in the place of one with the same id, and every
/// other one stays; a session that is taken off is listed no more, and every other one is.
pub proof fn law_sessions_are_listed(
    sessions: Seq<SessionMeta>,
    meta: SessionMeta,
    id: Seq<char>,
    i: int,
)
    requires
        distinct_sessions(sessions),
        0 <= i < sessions.len(),
    ensures
        with_session(sessions, meta).contains(meta),
        sessions[i].session_id@ != meta.session_id@ ==> with_session(sessions, meta).contains(
            sessions[i],
        ),
        with_session(sessions, meta).len() <= sessions.len() + 1,
        sessions[i].session_id@ != id ==> without_session(sessions, id).contains(sessions[i]),
        forall|j: int|
            0 <= j < without_session(sessions, id).len() ==> (#[trigger] without_session(
                sessions,
                id,
            )[j]).session_id@ != id,
{
    lemma_session_place(sessions, meta.session_id@);
    lemma_session_place(sessions, id);
    let k = session_place(sessions, meta.session_id@);
    let with = with_session(sessions, meta);
    if k < sessions.len() {
        assert(with[k] == meta);
    } else {
        assert(with[sessions.len() as int] == meta);
    }
    if sessions[i].session_id@ != meta.session_id@ {
        assert(with[i] == sessions[i]);
    }
    let m = session_place(sessions, id);
    let less = without_session(sessions, id);
    if m < sessions.len() {
        if i < m {
            assert(less[i] == sessions[i]);
        } else if i > m {
            assert(less[i - 1] == sessions[i]);
        }
        assert forall|j: int| 0 <= j < less.len() implies (#[trigger] less[j]).session_id@ != id by {
            if j < m {
                assert(less[j] == sessions[j]);
            } else {
                assert(less[j] == sessions[j + 1]);
                assert(sessions[m].session_id@ != sessions[j + 1].session_id@);
            }
        }
    } else {
        assert(less[i] == sessions[i]);
    }
}

/// Log records are marked with a session only where there is exactly one.
pub proof fn law_log_records_name_the_only_session(sessions: Seq<SessionMeta>)
    ensures
        sessions.len() == 1 ==> log_session(sessions) == Some(
            (sessions[0].session_id@, sessions[0].epoch),
        ),
        sessions.len() != 1 ==> log_session(sessions) is None,
{
}

/// Log records of a session that is gone go nowhere, and those of every other one where they
/// went before.
pub proof fn law_other_sinks_stay<L>(sinks: Seq<(String, L)>, id: Seq<char>, i: int)
    requires
        0 <= i < sinks.len(),
    ensures
        sinks[i].0@ != id ==> without_sink(sinks, id).contains(sinks[i]),
        forall|j: int|
            0 <= j < without_sink(sinks, id).len() ==> (#[trigger] without_sink(sinks, id)[j]).0@
                != id,
    decreases sinks.len(),
{
    let front = sinks.drop_last();
    let rest = without_sink(front, id);
    let all = without_sink(sinks, id);
    if front.len() > 0 {
        law_other_sinks_stay(
            front,
            id,
            if i < front.len() {
                i
            } else {
                0
            },
        );
    }
    if sinks[i].0@ != id {
        if i < front.len() {
            let k = choose|k: int| 0 <= k < rest.len() && rest[k] == front[i];
            assert(all[k] == sinks[i]);
        } else {
            assert(all[all.len() - 1] == sinks[i]);
        }
    }
    assert forall|j: int| 0 <= j < all.len() implies (#[trigger] all[j]).0@ != id by {
        if j < rest.len() {
            assert(all[j] == rest[j]);
        }
    }
}

/// A bad token is counted once, and a good one is not; nothing else of the server changes by
/// either but the penalties.
pub proof fn law_bad_tokens_are_counted<L>(state: ServeState<L>, penalties: Penalties)
    ensures
        state.settled(true, penalties).auth_failures == state.auth_failures,
        state.auth_failures < u64::MAX ==> state.settled(false, penalties).auth_failures
            == state.auth_failures + 1,
        state.settled(true, penalties).sessions == state.sessions,
        state.settled(false, penalties).sessions == state.sessions,
        state.settled(true, penalties).pending_connections == state.pending_connections,
        state.settled(false, penalties).pending_connections == state.pending_connections,
        state.settled(false, penalties).last_input_at_ms == state.last_input_at_ms,
        state.settled(false, penalties).penalties == penalties,
{
}

/// This machine is every address of 127 and one other.
pub proof fn law_this_machine(a: u32, b: u128)
    ensures
        Peer::V4(a).loopback() <==> a / 0x100_0000 == 127,
        Peer::V6(b).loopback() <==> b == 1,
{
}

/// A token of the wrong shape is malformed, whatever the keys; any other is verified.
pub proof fn law_shapes_are_checked_first(
    auth: AuthConfig,
    token: Seq<char>,
    r: Result<Claims, AuthError>,
)
    requires
        token_verdict(auth, token, r),
    ensures
        !plausible_token(token) ==> r == Err::<Claims, AuthError>(AuthError::Malformed),
        plausible_token(token) ==> auth.verified(token, r),
{
}

/// How long a peer waits after a token, in milliseconds, and what is remembered then.
pub open spec fn after_token(table: Seq<PeerPenalty>, good: bool, peer: Peer, now_ms: u64) -> (
    int,
    Seq<PeerPenalty>,
) {
    if good {
        (0, without(table, peer))
    } else {
        (
            penalty_ms(one_more(streak(table, peer, now_ms))),
            after_failure(table, peer, now_ms),
        )
    }
}

/// A good token is never delayed, whatever was before it; the first bad one costs a quarter of
/// a second, and a bad one after another more, up to two seconds.
pub proof fn law_good_tokens_do_not_wait(table: Seq<PeerPenalty>, peer: Peer, now_ms: u64)
    requires
        table_ok(table),
    ensures
        after_token(table, true, peer, now_ms).0 == 0,
        250 <= after_token(table, false, peer, now_ms).0 <= 2000,
        streak(table, peer, now_ms) == 0 ==> after_token(table, false, peer, now_ms).0 == 250,
        streak(table, peer, now_ms) < 7 ==> after_token(
            after_token(table, false, peer, now_ms).1,
            false,
            peer,
            now_ms,
        ).0 == after_token(table, false, peer, now_ms).0 + 250,
        streak(after_token(table, true, peer, now_ms).1, peer, now_ms) == 0,
{
    law_streaks_grow(table, peer, now_ms);
    law_success_ends_the_streak(table, peer, now_ms);
}

/// The frame by which a log record goes to the client, if it does.
pub open spec fn mirrored(record: LogFrame) -> Option<ControlFrame> {
    if record.level <= LOG_FRAME_MAX_LEVEL {
        Some(ControlFrame::Log(record))
    } else {
        None
    }
}

/// Errors and warnings go to the client as they are, and nothing else does.
pub proof fn law_warnings_are_mirrored(record: LogFrame)
    ensures
        record.level <= 2 ==> mirrored(record) == Some(ControlFrame::Log(record)),
        record.level > 2 ==> mirrored(record) is None,
{
}

/// Everyone may know that the server runs, which one it is, and whether a client is attached;
/// what the client does is told to those only who may know everything.
pub proof fn law_health_keeps_secrets<L>(
    state: ServeState<L>,
    full: bool,
    now_ms: u64,
    r: HealthResponse,
)
    requires
        state.reported(full, now_ms, r),
    ensures
        r.build == state.build && r.version == state.version && r.workspace_id
            == state.workspace_id,
        r.session_active <==> state.sessions@.len() > 0,
        now_ms >= state.started_at_ms ==> r.uptime_secs * 1000 <= now_ms - state.started_at_ms
            < r.uptime_secs * 1000 + 1000,
        !full ==> r.session is None && r.last_input_at is None && r.worktrees is None
            && r.dirty_buffers is None && r.auth_failures is None,
        full ==> {
            &&& r.session is Some <==> state.sessions@.len() > 0
            &&& r.session is Some ==> r.session->0 == state.sessions@[0]
            &&& r.last_input_at is Some <==> state.last_input_at_ms != 0
            &&& r.last_input_at is Some ==> r.last_input_at->0 == state.last_input_at_ms
            &&& r.worktrees is Some && r.worktrees->0@.len() == state.worktrees@.len()
            &&& r.dirty_buffers == Some(state.dirty_buffers)
            &&& r.auth_failures == Some(state.auth_failures)
        },
{
    if full {
        assert(texts(r.worktrees->0@).len() == r.worktrees->0@.len());
    }
}

/// The count of bad tokens begins anew behind the largest number.
pub proof fn law_the_count_begins_anew<L>(state: ServeState<L>, penalties: Penalties)
    requires
        state.auth_failures == u64::MAX,
    ensures
        state.settled(false, penalties).auth_failures == 0,
        state.settled(true, penalties).auth_failures == u64::MAX,
{
}

/// A clock that is before 1970 counts as one at its start; any other is read to the
/// millisecond.
pub proof fn law_clocks_count_from_1970(reading: std::time::SystemTime)
    ensures
        since_1970(reading) is None ==> millis_at(reading) == 0,
        since_1970(reading) is Some && whole_millis(since_1970(reading)->0) <= u64::MAX
            ==> millis_at(reading) == whole_millis(since_1970(reading)->0),
{
}

} // verus!
