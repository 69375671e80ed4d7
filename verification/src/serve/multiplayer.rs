//! One broker per participant.
//!
//! A participant is known by the identity in the signed token. Identities are never
//! forgotten, so that a replica id is never given to someone else; brokers, which are
//! expensive, are kept for a bounded number of participants and taken back from those that
//! are not connected.

use vstd::prelude::*;
use vstd::string::*;

use crate::serve::session::{BrokerCommand, CloseOrder};
use crate::serve::wire::{CLOSE_INTERNAL_ERROR, CLOSE_POLICY_VIOLATION};
use crate::text::{chars_of, same, texts};

verus! {

/// The largest number of brokers.
pub const MAX_REPLAY_BROKERS: usize = 32;

/// The replica id of the first participant.
pub const FIRST_PEER: u32 = 8;

/// The largest replica id.
pub const LAST_PEER: u32 = 65_535;

/// A hexadecimal digit of either case.
pub open spec fn hex_digit(c: char) -> bool {
    ('0' <= c <= '9') || ('a' <= c <= 'f') || ('A' <= c <= 'F')
}

/// The form of a participant's identity: `p_` and 32 hexadecimal digits.
pub open spec fn identity_ok(s: Seq<char>) -> bool {
    &&& s.len() == 34
    &&& s[0] == 'p'
    &&& s[1] == '_'
    &&& forall|i: int| 2 <= i < 34 ==> hex_digit(#[trigger] s[i])
}

/// Whether a text has the form of a participant's identity.
pub fn is_identity(s: &str) -> (r: bool)
    ensures
        r == identity_ok(s@),
{
    let v = chars_of(s);
    if v.len() != 34 || v[0] != 'p' || v[1] != '_' {
        return false;
    }
    let mut i: usize = 2;
    while i < 34
        invariant
            2 <= i <= 34,
            v@.len() == 34,
            v@ == s@,
            forall|j: int| 2 <= j < i ==> hex_digit(#[trigger] v@[j]),
        decreases 34 - i,
    {
        let c = v[i];
        if !(('0' <= c && c <= '9') || ('a' <= c && c <= 'f') || ('A' <= c && c <= 'F')) {
            return false;
        }
        i = i + 1;
    }
    true
}

/// A participant that has a broker; `B` is the way to the broker.
pub struct Participant<B> {
    pub identity: String,
    /// The replica id.
    pub peer: u32,
    pub broker: B,
}

/// The participants of a workspace.
pub struct Dispatcher<B> {
    /// Those that have a broker, the one that attached last at the end.
    pub participants: Vec<Participant<B>>,
    /// Everyone who ever joined, in order; the place says the replica id.
    pub identities: Vec<String>,
}

/// What an attach needs.
pub enum JoinStep {
    /// Refuse the socket.
    Refuse(CloseOrder),
    /// Hand the socket to the last participant.
    Route,
    /// Take a broker back first: ask the first participant.
    Reclaim,
    /// Have the participant join under this replica id.
    Join { peer: u32 },
}

/// What taking a broker back needs next.
pub enum ReclaimStep<B> {
    /// Ask the participant at this place.
    Ask(usize),
    /// This participant's broker has ended; have the participant released.
    Release(Participant<B>),
    /// Everyone is connected.
    Full,
}

/// What a command to the dispatcher leads to.
pub enum DispatchAction<W, R> {
    /// Find the participant of a socket.
    Attach {
        ws: W,
        hello: crate::serve::wire::Hello,
        claims: crate::serve::auth::Claims,
    },
    /// Nothing: a browser cannot shut down the shared server.
    Ignore,
    /// Answer that the dispatcher stays.
    Stay { done: R },
    /// Shut every broker down, quit, and answer.
    ShutDown { done: R },
}

/// What a command leads to.
pub open spec fn dispatched<W, R>(command: BrokerCommand<W, R>) -> DispatchAction<W, R> {
    match command {
        BrokerCommand::Attach { ws, hello, claims } => DispatchAction::Attach { ws, hello, claims },
        BrokerCommand::CloseSession { .. } => DispatchAction::Ignore,
        BrokerCommand::RetireIfDetached { done } => DispatchAction::Stay { done },
        BrokerCommand::Shutdown { done } => DispatchAction::ShutDown { done },
    }
}

/// What a command leads to.
pub fn dispatch<W, R>(command: BrokerCommand<W, R>) -> (r: DispatchAction<W, R>)
    ensures
        r == dispatched(command),
{
    match command {
        BrokerCommand::Attach { ws, hello, claims } => DispatchAction::Attach { ws, hello, claims },
        BrokerCommand::CloseSession { .. } => DispatchAction::Ignore,
        BrokerCommand::RetireIfDetached { done } => DispatchAction::Stay { done },
        BrokerCommand::Shutdown { done } => DispatchAction::ShutDown { done },
    }
}

/// The place of the first entry with this identity, or the number of entries.
pub open spec fn place_of(list: Seq<Seq<char>>, identity: Seq<char>) -> int
    decreases list.len(),
{
    if list.len() == 0 || list[0] == identity {
        0
    } else {
        1 + place_of(list.skip(1), identity)
    }
}

pub proof fn lemma_place_is(list: Seq<Seq<char>>, identity: Seq<char>, k: int)
    requires
        0 <= k <= list.len(),
        k < list.len() ==> list[k] == identity,
        forall|i: int| 0 <= i < k ==> list[i] != identity,
    ensures
        place_of(list, identity) == k,
    decreases k,
{
    if k > 0 {
        lemma_place_is(list.skip(1), identity, k - 1);
    }
}

pub proof fn lemma_place(list: Seq<Seq<char>>, identity: Seq<char>)
    ensures
        0 <= place_of(list, identity) <= list.len(),
        place_of(list, identity) < list.len() ==> list[place_of(list, identity)] == identity,
        place_of(list, identity) < list.len() <==> list.contains(identity),
        forall|i: int| 0 <= i < place_of(list, identity) ==> list[i] != identity,
    decreases list.len(),
{
    if list.len() > 0 && list[0] != identity {
        lemma_place(list.skip(1), identity);
        assert forall|i: int| 0 <= i < place_of(list, identity) implies list[i] != identity by {
            if i > 0 {
                assert(list[i] == list.skip(1)[i - 1]);
            }
        }
        if list.contains(identity) {
            let i = choose|i: int| 0 <= i < list.len() && list[i] == identity;
            assert(list.skip(1)[i - 1] == identity);
        }
    } else if list.len() > 0 {
        assert(list.contains(list[0]));
    }
}

fn find_text(list: &Vec<String>, text: &str) -> (k: usize)
    ensures
        k == place_of(texts(list@), text@),
        k <= list@.len(),
{
    let mut k: usize = 0;
    while k < list.len() && !same(list[k].as_str(), text)
        invariant
            k <= list@.len(),
            forall|i: int| 0 <= i < k ==> #[trigger] texts(list@)[i] != text@,
        decreases list@.len() - k,
    {
        k = k + 1;
    }
    proof {
        lemma_place_is(texts(list@), text@, k as int);
    }
    k
}

impl<B> Dispatcher<B> {
    /// The identities of the participants that have a broker.
    pub open spec fn present(self) -> Seq<Seq<char>> {
        self.participants@.map_values(|p: Participant<B>| p.identity@)
    }

    /// Everyone who ever joined.
    pub open spec fn known(self) -> Seq<Seq<char>> {
        texts(self.identities@)
    }

    /// The replica id of an identity: that of its place among everyone who ever joined, or
    /// the next one.
    pub open spec fn peer_of(self, identity: Seq<char>) -> int {
        FIRST_PEER + place_of(self.known(), identity)
    }

    /// No identity is there twice, every participant has the replica id of its identity,
    /// and both lists are within their bounds.
    pub open spec fn wf(self) -> bool {
        &&& self.known().no_duplicates()
        &&& self.known().len() <= LAST_PEER - FIRST_PEER + 1
        &&& self.present().no_duplicates()
        &&& self.participants@.len() <= MAX_REPLAY_BROKERS
        &&& forall|i: int|
            0 <= i < self.participants@.len() ==> {
                &&& self.known().contains((#[trigger] self.participants@[i]).identity@)
                &&& self.participants@[i].peer == self.peer_of(self.participants@[i].identity@)
            }
    }

    /// Nobody yet.
    pub fn new() -> (r: Dispatcher<B>)
        ensures
            r.wf(),
            r.participants@.len() == 0,
            r.identities@.len() == 0,
    {
        let r = Dispatcher { participants: Vec::new(), identities: Vec::new() };
        proof {
            assert(r.known() =~= Seq::<Seq<char>>::empty());
            assert(r.present() =~= Seq::<Seq<char>>::empty());
        }
        r
    }

    fn find(&self, identity: &str) -> (k: usize)
        ensures
            k == place_of(self.present(), identity@),
            k <= self.participants@.len(),
    {
        let mut k: usize = 0;
        while k < self.participants.len() && !same(self.participants[k].identity.as_str(), identity)
            invariant
                k <= self.participants@.len(),
                forall|i: int| 0 <= i < k ==> #[trigger] self.present()[i] != identity@,
            decreases self.participants@.len() - k,
        {
            k = k + 1;
        }
        proof {
            lemma_place_is(self.present(), identity@, k as int);
        }
        k
    }

    /// The participants with the one at a place moved to the end.
    pub open spec fn moved_to_end(list: Seq<Participant<B>>, k: int) -> Seq<Participant<B>> {
        list.remove(k).push(list[k])
    }

    /// What an attach with an identity needs, and the participants then.
    pub open spec fn asked(
        self,
        pid: Option<Seq<char>>,
        step: JoinStep,
        after: Dispatcher<B>,
    ) -> bool {
        match pid {
            None => {
                &&& step matches JoinStep::Refuse(order)
                &&& order.code == CLOSE_POLICY_VIOLATION
                &&& order.reason@ == "participant identity required"@
                &&& after == self
            },
            Some(pid) => if !identity_ok(pid) {
                &&& step matches JoinStep::Refuse(order)
                &&& order.code == CLOSE_POLICY_VIOLATION
                &&& order.reason@ == "invalid participant identity"@
                &&& after == self
            } else if self.present().contains(pid) {
                &&& step is Route
                &&& after.participants@ == Self::moved_to_end(
                    self.participants@,
                    place_of(self.present(), pid),
                )
            } else if self.participants@.len() >= MAX_REPLAY_BROKERS {
                step is Reclaim && after == self
            } else {
                joins(self.peer_of(pid), step) && after == self
            },
        }
    }

    /// What an attach with this identity needs. A participant that has a broker moves to
    /// the end of the list and gets the socket; another one needs a broker, for which there
    /// may have to be made room.
    pub fn attach(&mut self, pid: Option<&str>) -> (r: JoinStep)
        requires
            old(self).wf(),
        ensures
            final(self).wf(),
            old(self).leads_to(*final(self)),
            final(self).identities == old(self).identities,
            ({
                let identity = match pid {
                    Some(pid) => Some(pid@),
                    None => None,
                };
                old(self).asked(identity, r, *final(self))
            }),
    {
        let pid = match pid {
            Some(pid) => pid,
            None => {
                return JoinStep::Refuse(
                    CloseOrder {
                        code: CLOSE_POLICY_VIOLATION,
                        reason: "participant identity required",
                    },
                );
            },
        };
        if !is_identity(pid) {
            return JoinStep::Refuse(
                CloseOrder {
                    code: CLOSE_POLICY_VIOLATION,
                    reason: "invalid participant identity",
                },
            );
        }
        let k = self.find(pid);
        proof {
            lemma_place(self.present(), pid@);
        }
        if k < self.participants.len() {
            let ghost before = *self;
            let entry = self.participants.remove(k);
            self.participants.push(entry);
            proof {
                lemma_moved_keeps_wf(before, *self, k as int);
            }
            return JoinStep::Route;
        }
        if self.participants.len() >= MAX_REPLAY_BROKERS {
            return JoinStep::Reclaim;
        }
        self.join_step(pid)
    }

    /// The replica id under which an identity joins, or the refusal where there is none
    /// left.
    fn join_step(&self, pid: &str) -> (r: JoinStep)
        requires
            self.known().len() <= LAST_PEER - FIRST_PEER + 1,
        ensures
            joins(self.peer_of(pid@), r),
    {
        let k = find_text(&self.identities, pid);
        proof {
            assert(self.known().len() == self.identities@.len());
        }
        let peer: u32 = FIRST_PEER + k as u32;
        if peer > LAST_PEER {
            return JoinStep::Refuse(
                CloseOrder {
                    code: CLOSE_POLICY_VIOLATION,
                    reason: "workspace replica identities exhausted; restart the workspace",
                },
            );
        }
        JoinStep::Join { peer }
    }

    /// Goes through the participants, the one that attached longest ago first, to take a
    /// broker back. `connected` is what the broker at `index` answered: whether a session is
    /// attached to it; a broker that is gone is not connected.
    pub fn reclaim_detached(&mut self, index: usize, connected: bool) -> (r: ReclaimStep<B>)
        requires
            old(self).wf(),
            index < old(self).participants@.len(),
        ensures
            final(self).wf(),
            old(self).leads_to(*final(self)),
            final(self).identities == old(self).identities,
            if !connected {
                &&& r == ReclaimStep::Release(old(self).participants@[index as int])
                &&& final(self).participants@ == old(self).participants@.remove(index as int)
            } else {
                &&& *final(self) == *old(self)
                &&& if index + 1 < old(self).participants@.len() {
                    r == ReclaimStep::<B>::Ask((index + 1) as usize)
                } else {
                    r == ReclaimStep::<B>::Full
                }
            },
    {
        if connected {
            if self.participants.len() - index > 1 {
                return ReclaimStep::Ask(index + 1);
            }
            return ReclaimStep::Full;
        }
        let ghost before = *self;
        let entry = self.participants.remove(index);
        proof {
            lemma_removed_keeps_wf(before, *self, index as int);
        }
        ReclaimStep::Release(entry)
    }

    /// What an attach needs once taking a broker back has ended. `released` says whether a
    /// broker was taken back and its participant released.
    pub fn reclaimed(&self, pid: &str, released: bool) -> (r: JoinStep)
        requires
            self.wf(),
        ensures
            if released {
                joins(self.peer_of(pid@), r)
            } else {
                &&& r matches JoinStep::Refuse(order)
                &&& order.code == CLOSE_POLICY_VIOLATION
                &&& order.reason@
                    == "workspace has 32 connected participants; try again when someone leaves"@
            },
    {
        if !released {
            return JoinStep::Refuse(
                CloseOrder {
                    code: CLOSE_POLICY_VIOLATION,
                    reason: "workspace has 32 connected participants; try again when someone leaves",
                },
            );
        }
        self.join_step(pid)
    }

    /// Takes in whether a participant could join under its replica id. One that joined has
    /// a broker, is the last of the list, and gets the socket.
    pub fn joined(&mut self, pid: &str, peer: u32, broker: Option<B>) -> (r: JoinStep)
        requires
            old(self).wf(),
            peer == old(self).peer_of(pid@),
            peer <= LAST_PEER,
            !old(self).present().contains(pid@),
            old(self).participants@.len() < MAX_REPLAY_BROKERS,
        ensures
            final(self).wf(),
            old(self).leads_to(*final(self)),
            match broker {
                None => {
                    &&& r matches JoinStep::Refuse(order)
                    &&& order.code == CLOSE_INTERNAL_ERROR
                    &&& order.reason@ == "project hub unavailable"@
                    &&& *final(self) == *old(self)
                },
                Some(broker) => {
                    &&& r is Route
                    &&& final(self).known() == old(self).known_with(pid@)
                    &&& final(self).participants@.len() == old(self).participants@.len() + 1
                    &&& final(self).participants@.drop_last() == old(self).participants@
                    &&& final(self).participants@.last().identity@ == pid@
                    &&& final(self).participants@.last().peer == peer
                    &&& final(self).participants@.last().broker == broker
                },
            },
    {
        let broker = match broker {
            Some(broker) => broker,
            None => {
                return JoinStep::Refuse(
                    CloseOrder {
                        code: CLOSE_INTERNAL_ERROR,
                        reason: "project hub unavailable",
                    },
                );
            },
        };
        let ghost before = *self;
        let k = find_text(&self.identities, pid);
        proof {
            lemma_place(self.known(), pid@);
            assert(self.known().len() == self.identities@.len());
        }
        if k == self.identities.len() {
            self.identities.push(pid.to_owned());
        }
        self.participants.push(Participant { identity: pid.to_owned(), peer, broker });
        proof {
            assert(self.known() =~= before.known_with(pid@));
            assert(self.participants@.drop_last() =~= before.participants@);
            lemma_joined_keeps_wf(before, *self, pid@);
        }
        JoinStep::Route
    }

    /// Whether another state can come after this one: nobody new has joined, or one has.
    pub open spec fn leads_to(self, after: Dispatcher<B>) -> bool {
        after.known() == self.known() || exists|newcomer: Seq<char>|
            after.known() == #[trigger] self.known_with(newcomer)
    }

    /// Everyone who ever joined, with one more.
    pub open spec fn known_with(self, identity: Seq<char>) -> Seq<Seq<char>> {
        if self.known().contains(identity) {
            self.known()
        } else {
            self.known().push(identity)
        }
    }
}

/// A participant joins under a replica id, or is refused where that is too large.
pub open spec fn joins(peer: int, r: JoinStep) -> bool {
    if peer <= LAST_PEER {
        r matches JoinStep::Join { peer: p } && p == peer
    } else {
        &&& r matches JoinStep::Refuse(order)
        &&& order.code == CLOSE_POLICY_VIOLATION
        &&& order.reason@ == "workspace replica identities exhausted; restart the workspace"@
    }
}

proof fn lemma_removed_keeps_wf<B>(before: Dispatcher<B>, after: Dispatcher<B>, k: int)
    requires
        before.wf(),
        0 <= k < before.participants@.len(),
        after.identities == before.identities,
        after.participants@ == before.participants@.remove(k),
    ensures
        after.wf(),
{
    assert forall|i: int| 0 <= i < after.participants@.len() implies {
        &&& after.known().contains((#[trigger] after.participants@[i]).identity@)
        &&& after.participants@[i].peer == after.peer_of(after.participants@[i].identity@)
    } by {
        let j = if i < k {
            i
        } else {
            i + 1
        };
        assert(after.participants@[i] == before.participants@[j]);
    }
    assert forall|i: int, j: int|
        0 <= i < after.present().len() && 0 <= j < after.present().len() && i
            != j implies after.present()[i] != after.present()[j] by {
        let a = if i < k {
            i
        } else {
            i + 1
        };
        let b = if j < k {
            j
        } else {
            j + 1
        };
        assert(after.present()[i] == before.present()[a]);
        assert(after.present()[j] == before.present()[b]);
    }
}

proof fn lemma_moved_keeps_wf<B>(before: Dispatcher<B>, after: Dispatcher<B>, k: int)
    requires
        before.wf(),
        0 <= k < before.participants@.len(),
        after.identities == before.identities,
        after.participants@ == Dispatcher::moved_to_end(before.participants@, k),
    ensures
        after.wf(),
{
    let last = after.participants@.len() - 1;
    assert forall|i: int| 0 <= i < after.participants@.len() implies {
        &&& after.known().contains((#[trigger] after.participants@[i]).identity@)
        &&& after.participants@[i].peer == after.peer_of(after.participants@[i].identity@)
    } by {
        let j = if i == last {
            k
        } else if i < k {
            i
        } else {
            i + 1
        };
        assert(after.participants@[i] == before.participants@[j]);
    }
    assert forall|i: int, j: int|
        0 <= i < after.present().len() && 0 <= j < after.present().len() && i
            != j implies after.present()[i] != after.present()[j] by {
        let a = if i == last {
            k
        } else if i < k {
            i
        } else {
            i + 1
        };
        let b = if j == last {
            k
        } else if j < k {
            j
        } else {
            j + 1
        };
        assert(after.present()[i] == before.present()[a]);
        assert(after.present()[j] == before.present()[b]);
    }
}

proof fn lemma_known_with<B>(before: Dispatcher<B>, after: Dispatcher<B>, pid: Seq<char>)
    requires
        before.known().no_duplicates(),
        after.known() == before.known_with(pid),
    ensures
        after.known().no_duplicates(),
        after.known().contains(pid),
        after.peer_of(pid) == before.peer_of(pid),
        forall|other: Seq<char>| #[trigger] before.known().contains(other) ==> {
            &&& after.known().contains(other)
            &&& after.peer_of(other) == before.peer_of(other)
        },
{
    lemma_place(before.known(), pid);
    let old_len = before.known().len();
    if !before.known().contains(pid) {
        assert(after.known()[old_len as int] == pid);
        lemma_place_is(after.known(), pid, old_len as int);
        assert forall|other: Seq<char>| #[trigger] before.known().contains(other) implies {
            &&& after.known().contains(other)
            &&& after.peer_of(other) == before.peer_of(other)
        } by {
            lemma_place(before.known(), other);
            let k = place_of(before.known(), other);
            assert(after.known()[k] == other);
            lemma_place_is(after.known(), other, k);
        }
        assert forall|i: int, j: int|
            0 <= i < after.known().len() && 0 <= j < after.known().len() && i
                != j implies after.known()[i] != after.known()[j] by {
            if i < old_len && j < old_len {
                assert(before.known()[i] != before.known()[j]);
            }
        }
    }
}

proof fn lemma_joined_keeps_wf<B>(before: Dispatcher<B>, after: Dispatcher<B>, pid: Seq<char>)
    requires
        before.wf(),
        before.peer_of(pid) <= LAST_PEER,
        !before.present().contains(pid),
        before.participants@.len() < MAX_REPLAY_BROKERS,
        after.known() == before.known_with(pid),
        after.participants@.len() == before.participants@.len() + 1,
        after.participants@.drop_last() == before.participants@,
        after.participants@.last().identity@ == pid,
        after.participants@.last().peer == before.peer_of(pid),
    ensures
        after.wf(),
{
    lemma_known_with(before, after, pid);
    lemma_place(before.known(), pid);
    let n = before.participants@.len() as int;
    assert forall|i: int| 0 <= i < after.participants@.len() implies {
        &&& after.known().contains((#[trigger] after.participants@[i]).identity@)
        &&& after.participants@[i].peer == after.peer_of(after.participants@[i].identity@)
    } by {
        if i < n {
            assert(after.participants@[i] == after.participants@.drop_last()[i]);
            assert(before.known().contains(before.participants@[i].identity@));
        }
    }
    assert forall|i: int, j: int|
        0 <= i < after.present().len() && 0 <= j < after.present().len() && i
            != j implies after.present()[i] != after.present()[j] by {
        if i < n {
            assert(after.participants@[i] == after.participants@.drop_last()[i]);
            assert(after.present()[i] == before.present()[i]);
        }
        if j < n {
            assert(after.participants@[j] == after.participants@.drop_last()[j]);
            assert(after.present()[j] == before.present()[j]);
        }
    }
}

/// Two participants never share a replica id.
pub proof fn law_replica_ids_differ<B>(d: Dispatcher<B>, a: Seq<char>, b: Seq<char>)
    requires
        d.wf(),
        d.known().contains(a),
        d.known().contains(b),
        a != b,
    ensures
        d.peer_of(a) != d.peer_of(b),
{
    lemma_place(d.known(), a);
    lemma_place(d.known(), b);
}

/// Whoever joined keeps the replica id for good, whoever joins later, and whether or not
/// the broker was taken back in between. A replica id fits into 16 bits, and none is below
/// that of the first participant.
pub proof fn law_replica_ids_stay<B>(
    before: Dispatcher<B>,
    after: Dispatcher<B>,
    newcomer: Seq<char>,
    identity: Seq<char>,
)
    requires
        before.wf(),
        after.wf(),
        after.known() == before.known_with(newcomer),
        before.known().contains(identity),
    ensures
        after.known().contains(identity),
        after.peer_of(identity) == before.peer_of(identity),
        FIRST_PEER <= after.peer_of(identity) <= LAST_PEER,
{
    lemma_known_with(before, after, newcomer);
    lemma_place(after.known(), identity);
}

/// Whoever joined keeps the replica id as long as the server runs, whatever happens between.
pub proof fn law_replica_ids_stay_for_good<B>(
    states: Seq<Dispatcher<B>>,
    i: int,
    j: int,
    identity: Seq<char>,
)
    requires
        0 <= i <= j < states.len(),
        forall|k: int| 0 <= k < states.len() ==> (#[trigger] states[k]).wf(),
        forall|k: int|
            0 <= k < states.len() - 1 ==> (#[trigger] states[k]).leads_to(states[k + 1]),
        states[i].known().contains(identity),
    ensures
        states[j].known().contains(identity),
        states[j].peer_of(identity) == states[i].peer_of(identity),
        FIRST_PEER <= states[j].peer_of(identity) <= LAST_PEER,
        states[j].participants@.len() <= MAX_REPLAY_BROKERS,
    decreases j - i,
{
    assert(states[j].wf());
    if i == j {
        lemma_place(states[j].known(), identity);
    } else {
        law_replica_ids_stay_for_good(states, i, j - 1, identity);
        let before = states[j - 1];
        let after = states[j];
        assert(before.wf());
        assert(before.leads_to(states[j - 1 + 1]));
        if after.known() != before.known() {
            let newcomer = choose|newcomer: Seq<char>|
                after.known() == #[trigger] before.known_with(newcomer);
            law_replica_ids_stay(before, after, newcomer, identity);
        }
        lemma_place(after.known(), identity);
    }
}

/// Replica ids are given out in the order in which participants join, from the first one on.
pub proof fn law_replica_ids_count_up<B>(d: Dispatcher<B>, k: int)
    requires
        d.wf(),
        0 <= k < d.known().len(),
    ensures
        d.peer_of(d.known()[k]) == FIRST_PEER + k,
        FIRST_PEER + k <= LAST_PEER,
{
    lemma_place_is(d.known(), d.known()[k], k);
}

/// A socket goes to the broker of its participant: one that is there is the last of the list
/// then, with the broker and the replica id that it had, and nobody is lost.
pub proof fn law_sockets_go_to_their_participant<B>(
    d: Dispatcher<B>,
    k: int,
    step: JoinStep,
    after: Dispatcher<B>,
)
    requires
        d.wf(),
        0 <= k < d.participants@.len(),
        identity_ok(d.participants@[k].identity@),
        d.asked(Some(d.participants@[k].identity@), step, after),
    ensures
        step is Route,
        after.participants@.len() == d.participants@.len(),
        after.participants@.last() == d.participants@[k],
        forall|i: int| 0 <= i < k ==> #[trigger] after.participants@[i] == d.participants@[i],
        forall|i: int|
            k < i < d.participants@.len() ==> after.participants@[i - 1]
                == #[trigger] d.participants@[i],
{
    let pid = d.participants@[k].identity@;
    assert(d.present()[k] == pid);
    assert forall|i: int| 0 <= i < k implies d.present()[i] != pid by {
        assert(d.present()[i] != d.present()[k]);
    }
    lemma_place_is(d.present(), pid, k);
}

/// Someone new joins under a replica id of their own where there is room; where 32 brokers are
/// in use, one has to be taken back first; a socket without an identity, or with one that is
/// none, is refused.
pub proof fn law_newcomers_join<B>(
    d: Dispatcher<B>,
    pid: Seq<char>,
    step: JoinStep,
    after: Dispatcher<B>,
)
    requires
        d.wf(),
        !d.present().contains(pid),
    ensures
        d.asked(None, step, after) || (!identity_ok(pid) && d.asked(Some(pid), step, after)) ==> (
        step matches JoinStep::Refuse(order) && order.code == 1008) && after == d,
        identity_ok(pid) && d.participants@.len() >= 32 && d.asked(Some(pid), step, after)
            ==> step is Reclaim && after == d,
        identity_ok(pid) && d.participants@.len() < 32 && d.asked(Some(pid), step, after) ==> {
            let peer = if d.known().contains(pid) {
                d.peer_of(pid)
            } else {
                8 + d.known().len() as int
            };
            &&& peer <= 65_535 ==> (step matches JoinStep::Join { peer: p } && p == peer)
            &&& peer > 65_535 ==> step is Refuse
        },
{
    lemma_place(d.known(), pid);
}

/// An identity is `p_` and 32 hexadecimal digits, of either case; every such text is one.
pub proof fn law_identities(s: Seq<char>)
    ensures
        identity_ok(s) <==> {
            &&& s.len() == 34
            &&& s[0] == 'p' && s[1] == '_'
            &&& forall|i: int|
                2 <= i < 34 ==> ('0' <= #[trigger] s[i] <= '9') || ('a' <= s[i] <= 'f') || ('A'
                    <= s[i] <= 'F')
        },
{
    if s.len() == 34 && s[0] == 'p' && s[1] == '_' && (forall|i: int|
        2 <= i < 34 ==> ('0' <= #[trigger] s[i] <= '9') || ('a' <= s[i] <= 'f') || ('A' <= s[i]
            <= 'F')) {
        assert forall|i: int| 2 <= i < 34 implies hex_digit(#[trigger] s[i]) by {
            assert(('0' <= s[i] <= '9') || ('a' <= s[i] <= 'f') || ('A' <= s[i] <= 'F'));
        }
    }
    if identity_ok(s) {
        assert forall|i: int| 2 <= i < 34 implies ('0' <= #[trigger] s[i] <= '9') || ('a' <= s[i]
            <= 'f') || ('A' <= s[i] <= 'F') by {
            assert(hex_digit(s[i]));
        }
    }
}

/// The dispatcher passes sockets on, lets no browser close the server, stays where a broker
/// would retire, and shuts down where it is told to, with whoever waits for it.
pub proof fn law_the_server_is_shared<W, R>(command: BrokerCommand<W, R>)
    ensures
        match command {
            BrokerCommand::Attach { ws, hello, claims } => dispatched(command) == (
            DispatchAction::<W, R>::Attach { ws, hello, claims }),
            BrokerCommand::CloseSession { .. } => dispatched(command) is Ignore,
            BrokerCommand::RetireIfDetached { done } => dispatched(command) == (
            DispatchAction::<W, R>::Stay { done }),
            BrokerCommand::Shutdown { done } => dispatched(command) == (
            DispatchAction::<W, R>::ShutDown { done }),
        },
{
}

/// Everyone who ever joined is known by the identity that they joined with.
pub proof fn law_participants_are_known<B>(d: Dispatcher<B>, i: int)
    requires
        0 <= i < d.identities@.len(),
    ensures
        d.known().len() == d.identities@.len(),
        d.known()[i] == d.identities@[i]@,
{
}

/// Whoever is refused is told why.
pub proof fn law_refusals_say_why<B>(
    d: Dispatcher<B>,
    pid: Seq<char>,
    step: JoinStep,
    after: Dispatcher<B>,
)
    requires
        step is Refuse,
    ensures
        d.asked(None, step, after) ==> step->Refuse_0.reason@ == "participant identity required"@,
        !identity_ok(pid) && d.asked(Some(pid), step, after) ==> step->Refuse_0.reason@
            == "invalid participant identity"@,
        identity_ok(pid) && d.asked(Some(pid), step, after) ==> {
            &&& step->Refuse_0.reason@
                == "workspace replica identities exhausted; restart the workspace"@
            &&& step->Refuse_0.code == 1008
            &&& after == d
        },
{
}

} // verus!
