//! The presence registry: connected players, their snapshot histories and
//! their membership event queues.

use crate::codec::{PlayerState, SnapshotView, STATE_LEN};
use crate::history::{
    accepted, ascending, freshest_unsent, lemma_marked_keeps_order, lemma_no_reselection, marked,
    picked, Entry, History, MAX_UPDATES,
};
use crate::message::{ConnectInfo, PlayerInfo};
use crate::outbox::Outbox;
use rand::rngs::SmallRng;
use rand::{Rng, SeedableRng};
use tokio::sync::mpsc::UnboundedReceiver;
use vstd::prelude::*;
use vstd::set_lib::{lemma_int_range, lemma_len_subset, set_int_range};

verus! {

/// Most players connected at once.
pub const MAX_PLAYERS: usize = 22;

/// Random ids drawn by `connect` before it settles for the smallest free id.
const DRAW_ATTEMPTS: usize = 32;

#[verifier::external_type_specification]
#[verifier::external_body]
pub struct ExSmallRng(SmallRng);

/// Relies on rand::rng and SeedableRng::from_rng: a small generator seeded
/// from the thread-local one.
#[verifier::external_body]
fn seeded_rng() -> SmallRng {
    SmallRng::from_rng(&mut rand::rng())
}

/// Relies on Rng::random: a random `u32`.
#[verifier::external_body]
fn draw_u32(rng: &mut SmallRng) -> u32 {
    rng.random::<u32>()
}

/// A membership event for one player's connection.
#[derive(Debug)]
pub enum ConnectionUpdate {
    Connected(PlayerInfo),
    Disconnected(u32),
}

impl ConnectionUpdate {
    /// An identical copy.
    pub fn duplicate(&self) -> (r: ConnectionUpdate)
        ensures
            r == *self,
    {
        match self {
            ConnectionUpdate::Connected(p) => ConnectionUpdate::Connected(p.duplicate()),
            ConnectionUpdate::Disconnected(id) => ConnectionUpdate::Disconnected(*id),
        }
    }
}

/// `connect` found `MAX_PLAYERS` players already connected.
#[derive(Debug, Clone, Copy, PartialEq, Eq, Structural)]
pub struct Full;

/// A connected player: who it is, its retained snapshots, and every event
/// handed to its queue.
pub struct PlayerView {
    pub info: PlayerInfo,
    pub history: Seq<Entry>,
    pub events: Seq<ConnectionUpdate>,
}

/// The ids of `ps`, in order.
pub open spec fn ids(ps: Seq<PlayerView>) -> Seq<u32> {
    ps.map_values(|p: PlayerView| p.info.id)
}

/// What `ps` look like to a newcomer.
pub open spec fn roster_of(ps: Seq<PlayerView>) -> Seq<PlayerInfo> {
    ps.map_values(|p: PlayerView| p.info)
}

/// Ids are unique, at most `MAX_PLAYERS` players are connected, and each
/// history is ascending and within capacity.
pub open spec fn registry_wf(ps: Seq<PlayerView>) -> bool {
    &&& ps.len() <= MAX_PLAYERS
    &&& forall|i: int, j: int| 0 <= i < j < ps.len() ==> ps[i].info.id != ps[j].info.id
    &&& forall|i: int|
        0 <= i < ps.len() ==> ascending(#[trigger] ps[i].history) && ps[i].history.len()
            <= MAX_UPDATES
}

/// `p` after `update` is handed to its queue.
pub open spec fn told(p: PlayerView, update: ConnectionUpdate) -> PlayerView {
    PlayerView { events: p.events.push(update), ..p }
}

/// `ps` after `update` is handed to each of their queues.
pub open spec fn notified(ps: Seq<PlayerView>, update: ConnectionUpdate) -> Seq<PlayerView> {
    ps.map_values(|p: PlayerView| told(p, update))
}

/// A player that has just connected.
pub open spec fn newcomer(info: PlayerInfo) -> PlayerView {
    PlayerView { info, history: Seq::empty(), events: Seq::empty() }
}

/// `ps` after the player `info` connects: each is told, then it is added.
pub open spec fn joined(ps: Seq<PlayerView>, info: PlayerInfo) -> Seq<PlayerView> {
    notified(ps, ConnectionUpdate::Connected(info)).push(newcomer(info))
}

/// Index of the player with id `id` in `ps`.
pub open spec fn position_of(ps: Seq<PlayerView>, id: u32) -> int {
    choose|k: int| 0 <= k < ps.len() && ps[k].info.id == id
}

/// `ps` after the player with id `id` disconnects: it is removed and each
/// remaining player is told.
pub open spec fn left(ps: Seq<PlayerView>, id: u32) -> Seq<PlayerView> {
    notified(ps.remove(position_of(ps, id)), ConnectionUpdate::Disconnected(id))
}

/// `p` after a poll by player `to`: unless `p` is `to`, its freshest snapshot
/// not yet sent to `to` is marked as sent.
pub open spec fn polled(p: PlayerView, to: u32) -> PlayerView {
    if p.info.id == to {
        p
    } else {
        PlayerView { history: marked(p.history, to), ..p }
    }
}

/// `ps` after a poll by player `to`.
pub open spec fn polled_all(ps: Seq<PlayerView>, to: u32) -> Seq<PlayerView> {
    ps.map_values(|p: PlayerView| polled(p, to))
}

/// The records a poll by player `to` returns: for each other player in
/// order, its freshest snapshot not yet sent to `to`, if any.
pub open spec fn delta(ps: Seq<PlayerView>, to: u32) -> Seq<[u8; STATE_LEN]>
    decreases ps.len(),
{
    if ps.len() == 0 {
        Seq::empty()
    } else {
        let rest = delta(ps.drop_last(), to);
        let p = ps.last();
        if p.info.id == to {
            rest
        } else {
            match picked(p.history, to) {
                Some(b) => rest.push(b),
                None => rest,
            }
        }
    }
}

/// `ps` after player `ps[k]` offers a snapshot numbered `sequence`.
pub open spec fn offered(
    ps: Seq<PlayerView>,
    k: int,
    sequence: u32,
    snapshot: SnapshotView,
) -> Seq<PlayerView> {
    ps.update(k, PlayerView { history: accepted(ps[k].history, sequence, snapshot), ..ps[k] })
}

struct Player {
    info: PlayerInfo,
    history: History,
    outbox: Outbox,
}

impl View for Player {
    type V = PlayerView;

    closed spec fn view(&self) -> PlayerView {
        PlayerView { info: self.info, history: self.history@, events: self.outbox@ }
    }
}

/// The registry shared by every connection.
pub struct State {
    players: Vec<Player>,
    rng: SmallRng,
}

impl View for State {
    type V = Seq<PlayerView>;

    closed spec fn view(&self) -> Seq<PlayerView> {
        self.players@.map_values(|p: Player| p@)
    }
}

impl State {
    /// The registry's invariant.
    pub open spec fn wf(&self) -> bool {
        registry_wf(self@)
    }

    /// An empty registry.
    pub fn new() -> (r: State)
        ensures
            r.wf(),
            r@ == Seq::<PlayerView>::empty(),
    {
        let r = State { players: Vec::new(), rng: seeded_rng() };
        assert(r@ =~= Seq::<PlayerView>::empty());
        r
    }

    /// Number of connected players.
    pub fn player_count(&self) -> (r: usize)
        ensures
            r == self@.len(),
    {
        self.players.len()
    }

    /// Index of the player with id `id`, if connected.
    fn find(&self, id: u32) -> (r: Option<usize>)
        ensures
            match r {
                Some(k) => k < self@.len() && self@[k as int].info.id == id,
                None => !ids(self@).contains(id),
            },
    {
        let mut i: usize = 0;
        while i < self.players.len()
            invariant
                0 <= i <= self@.len(),
                self@.len() == self.players@.len(),
                forall|j: int| 0 <= j < i ==> self@[j].info.id != id,
            decreases self.players@.len() - i,
        {
            if self.players[i].info.id == id {
                return Some(i);
            }
            i += 1;
        }
        proof {
            if ids(self@).contains(id) {
                let j = choose|j: int| 0 <= j < ids(self@).len() && ids(self@)[j] == id;
                assert(self@[j].info.id == id);
            }
        }
        None
    }

    /// Whether a player with id `id` is connected.
    pub fn is_connected(&self, id: u32) -> (r: bool)
        ensures
            r == ids(self@).contains(id),
    {
        match self.find(id) {
            Some(k) => {
                assert(ids(self@)[k as int] == id);
                true
            },
            None => false,
        }
    }

    /// Hands `update` to every connected player's queue.
    fn broadcast(&mut self, update: &ConnectionUpdate)
        requires
            old(self).wf(),
        ensures
            final(self).wf(),
            final(self)@ == notified(old(self)@, *update),
    {
        let ghost ps = self@;
        let n = self.players.len();
        let mut i: usize = 0;
        while i < n
            invariant
                0 <= i <= n,
                n == ps.len(),
                n == self.players@.len(),
                ps == old(self)@,
                forall|j: int| 0 <= j < i ==> #[trigger] self@[j] == told(ps[j], *update),
                forall|j: int| i <= j < n ==> #[trigger] self@[j] == ps[j],
            decreases n - i,
        {
            let ghost before = self.players@;
            let ghost vbefore = self@;
            proof {
                assert(vbefore[i as int] == ps[i as int]);
                assert(vbefore[i as int] == before[i as int]@);
            }
            let u = update.duplicate();
            self.players[i].outbox.post(u);
            proof {
                assert(self.players@ == before.update(i as int, self.players@[i as int]));
                assert forall|j: int| 0 <= j < n implies #[trigger] self@[j] == if j == i {
                    told(ps[j], *update)
                } else {
                    vbefore[j]
                } by {
                    assert(self.players@[j] == before.update(i as int, self.players@[i as int])[j]);
                }
            }
            i += 1;
        }
        proof {
            assert(self@ =~= notified(ps, *update));
        }
    }

    /// The info of every connected player, in order.
    fn roster(&self) -> (r: Vec<PlayerInfo>)
        ensures
            r@ == roster_of(self@),
    {
        let mut r: Vec<PlayerInfo> = Vec::new();
        let mut i: usize = 0;
        while i < self.players.len()
            invariant
                0 <= i <= self@.len(),
                self@.len() == self.players@.len(),
                r@ == roster_of(self@).subrange(0, i as int),
            decreases self.players@.len() - i,
        {
            proof {
                assert(self@[i as int] == self.players@[i as int]@);
            }
            r.push(self.players[i].info.duplicate());
            proof {
                assert(r@ =~= roster_of(self@).subrange(0, i + 1));
            }
            i += 1;
        }
        proof {
            assert(roster_of(self@).subrange(0, i as int) =~= roster_of(self@));
        }
        r
    }

    /// Connects a player under the free id `id`: every connected player is
    /// told, then the newcomer is added with an empty history. Returns the
    /// receiving half of the newcomer's event queue and the info of every
    /// player that was already connected.
    pub fn connect_as(&mut self, id: u32, info: ConnectInfo) -> (r: (
        UnboundedReceiver<ConnectionUpdate>,
        Vec<PlayerInfo>,
    ))
        requires
            old(self).wf(),
            old(self)@.len() < MAX_PLAYERS,
            !ids(old(self)@).contains(id),
        ensures
            final(self).wf(),
            final(self)@ == joined(
                old(self)@,
                PlayerInfo { id, color: info.color, name: info.name },
            ),
            r.1@ == roster_of(old(self)@),
    {
        let ghost ps = self@;
        let player = PlayerInfo { id, color: info.color, name: info.name };
        let roster = self.roster();
        let update = ConnectionUpdate::Connected(player.duplicate());
        self.broadcast(&update);
        let (outbox, rx) = Outbox::open();
        let history = History::new();
        let ghost mid = self@;
        self.players.push(Player { info: player, history, outbox });
        proof {
            assert forall|j: int| 0 <= j < ps.len() implies self@[j] == mid[j] by {}
            assert(self@ =~= joined(ps, PlayerInfo { id, color: info.color, name: info.name }));
            assert forall|j: int| 0 <= j < ps.len() implies ps[j].info.id != id by {
                assert(ids(ps)[j] == ps[j].info.id);
            }
        }
        (rx, roster)
    }

    /// The smallest id that no connected player holds.
    fn smallest_free_id(&self) -> (r: u32)
        requires
            self.wf(),
            self@.len() < MAX_PLAYERS,
        ensures
            !ids(self@).contains(r),
            forall|x: u32| x < r ==> ids(self@).contains(x),
    {
        let n = self.players.len();
        let mut c: u32 = 0;
        while (c as usize) <= n && self.is_connected(c)
            invariant
                n == self@.len(),
                n < MAX_PLAYERS,
                c <= n + 1,
                forall|x: u32| x < c ==> ids(self@).contains(x),
            decreases n + 1 - c,
        {
            c += 1;
        }
        if (c as usize) > n {
            proof {
                lemma_ids_leave_a_gap(ids(self@));
            }
        }
        c
    }

    /// A random id that no connected player holds; after `DRAW_ATTEMPTS`
    /// colliding draws, the smallest free id.
    fn fresh_id(&mut self) -> (r: u32)
        requires
            old(self).wf(),
            old(self)@.len() < MAX_PLAYERS,
        ensures
            final(self)@ == old(self)@,
            !ids(old(self)@).contains(r),
    {
        let mut attempts: usize = 0;
        while attempts < DRAW_ATTEMPTS
            invariant
                self@ == old(self)@,
            decreases DRAW_ATTEMPTS - attempts,
        {
            let id = draw_u32(&mut self.rng);
            if !self.is_connected(id) {
                return id;
            }
            attempts += 1;
        }
        self.smallest_free_id()
    }

    /// Connects a new player with a random free id: every connected player
    /// is told, then the newcomer is added with an empty history. Returns its
    /// id, the receiving half of its event queue, and the info of every player
    /// that was already connected; `Full` when `MAX_PLAYERS` are connected.
    pub fn connect(&mut self, info: ConnectInfo) -> (r: Result<
        (u32, UnboundedReceiver<ConnectionUpdate>, Vec<PlayerInfo>),
        Full,
    >)
        requires
            old(self).wf(),
        ensures
            final(self).wf(),
            r is Err <==> old(self)@.len() == MAX_PLAYERS,
            r is Err ==> final(self)@ == old(self)@,
            r matches Ok((id, _, roster)) ==> {
                &&& !ids(old(self)@).contains(id)
                &&& final(self)@ == joined(
                    old(self)@,
                    PlayerInfo { id, color: info.color, name: info.name },
                )
                &&& roster@ == roster_of(old(self)@)
            },
    {
        if self.players.len() >= MAX_PLAYERS {
            return Err(Full);
        }
        let id = self.fresh_id();
        let (rx, roster) = self.connect_as(id, info);
        Ok((id, rx, roster))
    }

    /// Removes the player with id `id` and tells every remaining player;
    /// nothing happens when no such player is connected.
    pub fn disconnect(&mut self, id: u32)
        requires
            old(self).wf(),
        ensures
            final(self).wf(),
            ids(old(self)@).contains(id) ==> final(self)@ == left(old(self)@, id),
            !ids(old(self)@).contains(id) ==> final(self)@ == old(self)@,
    {
        let ghost ps = self@;
        let k = match self.find(id) {
            Some(k) => k,
            None => return,
        };
        proof {
            lemma_position_of(ps, k as int);
        }
        let ghost before = self.players@;
        self.players.remove(k);
        proof {
            assert(self@ =~= ps.remove(k as int)) by {
                assert forall|j: int| 0 <= j < self@.len() implies self@[j] == ps.remove(k as int)[j] by {
                    if j < k {
                        assert(self.players@[j] == before[j]);
                    } else {
                        assert(self.players@[j] == before[j + 1]);
                    }
                }
            }
        }
        self.broadcast(&ConnectionUpdate::Disconnected(id));
    }

    /// Returns, for each other connected player in order, the record of its
    /// freshest snapshot not yet sent to player `to`, and marks each one as
    /// sent to `to`.
    pub fn filtered_state(&mut self, to: u32) -> (r: Vec<[u8; STATE_LEN]>)
        requires
            old(self).wf(),
        ensures
            final(self).wf(),
            final(self)@ == polled_all(old(self)@, to),
            r@ == delta(old(self)@, to),
    {
        let ghost ps = self@;
        let n = self.players.len();
        let mut out: Vec<[u8; STATE_LEN]> = Vec::new();
        let mut i: usize = 0;
        while i < n
            invariant
                0 <= i <= n,
                n == ps.len(),
                n == self.players@.len(),
                ps == old(self)@,
                registry_wf(ps),
                forall|j: int| 0 <= j < i ==> #[trigger] self@[j] == polled(ps[j], to),
                forall|j: int| i <= j < n ==> #[trigger] self@[j] == ps[j],
                out@ == delta(ps.subrange(0, i as int), to),
            decreases n - i,
        {
            let ghost before = self.players@;
            let ghost vbefore = self@;
            proof {
                assert(vbefore[i as int] == ps[i as int]);
                assert(vbefore[i as int] == before[i as int]@);
                assert(ps.subrange(0, i + 1).drop_last() =~= ps.subrange(0, i as int));
                assert(ps.subrange(0, i + 1).last() == ps[i as int]);
                assert(ascending(ps[i as int].history));
                assert(self.players@[i as int].history.wf());
            }
            if self.players[i].info.id != to {
                let picked_record = self.players[i].history.take_freshest_unsent(to);
                if let Some(b) = picked_record {
                    out.push(b);
                }
            }
            proof {
                assert(self.players@ == before.update(i as int, self.players@[i as int]));
                assert forall|j: int| 0 <= j < n implies #[trigger] self@[j] == if j == i {
                    polled(ps[j], to)
                } else {
                    vbefore[j]
                } by {
                    assert(self.players@[j] == before.update(i as int, self.players@[i as int])[j]);
                }
            }
            i += 1;
        }
        proof {
            assert(self@ =~= polled_all(ps, to));
            assert(ps.subrange(0, n as int) =~= ps);
            assert forall|j: int| 0 <= j < n implies ascending(#[trigger] self@[j].history)
                && self@[j].history.len() <= MAX_UPDATES by {
                lemma_marked_keeps_order(ps[j].history, to);
            }
        }
        out
    }

    /// Offers the snapshot `state`, numbered `sequence`, to the history of
    /// player `id`, then polls for `id`; `None` when `id` is not connected.
    pub fn update(&mut self, id: u32, sequence: u32, state: PlayerState) -> (r: Option<
        Vec<[u8; STATE_LEN]>,
    >)
        requires
            old(self).wf(),
        ensures
            final(self).wf(),
            !ids(old(self)@).contains(id) ==> r is None && final(self)@ == old(self)@,
            ids(old(self)@).contains(id) ==> {
                let mid = offered(old(self)@, position_of(old(self)@, id), sequence, state@);
                &&& r matches Some(v) && v@ == delta(mid, id)
                &&& final(self)@ == polled_all(mid, id)
            },
    {
        let ghost ps = self@;
        let k = match self.find(id) {
            Some(k) => k,
            None => return None,
        };
        proof {
            lemma_position_of(ps, k as int);
            assert(self@[k as int] == self.players@[k as int]@);
            assert(ascending(ps[k as int].history));
            assert(self.players@[k as int].history.wf());
        }
        let ghost before = self.players@;
        self.players[k].history.update(sequence, state);
        proof {
            assert(self.players@ == before.update(k as int, self.players@[k as int]));
            assert(self@ =~= offered(ps, k as int, sequence, state@)) by {
                assert forall|j: int| 0 <= j < ps.len() implies self@[j] == offered(ps, k as int, sequence, state@)[j] by {
                    assert(self.players@[j] == before.update(k as int, self.players@[k as int])[j]);
                }
            }
        }
        Some(self.filtered_state(id))
    }
}

/// In a registry without repeated ids, the player at `k` is the one
/// `position_of` finds.
proof fn lemma_position_of(ps: Seq<PlayerView>, k: int)
    requires
        registry_wf(ps),
        0 <= k < ps.len(),
    ensures
        position_of(ps, ps[k].info.id) == k,
        ids(ps).contains(ps[k].info.id),
{
    let id = ps[k].info.id;
    assert(ids(ps)[k] == id);
    let p = position_of(ps, id);
    assert(0 <= p < ps.len() && ps[p].info.id == id);
}

/// Number of events handed to all the queues of `ps`.
pub open spec fn total_events(ps: Seq<PlayerView>) -> nat
    decreases ps.len(),
{
    if ps.len() == 0 {
        0
    } else {
        total_events(ps.drop_last()) + ps.last().events.len()
    }
}

/// Broadcasting an event hands it exactly once to each player's queue and to
/// nobody else: the events across all queues grow by the number of players.
pub proof fn lemma_broadcast_reaches_each(ps: Seq<PlayerView>, update: ConnectionUpdate)
    ensures
        notified(ps, update).len() == ps.len(),
        forall|i: int|
            0 <= i < ps.len() ==> (#[trigger] notified(ps, update)[i]).events == ps[i].events.push(
                update,
            ) && notified(ps, update)[i].info == ps[i].info && notified(ps, update)[i].history
                == ps[i].history,
        total_events(notified(ps, update)) == total_events(ps) + ps.len(),
    decreases ps.len(),
{
    if ps.len() > 0 {
        lemma_broadcast_reaches_each(ps.drop_last(), update);
        assert(notified(ps, update).drop_last() =~= notified(ps.drop_last(), update));
    }
}

/// Membership broadcasts are complete. With `N` players connected, a
/// connect hands exactly `N` events `Connected` to the queues, one to each
/// of them, gives the newcomer a roster of `N` entries and an empty queue;
/// then a disconnect of any one of the `N + 1` hands exactly `N` events
/// `Disconnected`, one to each remaining player.
pub proof fn lemma_membership_counts(ps: Seq<PlayerView>, info: PlayerInfo, gone: u32)
    requires
        registry_wf(ps),
        ps.len() < MAX_PLAYERS,
        !ids(ps).contains(info.id),
        ids(joined(ps, info)).contains(gone),
    ensures
        roster_of(ps).len() == ps.len(),
        joined(ps, info).len() == ps.len() + 1,
        joined(ps, info).last().events.len() == 0,
        total_events(joined(ps, info)) == total_events(ps) + ps.len(),
        forall|i: int|
            0 <= i < ps.len() ==> (#[trigger] joined(ps, info)[i]).events == ps[i].events.push(
                ConnectionUpdate::Connected(info),
            ),
        left(joined(ps, info), gone).len() == ps.len(),
        total_events(left(joined(ps, info), gone)) == total_events(
            joined(ps, info).remove(position_of(joined(ps, info), gone)),
        ) + ps.len(),
        forall|i: int|
            0 <= i < ps.len() ==> (#[trigger] left(joined(ps, info), gone)[i]).events
                == joined(ps, info).remove(position_of(joined(ps, info), gone))[i].events.push(
                ConnectionUpdate::Disconnected(gone),
            ),
{
    let c = ConnectionUpdate::Connected(info);
    let qs = joined(ps, info);
    lemma_broadcast_reaches_each(ps, c);
    assert(qs.drop_last() == notified(ps, c));
    let k = choose|k: int| 0 <= k < ids(qs).len() && ids(qs)[k] == gone;
    assert(qs[k].info.id == gone);
    let p = position_of(qs, gone);
    assert(0 <= p < qs.len());
    lemma_broadcast_reaches_each(qs.remove(p), ConnectionUpdate::Disconnected(gone));
}

/// A poll by player `to` returns nothing of `to`'s own and leaves `to`'s
/// history as it was: each returned record is the freshest snapshot not yet
/// sent to `to` of some other player, and is marked as sent to `to` after
/// the poll.
pub proof fn lemma_poll_excludes_requester(ps: Seq<PlayerView>, to: u32)
    ensures
        forall|m: int|
            0 <= m < delta(ps, to).len() ==> exists|i: int|
                0 <= i < ps.len() && ps[i].info.id != to && picked(ps[i].history, to) == Some(
                    #[trigger] delta(ps, to)[m],
                ),
        forall|i: int|
            0 <= i < ps.len() && ps[i].info.id == to ==> #[trigger] polled_all(ps, to)[i] == ps[i],
        forall|i: int|
            0 <= i < ps.len() && ps[i].info.id != to && freshest_unsent(
                ps[i].history,
                to,
            ) >= 0 ==> (#[trigger] polled_all(ps, to)[i]).history[freshest_unsent(
                ps[i].history,
                to,
            )].1.sent_to.contains(to),
    decreases ps.len(),
{
    if ps.len() > 0 {
        let q = ps.drop_last();
        lemma_poll_excludes_requester(q, to);
        let d = delta(ps, to);
        assert forall|m: int| 0 <= m < d.len() implies exists|i: int|
            0 <= i < ps.len() && ps[i].info.id != to && picked(ps[i].history, to) == Some(
                #[trigger] d[m],
            ) by {
            if m < delta(q, to).len() {
                let i = choose|i: int|
                    0 <= i < q.len() && q[i].info.id != to && picked(q[i].history, to) == Some(
                        #[trigger] delta(q, to)[m],
                    );
                assert(ps[i] == q[i]);
            } else {
                assert(ps[ps.len() - 1] == ps.last());
            }
        }
    }
    assert forall|i: int|
        0 <= i < ps.len() && ps[i].info.id != to && freshest_unsent(
            ps[i].history,
            to,
        ) >= 0 implies (#[trigger] polled_all(ps, to)[i]).history[freshest_unsent(
        ps[i].history,
        to,
    )].1.sent_to.contains(to) by {
        lemma_no_reselection(ps[i].history, to);
    }
}

/// Fewer than `MAX_PLAYERS` ids leave a gap in `0..=s.len()`.
proof fn lemma_ids_leave_a_gap(s: Seq<u32>)
    requires
        s.len() < MAX_PLAYERS,
    ensures
        exists|x: u32| x <= s.len() && !s.contains(x),
{
    let t = s.map_values(|x: u32| x as int);
    let range = set_int_range(0, s.len() as int + 1);
    if forall|x: u32| x <= s.len() ==> s.contains(x) {
        assert forall|v: int| range.contains(v) implies t.to_set().contains(v) by {
            let x = v as u32;
            assert(s.contains(x));
            let j = choose|j: int| 0 <= j < s.len() && s[j] == x;
            assert(t[j] == v);
        }
        lemma_int_range(0, s.len() as int + 1);
        t.lemma_cardinality_of_set();
        lemma_len_subset(range, t.to_set());
    }
}

} // verus!
