//! The coordinator in charge of managing and updating the game state.
//!
//! The game controller owns all state data for the game: the player records,
//! the mapping from live sessions to the players they control, and the pool
//! of players whose controlling session has disconnected. It processes one
//! command at a time; each operation mutates the state and reports what must
//! be sent where, so that the transport layer outside this crate only
//! performs the deliveries.

use vstd::prelude::*;

use crate::client_controller::{ClientAddr, ClientConnected, ClientDisconnected, InputMoveAction};
use crate::game::{empty_turn, GridPos, Health, Player, PlayerAction, PlayerTurn, PlayerTurnV, PlayerV};
use crate::session_map::SessionMap;

verus! {

/// The mathematical value of a sequence of player records.
pub open spec fn players_view(s: Seq<Player>) -> Seq<PlayerV> {
    s.map_values(|p: Player| p@)
}

/// Full snapshot of the game state.
///
/// Sent once, directly, to a newly connected session; afterwards that
/// session only receives incremental [`Update`]s. A player's id is its index
/// in `players`: ids are dense and assigned in creation order.
#[derive(Debug, Clone, PartialEq, Eq)]
pub struct WorldState {
    pub players: Vec<Player>,
}

impl View for WorldState {
    type V = Seq<PlayerV>;

    open spec fn view(&self) -> Seq<PlayerV> {
        players_view(self.players@)
    }
}

/// An update to the game state.
///
/// Updates are delta-encoded: each broadcast carries only the change that
/// one command produced, never the whole state.
#[derive(Debug, Clone, PartialEq, Eq)]
pub enum Update {
    /// A new player was added to the board.
    PlayerAdded { id: usize, data: Player },
    /// A player set their move action for the current turn.
    SetMovement { id: usize, pos: GridPos },
}

/// Mathematical value of an [`Update`].
#[verifier::ext_equal]
pub enum UpdateV {
    PlayerAdded { id: usize, data: PlayerV },
    SetMovement { id: usize, pos: GridPos },
}

impl View for Update {
    type V = UpdateV;

    open spec fn view(&self) -> UpdateV {
        match self {
            Update::PlayerAdded { id, data } => UpdateV::PlayerAdded { id: *id, data: data@ },
            Update::SetMovement { id, pos } => UpdateV::SetMovement { id: *id, pos: *pos },
        }
    }
}

/// Mathematical value of the whole coordinator state.
#[verifier::ext_equal]
pub struct GameView {
    /// Which player each live session controls.
    pub sessions: Map<ClientAddr, usize>,
    /// Players not currently controlled by any session, newest vacated last.
    pub pool: Seq<usize>,
    /// Every player record ever created, indexed by player id.
    pub players: Seq<PlayerV>,
}

/// The state the coordinator starts in: no players, no sessions.
pub open spec fn initial_state() -> GameView {
    GameView { sessions: Map::empty(), pool: Seq::empty(), players: Seq::empty() }
}

/// Some live session controls the player with this id.
pub open spec fn owned_by_some_session(v: GameView, id: usize) -> bool {
    exists|k: ClientAddr| v.sessions.contains_key(k) && v.sessions[k] == id
}

/// The player with this id is either in the unassigned pool or controlled by
/// a live session.
pub open spec fn covered(v: GameView, id: usize) -> bool {
    v.pool.contains(id) || owned_by_some_session(v, id)
}

/// The coordinator's internal consistency:
/// every tracked player id names a created record, no two sessions control
/// the same player, the pool holds no player twice and none that a session
/// controls, and every created player is either pooled or controlled.
pub open spec fn state_inv(v: GameView) -> bool {
    &&& forall|k: ClientAddr| #[trigger] v.sessions.contains_key(k) ==> (v.sessions[k] as int)
        < v.players.len()
    &&& forall|i: int| 0 <= i < v.pool.len() ==> (#[trigger] v.pool[i] as int) < v.players.len()
    &&& v.pool.no_duplicates()
    &&& forall|k1: ClientAddr, k2: ClientAddr|
        v.sessions.contains_key(k1) && v.sessions.contains_key(k2) && k1 != k2
            ==> #[trigger] v.sessions[k1] != #[trigger] v.sessions[k2]
    &&& forall|k: ClientAddr, i: int|
        v.sessions.contains_key(k) && 0 <= i < v.pool.len()
            ==> #[trigger] v.sessions[k] != #[trigger] v.pool[i]
    &&& forall|id: usize| (id as int) < v.players.len() ==> #[trigger] covered(v, id)
}

/// The record a newly created player starts with: position `(id, 0)`, full
/// health of 10, and an empty pending turn.
pub open spec fn initial_player(id: usize) -> PlayerV {
    PlayerV {
        pos: GridPos { x: id, y: 0 },
        health: Health { max: 10, current: 10 },
        pending_turn: empty_turn(),
    }
}

/// What a connect does to the state: the newest pooled player is reused when
/// one exists; otherwise a fresh player is created with the next dense id.
/// Either way the connecting session is registered as its controller.
pub open spec fn spec_on_connect(pre: GameView, addr: ClientAddr) -> GameView {
    if pre.pool.len() > 0 {
        GameView {
            sessions: pre.sessions.insert(addr, pre.pool.last()),
            pool: pre.pool.drop_last(),
            players: pre.players,
        }
    } else {
        GameView {
            sessions: pre.sessions.insert(addr, pre.players.len() as usize),
            pool: pre.pool,
            players: pre.players.push(initial_player(pre.players.len() as usize)),
        }
    }
}

/// What a disconnect does to the state: a registered session is removed and
/// its player returns to the pool, newest last; an unknown session changes
/// nothing. Player records are never removed.
pub open spec fn spec_on_disconnect(pre: GameView, addr: ClientAddr) -> GameView {
    if pre.sessions.contains_key(addr) {
        GameView {
            sessions: pre.sessions.remove(addr),
            pool: pre.pool.push(pre.sessions[addr]),
            players: pre.players,
        }
    } else {
        pre
    }
}

/// A player record with its planned movement overwritten; position, health
/// and queued actions stay as they were.
pub open spec fn with_movement(p: PlayerV, pos: GridPos) -> PlayerV {
    PlayerV {
        pos: p.pos,
        health: p.health,
        pending_turn: PlayerTurnV { movement: Some(pos), actions: p.pending_turn.actions },
    }
}

/// What a move input does to the state: the sender's player gets the new
/// movement target, last write wins; every other record, the session mapping
/// and the pool stay untouched. A move from an unregistered session changes
/// nothing.
pub open spec fn spec_on_move(pre: GameView, addr: ClientAddr, pos: GridPos) -> GameView {
    if pre.sessions.contains_key(addr) && (pre.sessions[addr] as int) < pre.players.len() {
        let id = pre.sessions[addr];
        GameView {
            sessions: pre.sessions,
            pool: pre.pool,
            players: pre.players.update(id as int, with_movement(pre.players[id as int], pos)),
        }
    } else {
        pre
    }
}

/// No two live sessions control the same player.
pub open spec fn sessions_injective(v: GameView) -> bool {
    forall|k1: ClientAddr, k2: ClientAddr|
        v.sessions.contains_key(k1) && v.sessions.contains_key(k2) && k1 != k2
            ==> #[trigger] v.sessions[k1] != #[trigger] v.sessions[k2]
}

/// One externally driven event at the coordinator's boundary.
pub enum GameEvent {
    Connect { addr: ClientAddr },
    Disconnect { addr: ClientAddr },
    MoveInput { addr: ClientAddr, pos: GridPos },
}

/// The state one event leads to.
pub open spec fn step(pre: GameView, ev: GameEvent) -> GameView {
    match ev {
        GameEvent::Connect { addr } => spec_on_connect(pre, addr),
        GameEvent::Disconnect { addr } => spec_on_disconnect(pre, addr),
        GameEvent::MoveInput { addr, pos } => spec_on_move(pre, addr, pos),
    }
}

/// The state a whole event sequence leads to, starting from the initial
/// state.
pub open spec fn run(evs: Seq<GameEvent>) -> GameView
    decreases evs.len(),
{
    if evs.len() == 0 {
        initial_state()
    } else {
        step(run(evs.drop_last()), evs.last())
    }
}

/// Each connect in the sequence names a session that is not registered at
/// that point — the transport layer mints a fresh token per connection.
pub open spec fn fresh_connects(evs: Seq<GameEvent>) -> bool {
    forall|i: int|
        0 <= i < evs.len() ==> (match #[trigger] evs[i] {
            GameEvent::Connect { addr } => !run(evs.take(i)).sessions.contains_key(addr),
            _ => true,
        })
}

/// The initial state is consistent.
pub proof fn lemma_initial_state_inv()
    ensures
        state_inv(initial_state()),
{
}

/// A connect of a session that is not yet registered keeps the state
/// consistent.
pub proof fn lemma_connect_preserves_inv(pre: GameView, addr: ClientAddr)
    requires
        state_inv(pre),
        !pre.sessions.contains_key(addr),
        pre.players.len() <= usize::MAX,
    ensures
        state_inv(spec_on_connect(pre, addr)),
{
    let post = spec_on_connect(pre, addr);
    if pre.pool.len() > 0 {
        let id = pre.pool.last();
        assert((pre.pool[pre.pool.len() - 1] as int) < pre.players.len());
        assert forall|i: int| 0 <= i < post.pool.len() implies (#[trigger] post.pool[i] as int)
            < post.players.len() by {
            assert(post.pool[i] == pre.pool[i]);
        }
        assert forall|a: int, b: int| 0 <= a < b < post.pool.len() implies post.pool[a]
            != post.pool[b] by {
            assert(pre.pool[a] != pre.pool[b]);
        }
        assert(post.pool.no_duplicates());
        assert forall|k: ClientAddr|
            post.sessions.contains_key(k) && k != addr implies #[trigger] post.sessions[k]
            != id by {
            assert(pre.sessions[k] != pre.pool[pre.pool.len() - 1]);
        }
        assert forall|k: ClientAddr, i: int|
            post.sessions.contains_key(k) && 0 <= i < post.pool.len() implies #[trigger] post.sessions[k]
            != #[trigger] post.pool[i] by {
            assert(post.pool[i] == pre.pool[i]);
            if k == addr {
                assert(pre.pool[i] != pre.pool[pre.pool.len() - 1]);
            } else {
                assert(pre.sessions[k] != pre.pool[i]);
            }
        }
        assert forall|pid: usize| (pid as int) < post.players.len() implies #[trigger] covered(
            post,
            pid,
        ) by {
            assert(covered(pre, pid));
            if pre.pool.contains(pid) {
                let i = choose|i: int| 0 <= i < pre.pool.len() && pre.pool[i] == pid;
                if i == pre.pool.len() - 1 {
                    assert(post.sessions.contains_key(addr) && post.sessions[addr] == pid);
                    assert(owned_by_some_session(post, pid));
                } else {
                    assert(post.pool[i] == pid);
                    assert(post.pool.contains(pid));
                }
            } else {
                let k = choose|k: ClientAddr|
                    pre.sessions.contains_key(k) && pre.sessions[k] == pid;
                assert(post.sessions.contains_key(k) && post.sessions[k] == pid);
                assert(owned_by_some_session(post, pid));
            }
        }
    } else {
        let id = pre.players.len() as usize;
        assert forall|pid: usize| (pid as int) < post.players.len() implies #[trigger] covered(
            post,
            pid,
        ) by {
            if (pid as int) < pre.players.len() {
                assert(covered(pre, pid));
                let k = choose|k: ClientAddr|
                    pre.sessions.contains_key(k) && pre.sessions[k] == pid;
                assert(post.sessions.contains_key(k) && post.sessions[k] == pid);
                assert(owned_by_some_session(post, pid));
            } else {
                assert(pid == id);
                assert(post.sessions.contains_key(addr) && post.sessions[addr] == pid);
                assert(owned_by_some_session(post, pid));
            }
        }
    }
}

/// A disconnect keeps the state consistent, whether or not the session was
/// registered.
pub proof fn lemma_disconnect_preserves_inv(pre: GameView, addr: ClientAddr)
    requires
        state_inv(pre),
    ensures
        state_inv(spec_on_disconnect(pre, addr)),
{
    let post = spec_on_disconnect(pre, addr);
    if pre.sessions.contains_key(addr) {
        let id = pre.sessions[addr];
        assert forall|a: int, b: int| 0 <= a < b < post.pool.len() implies post.pool[a]
            != post.pool[b] by {
            if b == post.pool.len() - 1 {
                assert(pre.sessions[addr] != pre.pool[a]);
            } else {
                assert(pre.pool[a] != pre.pool[b]);
            }
        }
        assert(post.pool.no_duplicates());
        assert forall|k: ClientAddr, i: int|
            post.sessions.contains_key(k) && 0 <= i < post.pool.len() implies #[trigger] post.sessions[k]
            != #[trigger] post.pool[i] by {
            assert(k != addr);
            if i == post.pool.len() - 1 {
                assert(post.pool[i] == id);
                assert(pre.sessions[k] != pre.sessions[addr]);
            } else {
                assert(pre.sessions[k] != pre.pool[i]);
            }
        }
        assert forall|pid: usize| (pid as int) < post.players.len() implies #[trigger] covered(
            post,
            pid,
        ) by {
            assert(covered(pre, pid));
            if pre.pool.contains(pid) {
                let i = choose|i: int| 0 <= i < pre.pool.len() && pre.pool[i] == pid;
                assert(post.pool[i] == pid);
                assert(post.pool.contains(pid));
            } else {
                let k = choose|k: ClientAddr|
                    pre.sessions.contains_key(k) && pre.sessions[k] == pid;
                if k == addr {
                    assert(post.pool[post.pool.len() - 1] == pid);
                    assert(post.pool.contains(pid));
                } else {
                    assert(post.sessions.contains_key(k) && post.sessions[k] == pid);
                    assert(owned_by_some_session(post, pid));
                }
            }
        }
    }
}

/// A move input keeps the state consistent: it touches no id bookkeeping and
/// neither adds nor removes player records.
pub proof fn lemma_move_preserves_inv(pre: GameView, addr: ClientAddr, pos: GridPos)
    requires
        state_inv(pre),
    ensures
        state_inv(spec_on_move(pre, addr, pos)),
{
    let post = spec_on_move(pre, addr, pos);
    assert(post.players.len() == pre.players.len());
    assert forall|pid: usize| (pid as int) < post.players.len() implies #[trigger] covered(
        post,
        pid,
    ) by {
        assert(covered(pre, pid));
        if owned_by_some_session(pre, pid) {
            let k = choose|k: ClientAddr| pre.sessions.contains_key(k) && pre.sessions[k] == pid;
            assert(post.sessions.contains_key(k) && post.sessions[k] == pid);
            assert(owned_by_some_session(post, pid));
        }
    }
}

/// Along any sequence of connect, disconnect and move events whose connects
/// carry fresh session tokens, the coordinator state stays consistent, and
/// no more players are created than events happened.
pub proof fn lemma_run_inv(evs: Seq<GameEvent>)
    requires
        fresh_connects(evs),
        evs.len() <= usize::MAX,
    ensures
        state_inv(run(evs)),
        run(evs).players.len() <= evs.len(),
    decreases evs.len(),
{
    if evs.len() == 0 {
        lemma_initial_state_inv();
    } else {
        let pre = evs.drop_last();
        assert forall|i: int|
            0 <= i < pre.len() implies (match #[trigger] pre[i] {
            GameEvent::Connect { addr } => !run(pre.take(i)).sessions.contains_key(addr),
            _ => true,
        }) by {
            assert(pre[i] == evs[i]);
            assert(pre.take(i) =~= evs.take(i));
        }
        lemma_run_inv(pre);
        let mid = run(pre);
        match evs.last() {
            GameEvent::Connect { addr } => {
                assert(evs.take(evs.len() - 1) =~= pre);
                assert(!mid.sessions.contains_key(addr));
                lemma_connect_preserves_inv(mid, addr);
            },
            GameEvent::Disconnect { addr } => {
                lemma_disconnect_preserves_inv(mid, addr);
            },
            GameEvent::MoveInput { addr, pos } => {
                lemma_move_preserves_inv(mid, addr, pos);
            },
        }
    }
}

/// For any sequence of connect, disconnect and move events whose connects
/// carry fresh session tokens, the session-to-player mapping is injective:
/// no two live sessions control the same player. Applied to every prefix of
/// a sequence, this holds at every point in time.
pub proof fn lemma_sessions_always_injective(evs: Seq<GameEvent>)
    requires
        fresh_connects(evs),
        evs.len() <= usize::MAX,
    ensures
        sessions_injective(run(evs)),
{
    lemma_run_inv(evs);
}

/// If a registered session disconnects and another session connects directly
/// after, the connecting session is assigned exactly the player the first
/// one vacated — the newest pooled player is reused — and no new player is
/// created.
pub proof fn lemma_lifo_reuse(pre: GameView, leaving: ClientAddr, joining: ClientAddr)
    requires
        pre.sessions.contains_key(leaving),
    ensures
        ({
            let post = spec_on_connect(spec_on_disconnect(pre, leaving), joining);
            &&& post.sessions.contains_key(joining)
            &&& post.sessions[joining] == pre.sessions[leaving]
            &&& post.players.len() == pre.players.len()
        }),
{
}

/// A move input from a registered session updates only the planned movement
/// of that session's player: every other player record, the session mapping
/// and the pool are exactly as they were, and even that player keeps its
/// position, health and queued actions.
pub proof fn lemma_move_isolation(pre: GameView, addr: ClientAddr, pos: GridPos)
    requires
        state_inv(pre),
        pre.sessions.contains_key(addr),
    ensures
        ({
            let post = spec_on_move(pre, addr, pos);
            let id = pre.sessions[addr] as int;
            &&& post.sessions == pre.sessions
            &&& post.pool == pre.pool
            &&& post.players.len() == pre.players.len()
            &&& post.players[id] == with_movement(pre.players[id], pos)
            &&& post.players[id].pending_turn.movement == Some(pos)
            &&& post.players[id].pos == pre.players[id].pos
            &&& post.players[id].health == pre.players[id].health
            &&& post.players[id].pending_turn.actions == pre.players[id].pending_turn.actions
            &&& forall|j: int|
                0 <= j < pre.players.len() && j != id ==> post.players[j] == pre.players[j]
        }),
{
}

/// Copy a queue of actions element by element.
fn clone_actions(v: &Vec<PlayerAction>) -> (r: Vec<PlayerAction>)
    ensures
        r@ == v@,
{
    let n = v.len();
    let mut r: Vec<PlayerAction> = Vec::new();
    let mut idx: usize = 0;
    while idx < n
        invariant
            n == v@.len(),
            0 <= idx <= n,
            r@.len() == idx,
            forall|j: int| 0 <= j < idx ==> r@[j] == v@[j],
        decreases n - idx,
    {
        r.push(PlayerAction);
        idx += 1;
    }
    proof {
        assert(r@ =~= v@);
    }
    r
}

/// Copy one player record, preserving its mathematical value.
fn clone_player(p: &Player) -> (r: Player)
    ensures
        r@ == p@,
{
    Player {
        pos: p.pos,
        health: p.health,
        pending_turn: PlayerTurn {
            movement: p.pending_turn.movement,
            actions: clone_actions(&p.pending_turn.actions),
        },
    }
}

/// Copy the full list of player records, preserving its mathematical value.
fn clone_players(v: &Vec<Player>) -> (r: Vec<Player>)
    ensures
        players_view(r@) == players_view(v@),
{
    let n = v.len();
    let mut r: Vec<Player> = Vec::new();
    let mut idx: usize = 0;
    while idx < n
        invariant
            n == v@.len(),
            0 <= idx <= n,
            r@.len() == idx,
            forall|j: int| 0 <= j < idx ==> (#[trigger] r@[j])@ == v@[j]@,
        decreases n - idx,
    {
        let p = clone_player(&v[idx]);
        r.push(p);
        idx += 1;
    }
    proof {
        assert(players_view(r@) =~= players_view(v@));
    }
    r
}

/// What the coordinator answers to a connect: the full snapshot for the new
/// session, the delta to fan out when a player was created, and who is to
/// receive that delta (every session registered before this connect).
pub struct ConnectReply {
    pub snapshot: WorldState,
    pub broadcast: Option<Update>,
    pub recipients: Vec<ClientAddr>,
}

/// What the coordinator answers to a move input: the delta and who is to
/// receive it (every registered session, the sender included).
pub struct MoveReply {
    pub update: Update,
    pub recipients: Vec<ClientAddr>,
}

/// Main coordinator in charge of managing and updating the game state.
///
/// The game controller owns and manages all state data for the game,
/// updating the game in response to incoming inputs from the clients and
/// reporting the resulting replies and broadcasts in turn. It is meant to be
/// driven by a single loop that feeds it one command at a time.
pub struct GameController {
    /// Maps each live session to the index of the player it controls.
    clients: SessionMap,
    /// Players that are not currently assigned to a connected client,
    /// newest vacated last. A new client is given control of an existing
    /// player before a new player is created.
    unassigned_players: Vec<usize>,
    /// State data for all the players in the game, indexed by player id.
    players: Vec<Player>,
}

impl View for GameController {
    type V = GameView;

    closed spec fn view(&self) -> GameView {
        GameView {
            sessions: self.clients@,
            pool: self.unassigned_players@,
            players: players_view(self.players@),
        }
    }
}

impl GameController {
    /// The representation is well formed and the state it denotes is
    /// consistent.
    pub closed spec fn wf(self) -> bool {
        self.clients.wf() && state_inv(self@)
    }

    /// A consistent representation denotes a consistent state.
    pub proof fn lemma_wf_implies_state_inv(self)
        requires
            self.wf(),
        ensures
            state_inv(self@),
    {
    }

    /// A fresh coordinator with no players and no sessions.
    pub fn new() -> (r: GameController)
        ensures
            r.wf(),
            r@ == initial_state(),
    {
        let r = GameController {
            clients: SessionMap::new(),
            unassigned_players: Vec::new(),
            players: Vec::new(),
        };
        proof {
            assert(r@.players =~= initial_state().players);
            assert(r@ =~= initial_state());
        }
        r
    }

    /// Register a connecting session.
    ///
    /// The newest pooled player is reused when one exists; otherwise a new
    /// player is created, which is the only event that produces a
    /// `PlayerAdded` broadcast — addressed to the sessions registered before
    /// this connect, never to the new one. The reply's snapshot reflects the
    /// state after the registration and always contains the record of the
    /// player the new session was assigned.
    pub fn handle_connect(&mut self, message: ClientConnected) -> (r: ConnectReply)
        requires
            old(self).wf(),
            !old(self)@.sessions.contains_key(message.addr),
        ensures
            final(self).wf(),
            final(self)@ == spec_on_connect(old(self)@, message.addr),
            r.snapshot@ == final(self)@.players,
            final(self)@.sessions.contains_key(message.addr),
            (final(self)@.sessions[message.addr] as int) < r.snapshot@.len(),
            r.recipients@.no_duplicates(),
            r.recipients@.to_set() == old(self)@.sessions.dom(),
            (match r.broadcast {
                Some(u) => old(self)@.pool.len() == 0 && u@ == (UpdateV::PlayerAdded {
                    id: old(self)@.players.len() as usize,
                    data: initial_player(old(self)@.players.len() as usize),
                }),
                None => old(self)@.pool.len() > 0,
            }),
    {
        let ghost pre = self@;
        let n = self.players.len();
        let recipients = self.clients.keys();
        let mut broadcast: Option<Update> = None;
        let player_index: usize;
        match self.unassigned_players.pop() {
            Some(reused) => {
                player_index = reused;
                proof {
                    assert((pre.pool[pre.pool.len() - 1] as int) < pre.players.len());
                }
            },
            None => {
                player_index = n;
                let created = Player {
                    pos: GridPos { x: player_index, y: 0 },
                    health: Health { max: 10, current: 10 },
                    pending_turn: PlayerTurn::default(),
                };
                self.players.push(created);
                broadcast = Some(
                    Update::PlayerAdded {
                        id: player_index,
                        data: Player {
                            pos: GridPos { x: player_index, y: 0 },
                            health: Health { max: 10, current: 10 },
                            pending_turn: PlayerTurn::default(),
                        },
                    },
                );
                proof {
                    assert(players_view(self.players@) =~= pre.players.push(
                        initial_player(player_index),
                    ));
                }
            },
        }
        self.clients.insert_new(message.addr, player_index);
        let snapshot = WorldState { players: clone_players(&self.players) };
        proof {
            assert(self@ =~= spec_on_connect(pre, message.addr));
            lemma_connect_preserves_inv(pre, message.addr);
        }
        ConnectReply { snapshot, broadcast, recipients }
    }

    /// Unregister a disconnecting session, returning its player to the pool.
    ///
    /// Returns whether the session was registered; a disconnect for an
    /// unknown session is a no-op, so that connect/disconnect races are
    /// harmless. Player records are never removed.
    pub fn handle_disconnect(&mut self, message: ClientDisconnected) -> (r: bool)
        requires
            old(self).wf(),
        ensures
            final(self).wf(),
            final(self)@ == spec_on_disconnect(old(self)@, message.addr),
            r == old(self)@.sessions.contains_key(message.addr),
    {
        let ghost pre = self@;
        match self.clients.remove(message.addr) {
            Some(player_index) => {
                self.unassigned_players.push(player_index);
                proof {
                    assert(self@ =~= spec_on_disconnect(pre, message.addr));
                    lemma_disconnect_preserves_inv(pre, message.addr);
                }
                true
            },
            None => {
                proof {
                    assert(self@ =~= spec_on_disconnect(pre, message.addr));
                    lemma_disconnect_preserves_inv(pre, message.addr);
                }
                false
            },
        }
    }

    /// Record a move input from a session.
    ///
    /// The sender's player gets the new movement target, last write wins;
    /// no other record changes. The resulting delta is addressed to every
    /// registered session, the sender included. A move from a session that
    /// never completed a connect cannot name a player: it yields `None` and
    /// changes nothing, so the caller can drop that session instead of
    /// aborting the process.
    pub fn handle_move(&mut self, message: InputMoveAction) -> (r: Option<MoveReply>)
        requires
            old(self).wf(),
        ensures
            final(self).wf(),
            final(self)@ == spec_on_move(old(self)@, message.client, message.pos),
            (match r {
                Some(reply) => {
                    &&& old(self)@.sessions.contains_key(message.client)
                    &&& reply.update@ == (UpdateV::SetMovement {
                        id: old(self)@.sessions[message.client],
                        pos: message.pos,
                    })
                    &&& reply.recipients@.no_duplicates()
                    &&& reply.recipients@.to_set() == old(self)@.sessions.dom()
                },
                None => !old(self)@.sessions.contains_key(message.client),
            }),
    {
        let ghost pre = self@;
        let recipients = self.clients.keys();
        match self.clients.get(message.client) {
            Some(player_index) => {
                proof {
                    assert((pre.sessions[message.client] as int) < pre.players.len());
                }
                self.players[player_index].pending_turn.movement = Some(message.pos);
                proof {
                    assert(self@.players =~= spec_on_move(pre, message.client, message.pos).players);
                    assert(self@ =~= spec_on_move(pre, message.client, message.pos));
                    lemma_move_preserves_inv(pre, message.client, message.pos);
                }
                Some(
                    MoveReply {
                        update: Update::SetMovement { id: player_index, pos: message.pos },
                        recipients,
                    },
                )
            },
            None => {
                None
            },
        }
    }
}

} // verus!
