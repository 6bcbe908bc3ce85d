//! The per-instance game state and the rules a minigame supplies.

use vstd::prelude::*;

verus! {

/// Identity of a connected player.
pub type PlayerId = u128;

/// A count of scheduler ticks.
pub type Ticks = i64;

/// What a concrete minigame supplies: its capacity bounds, the length of its
/// lobby countdown, and the two hooks that run after a roster has changed.
pub trait Game {
    /// The value that `max_players` returns.
    spec fn max_players_spec(&self) -> usize;

    /// The value that `min_players` returns.
    spec fn min_players_spec(&self) -> usize;

    /// The value that `countdown_seconds` returns.
    spec fn countdown_seconds_spec(&self) -> i32;

    /// The largest roster an instance may hold.
    fn max_players(&self) -> (n: usize)
        ensures
            n == self.max_players_spec(),
    ;

    /// The smallest roster with which a match may start.
    fn min_players(&self) -> (n: usize)
        ensures
            n == self.min_players_spec(),
    ;

    /// The lobby countdown, one tick per second.
    fn countdown_seconds(&self) -> (s: i32)
        ensures
            s == self.countdown_seconds_spec(),
    ;

    /// Runs once `player` has been added to the roster of instance `world`:
    /// `state`, the state of that instance, already holds the player.
    fn client_join(&self, player: PlayerId, world: usize, state: &GameState)
        requires
            state@.is_lobby(),
            state@.roster().contains(player),
    ;

    /// Runs once `player` has been removed from the roster of instance
    /// `world`: `state`, the state of that instance, no longer holds the
    /// player.
    fn client_leave(&self, player: PlayerId, world: usize, state: &GameState)
        requires
            !state@.roster().contains(player),
    ;
}

/// Rules are valid when `1 <= min_players <= max_players` and the countdown is
/// not negative.
pub open spec fn valid_rules<G: Game>(game: &G) -> bool {
    &&& 1 <= game.min_players_spec()
    &&& game.min_players_spec() <= game.max_players_spec()
    &&& game.countdown_seconds_spec() >= 0
}

/// Why a player could not join an instance.
#[derive(Clone, Copy, Debug, PartialEq, Eq, Structural)]
pub enum JoinError {
    /// The lobby already holds `max_players` players.
    CapacityExceeded,
    /// The instance has left the lobby; a running match takes no new players.
    MatchStarted,
}

/// The state of one game instance.
#[derive(Debug)]
pub enum GameState {
    /// Waiting for players to join
    Lobby { countdown: Ticks, waiting_players: Vec<PlayerId> },
    /// The game is playing.
    Main { remaining_players: Vec<PlayerId> },
}

/// The mathematical value of a `GameState`.
pub ghost enum GameStateView {
    Lobby { countdown: int, waiting_players: Seq<PlayerId> },
    Main { remaining_players: Seq<PlayerId> },
}

impl GameStateView {
    /// Whether the instance still waits for its match to start.
    pub open spec fn is_lobby(self) -> bool {
        self is Lobby
    }

    /// The players of the instance, in the order in which they joined.
    pub open spec fn roster(self) -> Seq<PlayerId> {
        match self {
            GameStateView::Lobby { waiting_players, .. } => waiting_players,
            GameStateView::Main { remaining_players } => remaining_players,
        }
    }

    /// No player occurs twice, and a lobby's countdown is not negative.
    pub open spec fn wf(self) -> bool {
        &&& self.roster().no_duplicates()
        &&& match self {
            GameStateView::Lobby { countdown, .. } => 0 <= countdown,
            GameStateView::Main { .. } => true,
        }
    }

    /// A lobby that still has room under `max_players`.
    pub open spec fn has_room(self, max_players: usize) -> bool {
        self.is_lobby() && self.roster().len() < max_players
    }

    /// The outcome of a join, for each state.
    pub open spec fn join_result(self, max_players: usize) -> Result<(), JoinError> {
        if !self.is_lobby() {
            Err(JoinError::MatchStarted)
        } else if self.roster().len() >= max_players {
            Err(JoinError::CapacityExceeded)
        } else {
            Ok(())
        }
    }

    /// The state after `player` has joined where `join_result` is `Ok`; the
    /// state itself otherwise.
    pub open spec fn join(self, player: PlayerId, max_players: usize) -> GameStateView {
        match self {
            GameStateView::Lobby { countdown, waiting_players } => if waiting_players.len()
                < max_players {
                GameStateView::Lobby { countdown, waiting_players: waiting_players.push(player) }
            } else {
                self
            },
            GameStateView::Main { .. } => self,
        }
    }

    /// The state without `player`; the state itself where the player is absent.
    pub open spec fn leave(self, player: PlayerId) -> GameStateView {
        match self {
            GameStateView::Lobby { countdown, waiting_players } => GameStateView::Lobby {
                countdown,
                waiting_players: waiting_players.remove_value(player),
            },
            GameStateView::Main { remaining_players } => GameStateView::Main {
                remaining_players: remaining_players.remove_value(player),
            },
        }
    }

    /// The state `n` scheduler ticks later.
    pub open spec fn ticks(self, min_players: usize, n: nat) -> GameStateView
        decreases n,
    {
        if n == 0 {
            self
        } else {
            self.ticks(min_players, (n - 1) as nat).tick(min_players)
        }
    }

    /// The state one scheduler tick later. A lobby with fewer than
    /// `min_players` players waits with its countdown untouched. With enough
    /// players the countdown loses one tick, and the tick on which it reaches
    /// zero starts the match with the waiting players in their order.
    pub open spec fn tick(self, min_players: usize) -> GameStateView {
        match self {
            GameStateView::Lobby { countdown, waiting_players } => if waiting_players.len()
                < min_players {
                self
            } else if countdown <= 1 {
                GameStateView::Main { remaining_players: waiting_players }
            } else {
                GameStateView::Lobby { countdown: countdown - 1, waiting_players }
            },
            GameStateView::Main { .. } => self,
        }
    }
}

impl View for GameState {
    type V = GameStateView;

    open spec fn view(&self) -> GameStateView {
        match self {
            GameState::Lobby { countdown, waiting_players } => GameStateView::Lobby {
                countdown: *countdown as int,
                waiting_players: waiting_players@,
            },
            GameState::Main { remaining_players } => GameStateView::Main {
                remaining_players: remaining_players@,
            },
        }
    }
}

/// The position of `player` in `players`, if it is there.
pub fn position_of(players: &Vec<PlayerId>, player: PlayerId) -> (found: Option<usize>)
    ensures
        match found {
            Some(i) => i < players@.len() && players@[i as int] == player
                && players@.index_of_first(player) == Some(i as int),
            None => !players@.contains(player),
        },
        found is Some <==> players@.contains(player),
{
    let mut i: usize = 0;
    while i < players.len()
        invariant
            i <= players.len(),
            forall|j: int| 0 <= j < i ==> players@[j] != player,
        decreases players.len() - i,
    {
        if players[i] == player {
            proof {
                players@.index_of_first_ensures(player);
            }
            return Some(i);
        }
        i += 1;
    }
    None
}

/// Whether no player occurs twice in `players`.
pub fn all_distinct(players: &Vec<PlayerId>) -> (distinct: bool)
    ensures
        distinct == players@.no_duplicates(),
{
    let mut i: usize = 0;
    while i < players.len()
        invariant
            i <= players.len(),
            forall|a: int, b: int| 0 <= a < i && a < b < players@.len() ==> players@[a] != players@[b],
        decreases players.len() - i,
    {
        let mut j: usize = i + 1;
        while j < players.len()
            invariant
                i < j <= players.len(),
                forall|b: int| i < b < j ==> players@[i as int] != players@[b],
            decreases players.len() - j,
        {
            if players[i] == players[j] {
                return false;
            }
            j += 1;
        }
        i += 1;
    }
    proof {
        assert forall|a: int, b: int|
            0 <= a < players@.len() && 0 <= b < players@.len() && a != b implies players@[a]
            != players@[b] by {
            if a < b {
            } else {
                assert(players@[b] != players@[a]);
            }
        }
    }
    true
}

/// Whether no player is in both `first` and `second`.
pub fn disjoint(first: &Vec<PlayerId>, second: &Vec<PlayerId>) -> (apart: bool)
    ensures
        apart == forall|player: PlayerId|
            !(first@.contains(player) && second@.contains(player)),
{
    let mut i: usize = 0;
    while i < first.len()
        invariant
            i <= first.len(),
            forall|a: int| 0 <= a < i ==> !second@.contains(#[trigger] first@[a]),
        decreases first.len() - i,
    {
        if position_of(second, first[i]).is_some() {
            proof {
                assert(first@.contains(first@[i as int]));
            }
            return false;
        }
        i += 1;
    }
    true
}

impl GameState {
    /// The roster: the waiting players of a lobby, the remaining players of a
    /// match.
    pub fn players(&self) -> (players: &Vec<PlayerId>)
        ensures
            players@ == self@.roster(),
    {
        match self {
            GameState::Lobby { waiting_players, .. } => waiting_players,
            GameState::Main { remaining_players } => remaining_players,
        }
    }

    /// Whether the state is well formed.
    pub fn is_well_formed(&self) -> (ok: bool)
        ensures
            ok == self@.wf(),
    {
        match self {
            GameState::Lobby { countdown, waiting_players } => *countdown >= 0 && all_distinct(
                waiting_players,
            ),
            GameState::Main { remaining_players } => all_distinct(remaining_players),
        }
    }

    /// A fresh lobby with an empty waiting list.
    pub fn lobby(countdown: Ticks) -> (state: GameState)
        requires
            countdown >= 0,
        ensures
            state@ == (GameStateView::Lobby {
                countdown: countdown as int,
                waiting_players: Seq::empty(),
            }),
            state@.wf(),
    {
        GameState::Lobby { countdown, waiting_players: Vec::new() }
    }

    /// Whether this is a lobby with fewer than `rules.max_players()` players.
    pub fn has_room<G: Game>(&self, rules: &G) -> (room: bool)
        ensures
            room == self@.has_room(rules.max_players_spec()),
    {
        match self {
            GameState::Lobby { waiting_players, .. } => waiting_players.len() < rules.max_players(),
            GameState::Main { .. } => false,
        }
    }

    /// The number of players in the roster.
    pub fn player_count(&self) -> (n: usize)
        ensures
            n == self@.roster().len(),
    {
        match self {
            GameState::Lobby { waiting_players, .. } => waiting_players.len(),
            GameState::Main { remaining_players } => remaining_players.len(),
        }
    }

    /// Whether `player` is in the roster.
    pub fn contains(&self, player: PlayerId) -> (found: bool)
        ensures
            found == self@.roster().contains(player),
    {
        match self {
            GameState::Lobby { waiting_players, .. } => position_of(
                waiting_players,
                player,
            ).is_some(),
            GameState::Main { remaining_players } => position_of(
                remaining_players,
                player,
            ).is_some(),
        }
    }

    /// Appends `player` to the waiting list of a lobby that has room. A full
    /// lobby and a running match refuse, and stay as they are.
    pub fn join<G: Game>(&mut self, player: PlayerId, rules: &G) -> (joined: Result<(), JoinError>)
        requires
            old(self)@.wf(),
            !old(self)@.roster().contains(player),
        ensures
            joined == old(self)@.join_result(rules.max_players_spec()),
            final(self)@ == old(self)@.join(player, rules.max_players_spec()),
            joined is Err ==> final(self)@ == old(self)@,
            final(self)@.wf(),
            old(self)@.roster().len() <= rules.max_players_spec() ==> final(self)@.roster().len()
                <= rules.max_players_spec(),
    {
        let max_players = rules.max_players();
        match self {
            GameState::Lobby { waiting_players, .. } => {
                if waiting_players.len() >= max_players {
                    Err(JoinError::CapacityExceeded)
                } else {
                    let ghost before = waiting_players@;
                    waiting_players.push(player);
                    proof {
                        lemma_push_absent_keeps_unique(before, player);
                    }
                    Ok(())
                }
            },
            GameState::Main { .. } => Err(JoinError::MatchStarted),
        }
    }

    /// Removes `player` from the roster, whichever state the instance is in,
    /// and says whether the player was there. The others keep their order.
    pub fn leave(&mut self, player: PlayerId) -> (left: bool)
        requires
            old(self)@.wf(),
        ensures
            left == old(self)@.roster().contains(player),
            final(self)@ == old(self)@.leave(player),
            !left ==> final(self)@ == old(self)@,
            !final(self)@.roster().contains(player),
            final(self)@.wf(),
    {
        proof {
            lemma_remove_value(old(self)@.roster(), player);
        }
        match self {
            GameState::Lobby { waiting_players, .. } => {
                match position_of(waiting_players, player) {
                    Some(i) => {
                        waiting_players.remove(i);
                        true
                    },
                    None => false,
                }
            },
            GameState::Main { remaining_players } => {
                match position_of(remaining_players, player) {
                    Some(i) => {
                        remaining_players.remove(i);
                        true
                    },
                    None => false,
                }
            },
        }
    }

    /// Advances the instance by one scheduler tick.
    pub fn tick<G: Game>(&mut self, rules: &G)
        requires
            old(self)@.wf(),
        ensures
            final(self)@ == old(self)@.tick(rules.min_players_spec()),
            final(self)@.wf(),
            final(self)@.roster() == old(self)@.roster(),
    {
        let min_players = rules.min_players();
        let mut start: bool = false;
        match self {
            GameState::Lobby { countdown, waiting_players } => {
                if waiting_players.len() >= min_players {
                    if *countdown <= 1 {
                        start = true;
                    } else {
                        *countdown = *countdown - 1;
                    }
                }
            },
            GameState::Main { .. } => {},
        }
        if start {
            let mut players: Vec<PlayerId> = Vec::new();
            match self {
                GameState::Lobby { waiting_players, .. } => {
                    core::mem::swap(waiting_players, &mut players);
                },
                GameState::Main { .. } => {},
            }
            *self = GameState::Main { remaining_players: players };
        }
    }
}

/// Appending a value that a duplicate-free sequence lacks keeps it
/// duplicate-free.
pub proof fn lemma_push_absent_keeps_unique(s: Seq<PlayerId>, player: PlayerId)
    requires
        s.no_duplicates(),
        !s.contains(player),
    ensures
        s.push(player).no_duplicates(),
{
    let t = s.push(player);
    assert forall|i: int, j: int| 0 <= i < t.len() && 0 <= j < t.len() && i != j implies t[i]
        != t[j] by {
        if i < s.len() {
            assert(s.contains(s[i]));
        }
        if j < s.len() {
            assert(s.contains(s[j]));
        }
    }
}

/// What `remove_value` does to a duplicate-free sequence: nothing where the
/// value is absent; otherwise the value is gone, the rest stays duplicate-free
/// and one shorter, and every other value is kept.
pub proof fn lemma_remove_value(s: Seq<PlayerId>, player: PlayerId)
    requires
        s.no_duplicates(),
    ensures
        !s.contains(player) ==> s.remove_value(player) == s,
        s.contains(player) ==> s.remove_value(player).len() + 1 == s.len(),
        !s.remove_value(player).contains(player),
        s.remove_value(player).no_duplicates(),
        forall|q: PlayerId| q != player ==> (s.remove_value(player).contains(q) <==> s.contains(q)),
{
    s.index_of_first_ensures(player);
    let t = s.remove_value(player);
    match s.index_of_first(player) {
        Some(i) => {
            assert forall|k: int| 0 <= k < t.len() implies t[k] != player by {
                if k < i {
                    assert(t[k] == s[k]);
                } else {
                    assert(t[k] == s[k + 1]);
                }
            }
            assert forall|a: int, b: int| 0 <= a < t.len() && 0 <= b < t.len() && a != b implies t[a]
                != t[b] by {
                let sa = if a < i { a } else { a + 1 };
                let sb = if b < i { b } else { b + 1 };
                assert(t[a] == s[sa]);
                assert(t[b] == s[sb]);
            }
            assert forall|q: PlayerId| q != player implies (t.contains(q) <==> s.contains(q)) by {
                if t.contains(q) {
                    let k = choose|k: int| 0 <= k < t.len() && t[k] == q;
                    let sk = if k < i { k } else { k + 1 };
                    assert(s[sk] == q);
                }
                if s.contains(q) {
                    let k = choose|k: int| 0 <= k < s.len() && s[k] == q;
                    let tk = if k < i { k } else { k - 1 };
                    assert(t[tk] == q);
                }
            }
        },
        None => {},
    }
}

/// A second departure of the same player changes nothing.
pub proof fn lemma_leave_idempotent(state: GameStateView, player: PlayerId)
    requires
        state.wf(),
    ensures
        state.leave(player).leave(player) == state.leave(player),
        !state.leave(player).roster().contains(player),
{
    lemma_remove_value(state.roster(), player);
    lemma_remove_value(state.roster().remove_value(player), player);
}

/// A lobby with fewer players than the rules ask for stays as it is, however
/// many ticks pass.
pub proof fn lemma_short_lobby_waits(state: GameStateView, min_players: usize, n: nat)
    requires
        state.is_lobby(),
        state.roster().len() < min_players,
    ensures
        state.ticks(min_players, n) == state,
    decreases n,
{
    if n > 0 {
        lemma_short_lobby_waits(state, min_players, (n - 1) as nat);
    }
}

/// A lobby with enough players and a countdown of `c` is, after `n` ticks, a
/// lobby with a countdown of `c - n` while `n < c`, and from then on (and from
/// the first tick where `c` is zero) a match with the waiting players in their
/// order.
pub proof fn lemma_countdown(state: GameStateView, min_players: usize, n: nat)
    requires
        state.wf(),
        state.is_lobby(),
        state.roster().len() >= min_players,
    ensures
        state.ticks(min_players, n) == if n == 0 || n < state->Lobby_countdown {
            GameStateView::Lobby {
                countdown: state->Lobby_countdown - n,
                waiting_players: state.roster(),
            }
        } else {
            GameStateView::Main { remaining_players: state.roster() }
        },
    decreases n,
{
    if n > 0 {
        lemma_countdown(state, min_players, (n - 1) as nat);
    }
}

} // verus!
