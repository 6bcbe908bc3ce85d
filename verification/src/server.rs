//! The registry of live instances and the matchmaking over it.

use crate::game::{disjoint, lemma_remove_value};
use crate::game::{Game, GameState, GameStateView, JoinError, PlayerId, Ticks};
use crate::game::valid_rules;
use crate::parkourtag::PTGame;
use crate::world::{applied_chunks, home_region, paired, populate, region, region_width};
use crate::world::{start_pos, BlockPos, Chunk, ChunkLoad, ChunkPos, VIEW_DISTANCE};
use vstd::prelude::*;

verus! {

/// One running instance of a minigame: its state, its rules and its terrain.
/// The registry of instances is a `Vec` of these, and an instance's handle is
/// its index there.
pub struct WorldState<G, T> {
    pub game_state: GameState,
    pub game: G,
    pub chunks: Vec<Chunk<T>>,
}

impl<G: Game, T> WorldState<G, T> {
    /// The players of the instance, in the order in which they joined.
    pub open spec fn roster(&self) -> Seq<PlayerId> {
        self.game_state@.roster()
    }

    /// The rules are valid, the state is well formed, and the roster holds at
    /// most `max_players` players.
    pub open spec fn wf(&self) -> bool {
        &&& valid_rules(&self.game)
        &&& self.game_state@.wf()
        &&& self.roster().len() <= self.game.max_players_spec()
    }

    /// A lobby with room for one more player.
    pub open spec fn available(&self) -> bool {
        self.game_state@.has_room(self.game.max_players_spec())
    }

    /// The same instance but for its state.
    pub open spec fn same_but_state(&self, other: &Self) -> bool {
        self.game == other.game && self.chunks == other.chunks
    }

    /// Whether the instance is well formed.
    pub fn is_well_formed(&self) -> (ok: bool)
        ensures
            ok == self.wf(),
    {
        let max_players = self.game.max_players();
        let min_players = self.game.min_players();
        1 <= min_players && min_players <= max_players && self.game.countdown_seconds() >= 0
            && self.game_state.is_well_formed() && self.game_state.player_count() <= max_players
    }

    /// A new instance in its lobby, with an empty waiting list, a countdown of
    /// one tick per second of the rules' countdown, and the terrain that
    /// `loads` provides for `region`.
    pub fn new(game: G, region: &Vec<ChunkPos>, loads: Vec<ChunkLoad<T>>) -> (world: Self)
        requires
            valid_rules(&game),
        ensures
            world.game == game,
            world.game_state@ == (GameStateView::Lobby {
                countdown: game.countdown_seconds_spec() as int,
                waiting_players: Seq::empty(),
            }),
            world.chunks@ == applied_chunks(region@, loads@, paired(region@, loads@)),
            world.wf(),
    {
        let countdown: Ticks = game.countdown_seconds() as Ticks;
        let mut chunks: Vec<Chunk<T>> = Vec::new();
        populate(&mut chunks, region, loads);
        WorldState { game_state: GameState::lobby(countdown), game, chunks }
    }
}

/// Whether instance `i` has `player` in its roster.
pub open spec fn holds<G: Game, T>(worlds: Seq<WorldState<G, T>>, i: int, player: PlayerId) -> bool {
    0 <= i < worlds.len() && worlds[i].roster().contains(player)
}

/// Whether some instance has `player` in its roster.
pub open spec fn placed<G: Game, T>(worlds: Seq<WorldState<G, T>>, player: PlayerId) -> bool {
    exists|i: int| holds(worlds, i, player)
}

/// The invariant of the registry: every instance is well formed, so none holds
/// more players than its rules allow, and no player is in two instances.
pub open spec fn registry_wf<G: Game, T>(worlds: Seq<WorldState<G, T>>) -> bool {
    &&& forall|i: int| 0 <= i < worlds.len() ==> (#[trigger] worlds[i]).wf()
    &&& forall|i: int, j: int, player: PlayerId|
        #[trigger] holds(worlds, i, player) && #[trigger] holds(worlds, j, player) ==> i == j
}

/// Instance `i` is available and no instance before it is.
pub open spec fn first_available<G: Game, T>(worlds: Seq<WorldState<G, T>>, i: int) -> bool {
    &&& 0 <= i < worlds.len()
    &&& worlds[i].available()
    &&& forall|j: int| 0 <= j < i ==> !(#[trigger] worlds[j]).available()
}

/// No instance is available.
pub open spec fn none_available<G: Game, T>(worlds: Seq<WorldState<G, T>>) -> bool {
    forall|j: int| 0 <= j < worlds.len() ==> !(#[trigger] worlds[j]).available()
}

/// `after` is `before` with nothing changed but the state of instance `id`.
pub open spec fn changed_state_of<G: Game, T>(
    before: Seq<WorldState<G, T>>,
    after: Seq<WorldState<G, T>>,
    id: int,
) -> bool {
    &&& after.len() == before.len()
    &&& 0 <= id < before.len()
    &&& after[id].same_but_state(&before[id])
    &&& forall|j: int| 0 <= j < before.len() && j != id ==> #[trigger] after[j] == before[j]
}

/// Whether the registry is well formed: every function that changes a
/// well-formed registry leaves it so, and this tells whether one built by
/// other means is.
pub fn is_registry_well_formed<G: Game, T>(worlds: &Vec<WorldState<G, T>>) -> (ok: bool)
    ensures
        ok == registry_wf(worlds@),
{
    let mut i: usize = 0;
    while i < worlds.len()
        invariant
            i <= worlds.len(),
            forall|a: int| 0 <= a < i ==> (#[trigger] worlds@[a]).wf(),
            forall|a: int, b: int, player: PlayerId|
                0 <= a < i && a < b ==> !(#[trigger] holds(worlds@, a, player) && #[trigger] holds(
                    worlds@,
                    b,
                    player,
                )),
        decreases worlds.len() - i,
    {
        if !worlds[i].is_well_formed() {
            return false;
        }
        let mut j: usize = i + 1;
        while j < worlds.len()
            invariant
                i < j <= worlds.len(),
                forall|b: int, player: PlayerId|
                    i < b < j ==> !(#[trigger] holds(worlds@, i as int, player) && #[trigger] holds(
                        worlds@,
                        b,
                        player,
                    )),
            decreases worlds.len() - j,
        {
            if !disjoint(worlds[i].game_state.players(), worlds[j].game_state.players()) {
                proof {
                    let player = choose|player: PlayerId|
                        worlds@[i as int].roster().contains(player) && worlds@[j as int].roster().contains(
                            player,
                        );
                    assert(holds(worlds@, i as int, player) && holds(worlds@, j as int, player));
                }
                return false;
            }
            j += 1;
        }
        i += 1;
    }
    proof {
        assert forall|a: int, b: int, player: PlayerId|
            #[trigger] holds(worlds@, a, player) && #[trigger] holds(worlds@, b, player) implies a
            == b by {
            if a < b {
            } else if b < a {
                assert(!(holds(worlds@, b, player) && holds(worlds@, a, player)));
            }
        }
    }
    true
}

/// Finds the first instance, in registry order, that is in its lobby and has
/// room for one more player.
pub fn find_available_game<G: Game, T>(worlds: &Vec<WorldState<G, T>>) -> (found: Option<usize>)
    ensures
        match found {
            Some(id) => first_available(worlds@, id as int),
            None => none_available(worlds@),
        },
{
    let mut id: usize = 0;
    while id < worlds.len()
        invariant
            id <= worlds.len(),
            forall|j: int| 0 <= j < id ==> !(#[trigger] worlds@[j]).available(),
        decreases worlds.len() - id,
    {
        let world = &worlds[id];
        if world.game_state.has_room(&world.game) {
            return Some(id);
        }
        id += 1;
    }
    None
}

/// Finds the instance that has `player` in its roster.
pub fn find_client<G: Game, T>(
    worlds: &Vec<WorldState<G, T>>,
    player: PlayerId,
) -> (found: Option<usize>)
    ensures
        match found {
            Some(id) => holds(worlds@, id as int, player),
            None => !placed(worlds@, player),
        },
{
    let mut id: usize = 0;
    while id < worlds.len()
        invariant
            id <= worlds.len(),
            forall|j: int| 0 <= j < id ==> !holds(worlds@, j, player),
        decreases worlds.len() - id,
    {
        if worlds[id].game_state.contains(player) {
            return Some(id);
        }
        id += 1;
    }
    None
}

/// The home region of an instance: the square of radius `VIEW_DISTANCE` around
/// the chunk at the origin.
pub open spec fn home() -> Seq<ChunkPos> {
    region(ChunkPos { x: 0, z: 0 }, VIEW_DISTANCE)
}

/// Lists the home region, whose chunks an instance needs before it is created.
pub fn home_cells() -> (cells: Vec<ChunkPos>)
    ensures
        cells@ == home(),
        cells@.len() == 49,
{
    assert(region_width(VIEW_DISTANCE) == 7);
    home_region(ChunkPos { x: 0, z: 0 }, VIEW_DISTANCE)
}

/// Creates a parkour tag instance, provisions its terrain from `loads`, which
/// holds one outcome per coordinate of the home region, and registers it at
/// the end of the registry. Returns the new instance's handle.
pub fn create_pt_game<T>(
    worlds: &mut Vec<WorldState<PTGame, T>>,
    loads: Vec<ChunkLoad<T>>,
) -> (id: usize)
    requires
        registry_wf(old(worlds)@),
    ensures
        id == old(worlds)@.len(),
        final(worlds)@.len() == id + 1,
        final(worlds)@.drop_last() == old(worlds)@,
        final(worlds)@[id as int].game_state@ == (GameStateView::Lobby {
            countdown: 15,
            waiting_players: Seq::empty(),
        }),
        final(worlds)@[id as int].chunks@ == applied_chunks(
            home(),
            loads@,
            paired(home(), loads@),
        ),
        registry_wf(final(worlds)@),
{
    let cells = home_cells();
    let world = WorldState::new(PTGame {  }, &cells, loads);
    let id = worlds.len();
    let ghost before = worlds@;
    worlds.push(world);
    proof {
        assert(worlds@.drop_last() =~= before);
        assert forall|i: int, j: int, player: PlayerId|
            #[trigger] holds(worlds@, i, player) && #[trigger] holds(worlds@, j, player) implies i
            == j by {
            assert(i < id ==> holds(before, i, player));
            assert(j < id ==> holds(before, j, player));
        }
    }
    id
}

/// Adds `player` to instance `id` and then runs the game's join hook. A full
/// lobby and a running match refuse, and nothing changes.
pub fn join_game<G: Game, T>(
    worlds: &mut Vec<WorldState<G, T>>,
    id: usize,
    player: PlayerId,
) -> (joined: Result<(), JoinError>)
    requires
        id < old(worlds)@.len(),
        registry_wf(old(worlds)@),
        !placed(old(worlds)@, player),
    ensures
        joined == old(worlds)@[id as int].game_state@.join_result(
            old(worlds)@[id as int].game.max_players_spec(),
        ),
        changed_state_of(old(worlds)@, final(worlds)@, id as int),
        final(worlds)@[id as int].game_state@ == old(worlds)@[id as int].game_state@.join(
            player,
            old(worlds)@[id as int].game.max_players_spec(),
        ),
        joined is Ok ==> final(worlds)@[id as int].roster() == old(worlds)@[id as int].roster().push(
            player,
        ),
        joined is Err ==> final(worlds)@[id as int].roster() == old(worlds)@[id as int].roster(),
        registry_wf(final(worlds)@),
{
    let ghost before = worlds@;
    assert(!holds(before, id as int, player));
    let world = &mut worlds[id];
    let joined = world.game_state.join(player, &world.game);
    if joined.is_ok() {
        assert(world.game_state@.roster().last() == player);
        world.game.client_join(player, id, &world.game_state);
    }
    proof {
        let after = worlds@;
        assert forall|i: int| 0 <= i < after.len() implies (#[trigger] after[i]).wf() by {
            if i != id {
                assert(after[i] == before[i]);
            }
        }
        assert forall|i: int, j: int, p: PlayerId|
            #[trigger] holds(after, i, p) && #[trigger] holds(after, j, p) implies i == j by {
            lemma_joined_roster(before[id as int].roster(), player, p);
            if p == player {
                if i != id {
                    assert(after[i] == before[i]);
                    assert(holds(before, i, player));
                }
                if j != id {
                    assert(after[j] == before[j]);
                    assert(holds(before, j, player));
                }
            } else {
                assert(holds(before, i, p)) by {
                    if i != id {
                        assert(after[i] == before[i]);
                    }
                }
                assert(holds(before, j, p)) by {
                    if j != id {
                        assert(after[j] == before[j]);
                    }
                }
            }
        }
    }
    joined
}

/// A value of a roster with one player appended is that player or a value of
/// the roster.
pub proof fn lemma_joined_roster(roster: Seq<PlayerId>, player: PlayerId, p: PlayerId)
    ensures
        roster.push(player).contains(p) ==> p == player || roster.contains(p),
{
    if roster.push(player).contains(p) {
        let k = choose|k: int| 0 <= k < roster.push(player).len() && roster.push(player)[k] == p;
        if k < roster.len() {
            assert(roster[k] == p);
        }
    }
}

/// Removes `player` from the instance that holds it and then runs the game's
/// leave hook. Returns that instance's handle; a player in no instance leaves
/// the registry as it is.
pub fn leave_game<G: Game, T>(
    worlds: &mut Vec<WorldState<G, T>>,
    player: PlayerId,
) -> (left: Option<usize>)
    requires
        registry_wf(old(worlds)@),
    ensures
        match left {
            Some(id) => {
                &&& holds(old(worlds)@, id as int, player)
                &&& changed_state_of(old(worlds)@, final(worlds)@, id as int)
                &&& final(worlds)@[id as int].game_state@
                    == old(worlds)@[id as int].game_state@.leave(player)
            },
            None => !placed(old(worlds)@, player) && *final(worlds) == *old(worlds),
        },
        !placed(final(worlds)@, player),
        registry_wf(final(worlds)@),
{
    let ghost before = worlds@;
    match find_client(worlds, player) {
        Some(id) => {
            let world = &mut worlds[id];
            world.game_state.leave(player);
            world.game.client_leave(player, id, &world.game_state);
            proof {
                let after = worlds@;
                lemma_remove_value(before[id as int].roster(), player);
                assert forall|i: int, p: PlayerId| #[trigger] holds(after, i, p) implies holds(
                    before,
                    i,
                    p,
                ) && p != player by {
                    if i != id {
                        assert(after[i] == before[i]);
                        if p == player {
                            assert(holds(before, i, player) && holds(before, id as int, player));
                        }
                    }
                }
                assert forall|i: int| 0 <= i < after.len() implies (#[trigger] after[i]).wf() by {
                    if i != id {
                        assert(after[i] == before[i]);
                    }
                }
            }
            Some(id)
        },
        None => None,
    }
}

/// Advances every instance by one scheduler tick.
pub fn tick_games<G: Game, T>(worlds: &mut Vec<WorldState<G, T>>)
    requires
        registry_wf(old(worlds)@),
    ensures
        final(worlds)@.len() == old(worlds)@.len(),
        forall|i: int|
            0 <= i < old(worlds)@.len() ==> {
                &&& (#[trigger] final(worlds)@[i]).same_but_state(&old(worlds)@[i])
                &&& final(worlds)@[i].game_state@ == old(worlds)@[i].game_state@.tick(
                    old(worlds)@[i].game.min_players_spec(),
                )
            },
        registry_wf(final(worlds)@),
{
    let ghost before = worlds@;
    let mut id: usize = 0;
    while id < worlds.len()
        invariant
            id <= worlds@.len(),
            worlds@.len() == before.len(),
            registry_wf(before),
            forall|i: int|
                0 <= i < id ==> {
                    &&& (#[trigger] worlds@[i]).same_but_state(&before[i])
                    &&& worlds@[i].game_state@ == before[i].game_state@.tick(
                        before[i].game.min_players_spec(),
                    )
                },
            forall|i: int| id <= i < before.len() ==> #[trigger] worlds@[i] == before[i],
        decreases worlds@.len() - id,
    {
        let ghost earlier = worlds@;
        assert(earlier[id as int] == before[id as int]);
        assert(before[id as int].wf());
        let world = &mut worlds[id];
        world.game_state.tick(&world.game);
        proof {
            assert forall|i: int| id < i < before.len() implies #[trigger] worlds@[i]
                == before[i] by {
                assert(worlds@[i] == earlier[i]);
            }
            assert forall|i: int| 0 <= i < id implies {
                &&& (#[trigger] worlds@[i]).same_but_state(&before[i])
                &&& worlds@[i].game_state@ == before[i].game_state@.tick(
                    before[i].game.min_players_spec(),
                )
            } by {
                assert(worlds@[i] == earlier[i]);
            }
        }
        id += 1;
    }
    proof {
        let after = worlds@;
        assert forall|i: int| 0 <= i < after.len() implies (#[trigger] after[i]).wf() by {
            assert(after[i].same_but_state(&before[i]));
            assert(before[i].wf());
            assert(after[i].roster() == before[i].roster());
        }
        assert forall|i: int, j: int, p: PlayerId|
            #[trigger] holds(after, i, p) && #[trigger] holds(after, j, p) implies i == j by {
            assert(after[i].same_but_state(&before[i]));
            assert(after[j].same_but_state(&before[j]));
            assert(before[i].wf() && before[j].wf());
            assert(holds(before, i, p) && holds(before, j, p));
        }
    }
}

/// What the matchmaker decided for an arriving player.
#[derive(Clone, Copy, Debug, PartialEq, Eq, Structural)]
pub enum Placement {
    /// The player joined the lobby of the instance with this handle.
    Joined(usize),
    /// The player is already in a roster; the arrival is refused.
    Conflict,
    /// No instance has room; one has to be created for the player.
    NoWorld,
}

/// Places an arriving player in the first available instance. A player who is
/// already in some roster is refused, and where no instance has room the
/// registry stays as it is and the caller is told to create an instance.
pub fn client_arrived<G: Game, T>(
    worlds: &mut Vec<WorldState<G, T>>,
    player: PlayerId,
) -> (placement: Placement)
    requires
        registry_wf(old(worlds)@),
    ensures
        match placement {
            Placement::Conflict => placed(old(worlds)@, player) && *final(worlds) == *old(worlds),
            Placement::NoWorld => {
                &&& !placed(old(worlds)@, player)
                &&& none_available(old(worlds)@)
                &&& *final(worlds) == *old(worlds)
            },
            Placement::Joined(id) => {
                &&& !placed(old(worlds)@, player)
                &&& first_available(old(worlds)@, id as int)
                &&& changed_state_of(old(worlds)@, final(worlds)@, id as int)
                &&& final(worlds)@[id as int].game_state@ == (GameStateView::Lobby {
                    countdown: old(worlds)@[id as int].game_state@->Lobby_countdown,
                    waiting_players: old(worlds)@[id as int].roster().push(player),
                })
            },
        },
        registry_wf(final(worlds)@),
{
    if find_client(worlds, player).is_some() {
        return Placement::Conflict;
    }
    match find_available_game(worlds) {
        Some(id) => {
            let joined = join_game(worlds, id, player);
            assert(joined is Ok);
            Placement::Joined(id)
        },
        None => Placement::NoWorld,
    }
}

/// Finds the first available instance for an arriving player, or creates a
/// parkour tag instance as `create_pt_game` does where none has room, and
/// places the player in the lobby of the instance found or created. Returns
/// that instance's handle. `loads` is used only where an instance is created.
/// A player who is already in some roster is refused, and nothing changes.
pub fn find_or_create<T>(
    worlds: &mut Vec<WorldState<PTGame, T>>,
    player: PlayerId,
    loads: Vec<ChunkLoad<T>>,
) -> (found: Option<usize>)
    requires
        registry_wf(old(worlds)@),
    ensures
        match found {
            Some(id) => !placed(old(worlds)@, player) && if none_available(old(worlds)@) {
                &&& id == old(worlds)@.len()
                &&& final(worlds)@.len() == id + 1
                &&& final(worlds)@.drop_last() == old(worlds)@
                &&& final(worlds)@[id as int].game_state@ == (GameStateView::Lobby {
                    countdown: 15,
                    waiting_players: seq![player],
                })
                &&& final(worlds)@[id as int].chunks@ == applied_chunks(
                    home(),
                    loads@,
                    paired(home(), loads@),
                )
            } else {
                &&& first_available(old(worlds)@, id as int)
                &&& changed_state_of(old(worlds)@, final(worlds)@, id as int)
                &&& final(worlds)@[id as int].game_state@ == (GameStateView::Lobby {
                    countdown: old(worlds)@[id as int].game_state@->Lobby_countdown,
                    waiting_players: old(worlds)@[id as int].roster().push(player),
                })
            },
            None => placed(old(worlds)@, player) && *final(worlds) == *old(worlds),
        },
        registry_wf(final(worlds)@),
{
    let ghost before = worlds@;
    match client_arrived(worlds, player) {
        Placement::Conflict => {
            return None;
        },
        Placement::Joined(id) => {
            return Some(id);
        },
        Placement::NoWorld => {},
    }
    let id = create_pt_game(worlds, loads);
    let ghost grown = worlds@;
    proof {
        assert(!placed(grown, player)) by {
            if placed(grown, player) {
                let i = choose|i: int| holds(grown, i, player);
                if i < id {
                    assert(grown.drop_last()[i] == grown[i]);
                    assert(holds(before, i, player));
                }
            }
        }
    }
    let joined = join_game(worlds, id, player);
    proof {
        assert(joined is Ok);
        assert(worlds@.drop_last() =~= before) by {
            assert forall|j: int| 0 <= j < id implies worlds@.drop_last()[j] == before[j] by {
                assert(worlds@[j] == grown[j]);
                assert(grown.drop_last()[j] == grown[j]);
            }
        }
        assert(worlds@[id as int].chunks == grown[id as int].chunks);
        assert(Seq::<PlayerId>::empty().push(player) =~= seq![player]);
    }
    Some(id)
}

/// An event of the connection layer. Events are handled in the order in which
/// they were queued.
#[derive(Clone, Copy, Debug, PartialEq, Eq, Structural)]
pub enum ClientEvent {
    /// A player has connected.
    Arrived(PlayerId),
    /// A player has disconnected.
    Departed(PlayerId),
}

/// What the connection layer has to do once an event has been handled.
#[derive(Clone, Copy, Debug, PartialEq, Eq, Structural)]
pub enum Command {
    /// Send the player to instance `world`, onto the block `spawn`.
    AssignWorld { player: PlayerId, world: usize, spawn: BlockPos },
    /// End the player's session: the identity is already in a roster.
    Disconnect { player: PlayerId },
    /// No instance has room: load the home region and hand it to
    /// `find_or_create`.
    CreateWorld { player: PlayerId },
    /// The player has left instance `world`.
    Released { player: PlayerId, world: usize },
    /// The player was in no instance; nothing is left to do.
    Ignored { player: PlayerId },
}

/// Handles one event: an arrival is matched to the first available instance,
/// a departure removes the player from the instance that holds it.
pub fn handle_event<G: Game, T>(
    worlds: &mut Vec<WorldState<G, T>>,
    event: ClientEvent,
) -> (command: Command)
    requires
        registry_wf(old(worlds)@),
    ensures
        match event {
            ClientEvent::Arrived(p) => match command {
                Command::AssignWorld { player, world, spawn } => {
                    &&& player == p
                    &&& spawn == (BlockPos { x: 0, y: 65, z: 0 })
                    &&& !placed(old(worlds)@, p)
                    &&& first_available(old(worlds)@, world as int)
                    &&& changed_state_of(old(worlds)@, final(worlds)@, world as int)
                    &&& final(worlds)@[world as int].game_state@ == (GameStateView::Lobby {
                        countdown: old(worlds)@[world as int].game_state@->Lobby_countdown,
                        waiting_players: old(worlds)@[world as int].roster().push(p),
                    })
                },
                Command::Disconnect { player } => {
                    &&& player == p
                    &&& placed(old(worlds)@, p)
                    &&& *final(worlds) == *old(worlds)
                },
                Command::CreateWorld { player } => {
                    &&& player == p
                    &&& !placed(old(worlds)@, p)
                    &&& none_available(old(worlds)@)
                    &&& *final(worlds) == *old(worlds)
                },
                _ => false,
            },
            ClientEvent::Departed(p) => !placed(final(worlds)@, p) && match command {
                Command::Released { player, world } => {
                    &&& player == p
                    &&& holds(old(worlds)@, world as int, p)
                    &&& changed_state_of(old(worlds)@, final(worlds)@, world as int)
                    &&& final(worlds)@[world as int].game_state@
                    == old(worlds)@[world as int].game_state@.leave(p)
                },
                Command::Ignored { player } => {
                    &&& player == p
                    &&& !placed(old(worlds)@, p)
                    &&& *final(worlds) == *old(worlds)
                },
                _ => false,
            },
        },
        registry_wf(final(worlds)@),
{
    match event {
        ClientEvent::Arrived(player) => match client_arrived(worlds, player) {
            Placement::Joined(world) => Command::AssignWorld { player, world, spawn: start_pos() },
            Placement::Conflict => Command::Disconnect { player },
            Placement::NoWorld => Command::CreateWorld { player },
        },
        ClientEvent::Departed(player) => match leave_game(worlds, player) {
            Some(world) => Command::Released { player, world },
            None => Command::Ignored { player },
        },
    }
}

/// No instance of a well-formed registry holds more players than its rules
/// allow.
pub proof fn lemma_capacity<G: Game, T>(worlds: Seq<WorldState<G, T>>, i: int)
    requires
        registry_wf(worlds),
        0 <= i < worlds.len(),
    ensures
        worlds[i].roster().len() <= worlds[i].game.max_players_spec(),
{
}

/// In a well-formed registry a player is in at most one roster, and at most
/// once in that.
pub proof fn lemma_unique<G: Game, T>(
    worlds: Seq<WorldState<G, T>>,
    i: int,
    a: int,
    j: int,
    b: int,
)
    requires
        registry_wf(worlds),
        0 <= i < worlds.len(),
        0 <= j < worlds.len(),
        0 <= a < worlds[i].roster().len(),
        0 <= b < worlds[j].roster().len(),
        worlds[i].roster()[a] == worlds[j].roster()[b],
    ensures
        i == j && a == b,
{
    let player = worlds[i].roster()[a];
    assert(holds(worlds, i, player));
    assert(holds(worlds, j, player));
}

} // verus!
