use parkourtag::game::{all_distinct, disjoint, position_of, Game, GameState, JoinError, PlayerId};
use parkourtag::parkourtag::PTGame;
use parkourtag::server::{
    client_arrived, create_pt_game, find_available_game, find_client, find_or_create,
    handle_event, home_cells, is_registry_well_formed, join_game, leave_game, tick_games,
    ClientEvent, Command, Placement, WorldState,
};
use parkourtag::world::{
    home_region, populate, reversed, start_pos, BlockPos, Chunk, ChunkLoad, ChunkPos,
    VIEW_DISTANCE,
};

/// A game that one player can start, with as many seats and as long a wait as
/// a test asks for.
struct Duel {
    seats: usize,
    wait: i32,
}

impl Game for Duel {
    fn max_players_spec(&self) -> usize {
        self.seats
    }

    fn min_players_spec(&self) -> usize {
        1
    }

    fn countdown_seconds_spec(&self) -> i32 {
        self.wait
    }

    fn max_players(&self) -> usize {
        self.seats
    }

    fn min_players(&self) -> usize {
        1
    }

    fn countdown_seconds(&self) -> i32 {
        self.wait
    }

    fn client_join(&self, _player: PlayerId, _world: usize, _state: &GameState) {}

    fn client_leave(&self, _player: PlayerId, _world: usize, _state: &GameState) {}
}

fn empty_world() -> WorldState<PTGame, u32> {
    WorldState::new(PTGame {}, &home_cells(), Vec::new())
}

fn waiting(state: &GameState) -> (i64, Vec<PlayerId>) {
    match state {
        GameState::Lobby { countdown, waiting_players } => (*countdown, waiting_players.clone()),
        GameState::Main { .. } => panic!("the instance has left its lobby"),
    }
}

fn remaining(state: &GameState) -> Vec<PlayerId> {
    match state {
        GameState::Lobby { .. } => panic!("the instance is still in its lobby"),
        GameState::Main { remaining_players } => remaining_players.clone(),
    }
}

#[test]
fn parkour_tag_rules() {
    let game = PTGame {};
    assert_eq!(game.max_players(), 8);
    assert_eq!(game.min_players(), 2);
    assert_eq!(game.countdown_seconds(), 15);
}

#[test]
fn start_position() {
    assert_eq!(start_pos(), BlockPos { x: 0, y: 65, z: 0 });
    assert_eq!(VIEW_DISTANCE, 3);
}

#[test]
fn new_lobby_is_empty() {
    let state = GameState::lobby(15);
    assert_eq!(waiting(&state), (15, vec![]));
    assert_eq!(state.player_count(), 0);
    assert!(state.has_room(&PTGame {}));
}

#[test]
fn join_appends_in_order() {
    let mut state = GameState::lobby(15);
    assert_eq!(state.join(7, &PTGame {}), Ok(()));
    assert_eq!(state.join(3, &PTGame {}), Ok(()));
    assert_eq!(state.join(9, &PTGame {}), Ok(()));
    assert_eq!(waiting(&state), (15, vec![7, 3, 9]));
    assert!(state.contains(3));
    assert!(!state.contains(4));
}

#[test]
fn join_full_lobby_is_refused() {
    let mut state = GameState::lobby(15);
    for player in 0..8 {
        assert_eq!(state.join(player, &PTGame {}), Ok(()));
    }
    assert!(!state.has_room(&PTGame {}));
    assert_eq!(state.join(8, &PTGame {}), Err(JoinError::CapacityExceeded));
    assert_eq!(waiting(&state), (15, vec![0, 1, 2, 3, 4, 5, 6, 7]));
    assert_eq!(state.player_count(), 8);
}

#[test]
fn join_running_match_is_refused() {
    let mut state = GameState::Main { remaining_players: vec![1, 2] };
    assert_eq!(state.join(3, &PTGame {}), Err(JoinError::MatchStarted));
    assert_eq!(remaining(&state), vec![1, 2]);
    assert!(!state.has_room(&PTGame {}));
}

#[test]
fn leave_keeps_the_order_of_the_others() {
    let mut state = GameState::lobby(15);
    for player in [1, 2, 3] {
        assert_eq!(state.join(player, &PTGame {}), Ok(()));
    }
    assert!(state.leave(2));
    assert_eq!(waiting(&state), (15, vec![1, 3]));
}

#[test]
fn leave_during_a_match() {
    let mut state = GameState::Main { remaining_players: vec![4, 5, 6] };
    assert!(state.leave(4));
    assert_eq!(remaining(&state), vec![5, 6]);
    assert!(!state.leave(9));
    assert_eq!(remaining(&state), vec![5, 6]);
}

#[test]
fn leave_twice_is_a_no_op() {
    let mut state = GameState::lobby(15);
    assert_eq!(state.join(1, &PTGame {}), Ok(()));
    assert_eq!(state.join(2, &PTGame {}), Ok(()));
    assert!(state.leave(1));
    assert!(!state.leave(1));
    assert_eq!(waiting(&state), (15, vec![2]));
}

#[test]
fn position_of_finds_the_index() {
    assert_eq!(position_of(&vec![5, 6, 7], 7), Some(2));
    assert_eq!(position_of(&vec![5, 6, 7], 5), Some(0));
    assert_eq!(position_of(&vec![5, 6, 7], 8), None);
    assert_eq!(position_of(&vec![], 8), None);
}

#[test]
fn transition_trigger() {
    let mut state = GameState::lobby(PTGame {}.countdown_seconds() as i64);
    assert_eq!(state.join(10, &PTGame {}), Ok(()));
    for _ in 0..40 {
        state.tick(&PTGame {});
    }
    assert_eq!(waiting(&state), (15, vec![10]));
    assert_eq!(state.join(20, &PTGame {}), Ok(()));
    for passed in 1..15 {
        state.tick(&PTGame {});
        assert_eq!(waiting(&state), (15 - passed, vec![10, 20]));
    }
    state.tick(&PTGame {});
    assert_eq!(remaining(&state), vec![10, 20]);
    state.tick(&PTGame {});
    assert_eq!(remaining(&state), vec![10, 20]);
}

#[test]
fn countdown_pauses_below_the_minimum() {
    let mut state = GameState::lobby(15);
    assert_eq!(state.join(1, &PTGame {}), Ok(()));
    assert_eq!(state.join(2, &PTGame {}), Ok(()));
    state.tick(&PTGame {});
    state.tick(&PTGame {});
    assert_eq!(waiting(&state), (13, vec![1, 2]));
    assert!(state.leave(2));
    state.tick(&PTGame {});
    assert_eq!(waiting(&state), (13, vec![1]));
}

#[test]
fn zero_countdown_starts_on_the_first_tick() {
    let duel = Duel { seats: 1, wait: 0 };
    let mut state = GameState::lobby(0);
    state.tick(&duel);
    assert_eq!(waiting(&state), (0, vec![]));
    assert_eq!(state.join(5, &duel), Ok(()));
    assert_eq!(state.join(6, &duel), Err(JoinError::CapacityExceeded));
    state.tick(&duel);
    assert_eq!(remaining(&state), vec![5]);
}

#[test]
fn home_region_of_radius_one() {
    let cells = home_region(ChunkPos { x: 10, z: -20 }, 1);
    let expected: Vec<ChunkPos> = [
        (9, -21), (10, -21), (11, -21),
        (9, -20), (10, -20), (11, -20),
        (9, -19), (10, -19), (11, -19),
    ]
    .iter()
    .map(|&(x, z)| ChunkPos { x, z })
    .collect();
    assert_eq!(cells, expected);
}

#[test]
fn home_region_of_radius_zero() {
    assert_eq!(home_region(ChunkPos { x: 4, z: 5 }, 0), vec![ChunkPos { x: 4, z: 5 }]);
    assert_eq!(
        home_region(ChunkPos { x: i32::MAX, z: i32::MIN }, 0),
        vec![ChunkPos { x: i32::MAX, z: i32::MIN }]
    );
}

#[test]
fn home_cells_are_the_seven_by_seven_square() {
    let cells = home_cells();
    assert_eq!(cells.len(), 49);
    assert_eq!(cells[0], ChunkPos { x: -3, z: -3 });
    assert_eq!(cells[6], ChunkPos { x: 3, z: -3 });
    assert_eq!(cells[7], ChunkPos { x: -3, z: -2 });
    assert_eq!(cells[24], ChunkPos { x: 0, z: 0 });
    assert_eq!(cells[48], ChunkPos { x: 3, z: 3 });
}

#[test]
fn reversed_turns_the_order() {
    assert_eq!(reversed(vec![1, 2, 3]), vec![3, 2, 1]);
    assert_eq!(reversed(Vec::<u8>::new()), Vec::<u8>::new());
}

#[test]
fn partial_world_tolerance() {
    let cells = home_region(ChunkPos { x: 0, z: 0 }, 1);
    assert_eq!(cells.len(), 9);
    let loads: Vec<ChunkLoad<u32>> = vec![
        ChunkLoad::Present(100),
        ChunkLoad::Error,
        ChunkLoad::Present(102),
        ChunkLoad::Present(103),
        ChunkLoad::Present(104),
        ChunkLoad::Error,
        ChunkLoad::Present(106),
        ChunkLoad::Present(107),
        ChunkLoad::Present(108),
    ];
    let mut chunks: Vec<Chunk<u32>> = Vec::new();
    populate(&mut chunks, &cells, loads);
    let got: Vec<(i32, i32, u32)> = chunks.iter().map(|c| (c.pos.x, c.pos.z, c.data)).collect();
    assert_eq!(
        got,
        vec![
            (-1, -1, 100),
            (1, -1, 102),
            (-1, 0, 103),
            (0, 0, 104),
            (-1, 1, 106),
            (0, 1, 107),
            (1, 1, 108),
        ]
    );
}

#[test]
fn absent_chunks_leave_gaps() {
    let cells = home_region(ChunkPos { x: 0, z: 0 }, 0);
    let mut chunks: Vec<Chunk<String>> = vec![Chunk {
        pos: ChunkPos { x: 8, z: 8 },
        data: String::from("old"),
    }];
    populate(&mut chunks, &cells, vec![ChunkLoad::Absent]);
    assert_eq!(chunks.len(), 1);
    assert_eq!(chunks[0].pos, ChunkPos { x: 8, z: 8 });
    populate(&mut chunks, &cells, vec![ChunkLoad::Present(String::from("new"))]);
    assert_eq!(chunks.len(), 2);
    assert_eq!(chunks[1].pos, ChunkPos { x: 0, z: 0 });
    assert_eq!(chunks[1].data, "new");
}

#[test]
fn populate_pairs_up_to_the_shorter_length() {
    let cells = home_region(ChunkPos { x: 0, z: 0 }, 1);
    let mut chunks: Vec<Chunk<u32>> = Vec::new();
    populate(&mut chunks, &cells, vec![ChunkLoad::Present(1), ChunkLoad::Present(2)]);
    let got: Vec<(i32, i32, u32)> = chunks.iter().map(|c| (c.pos.x, c.pos.z, c.data)).collect();
    assert_eq!(got, vec![(-1, -1, 1), (0, -1, 2)]);

    let one = vec![ChunkPos { x: 5, z: 5 }];
    let mut more: Vec<Chunk<u32>> = Vec::new();
    populate(&mut more, &one, vec![ChunkLoad::Present(1), ChunkLoad::Present(2)]);
    assert_eq!(more.len(), 1);
    assert_eq!((more[0].pos, more[0].data), (ChunkPos { x: 5, z: 5 }, 1));
}

#[test]
fn new_world_starts_in_its_lobby() {
    let world: WorldState<PTGame, u32> =
        WorldState::new(PTGame {}, &home_cells(), vec![ChunkLoad::Absent, ChunkLoad::Present(4)]);
    assert_eq!(waiting(&world.game_state), (15, vec![]));
    assert_eq!(world.chunks.len(), 1);
    assert_eq!(world.chunks[0].pos, ChunkPos { x: -2, z: -3 });
    assert_eq!(world.chunks[0].data, 4);
}

#[test]
fn first_fit_determinism() {
    let mut worlds: Vec<WorldState<PTGame, u32>> = vec![empty_world(), empty_world(), empty_world()];
    for player in 0..8 {
        assert_eq!(join_game(&mut worlds, 0, player), Ok(()));
    }
    assert_eq!(join_game(&mut worlds, 1, 100), Ok(()));
    assert_eq!(find_available_game(&worlds), Some(1));
    assert_eq!(client_arrived(&mut worlds, 200), Placement::Joined(1));
    assert_eq!(worlds.len(), 3);
    assert_eq!(waiting(&worlds[1].game_state), (15, vec![100, 200]));
    assert_eq!(waiting(&worlds[2].game_state), (15, vec![]));
}

#[test]
fn running_matches_are_passed_over() {
    let mut worlds: Vec<WorldState<PTGame, u32>> = vec![empty_world(), empty_world()];
    worlds[0].game_state = GameState::Main { remaining_players: vec![1, 2] };
    assert_eq!(find_available_game(&worlds), Some(1));
    worlds[1].game_state = GameState::Main { remaining_players: vec![3] };
    assert_eq!(find_available_game(&worlds), None);
    assert_eq!(client_arrived(&mut worlds, 9), Placement::NoWorld);
    assert_eq!(join_game(&mut worlds, 0, 9), Err(JoinError::MatchStarted));
    assert_eq!(remaining(&worlds[0].game_state), vec![1, 2]);
}

#[test]
fn creation_fallback() {
    let mut worlds: Vec<WorldState<PTGame, u32>> = Vec::new();
    assert_eq!(find_available_game(&worlds), None);
    assert_eq!(client_arrived(&mut worlds, 42), Placement::NoWorld);
    assert!(worlds.is_empty());
    let loads: Vec<ChunkLoad<u32>> = (0..49).map(ChunkLoad::Present).collect();
    assert_eq!(find_or_create(&mut worlds, 42, loads), Some(0));
    assert_eq!(worlds.len(), 1);
    assert_eq!(waiting(&worlds[0].game_state), (15, vec![42]));
    assert_eq!(worlds[0].chunks.len(), 49);
    assert_eq!(worlds[0].chunks[48].pos, ChunkPos { x: 3, z: 3 });
    assert_eq!(worlds[0].chunks[48].data, 48);
    assert_eq!(find_client(&worlds, 42), Some(0));
}

#[test]
fn create_registers_an_empty_lobby_at_the_end() {
    let mut worlds: Vec<WorldState<PTGame, u32>> = vec![empty_world()];
    assert_eq!(join_game(&mut worlds, 0, 1), Ok(()));
    let id = create_pt_game(&mut worlds, vec![ChunkLoad::Error, ChunkLoad::Present(9)]);
    assert_eq!(id, 1);
    assert_eq!(worlds.len(), 2);
    assert_eq!(waiting(&worlds[0].game_state), (15, vec![1]));
    assert_eq!(waiting(&worlds[1].game_state), (15, vec![]));
    assert_eq!(worlds[1].chunks.len(), 1);
    assert_eq!(worlds[1].chunks[0].pos, ChunkPos { x: -2, z: -3 });
}

#[test]
fn a_player_is_in_one_roster_only() {
    let mut worlds: Vec<WorldState<PTGame, u32>> = vec![empty_world(), empty_world()];
    assert_eq!(client_arrived(&mut worlds, 5), Placement::Joined(0));
    assert_eq!(client_arrived(&mut worlds, 5), Placement::Conflict);
    assert_eq!(find_or_create(&mut worlds, 5, Vec::new()), None);
    assert_eq!(worlds.len(), 2);
    assert_eq!(waiting(&worlds[0].game_state), (15, vec![5]));
    assert_eq!(waiting(&worlds[1].game_state), (15, vec![]));
}

#[test]
fn capacity_is_never_exceeded() {
    let mut worlds: Vec<WorldState<PTGame, u32>> = vec![empty_world()];
    for player in 0..8 {
        assert_eq!(client_arrived(&mut worlds, player), Placement::Joined(0));
    }
    assert_eq!(client_arrived(&mut worlds, 8), Placement::NoWorld);
    assert_eq!(join_game(&mut worlds, 0, 8), Err(JoinError::CapacityExceeded));
    assert_eq!(worlds[0].game_state.player_count(), 8);
    assert_eq!(find_or_create(&mut worlds, 8, Vec::new()), Some(1));
    assert_eq!(waiting(&worlds[1].game_state), (15, vec![8]));
}

#[test]
fn departure_idempotence() {
    let mut worlds: Vec<WorldState<PTGame, u32>> = vec![empty_world(), empty_world()];
    assert_eq!(join_game(&mut worlds, 1, 7), Ok(()));
    assert_eq!(join_game(&mut worlds, 1, 8), Ok(()));
    assert_eq!(leave_game(&mut worlds, 7), Some(1));
    assert_eq!(waiting(&worlds[1].game_state), (15, vec![8]));
    assert_eq!(leave_game(&mut worlds, 7), None);
    assert_eq!(waiting(&worlds[0].game_state), (15, vec![]));
    assert_eq!(waiting(&worlds[1].game_state), (15, vec![8]));
    assert_eq!(find_client(&worlds, 7), None);
    assert_eq!(find_client(&worlds, 8), Some(1));
}

#[test]
fn tick_games_advances_every_instance() {
    let mut worlds: Vec<WorldState<PTGame, u32>> = vec![empty_world(), empty_world(), empty_world()];
    assert_eq!(join_game(&mut worlds, 0, 1), Ok(()));
    assert_eq!(join_game(&mut worlds, 0, 2), Ok(()));
    assert_eq!(join_game(&mut worlds, 1, 3), Ok(()));
    worlds[2].game_state = GameState::Lobby { countdown: 1, waiting_players: vec![4, 5, 6] };
    tick_games(&mut worlds);
    assert_eq!(waiting(&worlds[0].game_state), (14, vec![1, 2]));
    assert_eq!(waiting(&worlds[1].game_state), (15, vec![3]));
    assert_eq!(remaining(&worlds[2].game_state), vec![4, 5, 6]);
    assert_eq!(leave_game(&mut worlds, 5), Some(2));
    assert_eq!(remaining(&worlds[2].game_state), vec![4, 6]);
}

#[test]
fn all_distinct_finds_a_repeat() {
    assert!(all_distinct(&vec![]));
    assert!(all_distinct(&vec![3]));
    assert!(all_distinct(&vec![3, 1, 2]));
    assert!(!all_distinct(&vec![3, 1, 3]));
    assert!(!all_distinct(&vec![1, 2, 2]));
}

#[test]
fn disjoint_finds_a_shared_player() {
    assert!(disjoint(&vec![], &vec![1]));
    assert!(disjoint(&vec![1, 2], &vec![3, 4]));
    assert!(!disjoint(&vec![1, 2], &vec![3, 2]));
    assert!(!disjoint(&vec![5], &vec![5]));
}

#[test]
fn players_are_the_roster_of_either_state() {
    assert_eq!(GameState::Lobby { countdown: 3, waiting_players: vec![1, 2] }.players(), &vec![1, 2]);
    assert_eq!(GameState::Main { remaining_players: vec![9] }.players(), &vec![9]);
}

#[test]
fn state_well_formedness() {
    assert!(GameState::lobby(0).is_well_formed());
    assert!(GameState::Lobby { countdown: 3, waiting_players: vec![1, 2] }.is_well_formed());
    assert!(!GameState::Lobby { countdown: -1, waiting_players: vec![1, 2] }.is_well_formed());
    assert!(!GameState::Lobby { countdown: 3, waiting_players: vec![2, 2] }.is_well_formed());
    assert!(GameState::Main { remaining_players: vec![1] }.is_well_formed());
    assert!(!GameState::Main { remaining_players: vec![1, 1] }.is_well_formed());
}

#[test]
fn world_well_formedness() {
    let mut world = empty_world();
    assert!(world.is_well_formed());
    world.game_state = GameState::Main { remaining_players: (0..9).collect() };
    assert!(!world.is_well_formed());
    world.game_state = GameState::Main { remaining_players: (0..8).collect() };
    assert!(world.is_well_formed());

    let lax: WorldState<Duel, u32> = WorldState {
        game_state: GameState::lobby(0),
        game: Duel { seats: 0, wait: 0 },
        chunks: Vec::new(),
    };
    assert!(!lax.is_well_formed());
    let hasty: WorldState<Duel, u32> = WorldState {
        game_state: GameState::lobby(0),
        game: Duel { seats: 2, wait: -1 },
        chunks: Vec::new(),
    };
    assert!(!hasty.is_well_formed());
}

#[test]
fn registry_invariants_hold_through_a_session() {
    let mut worlds: Vec<WorldState<PTGame, u32>> = Vec::new();
    assert!(is_registry_well_formed(&worlds));
    for player in 0..20 {
        if client_arrived(&mut worlds, player) == Placement::NoWorld {
            assert!(find_or_create(&mut worlds, player, Vec::new()).is_some());
        }
        assert!(is_registry_well_formed(&worlds));
    }
    assert_eq!(worlds.len(), 3);
    assert_eq!(worlds[0].game_state.player_count(), 8);
    assert_eq!(worlds[1].game_state.player_count(), 8);
    assert_eq!(waiting(&worlds[2].game_state), (15, vec![16, 17, 18, 19]));
    for _ in 0..15 {
        tick_games(&mut worlds);
        assert!(is_registry_well_formed(&worlds));
    }
    assert_eq!(remaining(&worlds[2].game_state), vec![16, 17, 18, 19]);
    assert_eq!(leave_game(&mut worlds, 3), Some(0));
    assert_eq!(leave_game(&mut worlds, 17), Some(2));
    assert!(is_registry_well_formed(&worlds));
    assert_eq!(remaining(&worlds[0].game_state), vec![0, 1, 2, 4, 5, 6, 7]);
    assert_eq!(client_arrived(&mut worlds, 3), Placement::NoWorld);
}

#[test]
fn registry_with_a_player_in_two_rosters_is_not_well_formed() {
    let mut worlds: Vec<WorldState<PTGame, u32>> = vec![empty_world(), empty_world(), empty_world()];
    worlds[0].game_state = GameState::Lobby { countdown: 15, waiting_players: vec![1, 2] };
    worlds[2].game_state = GameState::Main { remaining_players: vec![3, 4] };
    assert!(is_registry_well_formed(&worlds));
    worlds[2].game_state = GameState::Main { remaining_players: vec![3, 2] };
    assert!(!is_registry_well_formed(&worlds));
    worlds[2].game_state = GameState::Main { remaining_players: (10..19).collect() };
    assert!(!is_registry_well_formed(&worlds));
}

#[test]
fn events_become_commands() {
    let mut worlds: Vec<WorldState<PTGame, u32>> = Vec::new();
    assert_eq!(
        handle_event(&mut worlds, ClientEvent::Arrived(1)),
        Command::CreateWorld { player: 1 }
    );
    assert!(worlds.is_empty());
    assert_eq!(find_or_create(&mut worlds, 1, Vec::new()), Some(0));
    assert_eq!(
        handle_event(&mut worlds, ClientEvent::Arrived(2)),
        Command::AssignWorld { player: 2, world: 0, spawn: BlockPos { x: 0, y: 65, z: 0 } }
    );
    assert_eq!(
        handle_event(&mut worlds, ClientEvent::Arrived(2)),
        Command::Disconnect { player: 2 }
    );
    assert_eq!(waiting(&worlds[0].game_state), (15, vec![1, 2]));
    assert_eq!(
        handle_event(&mut worlds, ClientEvent::Departed(1)),
        Command::Released { player: 1, world: 0 }
    );
    assert_eq!(
        handle_event(&mut worlds, ClientEvent::Departed(1)),
        Command::Ignored { player: 1 }
    );
    assert_eq!(waiting(&worlds[0].game_state), (15, vec![2]));
}

#[test]
fn departure_then_arrival_of_the_same_player() {
    let mut worlds: Vec<WorldState<PTGame, u32>> = vec![empty_world()];
    assert_eq!(client_arrived(&mut worlds, 1), Placement::Joined(0));
    assert_eq!(client_arrived(&mut worlds, 2), Placement::Joined(0));
    assert_eq!(
        handle_event(&mut worlds, ClientEvent::Departed(1)),
        Command::Released { player: 1, world: 0 }
    );
    assert_eq!(
        handle_event(&mut worlds, ClientEvent::Arrived(1)),
        Command::AssignWorld { player: 1, world: 0, spawn: start_pos() }
    );
    assert_eq!(waiting(&worlds[0].game_state), (15, vec![2, 1]));
}

#[test]
fn find_or_create_prefers_an_instance_with_room() {
    let mut worlds: Vec<WorldState<PTGame, u32>> = vec![empty_world(), empty_world()];
    worlds[0].game_state = GameState::Main { remaining_players: vec![1, 2] };
    assert_eq!(find_or_create(&mut worlds, 3, vec![ChunkLoad::Present(1)]), Some(1));
    assert_eq!(worlds.len(), 2);
    assert_eq!(waiting(&worlds[1].game_state), (15, vec![3]));
    assert!(worlds[1].chunks.is_empty());
    worlds[1].game_state = GameState::Main { remaining_players: vec![3] };
    assert_eq!(find_or_create(&mut worlds, 4, vec![ChunkLoad::Present(1)]), Some(2));
    assert_eq!(worlds.len(), 3);
    assert_eq!(waiting(&worlds[2].game_state), (15, vec![4]));
    assert_eq!(worlds[2].chunks.len(), 1);
    assert_eq!(find_or_create(&mut worlds, 4, Vec::new()), None);
    assert_eq!(worlds.len(), 3);
}
