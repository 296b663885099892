use analysis::events::{
    DemoEvent, EntityState, EntityTickStates, GameEvent, ParsedDemo, PawnState, Player, PlayerSpawn, TeamState,
    UserId,
};
use analysis::heatmap::{self, Config, HeatMap, HeatmapError, PawnID};

#[test]
fn fit_no_cutoff() {
    let mut input = HeatMap::new(2);

    input.increment(3, 3);
    input.increment(2, 2);

    assert_eq!(input.min_x, 0);
    assert_eq!(input.min_y, 0);
    assert_eq!(input.max_x, 3);
    assert_eq!(input.max_y, 3);

    assert_eq!(&vec![vec![], vec![], vec![0, 0, 1], vec![0, 0, 0, 1]], &input.rows);

    input.fit(2..10, 2..10);

    assert_eq!(
        &vec![vec![0, 0, 0, 0], vec![0, 1, 0, 0], vec![0, 0, 1, 0], vec![0, 0, 0, 0],],
        &input.rows
    );
}

#[test]
fn fit_cutoff() {
    let mut input = HeatMap::new(2);

    input.increment(3, 3);
    input.increment(2, 2);

    assert_eq!(input.min_x, 0);
    assert_eq!(input.min_y, 0);
    assert_eq!(input.max_x, 3);
    assert_eq!(input.max_y, 3);

    assert_eq!(&vec![vec![], vec![], vec![0, 0, 1], vec![0, 0, 0, 1]], &input.rows);

    input.fit(6..10, 6..10);

    assert_eq!(&vec![vec![1, 0], vec![0, 0]], &input.rows);
}

#[test]
fn fit_moves_bounds() {
    let mut input = HeatMap::new(2);
    input.increment(3, 3);
    input.increment(2, 2);
    input.fit(6..10, 6..10);
    assert_eq!(input.min_x, 3);
    assert_eq!(input.min_y, 3);
    assert_eq!(input.max_x, 5);
    assert_eq!(input.max_y, 5);
}

#[test]
fn fit_on_own_window_keeps_cells() {
    let mut input = HeatMap::new(1);
    input.increment(0, 0);
    input.increment(1, 1);
    input.increment(1, 1);
    input.fit(0..2, 0..2);
    assert_eq!(vec![vec![1, 0], vec![0, 2]], input.rows);
    input.fit(0..2, 0..2);
    assert_eq!(vec![vec![1, 0], vec![0, 2]], input.rows);
}

#[test]
fn fit_empty_window() {
    let mut input = HeatMap::new(2);
    input.increment(1, 1);
    input.fit(4..4, 6..2);
    assert!(input.rows.is_empty());
    assert_eq!(input.max_x, input.min_x);
}

#[test]
fn increment_grows_and_counts() {
    let mut h = HeatMap::new(5);
    h.increment(2, 1);
    h.increment(2, 1);
    h.increment(0, 3);
    assert_eq!(vec![vec![], vec![0, 0, 2], vec![], vec![1]], h.rows);
    assert_eq!(h.max_value, 2);
    assert_eq!(h.max_x, 2);
    assert_eq!(h.max_y, 3);
    assert_eq!(h.block_size, 5);
}

#[test]
fn pawn_masking() {
    assert_eq!(PawnID::from(0x1805i32), PawnID(5));
    assert_eq!(PawnID::from(0x1805u32), PawnID(5));
    assert_eq!(PawnID::from(0x7FFu32), PawnID(0x7FF));
    assert_eq!(PawnID::from(-1i32), PawnID(0x7FF));
    let h: u32 = 0xABCD_1234;
    assert_eq!(PawnID::from(h), PawnID::from(h & 0x7FF));
    assert_eq!(PawnID::from(h), PawnID::from(h ^ 0xF000_0800 ^ 0x800));
}

fn player(xuid: u64, name: &str, team: i32) -> Player {
    Player { xuid, name: name.to_owned(), team, color: 0 }
}

fn pawn(id: i32) -> PawnState {
    PawnState { id, cell_x: None, cell_y: None, cell_z: None, vec_x: None, vec_y: None, vec_z: None, life_state: None }
}

fn demo(ticks: Vec<EntityTickStates>) -> ParsedDemo {
    ParsedDemo {
        map_name: "de_nuke".to_owned(),
        player_info: vec![(UserId(0), player(100, "A", 2)), (UserId(1), player(101, "B", 2))],
        events: vec![
            DemoEvent::Game(GameEvent::PlayerSpawn(PlayerSpawn { userid: Some(UserId(0)), pawn: Some(0x801) })),
            DemoEvent::Game(GameEvent::PlayerSpawn(PlayerSpawn { userid: Some(UserId(1)), pawn: Some(3) })),
        ],
        ticks,
    }
}

fn team_tick(tick: u32) -> EntityTickStates {
    EntityTickStates {
        tick,
        states: vec![EntityState::Team(TeamState { id: 50, name: Some("TERRORIST".to_owned()), pawns: vec![1, 3], score: None })],
    }
}

#[test]
fn parse_counts_live_positions() {
    let mut first = pawn(0x1001);
    first.cell_x = Some(32);
    first.cell_y = Some(33);
    first.cell_z = Some(0);
    first.vec_x = Some(10);
    first.vec_y = Some(20);
    first.vec_z = Some(0);
    first.life_state = Some(0);
    let mut moved = pawn(1);
    moved.vec_x = Some(200);
    let mut died = pawn(1);
    died.life_state = Some(1);
    let ticks = vec![
        team_tick(1),
        EntityTickStates { tick: 2, states: vec![EntityState::PlayerPawn(first)] },
        EntityTickStates { tick: 3, states: vec![EntityState::PlayerPawn(moved)] },
        EntityTickStates { tick: 4, states: vec![EntityState::PlayerPawn(died), EntityState::PlayerPawn(pawn(9))] },
        EntityTickStates { tick: 5, states: vec![EntityState::PlayerPawn(pawn(1))] },
    ];
    let out = heatmap::parse(&Config { cell_size: 100 }, &demo(ticks)).unwrap();
    assert_eq!(out.player_heatmaps.len(), 1);
    let ((user, team), h) = &out.player_heatmaps[0];
    assert_eq!(*user, UserId(0));
    assert_eq!(team, "TERRORIST");
    assert_eq!(h.rows.len(), 170);
    let row = &h.rows[169];
    assert_eq!(row.len(), 166);
    assert_eq!(row[163], 1);
    assert_eq!(row[165], 1);
    assert_eq!(row.iter().sum::<usize>(), 2);
    assert_eq!(h.max_x, 165);
    assert_eq!(h.max_y, 169);
    assert_eq!(h.max_value, 1);
    assert_eq!(out.player_info.len(), 2);
}

#[test]
fn parse_skips_bodies_before_life_state() {
    let mut p = pawn(3);
    p.cell_x = Some(1);
    let ticks = vec![team_tick(1), EntityTickStates { tick: 2, states: vec![EntityState::PlayerPawn(p)] }];
    let out = heatmap::parse(&Config { cell_size: 10 }, &demo(ticks)).unwrap();
    assert!(out.player_heatmaps.is_empty());
}

#[test]
fn parse_skips_bodies_without_team() {
    let mut p = pawn(1);
    p.life_state = Some(0);
    let ticks = vec![EntityTickStates { tick: 2, states: vec![EntityState::PlayerPawn(p)] }];
    let out = heatmap::parse(&Config { cell_size: 10 }, &demo(ticks)).unwrap();
    assert!(out.player_heatmaps.is_empty());
}

#[test]
fn parse_rejects_negative_coordinate() {
    let mut p = pawn(1);
    p.vec_y = Some(-1);
    p.life_state = Some(0);
    let ticks = vec![team_tick(1), EntityTickStates { tick: 2, states: vec![EntityState::PlayerPawn(p)] }];
    let r = heatmap::parse(&Config { cell_size: 10 }, &demo(ticks));
    assert_eq!(r.unwrap_err(), HeatmapError::NegativeCoordinate);
}

#[test]
fn parse_separates_teams() {
    let mut a = pawn(1);
    a.life_state = Some(0);
    let switch = EntityTickStates {
        tick: 3,
        states: vec![EntityState::Team(TeamState { id: 51, name: Some("CT".to_owned()), pawns: vec![1], score: None })],
    };
    let ticks = vec![
        team_tick(1),
        EntityTickStates { tick: 2, states: vec![EntityState::PlayerPawn(a)] },
        switch,
        EntityTickStates { tick: 4, states: vec![EntityState::PlayerPawn(pawn(1))] },
    ];
    let out = heatmap::parse(&Config { cell_size: 10 }, &demo(ticks)).unwrap();
    assert_eq!(out.player_heatmaps.len(), 2);
    assert_eq!(out.player_heatmaps[0].0 .1, "TERRORIST");
    assert_eq!(out.player_heatmaps[1].0 .1, "CT");
    assert_eq!(out.player_heatmaps[1].1.rows, vec![vec![1]]);
}

#[test]
fn shrink_trims_leading_zeros() {
    let mut h = HeatMap::new(1);
    h.increment(2, 2);
    h.increment(1, 3);
    h.increment(1, 3);
    assert_eq!(vec![vec![], vec![], vec![0, 0, 1], vec![0, 2]], h.rows);
    h.shrink();
    assert_eq!(vec![vec![0, 1], vec![2]], h.rows);
    assert_eq!((h.min_x, h.min_y), (1, 2));
    assert_eq!((h.max_x, h.max_y), (3, 4));
    assert_eq!(h.max_value, 2);
}

#[test]
fn shrink_of_empty_grid() {
    let mut h = HeatMap::new(3);
    h.fit(0..9, 0..6);
    assert_eq!(vec![vec![0, 0, 0], vec![0, 0, 0]], h.rows);
    h.shrink();
    assert!(h.rows.is_empty());
    assert_eq!((h.min_x, h.min_y), (0, 2));
}
