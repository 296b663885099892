use analysis::endofgame::{self, PlayerInfo, PlayerStats, TeamInfo};
use analysis::events::{
    DemoEvent, EntityState, EntityTickStates, GameEvent, ParsedDemo, Player, PlayerDeath, PlayerHurt, PlayerSpawn,
    TeamState, UserId,
};

fn player(xuid: u64, name: &str, team: i32, color: i32) -> Player {
    Player { xuid, name: name.to_owned(), team, color }
}

fn players() -> Vec<(UserId, Player)> {
    vec![
        (UserId(0), player(100, "A", 2, 0)),
        (UserId(1), player(101, "B", 2, 1)),
        (UserId(2), player(76561198236134832, "C", 3, 0)),
        (UserId(3), player(201, "D", 3, 1)),
    ]
}

fn game(e: GameEvent) -> DemoEvent {
    DemoEvent::Game(e)
}

fn spawn(u: i32, pawn: i32) -> DemoEvent {
    game(GameEvent::PlayerSpawn(PlayerSpawn { userid: Some(UserId(u)), pawn: Some(pawn) }))
}

fn death(victim: Option<i32>, attacker: Option<i32>, assister: Option<i32>) -> DemoEvent {
    game(GameEvent::PlayerDeath(PlayerDeath {
        userid: victim.map(UserId),
        attacker: attacker.map(UserId),
        assister: assister.map(UserId),
        weapon: String::new(),
        headshot: false,
        noscope: false,
    }))
}

fn hurt(victim: i32, attacker: Option<i32>, health: Option<u8>) -> DemoEvent {
    game(GameEvent::PlayerHurt(PlayerHurt { userid: Some(UserId(victim)), attacker: attacker.map(UserId), health }))
}

fn stats(kills: usize, deaths: usize, damage: usize, assists: usize, team_kills: usize, team_damage: usize, self_damage: usize) -> PlayerStats {
    PlayerStats { kills, deaths, damage, assists, team_kills, team_damage, self_damage }
}

fn team_tick(tick: u32, id: i32, name: Option<&str>, pawns: Vec<u32>, score: Option<i32>) -> EntityTickStates {
    EntityTickStates {
        tick,
        states: vec![EntityState::Team(TeamState { id, name: name.map(|n| n.to_owned()), pawns, score })],
    }
}

fn match_demo() -> ParsedDemo {
    let events = vec![
        spawn(0, 0x801),
        spawn(1, 2),
        spawn(2, 3),
        spawn(3, 4),
        death(Some(2), Some(0), Some(3)),
        game(GameEvent::RoundAnnounceMatchStart),
        DemoEvent::Tick(100),
        death(Some(2), Some(0), Some(1)),
        death(Some(1), Some(0), Some(2)),
        death(Some(3), Some(3), None),
        death(Some(2), None, None),
        death(Some(2), Some(12), None),
        death(None, Some(0), None),
        hurt(2, Some(0), Some(70)),
        hurt(2, Some(0), Some(80)),
        hurt(1, Some(0), Some(90)),
        hurt(0, Some(0), Some(95)),
        game(GameEvent::WinPanelMatch),
        death(Some(0), Some(2), None),
        hurt(0, Some(2), Some(10)),
        game(GameEvent::RoundPreStart),
        hurt(3, Some(1), None),
        game(GameEvent::RoundOfficiallyEnded),
    ];
    let ticks = vec![
        team_tick(10, 50, Some("TERRORIST"), vec![1, 2], Some(0)),
        team_tick(10, 51, Some("CT"), vec![3, 4], Some(0)),
        team_tick(20, 50, None, vec![], Some(5)),
        team_tick(30, 51, None, vec![], Some(7)),
        team_tick(40, 52, Some("SPECTATOR"), vec![99], Some(3)),
    ];
    ParsedDemo { map_name: "de_nuke".to_owned(), player_info: players(), events, ticks }
}

fn line(name: &str, steam_id: &str, team: i32, color: i32, ingame_id: i32) -> PlayerInfo {
    PlayerInfo { name: name.to_owned(), steam_id: steam_id.to_owned(), team, color, ingame_id }
}

#[test]
fn scoreboard_of_a_match() {
    let result = endofgame::parse(&match_demo());
    assert_eq!(result.map, "de_nuke");
    let expected = vec![
        (line("A", "100", 2, 0, 0), stats(1, 0, 30, 0, 1, 10, 5)),
        (line("B", "101", 2, 1, 1), stats(0, 1, 100, 1, 0, 0, 0)),
        (line("C", "76561198236134832", 3, 0, 2), stats(0, 3, 0, 1, 0, 0, 0)),
        (line("D", "201", 3, 1, 3), stats(0, 1, 0, 0, 0, 0, 0)),
    ];
    assert_eq!(result.players, expected);
}

#[test]
fn team_scores_follow_last_snapshot() {
    let result = endofgame::parse(&match_demo());
    assert_eq!(result.teams.len(), 2);
    let find = |n: i32| result.teams.iter().find(|(k, _)| *k == n).map(|(_, t)| t.clone()).unwrap();
    assert_eq!(find(2), TeamInfo { end_score: 5, start_side: "TERRORIST".to_owned() });
    assert_eq!(find(3), TeamInfo { end_score: 7, start_side: "CT".to_owned() });
}

#[test]
fn match_start_clears_totals() {
    let mut demo = match_demo();
    demo.events.push(game(GameEvent::RoundAnnounceMatchStart));
    demo.events.push(death(Some(3), Some(1), None));
    let result = endofgame::parse(&demo);
    assert_eq!(result.players, vec![
        (line("B", "101", 2, 1, 1), stats(1, 0, 0, 0, 0, 0, 0)),
        (line("D", "201", 3, 1, 3), stats(0, 1, 0, 0, 0, 0, 0)),
    ]);
}

#[test]
fn closed_window_books_nothing() {
    let demo = ParsedDemo {
        map_name: "de_dust2".to_owned(),
        player_info: players(),
        events: vec![spawn(0, 1), death(Some(2), Some(0), None), hurt(2, Some(0), Some(1))],
        ticks: vec![],
    };
    let result = endofgame::parse(&demo);
    assert!(result.players.is_empty());
    assert!(result.teams.is_empty());
}

#[test]
fn damage_defaults_to_full_health() {
    let demo = ParsedDemo {
        map_name: "de_dust2".to_owned(),
        player_info: players(),
        events: vec![game(GameEvent::RoundPreStart), hurt(2, Some(0), Some(60)), hurt(2, Some(7), Some(50))],
        ticks: vec![],
    };
    let result = endofgame::parse(&demo);
    assert_eq!(result.players, vec![(line("A", "100", 2, 0, 0), stats(0, 0, 40, 0, 0, 0, 0))]);
}

#[test]
fn unknown_players_are_left_out() {
    let demo = ParsedDemo {
        map_name: "de_dust2".to_owned(),
        player_info: players(),
        events: vec![game(GameEvent::RoundPreStart), death(Some(8), Some(0), None), death(Some(2), Some(8), Some(9))],
        ticks: vec![],
    };
    let result = endofgame::parse(&demo);
    assert_eq!(result.players, vec![(line("C", "76561198236134832", 3, 0, 2), stats(0, 1, 0, 0, 0, 0, 0))]);
}
