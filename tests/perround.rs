use analysis::events::{
    DemoEvent, EntityState, EntityTickStates, GameEvent, GameRulesState, ParsedDemo, Player, PlayerDeath, UserId,
};
use analysis::perround::{self, round_win_reason, RoundEvent, WinReason};

fn rules(tick: u32, start: Option<u32>, end: Option<u32>, reason: Option<i32>) -> EntityTickStates {
    EntityTickStates {
        tick,
        states: vec![
            EntityState::Other,
            EntityState::GameRules(GameRulesState { round_start_count: start, round_end_count: end, win_reason: reason }),
        ],
    }
}

fn death(victim: i32, attacker: Option<i32>, weapon: &str, headshot: bool) -> DemoEvent {
    DemoEvent::Game(GameEvent::PlayerDeath(PlayerDeath {
        userid: Some(UserId(victim)),
        attacker: attacker.map(UserId),
        assister: None,
        weapon: weapon.to_owned(),
        headshot,
        noscope: false,
    }))
}

fn kill(attacker: u64, died: u64, weapon: &str, headshot: bool) -> RoundEvent {
    RoundEvent::Kill { attacker, died, weapon: weapon.to_owned(), headshot, noscope: false }
}

fn demo() -> ParsedDemo {
    let players = vec![
        (UserId(0), Player { xuid: 100, name: "A".to_owned(), team: 2, color: 0 }),
        (UserId(2), Player { xuid: 200, name: "C".to_owned(), team: 3, color: 0 }),
    ];
    let ticks = vec![
        rules(5, Some(1), None, Some(0)),
        rules(10, Some(2), None, None),
        rules(50, None, Some(2), Some(9)),
        rules(60, Some(3), None, None),
        rules(90, None, Some(3), Some(7)),
    ];
    let events = vec![
        DemoEvent::Tick(3),
        DemoEvent::Game(GameEvent::BombPlanted),
        DemoEvent::Tick(20),
        death(2, Some(0), "ak47", true),
        DemoEvent::Tick(30),
        death(2, Some(12), "world", false),
        death(2, Some(5), "m4a1", false),
        DemoEvent::Tick(55),
        DemoEvent::Game(GameEvent::BombPlanted),
        DemoEvent::Tick(70),
        DemoEvent::Game(GameEvent::BombPlanted),
        DemoEvent::Game(GameEvent::RoundPreStart),
        DemoEvent::Tick(80),
        DemoEvent::Game(GameEvent::BombDefused),
        DemoEvent::Tick(95),
        DemoEvent::Game(GameEvent::BombPlanted),
        DemoEvent::Tick(96),
        DemoEvent::Game(GameEvent::BombDefused),
    ];
    ParsedDemo { map_name: "de_nuke".to_owned(), player_info: players, events, ticks }
}

#[test]
fn rounds_from_counters() {
    let result = perround::parse(&demo());
    assert_eq!(result.rounds.len(), 2);
    assert_eq!((result.rounds[0].start, result.rounds[0].end), (10, 50));
    assert_eq!(result.rounds[0].winreason, WinReason::CTKilled);
    assert_eq!((result.rounds[1].start, result.rounds[1].end), (60, 90));
    assert_eq!(result.rounds[1].winreason, WinReason::BombDefused);
}

#[test]
fn events_go_to_their_round() {
    let result = perround::parse(&demo());
    assert_eq!(result.rounds[0].events, vec![kill(100, 200, "ak47", true), kill(200, 200, "world", false)]);
    assert_eq!(result.rounds[1].events, vec![RoundEvent::BombPlanted, RoundEvent::BombDefused]);
}

#[test]
fn unterminated_round_keeps_sentinel() {
    let demo = ParsedDemo {
        map_name: "de_nuke".to_owned(),
        player_info: vec![],
        events: vec![DemoEvent::Tick(12), DemoEvent::Game(GameEvent::BombPlanted)],
        ticks: vec![rules(10, Some(2), None, Some(0))],
    };
    let result = perround::parse(&demo);
    assert_eq!(result.rounds.len(), 1);
    assert_eq!(result.rounds[0].end, u32::MAX);
    assert_eq!(result.rounds[0].winreason, WinReason::StillInProgress);
    assert_eq!(result.rounds[0].events, vec![RoundEvent::BombPlanted]);
}

#[test]
fn no_rounds_no_timeline() {
    let demo = ParsedDemo {
        map_name: "de_nuke".to_owned(),
        player_info: vec![],
        events: vec![DemoEvent::Tick(12), DemoEvent::Game(GameEvent::BombPlanted)],
        ticks: vec![rules(10, Some(1), Some(1), Some(3))],
    };
    assert!(perround::parse(&demo).rounds.is_empty());
}

#[test]
fn win_reason_codes() {
    assert_eq!(round_win_reason(0), Some(WinReason::StillInProgress));
    assert_eq!(round_win_reason(7), Some(WinReason::BombDefused));
    assert_eq!(round_win_reason(12), Some(WinReason::TimeRanOut));
    assert_eq!(round_win_reason(20), Some(WinReason::CTReachedHostage));
    assert_eq!(round_win_reason(21), None);
    assert_eq!(round_win_reason(-1), None);
}
