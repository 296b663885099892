use analysis::analysis::{BaseAnalysis, HeadToHeadAnalysis, HeadToHeadRow, HeatmapAnalysis, PerRoundAnalysis};
use analysis::demo_analysis::{
    self, client_event, client_rounds, group_scoreboard, head_to_head_matrix, team_rosters, KillCount, MatrixPlayer, to_round_win_reason, DemoRound, RosterEntry,
    RoundWinReason, ScoreBoardPlayer, TeamEntry,
};
use analysis::digits::to_decimal;
use analysis::events::{
    DemoEvent, EntityState, EntityTickStates, GameEvent, ParsedDemo, PawnState, Player, PlayerDeath, PlayerSpawn,
    TeamState, UserId,
};
use analysis::perround::{self, WinReason};
use analysis::storage::FileStorage;

fn death(victim: i32, attacker: i32) -> DemoEvent {
    DemoEvent::Game(GameEvent::PlayerDeath(PlayerDeath {
        userid: Some(UserId(victim)),
        attacker: Some(UserId(attacker)),
        assister: None,
        weapon: String::new(),
        headshot: false,
        noscope: false,
    }))
}

fn demo() -> ParsedDemo {
    let p = |xuid: u64, team: i32| Player { xuid, name: format!("p{}", xuid), team, color: 0 };
    let alive = PawnState {
        id: 1,
        cell_x: Some(1),
        cell_y: Some(0),
        cell_z: Some(0),
        vec_x: Some(12),
        vec_y: Some(7),
        vec_z: Some(0),
        life_state: Some(0),
    };
    let mut stranger = alive;
    stranger.id = 2;
    ParsedDemo {
        map_name: "de_inferno".to_owned(),
        player_info: vec![(UserId(0), p(76561198236134832, 2)), (UserId(2), p(200, 3))],
        events: vec![
            DemoEvent::Game(GameEvent::PlayerSpawn(PlayerSpawn { userid: Some(UserId(0)), pawn: Some(1) })),
            DemoEvent::Game(GameEvent::PlayerSpawn(PlayerSpawn { userid: Some(UserId(7)), pawn: Some(2) })),
            DemoEvent::Game(GameEvent::RoundAnnounceMatchStart),
            death(2, 0),
        ],
        ticks: vec![EntityTickStates {
            tick: 1,
            states: vec![
                EntityState::Team(TeamState { id: 50, name: Some("TERRORIST".to_owned()), pawns: vec![1, 2], score: Some(1) }),
                EntityState::PlayerPawn(alive),
                EntityState::PlayerPawn(stranger),
            ],
        }],
    }
}

#[test]
fn head_to_head_rows_use_platform_ids() {
    let rows = HeadToHeadAnalysis::new().analyse(&demo());
    assert_eq!(rows, vec![HeadToHeadRow { player: "76561198236134832".to_owned(), enemy: "200".to_owned(), kills: 1 }]);
}

#[test]
fn stored_heatmaps_of_known_players() {
    let maps = HeatmapAnalysis::new().analyse(&demo()).unwrap();
    assert_eq!(maps.len(), 1);
    let ((steam_id, team), h) = &maps[0];
    assert_eq!(steam_id, "76561198236134832");
    assert_eq!(team, "TERRORIST");
    assert_eq!(h.block_size, 5);
    assert_eq!(h.rows.len(), 2);
    assert_eq!(h.rows[1].len(), 105);
    assert_eq!(h.rows[1][104], 1);
}

#[test]
fn base_analysis_is_the_scoreboard() {
    let result = BaseAnalysis::new().analyse(&demo());
    assert_eq!(result.map, "de_inferno");
    assert_eq!(result.players.len(), 2);
    assert_eq!(result.players[0].0.steam_id, "76561198236134832");
    assert_eq!(result.players[0].1.kills, 1);
    assert_eq!(result.players[1].1.deaths, 1);
    assert_eq!(result.teams.len(), 1);
    assert_eq!(result.teams[0].1.end_score, 1);
}

#[test]
fn per_round_analysis_without_rounds() {
    assert!(PerRoundAnalysis::new().analyse(&demo()).rounds.is_empty());
}

#[test]
fn decimal_ids() {
    assert_eq!(to_decimal(0), "0");
    assert_eq!(to_decimal(76561198236134832), "76561198236134832");
    assert_eq!(to_decimal(u64::MAX), "18446744073709551615");
}

#[test]
fn shown_win_reasons() {
    assert_eq!(to_round_win_reason(WinReason::TKilled), Some(RoundWinReason::TKilled));
    assert_eq!(to_round_win_reason(WinReason::TimeRanOut), Some(RoundWinReason::TimeRanOut));
    assert_eq!(to_round_win_reason(WinReason::StillInProgress), Some(RoundWinReason::StillInProgress));
    assert_eq!(to_round_win_reason(WinReason::Draw), None);
}

fn sb(name: &str, kills: usize) -> ScoreBoardPlayer {
    ScoreBoardPlayer { name: name.to_owned(), kills, deaths: 0, damage: 0, assists: 0 }
}

#[test]
fn scoreboard_groups_by_team() {
    let board = group_scoreboard(vec![(3, sb("c", 1)), (2, sb("a", 2)), (3, sb("d", 3)), (2, sb("b", 4))]);
    assert_eq!(board.teams, vec![(2, vec![sb("a", 2), sb("b", 4)]), (3, vec![sb("c", 1), sb("d", 3)])]);
    assert!(group_scoreboard(vec![]).teams.is_empty());
}

#[test]
fn file_storage_folder() {
    let s = FileStorage::new("/var/demos".to_owned());
    assert_eq!(s.folder(), "/var/demos");
}

fn roster() -> Vec<RosterEntry> {
    let r = |id: &str, name: &str, team: u32| RosterEntry { steam_id: id.to_owned(), name: name.to_owned(), team };
    vec![r("100", "Excel", 2), r("200", "cute", 3), r("201", "zodiac", 3), r("300", "cute", 3)]
}

fn kill(attacker: u64, died: u64) -> perround::RoundEvent {
    perround::RoundEvent::Kill { attacker, died, weapon: "awp".to_owned(), headshot: false, noscope: true }
}

#[test]
fn events_by_name() {
    assert_eq!(
        client_event(&roster(), &kill(100, 201)),
        Some(demo_analysis::RoundEvent::Killed {
            attacker: "Excel".to_owned(),
            died: "zodiac".to_owned(),
            weapon: "awp".to_owned(),
            headshot: false,
            noscope: true,
        })
    );
    assert_eq!(client_event(&roster(), &kill(100, 999)), None);
    assert_eq!(client_event(&roster(), &perround::RoundEvent::BombDefused), Some(demo_analysis::RoundEvent::BombDefused));
}

#[test]
fn rosters_by_team() {
    let teams = vec![
        TeamEntry { team: 3, start_name: "CT".to_owned() },
        TeamEntry { team: 2, start_name: "TERRORIST".to_owned() },
    ];
    let r = team_rosters(&roster(), &teams);
    assert_eq!(r.len(), 2);
    assert_eq!((r[0].name.as_str(), r[0].number), ("CT", 3));
    assert_eq!(r[0].players, vec!["cute".to_owned(), "zodiac".to_owned()]);
    assert_eq!(r[1].players, vec!["Excel".to_owned()]);
}

#[test]
fn rounds_for_clients() {
    let rounds = vec![(WinReason::CTKilled, vec![kill(200, 100)]), (WinReason::BombExploded, vec![])];
    let out = client_rounds(&rounds, &roster()).unwrap();
    assert_eq!(out.len(), 2);
    assert_eq!(out[0].reason, RoundWinReason::CTKilled);
    assert_eq!(
        out[0].events,
        vec![demo_analysis::RoundEvent::Killed {
            attacker: "cute".to_owned(),
            died: "Excel".to_owned(),
            weapon: "awp".to_owned(),
            headshot: false,
            noscope: true,
        }]
    );
    assert_eq!(out[1], DemoRound { reason: RoundWinReason::BombExploded, events: vec![] });
    assert!(client_rounds(&vec![(WinReason::Draw, vec![])], &roster()).is_none());
    assert!(client_rounds(&vec![(WinReason::TKilled, vec![kill(5, 100)])], &roster()).is_none());
}

#[test]
fn head_to_head_view() {
    let p = |id: &str, name: &str, team: u32, color: i32| MatrixPlayer {
        steam_id: id.to_owned(),
        name: name.to_owned(),
        team,
        color,
    };
    let players = vec![p("1", "a", 2, 3), p("2", "b", 3, 1), p("3", "c", 2, 0), p("4", "d", 3, 0), p("5", "e", 2, 3)];
    let k = |a: &str, b: &str, n: usize| KillCount { player: a.to_owned(), enemy: b.to_owned(), kills: n };
    let counts = vec![k("1", "2", 4), k("2", "1", 1), k("3", "4", 2), k("1", "2", 9)];
    let view = head_to_head_matrix(&players, &counts);
    assert_eq!(view.row_players, vec!["c".to_owned(), "a".to_owned(), "e".to_owned()]);
    assert_eq!(view.column_players, vec!["d".to_owned(), "b".to_owned()]);
    assert_eq!(view.entries, vec![vec![(2, 0), (0, 0)], vec![(0, 0), (4, 1)], vec![(0, 0), (0, 0)]]);
}
