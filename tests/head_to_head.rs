use analysis::events::{DemoEvent, GameEvent, ParsedDemo, Player, PlayerDeath, UserId};
use analysis::head_to_head;

fn death(victim: Option<i32>, attacker: Option<i32>) -> DemoEvent {
    DemoEvent::Game(GameEvent::PlayerDeath(PlayerDeath {
        userid: victim.map(UserId),
        attacker: attacker.map(UserId),
        assister: None,
        weapon: String::new(),
        headshot: false,
        noscope: false,
    }))
}

fn demo() -> ParsedDemo {
    let p = |xuid: u64, team: i32| Player { xuid, name: format!("p{}", xuid), team, color: 0 };
    ParsedDemo {
        map_name: "de_nuke".to_owned(),
        player_info: vec![(UserId(0), p(100, 2)), (UserId(1), p(101, 2)), (UserId(2), p(200, 3)), (UserId(3), p(201, 3))],
        events: vec![
            death(Some(2), Some(0)),
            death(Some(2), Some(0)),
            death(Some(1), Some(0)),
            death(Some(0), Some(3)),
            death(Some(9), Some(0)),
            death(Some(3), None),
            death(None, Some(2)),
            death(Some(3), Some(3)),
        ],
        ticks: vec![],
    }
}

fn count(out: &head_to_head::Output, a: i32, v: i32) -> Option<usize> {
    let row = &out.head_to_head.iter().find(|(k, _)| *k == a)?.1;
    row.iter().find(|(k, _)| *k == v).map(|(_, n)| *n)
}

#[test]
fn counts_cross_team_kills() {
    let out = head_to_head::parse(&demo());
    assert_eq!(count(&out, 0, 2), Some(2));
    assert_eq!(count(&out, 3, 0), Some(1));
    assert_eq!(out.head_to_head.len(), 2);
    assert_eq!(out.head_to_head.iter().map(|(_, r)| r.len()).sum::<usize>(), 2);
    assert_eq!(out.players.len(), 4);
}

#[test]
fn same_team_kills_are_left_out() {
    let out = head_to_head::parse(&demo());
    assert_eq!(count(&out, 0, 1), None);
    assert_eq!(count(&out, 3, 3), None);
}

#[test]
fn every_entry_crosses_teams() {
    let d = demo();
    let out = head_to_head::parse(&d);
    let team = |id: i32| d.player_info.iter().find(|(u, _)| u.0 == id).map(|(_, p)| p.team).unwrap();
    for (a, row) in out.head_to_head.iter() {
        for (v, _) in row.iter() {
            assert_ne!(team(*a), team(*v));
        }
    }
}
