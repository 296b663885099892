//! The decoded match that the analyses read: the player table, the
//! chronological event log and the per-tick entity snapshots.

use vstd::prelude::*;

use crate::heatmap::{mask, PawnID};
use crate::idmap::IdMap;

verus! {

/// Stable in-match identifier of a player.
#[derive(Debug, Clone, Copy, PartialEq, Eq, Structural, Hash)]
pub struct UserId(pub i32);

/// Static identity of a player.
#[derive(Debug, Clone, PartialEq, Eq)]
pub struct Player {
    /// Platform id.
    pub xuid: u64,
    pub name: String,
    pub team: i32,
    pub color: i32,
}

/// A player died.
#[derive(Debug, Clone, PartialEq, Eq)]
pub struct PlayerDeath {
    pub userid: Option<UserId>,
    pub attacker: Option<UserId>,
    pub assister: Option<UserId>,
    pub weapon: String,
    pub headshot: bool,
    pub noscope: bool,
}

/// A player took damage; `health` is what the player has left.
#[derive(Debug, Clone, Copy, PartialEq, Eq)]
pub struct PlayerHurt {
    pub userid: Option<UserId>,
    pub attacker: Option<UserId>,
    pub health: Option<u8>,
}

/// A player (re)spawned; `pawn` is the raw handle of the new body.
#[derive(Debug, Clone, Copy, PartialEq, Eq)]
pub struct PlayerSpawn {
    pub userid: Option<UserId>,
    pub pawn: Option<i32>,
}

/// The game events that the analyses tell apart.
#[derive(Debug, Clone, PartialEq, Eq)]
pub enum GameEvent {
    RoundAnnounceMatchStart,
    RoundPreStart,
    RoundOfficiallyEnded,
    WinPanelMatch,
    PlayerSpawn(PlayerSpawn),
    PlayerDeath(PlayerDeath),
    PlayerHurt(PlayerHurt),
    BombPlanted,
    BombDefused,
    Other,
}

/// One entry of the chronological event log.
#[derive(Debug, Clone, PartialEq, Eq)]
pub enum DemoEvent {
    /// The tick cursor moved to this tick.
    Tick(u32),
    Game(GameEvent),
}

/// Changed properties of a player body on one tick; absent ones did not change.
/// `vec_*` are the sub-cell offsets, rounded down to whole world units.
#[derive(Debug, Clone, Copy, PartialEq, Eq)]
pub struct PawnState {
    pub id: i32,
    pub cell_x: Option<u32>,
    pub cell_y: Option<u32>,
    pub cell_z: Option<u32>,
    pub vec_x: Option<i32>,
    pub vec_y: Option<i32>,
    pub vec_z: Option<i32>,
    pub life_state: Option<u32>,
}

/// Changed properties of a team entity on one tick.
#[derive(Debug, Clone, PartialEq, Eq)]
pub struct TeamState {
    pub id: i32,
    pub name: Option<String>,
    /// Raw handles of the member bodies listed on this tick.
    pub pawns: Vec<u32>,
    pub score: Option<i32>,
}

/// Changed properties of the rules entity on one tick.
#[derive(Debug, Clone, Copy, PartialEq, Eq)]
pub struct GameRulesState {
    pub round_start_count: Option<u32>,
    pub round_end_count: Option<u32>,
    pub win_reason: Option<i32>,
}

/// One entity snapshot, by entity class.
#[derive(Debug, Clone, PartialEq, Eq)]
pub enum EntityState {
    PlayerPawn(PawnState),
    Team(TeamState),
    GameRules(GameRulesState),
    Other,
}

/// The snapshots of one tick.
#[derive(Debug, Clone, PartialEq, Eq)]
pub struct EntityTickStates {
    pub tick: u32,
    pub states: Vec<EntityState>,
}

/// A fully decoded match.
#[derive(Debug, Clone, PartialEq, Eq)]
pub struct ParsedDemo {
    pub map_name: String,
    /// The player table; a later entry for the same id replaces an earlier one.
    pub player_info: Vec<(UserId, Player)>,
    pub events: Vec<DemoEvent>,
    pub ticks: Vec<EntityTickStates>,
}

/// The player table as a map; a later entry for an id wins.
pub open spec fn player_table(s: Seq<(UserId, Player)>) -> Map<i32, Player>
    decreases s.len(),
{
    if s.len() == 0 {
        Map::empty()
    } else {
        player_table(s.drop_last()).insert(s.last().0.0, s.last().1)
    }
}

/// A copy of `p`.
pub fn copy_player(p: &Player) -> (r: Player)
    ensures
        r == *p,
{
    Player { xuid: p.xuid, name: p.name.clone(), team: p.team, color: p.color }
}

/// Builds the lookup map of a player table.
pub fn player_map(players: &Vec<(UserId, Player)>) -> (r: IdMap<Player>)
    ensures
        r.wf(),
        r@ == player_table(players@),
{
    let mut m: IdMap<Player> = IdMap::new();
    let mut i: usize = 0;
    while i < players.len()
        invariant
            i <= players@.len(),
            m.wf(),
            m@ == player_table(players@.take(i as int)),
        decreases players.len() - i,
    {
        let (id, p) = (players[i].0, copy_player(&players[i].1));
        m.insert(id.0, p);
        assert(players@.take(i as int + 1).drop_last() == players@.take(i as int));
        i = i + 1;
    }
    assert(players@.take(players@.len() as int) == players@);
    m
}

/// The body handle that a spawn event assigns, masked, with its player.
pub open spec fn spawn_of(e: DemoEvent) -> Option<(i32, UserId)> {
    match e {
        DemoEvent::Game(GameEvent::PlayerSpawn(sp)) => match (sp.userid, sp.pawn) {
            (Some(u), Some(p)) => Some((mask(p as u32) as i32, u)),
            _ => None,
        },
        _ => None,
    }
}

/// Which player each masked body handle was last handed to by a spawn event.
pub open spec fn spawn_table(s: Seq<DemoEvent>) -> Map<i32, UserId>
    decreases s.len(),
{
    if s.len() == 0 {
        Map::empty()
    } else {
        match spawn_of(s.last()) {
            Some((h, u)) => spawn_table(s.drop_last()).insert(h, u),
            None => spawn_table(s.drop_last()),
        }
    }
}

/// Builds the handle-to-player map of an event log.
pub fn spawn_map(events: &Vec<DemoEvent>) -> (r: IdMap<UserId>)
    ensures
        r.wf(),
        r@ == spawn_table(events@),
{
    let mut m: IdMap<UserId> = IdMap::new();
    let mut i: usize = 0;
    while i < events.len()
        invariant
            i <= events@.len(),
            m.wf(),
            m@ == spawn_table(events@.take(i as int)),
        decreases events.len() - i,
    {
        assert(events@.take(i as int + 1).drop_last() == events@.take(i as int));
        if let DemoEvent::Game(GameEvent::PlayerSpawn(sp)) = &events[i] {
            if let (Some(u), Some(p)) = (sp.userid, sp.pawn) {
                let pawn = PawnID::from(p);
                assert((p as u32) & 0x7FF < 2048) by (bit_vector);
                m.insert(pawn.0 as i32, u);
            }
        }
        i = i + 1;
    }
    assert(events@.take(events@.len() as int) == events@);
    m
}

/// A copy of a player table.
pub fn copy_players(v: &Vec<(UserId, Player)>) -> (r: Vec<(UserId, Player)>)
    ensures
        r@ == v@,
{
    let mut r: Vec<(UserId, Player)> = Vec::new();
    let mut i: usize = 0;
    while i < v.len()
        invariant
            i <= v@.len(),
            r@ == v@.take(i as int),
        decreases v.len() - i,
    {
        r.push((v[i].0, copy_player(&v[i].1)));
        assert(r@ =~= v@.take(i as int + 1));
        i = i + 1;
    }
    assert(v@.take(v@.len() as int) == v@);
    r
}

} // verus!
