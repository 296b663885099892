//! End-of-game scoreboard: per-player kill, death, damage and assist totals
//! gathered while a round is live, and each team's final score.

use vstd::prelude::*;

use crate::events::{
    player_map, player_table, spawn_map, spawn_table, DemoEvent, EntityState, EntityTickStates,
    GameEvent, ParsedDemo, Player, PlayerDeath, PlayerHurt, TeamState, UserId,
};
use crate::digits::{decimal_digits, to_decimal};
use crate::heatmap::{mask, PawnID};
use crate::idmap::{entries_agree, IdMap};

verus! {

/// The scoreboard of a match.
#[derive(Debug, Clone, PartialEq, Eq)]
pub struct EndOfGame {
    pub map: String,
    /// One line per player, by ascending in-match id.
    pub players: Vec<(PlayerInfo, PlayerStats)>,
    /// Outcome by team number, each number once.
    pub teams: Vec<(i32, TeamInfo)>,
}

/// One side's outcome.
#[derive(Debug, Clone, PartialEq, Eq)]
pub struct TeamInfo {
    pub end_score: usize,
    pub start_side: String,
}

/// What a team outcome holds, as plain values.
pub struct TeamInfoView {
    pub end_score: usize,
    pub start_side: Seq<char>,
}

impl View for TeamInfo {
    type V = TeamInfoView;

    open spec fn view(&self) -> TeamInfoView {
        TeamInfoView { end_score: self.end_score, start_side: self.start_side@ }
    }
}

/// Identity of a player on the scoreboard.
#[derive(Debug, Clone, PartialEq, Eq)]
pub struct PlayerInfo {
    pub name: String,
    pub steam_id: String,
    pub team: i32,
    pub color: i32,
    pub ingame_id: i32,
}

/// One scoreboard line.
#[derive(Debug, Default, Clone, Copy, PartialEq, Eq, Structural)]
pub struct PlayerStats {
    pub kills: usize,
    pub deaths: usize,
    pub damage: usize,
    pub assists: usize,
    pub team_kills: usize,
    pub team_damage: usize,
    pub self_damage: usize,
}

pub open spec fn zero_stats() -> PlayerStats {
    PlayerStats { kills: 0, deaths: 0, damage: 0, assists: 0, team_kills: 0, team_damage: 0, self_damage: 0 }
}

/// `a + b`, staying at the largest value.
pub open spec fn add_sat(a: usize, b: int) -> usize {
    if a + b > usize::MAX {
        usize::MAX
    } else {
        (a + b) as usize
    }
}

/// The line of `k`, or an empty line.
pub open spec fn stats_of(m: Map<i32, PlayerStats>, k: i32) -> PlayerStats {
    if m.contains_key(k) {
        m[k]
    } else {
        zero_stats()
    }
}

/// A referenced player that counts for credit: a valid slot with a known identity.
pub open spec fn credited(info: Map<i32, Player>, p: Option<UserId>) -> Option<UserId> {
    match p {
        Some(a) => if a.0 < 10 && info.contains_key(a.0) {
            Some(a)
        } else {
            None
        },
        None => None,
    }
}

/// How a death with a credited attacker is booked.
pub enum KillKind {
    /// Attacker and victim are one person: no credit.
    Suicide,
    TeamKill,
    Kill,
}

pub open spec fn kill_kind(attacker: Player, victim: Player) -> KillKind {
    if attacker.xuid == victim.xuid {
        KillKind::Suicide
    } else if attacker.team == victim.team {
        KillKind::TeamKill
    } else {
        KillKind::Kill
    }
}

/// The lines after one death: the victim's death, then the attacker's kill
/// or team kill and an assist from the other side.
pub open spec fn death_stats(info: Map<i32, Player>, m: Map<i32, PlayerStats>, d: PlayerDeath) -> Map<i32, PlayerStats> {
    match d.userid {
        None => m,
        Some(v) => if !info.contains_key(v.0) {
            m
        } else {
            let vp = info[v.0];
            let sv = stats_of(m, v.0);
            let m1 = m.insert(v.0, PlayerStats { deaths: add_sat(sv.deaths, 1), ..sv });
            match credited(info, d.attacker) {
                None => m1,
                Some(a) => {
                    let sa = stats_of(m1, a.0);
                    let m2 = match kill_kind(info[a.0], vp) {
                        KillKind::Suicide => m1,
                        KillKind::TeamKill => m1.insert(a.0, PlayerStats { team_kills: add_sat(sa.team_kills, 1), ..sa }),
                        KillKind::Kill => m1.insert(a.0, PlayerStats { kills: add_sat(sa.kills, 1), ..sa }),
                    };
                    match credited(info, d.assister) {
                        Some(s) => if info[s.0].team != vp.team {
                            let ss = stats_of(m2, s.0);
                            m2.insert(s.0, PlayerStats { assists: add_sat(ss.assists, 1), ..ss })
                        } else {
                            m2
                        },
                        None => m2,
                    }
                },
            }
        },
    }
}

/// What the event pass carries from event to event.
pub struct KillState {
    pub stats: Map<i32, PlayerStats>,
    /// Last known health by player.
    pub life: Map<i32, u8>,
    /// Whether deaths and damage count now.
    pub recording: bool,
}

/// Health lost: the last known health (full when unknown) less the new one, at least zero.
pub open spec fn damage_dealt(life: Map<i32, u8>, v: i32, health: Option<u8>) -> int {
    let n = match health {
        Some(x) => x,
        None => 0u8,
    };
    let prev = if life.contains_key(v) { life[v] } else { 100u8 };
    if prev > n {
        prev - n
    } else {
        0
    }
}

/// The state after one damage event.
pub open spec fn hurt_step(info: Map<i32, Player>, s: KillState, h: PlayerHurt) -> KillState {
    match h.userid {
        None => s,
        Some(v) => if !info.contains_key(v.0) {
            s
        } else {
            let n = match h.health {
                Some(x) => x,
                None => 0u8,
            };
            let dealt = damage_dealt(s.life, v.0, h.health);
            let s1 = KillState { life: s.life.insert(v.0, n), ..s };
            match h.attacker {
                Some(a) => if info.contains_key(a.0) {
                    let sa = stats_of(s.stats, a.0);
                    let line = match kill_kind(info[a.0], info[v.0]) {
                        KillKind::Suicide => PlayerStats { self_damage: add_sat(sa.self_damage, dealt), ..sa },
                        KillKind::TeamKill => PlayerStats { team_damage: add_sat(sa.team_damage, dealt), ..sa },
                        KillKind::Kill => PlayerStats { damage: add_sat(sa.damage, dealt), ..sa },
                    };
                    KillState { stats: s1.stats.insert(a.0, line), ..s1 }
                } else {
                    s1
                },
                None => s1,
            }
        },
    }
}

/// The state after one event of the log.
pub open spec fn event_step(info: Map<i32, Player>, s: KillState, e: DemoEvent) -> KillState {
    match e {
        DemoEvent::Game(g) => match g {
            GameEvent::RoundAnnounceMatchStart => KillState { stats: Map::empty(), recording: true, ..s },
            GameEvent::RoundPreStart => KillState { recording: true, ..s },
            GameEvent::WinPanelMatch => KillState { recording: false, ..s },
            GameEvent::RoundOfficiallyEnded => KillState { recording: false, ..s },
            GameEvent::PlayerSpawn(sp) => match sp.userid {
                Some(u) => KillState { life: s.life.insert(u.0, 100), ..s },
                None => s,
            },
            GameEvent::PlayerDeath(d) => if s.recording {
                KillState { stats: death_stats(info, s.stats, d), ..s }
            } else {
                s
            },
            GameEvent::PlayerHurt(h) => if s.recording {
                hurt_step(info, s, h)
            } else {
                s
            },
            _ => s,
        },
        _ => s,
    }
}

pub open spec fn initial_kill_state() -> KillState {
    KillState { stats: Map::empty(), life: Map::empty(), recording: false }
}

/// The state after the events of `es`, in order.
pub open spec fn events_run(info: Map<i32, Player>, es: Seq<DemoEvent>) -> KillState
    decreases es.len(),
{
    if es.len() == 0 {
        initial_kill_state()
    } else {
        event_step(info, events_run(info, es.drop_last()), es.last())
    }
}

/// The line of `k` in `m`, or an empty line.
fn line_of(m: &IdMap<PlayerStats>, k: i32) -> (r: PlayerStats)
    requires
        m.wf(),
    ensures
        r == stats_of(m@, k),
{
    match m.get(k) {
        Some(s) => *s,
        None => PlayerStats { kills: 0, deaths: 0, damage: 0, assists: 0, team_kills: 0, team_damage: 0, self_damage: 0 },
    }
}

/// The referenced player if it counts for credit.
fn credit(info: &IdMap<Player>, p: Option<UserId>) -> (r: Option<UserId>)
    requires
        info.wf(),
    ensures
        r == credited(info@, p),
{
    match p {
        Some(a) => if a.0 < 10 && info.get(a.0).is_some() {
            Some(a)
        } else {
            None
        },
        None => None,
    }
}

/// Books one death.
fn player_death(death: &PlayerDeath, player_info: &IdMap<Player>, player_stats: &mut IdMap<PlayerStats>)
    requires
        player_info.wf(),
        old(player_stats).wf(),
    ensures
        final(player_stats).wf(),
        final(player_stats)@ == death_stats(player_info@, old(player_stats)@, *death),
{
    let victim_id = match death.userid {
        Some(v) => v,
        None => return,
    };
    let victim = match player_info.get(victim_id.0) {
        Some(p) => p,
        None => return,
    };
    let mut line = line_of(player_stats, victim_id.0);
    line.deaths = line.deaths.saturating_add(1);
    player_stats.insert(victim_id.0, line);
    let attacker_id = match credit(player_info, death.attacker) {
        Some(a) => a,
        None => return,
    };
    let attacker = match player_info.get(attacker_id.0) {
        Some(p) => p,
        None => return,
    };
    if attacker.xuid == victim.xuid {
        // Suicide: no credit either way.
    } else if attacker.team == victim.team {
        let mut line = line_of(player_stats, attacker_id.0);
        line.team_kills = line.team_kills.saturating_add(1);
        player_stats.insert(attacker_id.0, line);
    } else {
        let mut line = line_of(player_stats, attacker_id.0);
        line.kills = line.kills.saturating_add(1);
        player_stats.insert(attacker_id.0, line);
    }
    if let Some(assist_id) = credit(player_info, death.assister) {
        if let Some(assister) = player_info.get(assist_id.0) {
            if assister.team != victim.team {
                let mut line = line_of(player_stats, assist_id.0);
                line.assists = line.assists.saturating_add(1);
                player_stats.insert(assist_id.0, line);
            }
        }
    }
}

/// Books one damage event and records the victim's new health.
fn player_hurt(
    hurt: &PlayerHurt,
    player_info: &IdMap<Player>,
    player_stats: &mut IdMap<PlayerStats>,
    player_life: &mut IdMap<u8>,
)
    requires
        player_info.wf(),
        old(player_stats).wf(),
        old(player_life).wf(),
    ensures
        final(player_stats).wf(),
        final(player_life).wf(),
        hurt_step(player_info@, KillState { stats: old(player_stats)@, life: old(player_life)@, recording: true }, *hurt)
            == (KillState { stats: final(player_stats)@, life: final(player_life)@, recording: true }),
{
    let victim_id = match hurt.userid {
        Some(v) => v,
        None => return,
    };
    let victim = match player_info.get(victim_id.0) {
        Some(p) => p,
        None => return,
    };
    let n_health: u8 = match hurt.health {
        Some(h) => h,
        None => 0,
    };
    let previous_health: u8 = match player_life.get(victim_id.0) {
        Some(h) => *h,
        None => 100,
    };
    let dealt = previous_health.saturating_sub(n_health) as usize;
    player_life.insert(victim_id.0, n_health);
    let attacker_id = match hurt.attacker {
        Some(a) => a,
        None => return,
    };
    if let Some(attacker) = player_info.get(attacker_id.0) {
        let mut line = line_of(player_stats, attacker_id.0);
        if attacker.xuid == victim.xuid {
            line.self_damage = line.self_damage.saturating_add(dealt);
        } else if attacker.team == victim.team {
            line.team_damage = line.team_damage.saturating_add(dealt);
        } else {
            line.damage = line.damage.saturating_add(dealt);
        }
        player_stats.insert(attacker_id.0, line);
    }
}

/// Runs the event log through the recording window and books every death and
/// damage event seen while it is open.
fn record_events(events: &Vec<DemoEvent>, info: &IdMap<Player>) -> (r: IdMap<PlayerStats>)
    requires
        info.wf(),
    ensures
        r.wf(),
        r@ == events_run(info@, events@).stats,
{
    let mut stats: IdMap<PlayerStats> = IdMap::new();
    let mut life: IdMap<u8> = IdMap::new();
    let mut recording = false;
    let ghost es = events@;
    let mut i: usize = 0;
    while i < events.len()
        invariant
            info.wf(),
            stats.wf(),
            life.wf(),
            i <= es.len(),
            es == events@,
            events_run(info@, es.take(i as int)) == (KillState { stats: stats@, life: life@, recording }),
        decreases events.len() - i,
    {
        assert(es.take(i as int + 1).drop_last() == es.take(i as int));
        if let DemoEvent::Game(g) = &events[i] {
            match g {
                GameEvent::RoundAnnounceMatchStart => {
                    stats.clear();
                    recording = true;
                },
                GameEvent::RoundPreStart => {
                    recording = true;
                },
                GameEvent::WinPanelMatch => {
                    recording = false;
                },
                GameEvent::RoundOfficiallyEnded => {
                    recording = false;
                },
                GameEvent::PlayerSpawn(sp) => {
                    if let Some(u) = sp.userid {
                        life.insert(u.0, 100);
                    }
                },
                GameEvent::PlayerDeath(d) => {
                    if recording {
                        player_death(d, info, &mut stats);
                    }
                },
                GameEvent::PlayerHurt(h) => {
                    if recording {
                        player_hurt(h, info, &mut stats, &mut life);
                    }
                },
                _ => {},
            }
        }
        i = i + 1;
    }
    assert(es.take(es.len() as int) == es);
    stats
}

/// What the team pass carries from snapshot to snapshot.
pub struct TeamPass {
    /// Outcome by team number.
    pub teams: Map<i32, TeamInfoView>,
    /// Team number by team entity.
    pub entity_team: Map<i32, i32>,
}

/// Some listed body resolves to a player.
pub open spec fn resolves(pt: Map<i32, UserId>, pawns: Seq<u32>) -> bool {
    exists|i: int| 0 <= i < pawns.len() && pt.contains_key(mask(#[trigger] pawns[i]) as i32)
}

/// The team number of the first listed body whose player is known.
pub open spec fn first_team(info: Map<i32, Player>, pt: Map<i32, UserId>, pawns: Seq<u32>) -> Option<i32>
    decreases pawns.len(),
{
    if pawns.len() == 0 {
        None
    } else {
        match first_team(info, pt, pawns.drop_last()) {
            Some(t) => Some(t),
            None => {
                let h = mask(pawns.last()) as i32;
                if pt.contains_key(h) && info.contains_key(pt[h].0) {
                    Some(info[pt[h].0].team)
                } else {
                    None
                }
            },
        }
    }
}

/// `base` with the snapshot's score, when it reports a valid one.
pub open spec fn with_score(base: TeamInfoView, score: Option<i32>) -> TeamInfoView {
    match score {
        Some(sc) => if sc >= 0 {
            TeamInfoView { end_score: sc as usize, ..base }
        } else {
            base
        },
        None => base,
    }
}

/// The team pass after one team snapshot. A snapshot whose bodies resolve
/// names its team number and side; one whose bodies do not still updates the
/// score of the team that its entity was last seen as.
pub open spec fn team_step(info: Map<i32, Player>, pt: Map<i32, UserId>, s: TeamPass, t: TeamState) -> TeamPass {
    if !resolves(pt, t.pawns@) {
        if s.entity_team.contains_key(t.id) && s.teams.contains_key(s.entity_team[t.id]) {
            let num = s.entity_team[t.id];
            TeamPass { teams: s.teams.insert(num, with_score(s.teams[num], t.score)), ..s }
        } else {
            s
        }
    } else {
        match first_team(info, pt, t.pawns@) {
            None => s,
            Some(num) => {
                let base = if s.teams.contains_key(num) {
                    s.teams[num]
                } else {
                    TeamInfoView {
                        end_score: 0,
                        start_side: match t.name {
                            Some(n) => n@,
                            None => Seq::empty(),
                        },
                    }
                };
                TeamPass { teams: s.teams.insert(num, with_score(base, t.score)), entity_team: s.entity_team.insert(t.id, num) }
            },
        }
    }
}

pub open spec fn team_states_run(info: Map<i32, Player>, pt: Map<i32, UserId>, s: TeamPass, es: Seq<EntityState>) -> TeamPass
    decreases es.len(),
{
    if es.len() == 0 {
        s
    } else {
        let s1 = team_states_run(info, pt, s, es.drop_last());
        match es.last() {
            EntityState::Team(t) => team_step(info, pt, s1, t),
            _ => s1,
        }
    }
}

/// The team pass over all ticks, in order.
pub open spec fn team_ticks_run(info: Map<i32, Player>, pt: Map<i32, UserId>, ts: Seq<EntityTickStates>) -> TeamPass
    decreases ts.len(),
{
    if ts.len() == 0 {
        TeamPass { teams: Map::empty(), entity_team: Map::empty() }
    } else {
        team_states_run(info, pt, team_ticks_run(info, pt, ts.drop_last()), ts.last().states@)
    }
}

pub open spec fn teams_view(m: Map<i32, TeamInfo>) -> Map<i32, TeamInfoView> {
    m.map_values(|t: TeamInfo| t@)
}

/// Applies one team snapshot.
fn team_snapshot(
    t: &TeamState,
    info: &IdMap<Player>,
    pt: &IdMap<UserId>,
    teams: &mut IdMap<TeamInfo>,
    entity_team: &mut IdMap<i32>,
)
    requires
        info.wf(),
        pt.wf(),
        old(teams).wf(),
        old(entity_team).wf(),
    ensures
        final(teams).wf(),
        final(entity_team).wf(),
        team_step(info@, pt@, TeamPass { teams: teams_view(old(teams)@), entity_team: old(entity_team)@ }, *t)
            == (TeamPass { teams: teams_view(final(teams)@), entity_team: final(entity_team)@ }),
{
    let ghost ps = t.pawns@;
    let mut resolved = false;
    let mut team: Option<i32> = None;
    let mut i: usize = 0;
    while i < t.pawns.len()
        invariant
            info.wf(),
            pt.wf(),
            i <= ps.len(),
            ps == t.pawns@,
            resolved <==> exists|j: int| 0 <= j < i && pt@.contains_key(mask(#[trigger] ps[j]) as i32),
            team == first_team(info@, pt@, ps.take(i as int)),
        decreases t.pawns.len() - i,
    {
        assert(ps.take(i as int + 1).drop_last() == ps.take(i as int));
        let h = PawnID::from(t.pawns[i]);
        proof {
            let v = ps[i as int];
            assert(v & 0x7FF < 2048) by (bit_vector);
        }
        if let Some(u) = pt.get(h.0 as i32) {
            resolved = true;
            if team.is_none() {
                if let Some(p) = info.get(u.0) {
                    team = Some(p.team);
                }
            }
        }
        i = i + 1;
    }
    assert(ps.take(ps.len() as int) == ps);
    let ghost before = teams_view(teams@);
    if !resolved {
        let num = match entity_team.get(t.id) {
            Some(n) => *n,
            None => return,
        };
        let ghost raw = teams@;
        let cur = match teams.take(num) {
            Some(c) => c,
            None => {
                assert(teams@ =~= raw);
                return;
            },
        };
        let updated = match t.score {
            Some(sc) => if sc >= 0 {
                TeamInfo { end_score: sc as usize, start_side: cur.start_side }
            } else {
                cur
            },
            None => cur,
        };
        teams.insert(num, updated);
        assert(teams_view(teams@) =~= before.insert(num, updated@));
        return;
    }
    let num = match team {
        Some(n) => n,
        None => return,
    };
    entity_team.insert(t.id, num);
    let base = match teams.take(num) {
        Some(c) => c,
        None => TeamInfo {
            end_score: 0,
            start_side: match &t.name {
                Some(n) => n.clone(),
                None => String::new(),
            },
        },
    };
    let updated = match t.score {
        Some(sc) => if sc >= 0 {
            TeamInfo { end_score: sc as usize, start_side: base.start_side }
        } else {
            base
        },
        None => base,
    };
    teams.insert(num, updated);
    assert(teams_view(teams@) =~= before.insert(num, updated@));
}

/// Runs the team pass over every tick.
fn track_teams(ticks: &Vec<EntityTickStates>, info: &IdMap<Player>, pt: &IdMap<UserId>) -> (r: IdMap<TeamInfo>)
    requires
        info.wf(),
        pt.wf(),
    ensures
        r.wf(),
        teams_view(r@) == team_ticks_run(info@, pt@, ticks@).teams,
{
    let mut teams: IdMap<TeamInfo> = IdMap::new();
    let mut entity_team: IdMap<i32> = IdMap::new();
    assert(teams_view(teams@) =~= Map::empty());
    let ghost ts = ticks@;
    let mut i: usize = 0;
    while i < ticks.len()
        invariant
            info.wf(),
            pt.wf(),
            teams.wf(),
            entity_team.wf(),
            i <= ts.len(),
            ts == ticks@,
            team_ticks_run(info@, pt@, ts.take(i as int)) == (TeamPass { teams: teams_view(teams@), entity_team: entity_team@ }),
        decreases ticks.len() - i,
    {
        assert(ts.take(i as int + 1).drop_last() == ts.take(i as int));
        let ghost start = TeamPass { teams: teams_view(teams@), entity_team: entity_team@ };
        let states = &ticks[i].states;
        let mut j: usize = 0;
        while j < states.len()
            invariant
                info.wf(),
                pt.wf(),
                teams.wf(),
                entity_team.wf(),
                j <= states@.len(),
                team_states_run(info@, pt@, start, states@.take(j as int)) == (TeamPass { teams: teams_view(teams@), entity_team: entity_team@ }),
            decreases states.len() - j,
        {
            assert(states@.take(j as int + 1).drop_last() == states@.take(j as int));
            if let EntityState::Team(t) = &states[j] {
                team_snapshot(t, info, pt, &mut teams, &mut entity_team);
            }
            j = j + 1;
        }
        assert(states@.take(states@.len() as int) == states@);
        i = i + 1;
    }
    assert(ts.take(ts.len() as int) == ts);
    teams
}

/// A scoreboard line that agrees with the player table and the totals.
pub open spec fn line_matches(p: (PlayerInfo, PlayerStats), info: Map<i32, Player>, stats: Map<i32, PlayerStats>) -> bool {
    let k = p.0.ingame_id;
    &&& stats.contains_key(k)
    &&& info.contains_key(k)
    &&& p.1 == stats[k]
    &&& p.0.name == info[k].name
    &&& p.0.steam_id@ == decimal_digits(info[k].xuid as nat)
    &&& p.0.team == info[k].team
    &&& p.0.color == info[k].color
}

/// Lines ordered by strictly ascending in-match id.
pub open spec fn ascending(ps: Seq<(PlayerInfo, PlayerStats)>) -> bool {
    forall|i: int, j: int| 0 <= i < j < ps.len() ==> (#[trigger] ps[i]).0.ingame_id < (#[trigger] ps[j]).0.ingame_id
}

/// One line, in ascending id order, for every player that has totals and a
/// known identity, and no other.
pub open spec fn scoreboard_lines(ps: Seq<(PlayerInfo, PlayerStats)>, info: Map<i32, Player>, stats: Map<i32, PlayerStats>) -> bool {
    &&& ascending(ps)
    &&& forall|i: int| 0 <= i < ps.len() ==> line_matches(#[trigger] ps[i], info, stats)
    &&& forall|k: i32| stats.contains_key(k) && info.contains_key(k) ==> exists|i: int|
        0 <= i < ps.len() && (#[trigger] ps[i]).0.ingame_id == k
}

/// Puts `line` into the ordered lines, unless its id is there already; says where.
fn insert_line(ps: &mut Vec<(PlayerInfo, PlayerStats)>, line: (PlayerInfo, PlayerStats)) -> (at: Option<usize>)
    requires
        ascending(old(ps)@),
    ensures
        ascending(final(ps)@),
        match at {
            Some(i) => i <= old(ps)@.len() && final(ps)@ == old(ps)@.insert(i as int, line),
            None => final(ps)@ == old(ps)@ && exists|i: int|
                0 <= i < old(ps)@.len() && (#[trigger] old(ps)@[i]).0.ingame_id == line.0.ingame_id,
        },
{
    let k = line.0.ingame_id;
    let mut i: usize = 0;
    while i < ps.len() && ps[i].0.ingame_id < k
        invariant
            i <= ps@.len(),
            forall|j: int| 0 <= j < i ==> (#[trigger] ps@[j]).0.ingame_id < k,
        decreases ps.len() - i,
    {
        i = i + 1;
    }
    if i < ps.len() && ps[i].0.ingame_id == k {
        return None;
    }
    let ghost before = ps@;
    ps.insert(i, line);
    assert forall|a: int, b: int| 0 <= a < b < ps@.len() implies (#[trigger] ps@[a]).0.ingame_id < (#[trigger] ps@[b]).0.ingame_id by {
        if b < i {
        } else if b == i {
        } else if a < i {
            assert(before[b - 1].0.ingame_id >= before[i as int].0.ingame_id);
        } else if a == i {
            assert(before[b - 1].0.ingame_id >= before[i as int].0.ingame_id);
        } else {
            assert(ps@[a] == before[a - 1]);
        }
    }
    Some(i)
}

/// The scoreboard lines of the totals in `stats`.
fn scoreboard(stats: IdMap<PlayerStats>, info: &IdMap<Player>) -> (r: Vec<(PlayerInfo, PlayerStats)>)
    requires
        stats.wf(),
        info.wf(),
    ensures
        scoreboard_lines(r@, info@, stats@),
{
    let ghost m = stats@;
    let entries = stats.into_vec();
    let mut ps: Vec<(PlayerInfo, PlayerStats)> = Vec::new();
    let mut j: usize = 0;
    while j < entries.len()
        invariant
            info.wf(),
            entries_agree(entries@, m),
            j <= entries@.len(),
            ascending(ps@),
            forall|i: int| 0 <= i < ps@.len() ==> line_matches(#[trigger] ps@[i], info@, m),
            forall|jj: int| 0 <= jj < j && info@.contains_key((#[trigger] entries@[jj]).0) ==> exists|i: int|
                0 <= i < ps@.len() && (#[trigger] ps@[i]).0.ingame_id == entries@[jj].0,
        decreases entries.len() - j,
    {
        let k = entries[j].0;
        let st = entries[j].1;
        if let Some(p) = info.get(k) {
            let line = (
                PlayerInfo { name: p.name.clone(), steam_id: to_decimal(p.xuid), team: p.team, color: p.color, ingame_id: k },
                st,
            );
            let ghost before = ps@;
            let at = insert_line(&mut ps, line);
            proof {
                match at {
                    Some(pos) => {
                        assert forall|i: int| 0 <= i < ps@.len() implies line_matches(#[trigger] ps@[i], info@, m) by {
                            if i < pos {
                                assert(ps@[i] == before[i]);
                            } else if i > pos {
                                assert(ps@[i] == before[i - 1]);
                            }
                        }
                        assert forall|jj: int| 0 <= jj < j + 1 && info@.contains_key((#[trigger] entries@[jj]).0) implies exists|i: int|
                            0 <= i < ps@.len() && (#[trigger] ps@[i]).0.ingame_id == entries@[jj].0 by {
                            if jj == j {
                                assert(ps@[pos as int].0.ingame_id == k);
                            } else {
                                let i0 = choose|i: int| 0 <= i < before.len() && (#[trigger] before[i]).0.ingame_id == entries@[jj].0;
                                if i0 < pos {
                                    assert(ps@[i0] == before[i0]);
                                } else {
                                    assert(ps@[i0 + 1] == before[i0]);
                                }
                            }
                        }
                    },
                    None => {},
                }
            }
        }
        j = j + 1;
    }
    proof {
        assert forall|k: i32| m.contains_key(k) && info@.contains_key(k) implies exists|i: int|
            0 <= i < ps@.len() && (#[trigger] ps@[i]).0.ingame_id == k by {
            let jj = choose|jj: int| 0 <= jj < entries@.len() && #[trigger] entries@[jj].0 == k;
            assert(info@.contains_key(entries@[jj].0));
        }
    }
    ps
}

/// The team outcomes as plain values, by team number.
pub open spec fn team_entries_view(s: Seq<(i32, TeamInfo)>) -> Seq<(i32, TeamInfoView)> {
    s.map_values(|e: (i32, TeamInfo)| (e.0, e.1@))
}

/// Builds the scoreboard of a match. The event log is walked once: deaths
/// and damage count only inside the recording window, which opens at a match
/// start announcement (that also clears all totals) or a round pre-start, and
/// closes at the win panel or an officially ended round. The team snapshots
/// give each team's starting side and its last reported score.
pub fn parse(demo: &ParsedDemo) -> (r: EndOfGame)
    ensures
        r.map == demo.map_name,
        scoreboard_lines(
            r.players@,
            player_table(demo.player_info@),
            events_run(player_table(demo.player_info@), demo.events@).stats,
        ),
        entries_agree(
            team_entries_view(r.teams@),
            team_ticks_run(player_table(demo.player_info@), spawn_table(demo.events@), demo.ticks@).teams,
        ),
{
    let info = player_map(&demo.player_info);
    let stats = record_events(&demo.events, &info);
    let pawn_to_player = spawn_map(&demo.events);
    let teams = track_teams(&demo.ticks, &info, &pawn_to_player);
    let ghost tm = teams@;
    let teams = teams.into_vec();
    proof {
        let s = team_entries_view(teams@);
        let v = teams_view(tm);
        assert forall|i: int| 0 <= i < s.len() implies v.contains_key(#[trigger] s[i].0) && v[s[i].0] == s[i].1 by {
            assert(s[i] == (teams@[i].0, teams@[i].1@));
        }
        assert forall|k: i32| #[trigger] v.contains_key(k) implies exists|i: int| 0 <= i < s.len() && #[trigger] s[i].0 == k by {
            let i = choose|i: int| 0 <= i < teams@.len() && #[trigger] teams@[i].0 == k;
            assert(s[i].0 == k);
        }
        assert forall|i: int, j: int| 0 <= i < j < s.len() implies #[trigger] s[i].0 != #[trigger] s[j].0 by {
            assert(s[i].0 == teams@[i].0 && s[j].0 == teams@[j].0);
        }
    }
    let players = scoreboard(stats, &info);
    EndOfGame { map: demo.map_name.clone(), players, teams }
}

/// A death with a credited attacker books exactly one of a kill or a team
/// kill to the attacker, or, for a suicide, neither.
pub proof fn lemma_kill_partition(info: Map<i32, Player>, m: Map<i32, PlayerStats>, d: PlayerDeath)
    requires
        d.userid is Some,
        info.contains_key(d.userid->Some_0.0),
        credited(info, d.attacker) is Some,
    ensures
        ({
            let a = d.attacker->Some_0.0;
            let before = stats_of(m, a);
            let after = stats_of(death_stats(info, m, d), a);
            match kill_kind(info[a], info[d.userid->Some_0.0]) {
                KillKind::Suicide => after.kills == before.kills && after.team_kills == before.team_kills,
                KillKind::TeamKill => after.kills == before.kills && after.team_kills == add_sat(before.team_kills, 1),
                KillKind::Kill => after.kills == add_sat(before.kills, 1) && after.team_kills == before.team_kills,
            }
        }),
{
}

/// While the recording window is closed, deaths and damage leave every
/// total as it was.
pub proof fn lemma_closed_window(info: Map<i32, Player>, s: KillState, e: DemoEvent)
    requires
        !s.recording,
        e matches DemoEvent::Game(GameEvent::PlayerDeath(_)) || e matches DemoEvent::Game(GameEvent::PlayerHurt(_)),
    ensures
        event_step(info, s, e).stats == s.stats,
{
}

/// A match start announcement clears every total, whatever came before, and
/// opens the recording window.
pub proof fn lemma_match_start_resets(info: Map<i32, Player>, s: KillState)
    ensures
        ({
            let r = event_step(info, s, DemoEvent::Game(GameEvent::RoundAnnounceMatchStart));
            &&& r.recording
            &&& forall|k: i32| #[trigger] stats_of(r.stats, k) == zero_stats()
        }),
{
}

} // verus!
