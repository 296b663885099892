//! Per-round timeline: round boundaries from the rules entity's counters, the
//! reason each round ended, and the notable events of each round.

use vstd::prelude::*;

use crate::events::{
    player_map, player_table, DemoEvent, EntityState, EntityTickStates, GameEvent, GameRulesState,
    ParsedDemo, Player, PlayerDeath,
};
use crate::idmap::IdMap;

verus! {

/// Why a round ended.
#[derive(Debug, Clone, Copy, PartialEq, Eq, Structural)]
pub enum WinReason {
    StillInProgress,
    BombExploded,
    VipEscaped,
    VipKilled,
    TSaved,
    CtStoppedEscape,
    RoundEndReasonTerroristsStopped,
    BombDefused,
    TKilled,
    CTKilled,
    Draw,
    HostageRescued,
    TimeRanOut,
    RoundEndReasonHostagesNotRescued,
    TerroristsNotEscaped,
    VipNotEscaped,
    GameStart,
    TSurrender,
    CTSurrender,
    TPlanted,
    CTReachedHostage,
}

/// The reason that a rules-entity code stands for.
pub open spec fn win_reason_of(code: i32) -> Option<WinReason> {
    if code == 0 { Some(WinReason::StillInProgress) }
    else if code == 1 { Some(WinReason::BombExploded) }
    else if code == 2 { Some(WinReason::VipEscaped) }
    else if code == 3 { Some(WinReason::VipKilled) }
    else if code == 4 { Some(WinReason::TSaved) }
    else if code == 5 { Some(WinReason::CtStoppedEscape) }
    else if code == 6 { Some(WinReason::RoundEndReasonTerroristsStopped) }
    else if code == 7 { Some(WinReason::BombDefused) }
    else if code == 8 { Some(WinReason::TKilled) }
    else if code == 9 { Some(WinReason::CTKilled) }
    else if code == 10 { Some(WinReason::Draw) }
    else if code == 11 { Some(WinReason::HostageRescued) }
    else if code == 12 { Some(WinReason::TimeRanOut) }
    else if code == 13 { Some(WinReason::RoundEndReasonHostagesNotRescued) }
    else if code == 14 { Some(WinReason::TerroristsNotEscaped) }
    else if code == 15 { Some(WinReason::VipNotEscaped) }
    else if code == 16 { Some(WinReason::GameStart) }
    else if code == 17 { Some(WinReason::TSurrender) }
    else if code == 18 { Some(WinReason::CTSurrender) }
    else if code == 19 { Some(WinReason::TPlanted) }
    else if code == 20 { Some(WinReason::CTReachedHostage) }
    else { None }
}

/// The reason that a rules-entity code stands for, if any.
pub fn round_win_reason(code: i32) -> (r: Option<WinReason>)
    ensures
        r == win_reason_of(code),
{
    match code {
        0 => Some(WinReason::StillInProgress),
        1 => Some(WinReason::BombExploded),
        2 => Some(WinReason::VipEscaped),
        3 => Some(WinReason::VipKilled),
        4 => Some(WinReason::TSaved),
        5 => Some(WinReason::CtStoppedEscape),
        6 => Some(WinReason::RoundEndReasonTerroristsStopped),
        7 => Some(WinReason::BombDefused),
        8 => Some(WinReason::TKilled),
        9 => Some(WinReason::CTKilled),
        10 => Some(WinReason::Draw),
        11 => Some(WinReason::HostageRescued),
        12 => Some(WinReason::TimeRanOut),
        13 => Some(WinReason::RoundEndReasonHostagesNotRescued),
        14 => Some(WinReason::TerroristsNotEscaped),
        15 => Some(WinReason::VipNotEscaped),
        16 => Some(WinReason::GameStart),
        17 => Some(WinReason::TSurrender),
        18 => Some(WinReason::CTSurrender),
        19 => Some(WinReason::TPlanted),
        20 => Some(WinReason::CTReachedHostage),
        _ => None,
    }
}

/// One round: its outcome, its tick interval and what happened in it.
#[derive(Debug, Clone, PartialEq, Eq)]
pub struct Round {
    pub winreason: WinReason,
    pub start: u32,
    /// `u32::MAX` while the round has not ended.
    pub end: u32,
    pub events: Vec<RoundEvent>,
}

/// A notable happening within a round.
#[derive(Debug, Clone, PartialEq, Eq)]
pub enum RoundEvent {
    BombPlanted,
    BombDefused,
    /// Platform ids of killer and victim.
    Kill { attacker: u64, died: u64, weapon: String, headshot: bool, noscope: bool },
}

/// The rounds of a match, in order.
#[derive(Debug, Clone, PartialEq, Eq)]
pub struct PerRound {
    pub rounds: Vec<Round>,
}

/// A round's outcome and interval.
pub struct RoundBounds {
    pub winreason: WinReason,
    pub start: u32,
    pub end: u32,
}

/// The rounds after one rules-entity snapshot at tick `t`. The counters run one
/// ahead of the round ordinal: a start count above the number of rounds plus one
/// opens a round, an end count of the number of rounds plus one closes the last
/// one, and a decided win reason is written onto the last round.
pub open spec fn rules_step(rs: Seq<RoundBounds>, t: u32, g: GameRulesState) -> Seq<RoundBounds> {
    let rs1 = match g.round_start_count {
        Some(c) => if c >= 1 && rs.len() < c - 1 {
            rs.push(RoundBounds { winreason: WinReason::StillInProgress, start: t, end: u32::MAX })
        } else {
            rs
        },
        None => rs,
    };
    let rs2 = match g.round_end_count {
        Some(c) => if c >= 1 && rs1.len() == c - 1 && rs1.len() > 0 {
            rs1.update(rs1.len() - 1, RoundBounds { end: t, ..rs1.last() })
        } else {
            rs1
        },
        None => rs1,
    };
    match g.win_reason {
        Some(code) => match win_reason_of(code) {
            Some(w) => if w != WinReason::StillInProgress && rs2.len() > 0 {
                rs2.update(rs2.len() - 1, RoundBounds { winreason: w, ..rs2.last() })
            } else {
                rs2
            },
            None => rs2,
        },
        None => rs2,
    }
}

pub open spec fn rules_states_run(rs: Seq<RoundBounds>, t: u32, es: Seq<EntityState>) -> Seq<RoundBounds>
    decreases es.len(),
{
    if es.len() == 0 {
        rs
    } else {
        let rs1 = rules_states_run(rs, t, es.drop_last());
        match es.last() {
            EntityState::GameRules(g) => rules_step(rs1, t, g),
            _ => rs1,
        }
    }
}

/// The rounds found in the snapshots of all ticks, in order.
pub open spec fn rounds_run(ts: Seq<EntityTickStates>) -> Seq<RoundBounds>
    decreases ts.len(),
{
    if ts.len() == 0 {
        Seq::empty()
    } else {
        rules_states_run(rounds_run(ts.drop_last()), ts.last().tick, ts.last().states@)
    }
}

pub open spec fn bounds_of(r: Round) -> RoundBounds {
    RoundBounds { winreason: r.winreason, start: r.start, end: r.end }
}

/// Applies one rules snapshot to the rounds found so far.
fn rules_snapshot(rounds: &mut Vec<Round>, t: u32, g: &GameRulesState)
    ensures
        final(rounds)@.map_values(|r: Round| bounds_of(r)) == rules_step(old(rounds)@.map_values(|r: Round| bounds_of(r)), t, *g),
        forall|i: int| 0 <= i < final(rounds)@.len() ==> (#[trigger] final(rounds)@[i]).events@.len() == 0
            || (i < old(rounds)@.len() && final(rounds)@[i].events == old(rounds)@[i].events),
{
    let ghost b0 = rounds@.map_values(|r: Round| bounds_of(r));
    if let Some(c) = g.round_start_count {
        if c >= 1 && (rounds.len() as u64) < (c - 1) as u64 {
            rounds.push(Round { winreason: WinReason::StillInProgress, start: t, end: u32::MAX, events: Vec::new() });
        }
    }
    let ghost b1 = rounds@.map_values(|r: Round| bounds_of(r));
    if let Some(c) = g.round_end_count {
        if c >= 1 && rounds.len() as u64 == (c - 1) as u64 && rounds.len() > 0 {
            let last = rounds.len() - 1;
            let mut r = rounds.remove(last);
            r.end = t;
            rounds.push(r);
        }
    }
    if let Some(code) = g.win_reason {
        if let Some(w) = round_win_reason(code) {
            if w != WinReason::StillInProgress && rounds.len() > 0 {
                let last = rounds.len() - 1;
                let mut r = rounds.remove(last);
                r.winreason = w;
                rounds.push(r);
            }
        }
    }
    assert(rounds@.map_values(|r: Round| bounds_of(r)) =~= rules_step(b0, t, *g));
}

pub open spec fn bounds_view(rounds: Seq<Round>) -> Seq<RoundBounds> {
    rounds.map_values(|r: Round| bounds_of(r))
}

/// Finds the rounds in the snapshots; every round's event list is empty.
fn find_rounds(ticks: &Vec<EntityTickStates>) -> (r: Vec<Round>)
    ensures
        bounds_view(r@) == rounds_run(ticks@),
        forall|i: int| 0 <= i < r@.len() ==> (#[trigger] r@[i]).events@.len() == 0,
{
    let mut rounds: Vec<Round> = Vec::new();
    let ghost ts = ticks@;
    assert(bounds_view(rounds@) =~= Seq::empty());
    let mut i: usize = 0;
    while i < ticks.len()
        invariant
            i <= ts.len(),
            ts == ticks@,
            bounds_view(rounds@) == rounds_run(ts.take(i as int)),
            forall|k: int| 0 <= k < rounds@.len() ==> (#[trigger] rounds@[k]).events@.len() == 0,
        decreases ticks.len() - i,
    {
        assert(ts.take(i as int + 1).drop_last() == ts.take(i as int));
        let tick = ticks[i].tick;
        let states = &ticks[i].states;
        let ghost start = bounds_view(rounds@);
        let mut j: usize = 0;
        while j < states.len()
            invariant
                j <= states@.len(),
                bounds_view(rounds@) == rules_states_run(start, tick, states@.take(j as int)),
                forall|k: int| 0 <= k < rounds@.len() ==> (#[trigger] rounds@[k]).events@.len() == 0,
            decreases states.len() - j,
        {
            assert(states@.take(j as int + 1).drop_last() == states@.take(j as int));
            if let EntityState::GameRules(g) = &states[j] {
                rules_snapshot(&mut rounds, tick, g);
            }
            j = j + 1;
        }
        assert(states@.take(states@.len() as int) == states@);
        i = i + 1;
    }
    assert(ts.take(ts.len() as int) == ts);
    rounds
}

/// What the event pass carries: the tick cursor, the round it stands at,
/// whether it ran past the last round, and the events of each round.
pub struct BucketState {
    pub tick: u32,
    pub idx: int,
    pub done: bool,
    pub events: Seq<Seq<RoundEvent>>,
}

/// The first round from `i` on that has not ended before tick `t`, or the
/// number of rounds if there is none.
pub open spec fn next_round(rb: Seq<RoundBounds>, i: int, t: u32) -> int
    decreases rb.len() - i,
{
    if i < 0 || i >= rb.len() {
        rb.len() as int
    } else if t <= rb[i].end {
        i
    } else {
        next_round(rb, i + 1, t)
    }
}

/// The timeline entry of a death: platform ids of killer and victim, where
/// a death with no valid attacker is booked to the victim.
pub open spec fn kill_of(info: Map<i32, Player>, d: PlayerDeath) -> Option<RoundEvent> {
    match d.userid {
        None => None,
        Some(v) => {
            let a = match d.attacker {
                Some(a) => if a.0 <= 10 {
                    a
                } else {
                    v
                },
                None => v,
            };
            if info.contains_key(v.0) && info.contains_key(a.0) {
                Some(
                    RoundEvent::Kill {
                        attacker: info[a.0].xuid,
                        died: info[v.0].xuid,
                        weapon: d.weapon,
                        headshot: d.headshot,
                        noscope: d.noscope,
                    },
                )
            } else {
                None
            }
        },
    }
}

/// The timeline entry of a game event, for the kinds the timeline keeps.
pub open spec fn round_event_of(info: Map<i32, Player>, g: GameEvent) -> Option<RoundEvent> {
    match g {
        GameEvent::BombPlanted => Some(RoundEvent::BombPlanted),
        GameEvent::BombDefused => Some(RoundEvent::BombDefused),
        GameEvent::PlayerDeath(d) => kill_of(info, d),
        _ => None,
    }
}

/// The event pass after one entry of the log. A game event goes to the first
/// round from the cursor on that has not ended before the current tick, if
/// that round has started; past the last round the pass stops.
pub open spec fn bucket_step(info: Map<i32, Player>, rb: Seq<RoundBounds>, s: BucketState, e: DemoEvent) -> BucketState {
    if s.done {
        s
    } else {
        match e {
            DemoEvent::Tick(t) => BucketState { tick: t, ..s },
            DemoEvent::Game(g) => {
                let j = next_round(rb, s.idx, s.tick);
                if j >= rb.len() {
                    BucketState { done: true, ..s }
                } else if s.tick < rb[j].start {
                    BucketState { idx: j, ..s }
                } else {
                    match round_event_of(info, g) {
                        Some(ev) => BucketState { idx: j, events: s.events.update(j, s.events[j].push(ev)), ..s },
                        None => BucketState { idx: j, ..s },
                    }
                }
            },
        }
    }
}

pub open spec fn bucket_start(n: nat) -> BucketState {
    BucketState { tick: 0, idx: 0, done: false, events: Seq::new(n, |i: int| Seq::<RoundEvent>::empty()) }
}

pub open spec fn bucket_run(info: Map<i32, Player>, rb: Seq<RoundBounds>, es: Seq<DemoEvent>) -> BucketState
    decreases es.len(),
{
    if es.len() == 0 {
        bucket_start(rb.len())
    } else {
        bucket_step(info, rb, bucket_run(info, rb, es.drop_last()), es.last())
    }
}

/// The timeline entry of a game event, if the timeline keeps it.
fn round_event(info: &IdMap<Player>, g: &GameEvent) -> (r: Option<RoundEvent>)
    requires
        info.wf(),
    ensures
        r == round_event_of(info@, *g),
{
    match g {
        GameEvent::BombPlanted => Some(RoundEvent::BombPlanted),
        GameEvent::BombDefused => Some(RoundEvent::BombDefused),
        GameEvent::PlayerDeath(d) => {
            let died = match d.userid {
                Some(v) => v,
                None => return None,
            };
            let attacker = match d.attacker {
                Some(a) => if a.0 <= 10 {
                    a
                } else {
                    died
                },
                None => died,
            };
            let died_player = match info.get(died.0) {
                Some(p) => p,
                None => return None,
            };
            let attacker_player = match info.get(attacker.0) {
                Some(p) => p,
                None => return None,
            };
            Some(
                RoundEvent::Kill {
                    attacker: attacker_player.xuid,
                    died: died_player.xuid,
                    weapon: d.weapon.clone(),
                    headshot: d.headshot,
                    noscope: d.noscope,
                },
            )
        },
        _ => None,
    }
}

pub open spec fn events_view(rounds: Seq<Round>) -> Seq<Seq<RoundEvent>> {
    rounds.map_values(|r: Round| r.events@)
}

fn push_event(r: &mut Round, ev: RoundEvent)
    ensures
        final(r).events@ == old(r).events@.push(ev),
        bounds_of(*final(r)) == bounds_of(*old(r)),
{
    r.events.push(ev);
}

/// Walks the event log with a tick cursor and files each kept event under its round.
fn bucket_events(events: &Vec<DemoEvent>, info: &IdMap<Player>, rounds: &mut Vec<Round>)
    requires
        info.wf(),
        forall|i: int| 0 <= i < old(rounds)@.len() ==> (#[trigger] old(rounds)@[i]).events@.len() == 0,
    ensures
        bounds_view(final(rounds)@) == bounds_view(old(rounds)@),
        events_view(final(rounds)@) == bucket_run(info@, bounds_view(old(rounds)@), events@).events,
{
    let ghost rb = bounds_view(rounds@);
    let ghost es = events@;
    assert forall|k: int| 0 <= k < rounds@.len() implies #[trigger] events_view(rounds@)[k] == Seq::<RoundEvent>::empty() by {
        assert(rounds@[k].events@ =~= Seq::<RoundEvent>::empty());
    }
    assert(events_view(rounds@) =~= bucket_start(rb.len()).events);
    let mut tick: u32 = 0;
    let mut idx: usize = 0;
    let mut i: usize = 0;
    while i < events.len()
        invariant
            info.wf(),
            i <= es.len(),
            es == events@,
            rb == bounds_view(rounds@),
            rb == bounds_view(old(rounds)@),
            idx <= rounds@.len(),
            bucket_run(info@, rb, es.take(i as int)) == (BucketState { tick, idx: idx as int, done: false, events: events_view(rounds@) }),
        decreases events.len() - i,
    {
        assert(es.take(i as int + 1).drop_last() == es.take(i as int));
        match &events[i] {
            DemoEvent::Tick(t) => {
                tick = *t;
            },
            DemoEvent::Game(g) => {
                let ghost from = idx as int;
                while idx < rounds.len() && tick > rounds[idx].end
                    invariant
                        from <= idx <= rounds@.len(),
                        rb == bounds_view(rounds@),
                        next_round(rb, from, tick) == next_round(rb, idx as int, tick),
                    decreases rounds.len() - idx,
                {
                    idx = idx + 1;
                }
                if idx == rounds.len() {
                    proof {
                        lemma_bucket_done(info@, rb, es, i as int + 1);
                    }
                    assert(es.take(es.len() as int) == es);
                    return;
                }
                if tick >= rounds[idx].start {
                    if let Some(ev) = round_event(info, g) {
                        let ghost before = rounds@;
                        push_event(&mut rounds[idx], ev);
                        assert(bounds_view(rounds@) =~= rb);
                        assert(events_view(rounds@) =~= events_view(before).update(idx as int, events_view(before)[idx as int].push(ev)));
                    }
                }
            },
        }
        i = i + 1;
    }
    assert(es.take(es.len() as int) == es);
}

/// Once the pass has run past the last round, the rest of the log changes nothing.
proof fn lemma_bucket_done(info: Map<i32, Player>, rb: Seq<RoundBounds>, es: Seq<DemoEvent>, n: int)
    requires
        0 <= n <= es.len(),
        bucket_run(info, rb, es.take(n)).done,
    ensures
        bucket_run(info, rb, es) == bucket_run(info, rb, es.take(n)),
    decreases es.len() - n,
{
    if n < es.len() {
        assert(es.take(n + 1).drop_last() == es.take(n));
        lemma_bucket_done(info, rb, es, n + 1);
    } else {
        assert(es.take(n) == es);
    }
}

/// Builds the round timeline: the rounds from the rules entity's counters,
/// then the bomb plants, defuses and kills of the event log filed under the
/// round whose interval holds their tick.
pub fn parse(demo: &ParsedDemo) -> (r: PerRound)
    ensures
        bounds_view(r.rounds@) == rounds_run(demo.ticks@),
        events_view(r.rounds@) == bucket_run(player_table(demo.player_info@), rounds_run(demo.ticks@), demo.events@).events,
{
    let info = player_map(&demo.player_info);
    let mut rounds = find_rounds(&demo.ticks);
    bucket_events(&demo.events, &info, &mut rounds);
    PerRound { rounds }
}

/// Ticks in chronological order.
pub open spec fn ticks_ordered(ts: Seq<EntityTickStates>) -> bool {
    forall|i: int, j: int| 0 <= i < j < ts.len() ==> (#[trigger] ts[i]).tick <= (#[trigger] ts[j]).tick
}

/// Each round ends no earlier than it starts, rounds come in order of their
/// start, and a round that has ended did so no later than any later round starts.
pub open spec fn rounds_in_order(rs: Seq<RoundBounds>) -> bool {
    &&& forall|i: int| 0 <= i < rs.len() ==> (#[trigger] rs[i]).start <= rs[i].end
    &&& forall|i: int, j: int| 0 <= i < j < rs.len() ==> (#[trigger] rs[i]).start <= (#[trigger] rs[j]).start
    &&& forall|i: int, j: int| 0 <= i < j < rs.len() ==> (#[trigger] rs[i]).end == u32::MAX || rs[i].end <= (#[trigger] rs[j]).start
}

/// The rounds are in order and none starts or ends after tick `t`.
pub open spec fn placed_by(rs: Seq<RoundBounds>, t: u32) -> bool {
    &&& rounds_in_order(rs)
    &&& forall|i: int| 0 <= i < rs.len() ==> (#[trigger] rs[i]).start <= t && (rs[i].end == u32::MAX || rs[i].end <= t)
}

proof fn lemma_rules_step_placed(rs: Seq<RoundBounds>, t: u32, g: GameRulesState)
    requires
        placed_by(rs, t),
    ensures
        placed_by(rules_step(rs, t, g), t),
{
}

proof fn lemma_states_placed(rs: Seq<RoundBounds>, t: u32, es: Seq<EntityState>)
    requires
        placed_by(rs, t),
    ensures
        placed_by(rules_states_run(rs, t, es), t),
    decreases es.len(),
{
    if es.len() > 0 {
        lemma_states_placed(rs, t, es.drop_last());
        if let EntityState::GameRules(g) = es.last() {
            lemma_rules_step_placed(rules_states_run(rs, t, es.drop_last()), t, g);
        }
    }
}

proof fn lemma_ticks_placed(ts: Seq<EntityTickStates>)
    requires
        ticks_ordered(ts),
        ts.len() > 0,
    ensures
        placed_by(rounds_run(ts), ts.last().tick),
    decreases ts.len(),
{
    let t = ts.last().tick;
    let prev = ts.drop_last();
    if prev.len() > 0 {
        assert(ticks_ordered(prev)) by {
            assert forall|i: int, j: int| 0 <= i < j < prev.len() implies (#[trigger] prev[i]).tick <= (#[trigger] prev[j]).tick by {
                assert(prev[i] == ts[i] && prev[j] == ts[j]);
            }
        }
        lemma_ticks_placed(prev);
        assert(prev.last().tick <= t) by {
            assert(prev.last() == ts[ts.len() - 2]);
        }
    }
    lemma_states_placed(rounds_run(prev), t, ts.last().states@);
}

/// With ticks in chronological order, the rounds found are in order: each
/// ends no earlier than it starts, they come by start tick, and a round that
/// ended did so no later than the next one started.
pub proof fn lemma_round_coverage(ts: Seq<EntityTickStates>)
    requires
        ticks_ordered(ts),
    ensures
        rounds_in_order(rounds_run(ts)),
{
    if ts.len() > 0 {
        lemma_ticks_placed(ts);
    }
}

} // verus!
