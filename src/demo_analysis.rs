//! The analysis results as the service hands them to its clients.

use vstd::prelude::*;

use crate::digits::{decimal_digits, to_decimal};
use crate::perround::{self, WinReason};

verus! {

/// Scoreboard lines grouped by team number.
#[derive(Debug, Clone, PartialEq, Eq)]
pub struct ScoreBoard {
    pub teams: Vec<(u32, Vec<ScoreBoardPlayer>)>,
}

#[derive(Debug, Clone, PartialEq, Eq)]
pub struct ScoreBoardPlayer {
    pub name: String,
    pub kills: usize,
    pub deaths: usize,
    pub damage: usize,
    pub assists: usize,
}

/// A rendered heatmap of one player.
#[derive(Debug, Clone, PartialEq, Eq)]
pub struct PlayerHeatmap {
    pub name: String,
    pub team: String,
    /// The image, PNG-encoded, in base64.
    pub png_data: String,
}

#[derive(Debug, Clone, PartialEq, Eq)]
pub struct PerRoundResult {
    pub teams: Vec<PerRoundTeam>,
    pub rounds: Vec<DemoRound>,
}

#[derive(Debug, Clone, PartialEq, Eq)]
pub struct PerRoundTeam {
    pub name: String,
    pub number: u32,
    /// Names of the team's players, each once.
    pub players: Vec<String>,
}

#[derive(Debug, Clone, PartialEq, Eq)]
pub struct DemoRound {
    pub reason: RoundWinReason,
    pub events: Vec<RoundEvent>,
}

#[derive(Debug, Clone, Copy, PartialEq, Eq, Structural)]
pub enum RoundWinReason {
    StillInProgress,
    BombExploded,
    VipEscaped,
    VipKilled,
    TSaved,
    CtStoppedEscape,
    RoundEndReasonTerroristsStopped,
    BombDefused,
    TKilled,
    CTKilled,
    Draw,
    HostageRescued,
    TimeRanOut,
    RoundEndReasonHostagesNotRescued,
    TerroristsNotEscaped,
    VipNotEscaped,
    GameStart,
    TSurrender,
    CTSurrender,
    TPlanted,
    CTReachedHostage,
}

/// A round's event, with players by name.
#[derive(Debug, Clone, PartialEq, Eq)]
pub enum RoundEvent {
    BombPlanted,
    BombDefused,
    Killed { attacker: String, died: String, weapon: String, headshot: bool, noscope: bool },
}

/// The logged-in user.
#[derive(Debug, Clone, PartialEq, Eq)]
pub struct UserStatus {
    pub name: String,
    pub steamid: String,
}

/// The reasons that clients show; the others have no client form.
pub open spec fn shown_reason(w: WinReason) -> Option<RoundWinReason> {
    match w {
        WinReason::StillInProgress => Some(RoundWinReason::StillInProgress),
        WinReason::TKilled => Some(RoundWinReason::TKilled),
        WinReason::CTKilled => Some(RoundWinReason::CTKilled),
        WinReason::BombDefused => Some(RoundWinReason::BombDefused),
        WinReason::BombExploded => Some(RoundWinReason::BombExploded),
        WinReason::TimeRanOut => Some(RoundWinReason::TimeRanOut),
        _ => None,
    }
}

/// The client form of a round's win reason, for the reasons clients show.
pub fn to_round_win_reason(w: WinReason) -> (r: Option<RoundWinReason>)
    ensures
        r == shown_reason(w),
{
    match w {
        WinReason::StillInProgress => Some(RoundWinReason::StillInProgress),
        WinReason::TKilled => Some(RoundWinReason::TKilled),
        WinReason::CTKilled => Some(RoundWinReason::CTKilled),
        WinReason::BombDefused => Some(RoundWinReason::BombDefused),
        WinReason::BombExploded => Some(RoundWinReason::BombExploded),
        WinReason::TimeRanOut => Some(RoundWinReason::TimeRanOut),
        _ => None,
    }
}

/// Team numbers strictly ascending.
pub open spec fn teams_ascending(t: Seq<(u32, Vec<ScoreBoardPlayer>)>) -> bool {
    forall|i: int, j: int| 0 <= i < j < t.len() ==> (#[trigger] t[i]).0 < (#[trigger] t[j]).0
}

/// The lines of team `n`, in the order given.
pub open spec fn lines_of(lines: Seq<(u32, ScoreBoardPlayer)>, n: u32) -> Seq<ScoreBoardPlayer>
    decreases lines.len(),
{
    if lines.len() == 0 {
        Seq::empty()
    } else if lines.last().0 == n {
        lines_of(lines.drop_last(), n).push(lines.last().1)
    } else {
        lines_of(lines.drop_last(), n)
    }
}

/// Groups scoreboard lines by team number: one group per number that occurs,
/// by ascending number, each holding that team's lines in the order given.
pub fn group_scoreboard(lines: Vec<(u32, ScoreBoardPlayer)>) -> (r: ScoreBoard)
    ensures
        teams_ascending(r.teams@),
        forall|i: int| 0 <= i < r.teams@.len() ==> (#[trigger] r.teams@[i]).1@ == lines_of(lines@, r.teams@[i].0),
        forall|k: int| 0 <= k < lines@.len() ==> exists|i: int| 0 <= i < r.teams@.len() && (#[trigger] r.teams@[i]).0 == (#[trigger] lines@[k]).0,
        forall|i: int| 0 <= i < r.teams@.len() ==> (#[trigger] r.teams@[i]).1@.len() > 0,
{
    let ghost all = lines@;
    let count = lines.len();
    let mut teams: Vec<(u32, Vec<ScoreBoardPlayer>)> = Vec::new();
    let mut lines = lines;
    let mut rest: Vec<(u32, ScoreBoardPlayer)> = Vec::new();
    // Walk the lines back to front so that each pop hands out the next line in order.
    while lines.len() > 0
        invariant
            all.len() == lines@.len() + rest@.len(),
            forall|k: int| 0 <= k < lines@.len() ==> #[trigger] lines@[k] == all[k],
            forall|k: int| 0 <= k < rest@.len() ==> #[trigger] rest@[k] == all[all.len() - 1 - k],
        decreases lines.len(),
    {
        let ghost before = lines@;
        if let Some(x) = lines.pop() {
            rest.push(x);
            assert(before[before.len() - 1] == all[before.len() - 1]);
        }
    }
    let mut done: usize = 0;
    while rest.len() > 0
        invariant
            done + rest@.len() == all.len(),
            all.len() == count,
            forall|k: int| 0 <= k < rest@.len() ==> #[trigger] rest@[k] == all[all.len() - 1 - k],
            teams_ascending(teams@),
            forall|i: int| 0 <= i < teams@.len() ==> (#[trigger] teams@[i]).1@ == lines_of(all.take(done as int), teams@[i].0),
            forall|i: int| 0 <= i < teams@.len() ==> (#[trigger] teams@[i]).1@.len() > 0,
            forall|k: int| 0 <= k < done ==> exists|i: int| 0 <= i < teams@.len() && (#[trigger] teams@[i]).0 == (#[trigger] all[k]).0,
            forall|n: u32| lines_of(all.take(done as int), n).len() > 0 ==> exists|i: int| 0 <= i < teams@.len() && (#[trigger] teams@[i]).0 == n,
        decreases rest.len(),
    {
        let ghost before = rest@;
        let ghost old_teams = teams@;
        let (n, line) = rest.pop().unwrap();
        assert(all[done as int] == (n, line));
        assert(all.take(done as int + 1).drop_last() == all.take(done as int));
        let ghost prefix = all.take(done as int + 1);
        let mut i: usize = 0;
        while i < teams.len() && teams[i].0 < n
            invariant
                i <= teams@.len(),
                forall|j: int| 0 <= j < i ==> (#[trigger] teams@[j]).0 < n,
            decreases teams.len() - i,
        {
            i = i + 1;
        }
        if i < teams.len() && teams[i].0 == n {
            let mut group = teams.remove(i);
            group.1.push(line);
            teams.insert(i, group);
        } else {
            let mut group: Vec<ScoreBoardPlayer> = Vec::new();
            group.push(line);
            teams.insert(i, (n, group));
            proof {
                assert(lines_of(all.take(done as int), n).len() == 0);
            }
        }
        proof {
            assert forall|a: int, b: int| 0 <= a < b < teams@.len() implies (#[trigger] teams@[a]).0 < (#[trigger] teams@[b]).0 by {
                if teams@.len() > old_teams.len() {
                    if b < i {
                    } else if b == i {
                    } else if a < i {
                        assert(old_teams[b - 1].0 >= old_teams[i as int].0);
                    } else if a == i {
                        assert(old_teams[b - 1].0 >= old_teams[i as int].0);
                    } else {
                        assert(teams@[a] == old_teams[a - 1]);
                    }
                }
            }
            assert forall|j: int| 0 <= j < teams@.len() implies (#[trigger] teams@[j]).1@ == lines_of(prefix, teams@[j].0) by {
                if teams@.len() > old_teams.len() {
                    if j < i {
                        assert(teams@[j] == old_teams[j]);
                    } else if j > i {
                        assert(teams@[j] == old_teams[j - 1]);
                    } else {
                        assert(teams@[j].1@ =~= lines_of(all.take(done as int), n).push(line));
                    }
                } else if j != i {
                    assert(teams@[j] == old_teams[j]);
                }
            }
            assert forall|j: int| 0 <= j < teams@.len() implies (#[trigger] teams@[j]).1@.len() > 0 by {
                if teams@.len() > old_teams.len() {
                    if j < i {
                        assert(teams@[j] == old_teams[j]);
                    } else if j > i {
                        assert(teams@[j] == old_teams[j - 1]);
                    }
                } else if j != i {
                    assert(teams@[j] == old_teams[j]);
                }
            }
            assert forall|k: int| 0 <= k < done + 1 implies exists|j: int| 0 <= j < teams@.len() && (#[trigger] teams@[j]).0 == (#[trigger] all[k]).0 by {
                if k == done {
                    assert(teams@[i as int].0 == n);
                } else {
                    let j0 = choose|j: int| 0 <= j < old_teams.len() && (#[trigger] old_teams[j]).0 == all[k].0;
                    if teams@.len() > old_teams.len() && j0 >= i {
                        assert(teams@[j0 + 1] == old_teams[j0]);
                    } else {
                        assert(teams@[j0].0 == old_teams[j0].0);
                    }
                }
            }
            assert forall|m: u32| lines_of(prefix, m).len() > 0 implies exists|j: int| 0 <= j < teams@.len() && (#[trigger] teams@[j]).0 == m by {
                if m == n {
                    assert(teams@[i as int].0 == n);
                } else {
                    assert(lines_of(prefix, m) == lines_of(all.take(done as int), m));
                    let j0 = choose|j: int| 0 <= j < old_teams.len() && (#[trigger] old_teams[j]).0 == m;
                    if teams@.len() > old_teams.len() && j0 >= i {
                        assert(teams@[j0 + 1] == old_teams[j0]);
                    } else {
                        assert(teams@[j0].0 == old_teams[j0].0);
                    }
                }
            }
            assert forall|k: int| 0 <= k < rest@.len() implies #[trigger] rest@[k] == all[all.len() - 1 - k] by {
                assert(rest@[k] == before[k]);
            }
        }
        done = done + 1;
    }
    assert(all.take(all.len() as int) == all);
    ScoreBoard { teams }
}

/// A player of a stored match, as the round view needs it.
#[derive(Debug, Clone, PartialEq, Eq)]
pub struct RosterEntry {
    /// Platform id, in decimal.
    pub steam_id: String,
    pub name: String,
    pub team: u32,
}

/// A team of a stored match.
#[derive(Debug, Clone, PartialEq, Eq)]
pub struct TeamEntry {
    pub team: u32,
    pub start_name: String,
}

/// The name of the first player whose platform id is `xuid`.
pub open spec fn name_of(players: Seq<RosterEntry>, xuid: u64) -> Option<String>
    decreases players.len(),
{
    if players.len() == 0 {
        None
    } else {
        match name_of(players.drop_last(), xuid) {
            Some(n) => Some(n),
            None => if players.last().steam_id@ == decimal_digits(xuid as nat) {
                Some(players.last().name)
            } else {
                None
            },
        }
    }
}

/// The client form of a round event, with players by name; `None` where a
/// player is not in the roster.
pub open spec fn client_event_of(players: Seq<RosterEntry>, e: perround::RoundEvent) -> Option<RoundEvent> {
    match e {
        perround::RoundEvent::BombPlanted => Some(RoundEvent::BombPlanted),
        perround::RoundEvent::BombDefused => Some(RoundEvent::BombDefused),
        perround::RoundEvent::Kill { attacker, died, weapon, headshot, noscope } => {
            match (name_of(players, attacker), name_of(players, died)) {
                (Some(a), Some(d)) => Some(RoundEvent::Killed { attacker: a, died: d, weapon, headshot, noscope }),
                _ => None,
            }
        },
    }
}

/// The name of the first player whose platform id is `xuid`.
fn find_name(players: &Vec<RosterEntry>, xuid: u64) -> (r: Option<String>)
    ensures
        r == name_of(players@, xuid),
{
    let id = to_decimal(xuid);
    let mut i: usize = 0;
    while i < players.len()
        invariant
            i <= players@.len(),
            id@ == decimal_digits(xuid as nat),
            name_of(players@.take(i as int), xuid) is None,
        decreases players.len() - i,
    {
        assert(players@.take(i as int + 1).drop_last() == players@.take(i as int));
        if players[i].steam_id == id {
            proof {
                lemma_name_of_prefix(players@, xuid, i as int + 1);
            }
            return Some(players[i].name.clone());
        }
        i = i + 1;
    }
    assert(players@.take(players@.len() as int) == players@);
    None
}

/// A name found in a prefix of the roster is the roster's answer.
proof fn lemma_name_of_prefix(players: Seq<RosterEntry>, xuid: u64, n: int)
    requires
        0 <= n <= players.len(),
        name_of(players.take(n), xuid) is Some,
    ensures
        name_of(players, xuid) == name_of(players.take(n), xuid),
    decreases players.len() - n,
{
    if n < players.len() {
        assert(players.take(n + 1).drop_last() == players.take(n));
        lemma_name_of_prefix(players, xuid, n + 1);
    } else {
        assert(players.take(n) == players);
    }
}

/// The client form of a round event, with killer and victim by name.
pub fn client_event(players: &Vec<RosterEntry>, e: &perround::RoundEvent) -> (r: Option<RoundEvent>)
    ensures
        r == client_event_of(players@, *e),
{
    match e {
        perround::RoundEvent::BombPlanted => Some(RoundEvent::BombPlanted),
        perround::RoundEvent::BombDefused => Some(RoundEvent::BombDefused),
        perround::RoundEvent::Kill { attacker, died, weapon, headshot, noscope } => {
            let a = match find_name(players, *attacker) {
                Some(a) => a,
                None => return None,
            };
            let d = match find_name(players, *died) {
                Some(d) => d,
                None => return None,
            };
            Some(RoundEvent::Killed { attacker: a, died: d, weapon: weapon.clone(), headshot: *headshot, noscope: *noscope })
        },
    }
}

/// The names of the players of team `n`, in roster order, each name once.
pub open spec fn team_names(players: Seq<RosterEntry>, n: u32) -> Seq<Seq<char>>
    decreases players.len(),
{
    if players.len() == 0 {
        Seq::empty()
    } else {
        let prev = team_names(players.drop_last(), n);
        let p = players.last();
        if p.team == n && !prev.contains(p.name@) {
            prev.push(p.name@)
        } else {
            prev
        }
    }
}

pub open spec fn names_view(v: Seq<String>) -> Seq<Seq<char>> {
    v.map_values(|s: String| s@)
}

/// Each team with its starting side name and the names of its players.
pub fn team_rosters(players: &Vec<RosterEntry>, teams: &Vec<TeamEntry>) -> (r: Vec<PerRoundTeam>)
    ensures
        r@.len() == teams@.len(),
        forall|i: int| 0 <= i < r@.len() ==> {
            &&& (#[trigger] r@[i]).name == teams@[i].start_name
            &&& r@[i].number == teams@[i].team
            &&& names_view(r@[i].players@) == team_names(players@, teams@[i].team)
        },
{
    let mut out: Vec<PerRoundTeam> = Vec::new();
    let mut t: usize = 0;
    while t < teams.len()
        invariant
            t <= teams@.len(),
            out@.len() == t,
            forall|i: int| 0 <= i < t ==> {
                &&& (#[trigger] out@[i]).name == teams@[i].start_name
                &&& out@[i].number == teams@[i].team
                &&& names_view(out@[i].players@) == team_names(players@, teams@[i].team)
            },
        decreases teams.len() - t,
    {
        let n = teams[t].team;
        let mut names: Vec<String> = Vec::new();
        let mut i: usize = 0;
        assert(names_view(names@) =~= Seq::empty());
        while i < players.len()
            invariant
                i <= players@.len(),
                names_view(names@) == team_names(players@.take(i as int), n),
            decreases players.len() - i,
        {
            assert(players@.take(i as int + 1).drop_last() == players@.take(i as int));
            if players[i].team == n {
                let mut seen = false;
                let mut j: usize = 0;
                while j < names.len()
                    invariant
                        j <= names@.len(),
                        i < players@.len(),
                        seen <==> exists|k: int| 0 <= k < j && names@[k]@ == players@[i as int].name@,
                    decreases names.len() - j,
                {
                    if names[j] == players[i].name {
                        seen = true;
                    }
                    j = j + 1;
                }
                let ghost nv = names_view(names@);
                assert(seen <==> nv.contains(players@[i as int].name@)) by {
                    if seen {
                        let k = choose|k: int| 0 <= k < names@.len() && names@[k]@ == players@[i as int].name@;
                        assert(nv[k] == players@[i as int].name@);
                    }
                    if nv.contains(players@[i as int].name@) {
                        let k = choose|k: int| 0 <= k < nv.len() && nv[k] == players@[i as int].name@;
                        assert(names@[k]@ == players@[i as int].name@);
                    }
                }
                if !seen {
                    names.push(players[i].name.clone());
                    assert(names_view(names@) =~= nv.push(players@[i as int].name@));
                }
            }
            i = i + 1;
        }
        assert(players@.take(players@.len() as int) == players@);
        out.push(PerRoundTeam { name: teams[t].start_name.clone(), number: n, players: names });
        t = t + 1;
    }
    out
}

/// Every round has a reason that clients show, and every event names players of the roster.
pub open spec fn all_shown(rounds: Seq<(WinReason, Vec<perround::RoundEvent>)>, players: Seq<RosterEntry>) -> bool {
    forall|i: int| 0 <= i < rounds.len() ==> {
        &&& shown_reason((#[trigger] rounds[i]).0) is Some
        &&& forall|j: int| 0 <= j < rounds[i].1@.len() ==> client_event_of(players, #[trigger] rounds[i].1@[j]) is Some
    }
}

/// Round `w, es` in client form, given that it has one.
pub open spec fn client_round(w: WinReason, es: Seq<perround::RoundEvent>, players: Seq<RosterEntry>, d: DemoRound) -> bool {
    &&& shown_reason(w) == Some(d.reason)
    &&& d.events@.len() == es.len()
    &&& forall|j: int| 0 <= j < es.len() ==> client_event_of(players, #[trigger] es[j]) == Some(d.events@[j])
}

/// The rounds in client form: each reason in its client form and each event
/// with players by name. `None` where a reason has no client form or an event
/// names a player missing from the roster.
pub fn client_rounds(rounds: &Vec<(WinReason, Vec<perround::RoundEvent>)>, players: &Vec<RosterEntry>) -> (r: Option<Vec<DemoRound>>)
    ensures
        match r {
            Some(v) => {
                &&& all_shown(rounds@, players@)
                &&& v@.len() == rounds@.len()
                &&& forall|i: int| 0 <= i < v@.len() ==> client_round(rounds@[i].0, rounds@[i].1@, players@, #[trigger] v@[i])
            },
            None => !all_shown(rounds@, players@),
        },
{
    let mut out: Vec<DemoRound> = Vec::new();
    let mut i: usize = 0;
    while i < rounds.len()
        invariant
            i <= rounds@.len(),
            out@.len() == i,
            forall|k: int| 0 <= k < i ==> client_round(rounds@[k].0, rounds@[k].1@, players@, #[trigger] out@[k]),
        decreases rounds.len() - i,
    {
        let reason = match to_round_win_reason(rounds[i].0) {
            Some(w) => w,
            None => {
                assert(!all_shown(rounds@, players@)) by {
                    assert(shown_reason(rounds@[i as int].0) is None);
                }
                return None;
            },
        };
        let es = &rounds[i].1;
        let mut events: Vec<RoundEvent> = Vec::new();
        let mut j: usize = 0;
        while j < es.len()
            invariant
                j <= es@.len(),
                i < rounds@.len(),
                es@ == rounds@[i as int].1@,
                events@.len() == j,
                forall|k: int| 0 <= k < j ==> client_event_of(players@, #[trigger] es@[k]) == Some(events@[k]),
            decreases es.len() - j,
        {
            match client_event(players, &es[j]) {
                Some(e) => events.push(e),
                None => {
                    assert(!all_shown(rounds@, players@)) by {
                        assert(client_event_of(players@, rounds@[i as int].1@[j as int]) is None);
                    }
                    return None;
                },
            }
            j = j + 1;
        }
        let ghost prev = out@;
        out.push(DemoRound { reason, events });
        assert forall|k: int| 0 <= k < i + 1 implies client_round(rounds@[k].0, rounds@[k].1@, players@, #[trigger] out@[k]) by {
            if k < i {
                assert(out@[k] == prev[k]);
            }
        }
        i = i + 1;
    }
    assert(all_shown(rounds@, players@)) by {
        assert forall|k: int| 0 <= k < rounds@.len() implies {
            &&& shown_reason((#[trigger] rounds@[k]).0) is Some
            &&& forall|j: int| 0 <= j < rounds@[k].1@.len() ==> client_event_of(players@, #[trigger] rounds@[k].1@[j]) is Some
        } by {
            assert(client_round(rounds@[k].0, rounds@[k].1@, players@, out@[k]));
        }
    }
    Some(out)
}

/// A player of a stored match, for the head-to-head view.
#[derive(Debug, Clone, PartialEq, Eq)]
pub struct MatrixPlayer {
    /// Platform id, in decimal.
    pub steam_id: String,
    pub name: String,
    pub team: u32,
    pub color: i32,
}

/// A stored head-to-head count, by platform ids.
#[derive(Debug, Clone, PartialEq, Eq)]
pub struct KillCount {
    pub player: String,
    pub enemy: String,
    pub kills: usize,
}

/// The head-to-head view: players of team 2 as rows, the others as columns,
/// each side by slot color; each cell holds the kills of the row player on
/// the column player and the kills the other way.
#[derive(Debug, Clone, PartialEq, Eq)]
pub struct HeadToHead {
    pub row_players: Vec<String>,
    pub column_players: Vec<String>,
    pub entries: Vec<Vec<(usize, usize)>>,
}

/// The team whose players are the rows of the head-to-head view.
pub const ROW_TEAM: u32 = 2;

/// `s` with `x` placed after every player whose color is not above its own.
pub open spec fn insert_by_color(s: Seq<MatrixPlayer>, x: MatrixPlayer) -> Seq<MatrixPlayer>
    decreases s.len(),
{
    if s.len() == 0 {
        seq![x]
    } else if s.last().color <= x.color {
        s.push(x)
    } else {
        insert_by_color(s.drop_last(), x).push(s.last())
    }
}

/// The players in the order given by slot color, keeping the given order
/// among equal colors.
pub open spec fn by_color(s: Seq<MatrixPlayer>) -> Seq<MatrixPlayer>
    decreases s.len(),
{
    if s.len() == 0 {
        Seq::empty()
    } else {
        insert_by_color(by_color(s.drop_last()), s.last())
    }
}

/// The kills of `a` on `b` in the first count for that pair, or zero.
pub open spec fn kills_between(counts: Seq<KillCount>, a: Seq<char>, b: Seq<char>) -> usize
    decreases counts.len(),
{
    if counts.len() == 0 {
        0
    } else if counts[0].player@ == a && counts[0].enemy@ == b {
        counts[0].kills
    } else {
        kills_between(counts.skip(1), a, b)
    }
}

/// Where `insert_by_color` places `x`, as the split point of `s`.
proof fn lemma_insert_by_color(s: Seq<MatrixPlayer>, x: MatrixPlayer, p: int)
    requires
        0 <= p <= s.len(),
        forall|i: int| p <= i < s.len() ==> (#[trigger] s[i]).color > x.color,
        p > 0 ==> s[p - 1].color <= x.color,
    ensures
        insert_by_color(s, x) == s.insert(p, x),
    decreases s.len(),
{
    if s.len() == 0 {
        assert(s.insert(p, x) =~= seq![x]);
    } else if p == s.len() {
        assert(s.insert(p, x) =~= s.push(x));
    } else {
        let t = s.drop_last();
        assert(s[s.len() - 1].color > x.color);
        assert forall|i: int| p <= i < t.len() implies (#[trigger] t[i]).color > x.color by {
            assert(t[i] == s[i]);
        }
        if p > 0 {
            assert(t[p - 1] == s[p - 1]);
        }
        lemma_insert_by_color(t, x, p);
        assert(s.insert(p, x) =~= t.insert(p, x).push(s.last()));
    }
}

/// Places `x` into `v`, after every player whose color is not above its own.
fn insert_player(v: &mut Vec<MatrixPlayer>, x: MatrixPlayer)
    ensures
        final(v)@ == insert_by_color(old(v)@, x),
{
    let mut p: usize = v.len();
    while p > 0 && v[p - 1].color > x.color
        invariant
            p <= v@.len(),
            forall|i: int| p <= i < v@.len() ==> (#[trigger] v@[i]).color > x.color,
        decreases p,
    {
        p = p - 1;
    }
    proof {
        lemma_insert_by_color(v@, x, p as int);
    }
    v.insert(p, x);
}

/// The kills of `a` on `b` in the first count for that pair, or zero.
fn find_kills(counts: &Vec<KillCount>, a: &String, b: &String) -> (r: usize)
    ensures
        r == kills_between(counts@, a@, b@),
{
    let mut i: usize = 0;
    assert(counts@.skip(0) =~= counts@);
    while i < counts.len()
        invariant
            i <= counts@.len(),
            kills_between(counts@, a@, b@) == kills_between(counts@.skip(i as int), a@, b@),
        decreases counts.len() - i,
    {
        let ghost rest = counts@.skip(i as int);
        assert(rest[0] == counts@[i as int]);
        if counts[i].player == *a && counts[i].enemy == *b {
            return counts[i].kills;
        }
        assert(rest.skip(1) =~= counts@.skip(i as int + 1));
        i = i + 1;
    }
    assert(counts@.skip(i as int) =~= Seq::empty());
    0
}

/// The players of team `n`, or of every other team, in the order given.
pub open spec fn side(s: Seq<MatrixPlayer>, rows: bool) -> Seq<MatrixPlayer>
    decreases s.len(),
{
    if s.len() == 0 {
        Seq::empty()
    } else if (s.last().team == ROW_TEAM) == rows {
        side(s.drop_last(), rows).push(s.last())
    } else {
        side(s.drop_last(), rows)
    }
}

/// Builds the head-to-head view of a match from its players and stored counts.
pub fn head_to_head_matrix(players: &Vec<MatrixPlayer>, counts: &Vec<KillCount>) -> (r: HeadToHead)
    ensures
        ({
            let rows = by_color(side(players@, true));
            let cols = by_color(side(players@, false));
            &&& r.row_players@.len() == rows.len()
            &&& forall|i: int| 0 <= i < rows.len() ==> #[trigger] r.row_players@[i] == rows[i].name
            &&& r.column_players@.len() == cols.len()
            &&& forall|j: int| 0 <= j < cols.len() ==> #[trigger] r.column_players@[j] == cols[j].name
            &&& r.entries@.len() == rows.len()
            &&& forall|i: int| 0 <= i < rows.len() ==> (#[trigger] r.entries@[i])@.len() == cols.len()
            &&& forall|i: int, j: int| 0 <= i < rows.len() && 0 <= j < cols.len() ==> (#[trigger] r.entries@[i]@[j]) == (
                kills_between(counts@, rows[i].steam_id@, cols[j].steam_id@),
                kills_between(counts@, cols[j].steam_id@, rows[i].steam_id@),
            )
        }),
{
    let mut rows: Vec<MatrixPlayer> = Vec::new();
    let mut cols: Vec<MatrixPlayer> = Vec::new();
    let mut k: usize = 0;
    while k < players.len()
        invariant
            k <= players@.len(),
            rows@ == by_color(side(players@.take(k as int), true)),
            cols@ == by_color(side(players@.take(k as int), false)),
        decreases players.len() - k,
    {
        assert(players@.take(k as int + 1).drop_last() == players@.take(k as int));
        let p = MatrixPlayer {
            steam_id: players[k].steam_id.clone(),
            name: players[k].name.clone(),
            team: players[k].team,
            color: players[k].color,
        };
        let ghost here = players@.take(k as int);
        let ghost next = players@.take(k as int + 1);
        assert(next.last() == p);
        if players[k].team == ROW_TEAM {
            insert_player(&mut rows, p);
            assert(side(next, true) == side(here, true).push(p));
            assert(side(here, true).push(p).drop_last() =~= side(here, true));
        } else {
            insert_player(&mut cols, p);
            assert(side(next, false) == side(here, false).push(p));
            assert(side(here, false).push(p).drop_last() =~= side(here, false));
        }
        k = k + 1;
    }
    assert(players@.take(players@.len() as int) == players@);
    let mut entries: Vec<Vec<(usize, usize)>> = Vec::new();
    let mut row_players: Vec<String> = Vec::new();
    let mut i: usize = 0;
    while i < rows.len()
        invariant
            i <= rows@.len(),
            entries@.len() == i,
            row_players@.len() == i,
            forall|a: int| 0 <= a < i ==> #[trigger] row_players@[a] == rows@[a].name,
            forall|a: int| 0 <= a < i ==> (#[trigger] entries@[a])@.len() == cols@.len(),
            forall|a: int, b: int| 0 <= a < i && 0 <= b < cols@.len() ==> (#[trigger] entries@[a]@[b]) == (
                kills_between(counts@, rows@[a].steam_id@, cols@[b].steam_id@),
                kills_between(counts@, cols@[b].steam_id@, rows@[a].steam_id@),
            ),
        decreases rows.len() - i,
    {
        let mut line: Vec<(usize, usize)> = Vec::new();
        let mut j: usize = 0;
        while j < cols.len()
            invariant
                i < rows@.len(),
                j <= cols@.len(),
                line@.len() == j,
                forall|b: int| 0 <= b < j ==> (#[trigger] line@[b]) == (
                    kills_between(counts@, rows@[i as int].steam_id@, cols@[b].steam_id@),
                    kills_between(counts@, cols@[b].steam_id@, rows@[i as int].steam_id@),
                ),
            decreases cols.len() - j,
        {
            let there = find_kills(counts, &rows[i].steam_id, &cols[j].steam_id);
            let back = find_kills(counts, &cols[j].steam_id, &rows[i].steam_id);
            line.push((there, back));
            j = j + 1;
        }
        entries.push(line);
        row_players.push(rows[i].name.clone());
        i = i + 1;
    }
    let mut column_players: Vec<String> = Vec::new();
    let mut j: usize = 0;
    while j < cols.len()
        invariant
            j <= cols@.len(),
            column_players@.len() == j,
            forall|b: int| 0 <= b < j ==> #[trigger] column_players@[b] == cols@[b].name,
        decreases cols.len() - j,
    {
        column_players.push(cols[j].name.clone());
        j = j + 1;
    }
    HeadToHead { row_players, column_players, entries }
}

} // verus!
