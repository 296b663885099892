//! Head-to-head kill table: how often each player killed each opponent.

use vstd::prelude::*;

use crate::endofgame::add_sat;
use crate::events::{copy_players, player_map, player_table, DemoEvent, GameEvent, ParsedDemo, Player, PlayerDeath, UserId};
use crate::idmap::{entries_agree, IdMap};

verus! {

/// The kill table of a match, with the player table it refers to.
#[derive(Debug, Clone, PartialEq, Eq)]
pub struct Output {
    pub players: Vec<(UserId, Player)>,
    /// Attacker id, then each victim id with the number of kills; each id once per list.
    pub head_to_head: Vec<(i32, Vec<(i32, usize)>)>,
}

/// Attacker and victim of a death that the table counts: both known, on different teams.
pub open spec fn counted_pair(info: Map<i32, Player>, d: PlayerDeath) -> Option<(i32, i32)> {
    match (d.attacker, d.userid) {
        (Some(a), Some(v)) => if info.contains_key(a.0) && info.contains_key(v.0) && info[a.0].team != info[v.0].team {
            Some((a.0, v.0))
        } else {
            None
        },
        _ => None,
    }
}

/// The table with one more kill of `v` by `a`.
pub open spec fn tally(t: Map<i32, Map<i32, usize>>, a: i32, v: i32) -> Map<i32, Map<i32, usize>> {
    let row = if t.contains_key(a) { t[a] } else { Map::empty() };
    let n: usize = if row.contains_key(v) { row[v] } else { 0 };
    t.insert(a, row.insert(v, add_sat(n, 1)))
}

/// The table after the events of `es`, in order.
pub open spec fn table_run(info: Map<i32, Player>, es: Seq<DemoEvent>) -> Map<i32, Map<i32, usize>>
    decreases es.len(),
{
    if es.len() == 0 {
        Map::empty()
    } else {
        let t = table_run(info, es.drop_last());
        match es.last() {
            DemoEvent::Game(GameEvent::PlayerDeath(d)) => match counted_pair(info, d) {
                Some((a, v)) => tally(t, a, v),
                None => t,
            },
            _ => t,
        }
    }
}

/// Every row of the table holds each attacker once and agrees with `t`.
pub open spec fn table_agrees(s: Seq<(i32, Vec<(i32, usize)>)>, t: Map<i32, Map<i32, usize>>) -> bool {
    &&& forall|i: int, j: int| 0 <= i < j < s.len() ==> #[trigger] s[i].0 != #[trigger] s[j].0
    &&& forall|i: int| 0 <= i < s.len() ==> t.contains_key(#[trigger] s[i].0) && entries_agree(s[i].1@, t[s[i].0])
    &&& forall|k: i32| #[trigger] t.contains_key(k) ==> exists|i: int| 0 <= i < s.len() && #[trigger] s[i].0 == k
}

pub open spec fn nested_wf(t: IdMap<IdMap<usize>>) -> bool {
    &&& t.wf()
    &&& forall|k: i32| #[trigger] t@.contains_key(k) ==> t@[k].wf()
}

pub open spec fn nested_view(t: IdMap<IdMap<usize>>) -> Map<i32, Map<i32, usize>> {
    t@.map_values(|m: IdMap<usize>| m@)
}

/// Counts one more kill of `v` by `a`.
fn count_kill(t: &mut IdMap<IdMap<usize>>, a: i32, v: i32)
    requires
        nested_wf(*old(t)),
    ensures
        nested_wf(*final(t)),
        nested_view(*final(t)) == tally(nested_view(*old(t)), a, v),
{
    let ghost before = nested_view(*t);
    let mut row = match t.take(a) {
        Some(r) => r,
        None => IdMap::new(),
    };
    let n: usize = match row.get(v) {
        Some(n) => *n,
        None => 0,
    };
    row.insert(v, n.saturating_add(1));
    t.insert(a, row);
    assert(nested_view(*t) =~= tally(before, a, v));
}

/// Builds the head-to-head table: every death whose attacker and victim are
/// both known and on different teams counts one kill for that pair.
pub fn parse(demo: &ParsedDemo) -> (r: Output)
    ensures
        r.players@ == demo.player_info@,
        table_agrees(r.head_to_head@, table_run(player_table(demo.player_info@), demo.events@)),
{
    let players = player_map(&demo.player_info);
    let mut t: IdMap<IdMap<usize>> = IdMap::new();
    assert(nested_view(t) =~= Map::empty());
    let ghost es = demo.events@;
    let mut i: usize = 0;
    while i < demo.events.len()
        invariant
            players.wf(),
            nested_wf(t),
            i <= es.len(),
            es == demo.events@,
            nested_view(t) == table_run(players@, es.take(i as int)),
        decreases demo.events.len() - i,
    {
        assert(es.take(i as int + 1).drop_last() == es.take(i as int));
        if let DemoEvent::Game(GameEvent::PlayerDeath(death)) = &demo.events[i] {
            if let (Some(a), Some(v)) = (death.attacker, death.userid) {
                if let (Some(ap), Some(vp)) = (players.get(a.0), players.get(v.0)) {
                    if ap.team != vp.team {
                        count_kill(&mut t, a.0, v.0);
                    }
                }
            }
        }
        i = i + 1;
    }
    assert(es.take(es.len() as int) == es);
    let ghost tv = nested_view(t);
    let ghost tm = t@;
    let rows = t.into_vec();
    let ghost orig = rows@;
    let mut rows = rows;
    let mut out: Vec<(i32, Vec<(i32, usize)>)> = Vec::new();
    while rows.len() > 0
        invariant
            rows@.len() <= orig.len(),
            rows@ == orig.take(rows@.len() as int),
            out@.len() + rows@.len() == orig.len(),
            entries_agree(orig, tm),
            forall|k: i32| #[trigger] tm.contains_key(k) ==> tm[k].wf(),
            tv == tm.map_values(|m: IdMap<usize>| m@),
            forall|x: int| 0 <= x < out@.len() ==> (#[trigger] out@[x]).0 == orig[orig.len() - 1 - x].0
                && entries_agree(out@[x].1@, tv[out@[x].0]),
        decreases rows.len(),
    {
        let ghost at = rows@.len() - 1;
        match rows.pop() {
            Some((k, row)) => {
                assert(orig[at] == (k, row));
                out.push((k, row.into_vec()));
            },
            None => {},
        }
    }
    proof {
        let n = orig.len();
        assert forall|x: int| 0 <= x < out@.len() implies tv.contains_key(#[trigger] out@[x].0) && entries_agree(out@[x].1@, tv[out@[x].0]) by {
            assert(tm.contains_key(orig[n - 1 - x].0));
        }
        assert forall|k: i32| #[trigger] tv.contains_key(k) implies exists|x: int| 0 <= x < out@.len() && #[trigger] out@[x].0 == k by {
            let i = choose|i: int| 0 <= i < orig.len() && #[trigger] orig[i].0 == k;
            assert(out@[n - 1 - i].0 == k);
        }
        assert forall|x: int, y: int| 0 <= x < y < out@.len() implies #[trigger] out@[x].0 != #[trigger] out@[y].0 by {
            assert(orig[n - 1 - y].0 != orig[n - 1 - x].0);
        }
    }
    Output { players: copy_players(&demo.player_info), head_to_head: out }
}

/// Every count in the table is of a kill across teams, between known players.
pub proof fn lemma_cross_team_only(info: Map<i32, Player>, es: Seq<DemoEvent>)
    ensures
        forall|a: i32, v: i32|
            #![trigger table_run(info, es)[a].contains_key(v)]
            table_run(info, es).contains_key(a) && table_run(info, es)[a].contains_key(v) ==> info.contains_key(a)
                && info.contains_key(v) && info[a].team != info[v].team,
    decreases es.len(),
{
    if es.len() > 0 {
        let prev = table_run(info, es.drop_last());
        lemma_cross_team_only(info, es.drop_last());
        if let DemoEvent::Game(GameEvent::PlayerDeath(d)) = es.last() {
            if let Some((a, v)) = counted_pair(info, d) {
                let t = table_run(info, es);
                assert(t == tally(prev, a, v));
                assert forall|x: i32, y: i32| #[trigger] t[x].contains_key(y) && t.contains_key(x) implies info.contains_key(x)
                    && info.contains_key(y) && info[x].team != info[y].team by {
                    if x == a && y != v {
                        assert(prev.contains_key(x) && prev[x].contains_key(y));
                    } else if x != a {
                        assert(prev.contains_key(x) && prev[x].contains_key(y));
                    }
                }
            }
        }
    }
}

} // verus!
