//! The analyses run on an uploaded match, each producing the rows that the
//! service stores for it.

use vstd::prelude::*;

use crate::digits::{decimal_digits, to_decimal};
use crate::endofgame::{self, events_run, scoreboard_lines, team_entries_view, team_ticks_run, EndOfGame};
use crate::events::{player_map, player_table, spawn_table, ParsedDemo, Player, UserId};
use crate::head_to_head;
use crate::heatmap::{self, empty_state, heatmaps_view, ticks_step, Config, HeatMap, HeatMapView, HeatState, HeatmapError};
use crate::idmap::entries_agree;
use crate::perround::{self, bucket_run, bounds_view, events_view, rounds_run, PerRound};

verus! {

/// Bin size of the stored heatmaps, in world units.
pub const HEATMAP_CELL_SIZE: u32 = 5;

/// The scoreboard analysis.
pub struct BaseAnalysis {}

impl BaseAnalysis {
    pub fn new() -> Self {
        Self {}
    }

    /// The scoreboard of the match.
    pub fn analyse(&self, demo: &ParsedDemo) -> (r: EndOfGame)
        ensures
            r.map == demo.map_name,
            scoreboard_lines(
                r.players@,
                player_table(demo.player_info@),
                events_run(player_table(demo.player_info@), demo.events@).stats,
            ),
            entries_agree(
                team_entries_view(r.teams@),
                team_ticks_run(player_table(demo.player_info@), spawn_table(demo.events@), demo.ticks@).teams,
            ),
    {
        endofgame::parse(demo)
    }
}

/// One stored head-to-head count, by platform ids.
#[derive(Debug, Clone, PartialEq, Eq)]
pub struct HeadToHeadRow {
    pub player: String,
    pub enemy: String,
    pub kills: usize,
}

/// The stored counts of one attacker's row of the table, for known players.
pub open spec fn row_counts(info: Map<i32, Player>, a: i32, row: Seq<(i32, usize)>) -> Seq<(Seq<char>, Seq<char>, usize)>
    decreases row.len(),
{
    if row.len() == 0 {
        Seq::empty()
    } else {
        let prev = row_counts(info, a, row.drop_last());
        let (v, n) = row.last();
        if info.contains_key(a) && info.contains_key(v) {
            prev.push((decimal_digits(info[a].xuid as nat), decimal_digits(info[v].xuid as nat), n))
        } else {
            prev
        }
    }
}

/// The stored counts of the whole table, row by row.
pub open spec fn table_counts(info: Map<i32, Player>, t: Seq<(i32, Seq<(i32, usize)>)>) -> Seq<(Seq<char>, Seq<char>, usize)>
    decreases t.len(),
{
    if t.len() == 0 {
        Seq::empty()
    } else {
        table_counts(info, t.drop_last()) + row_counts(info, t.last().0, t.last().1)
    }
}

pub open spec fn table_seq(t: Seq<(i32, Vec<(i32, usize)>)>) -> Seq<(i32, Seq<(i32, usize)>)> {
    t.map_values(|e: (i32, Vec<(i32, usize)>)| (e.0, e.1@))
}

pub open spec fn rows_view(r: Seq<HeadToHeadRow>) -> Seq<(Seq<char>, Seq<char>, usize)> {
    r.map_values(|x: HeadToHeadRow| (x.player@, x.enemy@, x.kills))
}

/// The head-to-head analysis.
pub struct HeadToHeadAnalysis {}

impl HeadToHeadAnalysis {
    pub fn new() -> Self {
        Self {}
    }

    /// The kill table as rows keyed by platform ids, leaving out pairs with
    /// an unknown player.
    pub fn analyse(&self, demo: &ParsedDemo) -> (r: Vec<HeadToHeadRow>)
        ensures
            exists|t: Seq<(i32, Vec<(i32, usize)>)>|
                head_to_head::table_agrees(t, head_to_head::table_run(player_table(demo.player_info@), demo.events@))
                && rows_view(r@) == table_counts(player_table(demo.player_info@), #[trigger] table_seq(t)),
    {
        let result = head_to_head::parse(demo);
        let info = player_map(&result.players);
        let ghost ts = table_seq(result.head_to_head@);
        let mut rows: Vec<HeadToHeadRow> = Vec::new();
        assert(rows_view(rows@) =~= Seq::empty());
        let mut i: usize = 0;
        while i < result.head_to_head.len()
            invariant
                info.wf(),
                info@ == player_table(demo.player_info@),
                i <= ts.len(),
                ts == table_seq(result.head_to_head@),
                rows_view(rows@) == table_counts(info@, ts.take(i as int)),
            decreases result.head_to_head.len() - i,
        {
            assert(ts.take(i as int + 1).drop_last() == ts.take(i as int));
            let a = result.head_to_head[i].0;
            let row = &result.head_to_head[i].1;
            let ghost base = rows_view(rows@);
            let mut j: usize = 0;
            while j < row.len()
                invariant
                    info.wf(),
                    j <= row@.len(),
                    rows_view(rows@) == base + row_counts(info@, a, row@.take(j as int)),
                decreases row.len() - j,
            {
                assert(row@.take(j as int + 1).drop_last() == row@.take(j as int));
                let (v, n) = row[j];
                if let (Some(ap), Some(vp)) = (info.get(a), info.get(v)) {
                    let ghost before = rows@;
                    rows.push(HeadToHeadRow { player: to_decimal(ap.xuid), enemy: to_decimal(vp.xuid), kills: n });
                    assert(rows_view(rows@) =~= rows_view(before).push((decimal_digits(ap.xuid as nat), decimal_digits(vp.xuid as nat), n)));
                }
                j = j + 1;
            }
            assert(row@.take(row@.len() as int) == row@);
            assert(ts[i as int] == (a, row@));
            i = i + 1;
        }
        assert(ts.take(ts.len() as int) == ts);
        rows
    }
}

/// The stored heatmaps: those of known players, keyed by platform id and team name.
pub open spec fn known_heatmaps(info: Map<i32, Player>, hs: Seq<((UserId, String), HeatMapView)>) -> Seq<((Seq<char>, Seq<char>), HeatMapView)>
    decreases hs.len(),
{
    if hs.len() == 0 {
        Seq::empty()
    } else {
        let prev = known_heatmaps(info, hs.drop_last());
        let ((u, team), h) = hs.last();
        if info.contains_key(u.0) {
            prev.push(((decimal_digits(info[u.0].xuid as nat), team@), h))
        } else {
            prev
        }
    }
}

pub open spec fn stored_view(v: Seq<((String, String), HeatMap)>) -> Seq<((Seq<char>, Seq<char>), HeatMapView)> {
    v.map_values(|e: ((String, String), HeatMap)| ((e.0.0@, e.0.1@), e.1@))
}

/// The heatmap analysis.
pub struct HeatmapAnalysis {}

impl HeatmapAnalysis {
    pub fn new() -> Self {
        Self {}
    }

    /// The heatmaps of the match at the stored bin size, keyed by platform
    /// id and team name, leaving out unknown players.
    pub fn analyse(&self, demo: &ParsedDemo) -> (r: Result<Vec<((String, String), HeatMap)>, HeatmapError>)
        ensures
            match r {
                Ok(v) => {
                    &&& ticks_step(HEATMAP_CELL_SIZE, spawn_table(demo.events@), empty_state(), demo.ticks@) is Ok
                    &&& stored_view(v@) == known_heatmaps(
                        player_table(demo.player_info@),
                        ticks_step(HEATMAP_CELL_SIZE, spawn_table(demo.events@), empty_state(), demo.ticks@)->Ok_0.heatmaps,
                    )
                },
                Err(e) => ticks_step(HEATMAP_CELL_SIZE, spawn_table(demo.events@), empty_state(), demo.ticks@)
                    == Err::<HeatState, HeatmapError>(e),
            },
    {
        let config = Config { cell_size: HEATMAP_CELL_SIZE };
        let result = match heatmap::parse(&config, demo) {
            Ok(o) => o,
            Err(e) => return Err(e),
        };
        let info = player_map(&result.player_info);
        let ghost hs = heatmaps_view(result.player_heatmaps@);
        let mut out: Vec<((String, String), HeatMap)> = Vec::new();
        assert(stored_view(out@) =~= Seq::empty());
        let n = result.player_heatmaps.len();
        assert(hs.len() == n);
        let mut maps = result.player_heatmaps;
        let mut rev: Vec<((UserId, String), HeatMap)> = Vec::new();
        while maps.len() > 0
            invariant
                hs.len() == maps@.len() + rev@.len(),
                hs.len() <= usize::MAX,
                forall|k: int| 0 <= k < maps@.len() ==> #[trigger] heatmaps_view(maps@)[k] == hs[k],
                forall|k: int| 0 <= k < rev@.len() ==> #[trigger] heatmaps_view(rev@)[k] == hs[hs.len() - 1 - k],
            decreases maps.len(),
        {
            let ghost before = maps@;
            if let Some(e) = maps.pop() {
                let ghost rb = rev@;
                rev.push(e);
                assert(heatmaps_view(rev@)[rev@.len() - 1] == heatmaps_view(before)[before.len() - 1]);
                assert forall|k: int| 0 <= k < rev@.len() implies #[trigger] heatmaps_view(rev@)[k] == hs[hs.len() - 1 - k] by {
                    if k < rb.len() {
                        assert(heatmaps_view(rev@)[k] == heatmaps_view(rb)[k]);
                    }
                }
                assert forall|k: int| 0 <= k < maps@.len() implies #[trigger] heatmaps_view(maps@)[k] == hs[k] by {
                    assert(heatmaps_view(maps@)[k] == heatmaps_view(before)[k]);
                }
            }
        }
        let mut i: usize = 0;
        while rev.len() > 0
            invariant
                info.wf(),
                info@ == player_table(demo.player_info@),
                i + rev@.len() == hs.len(),
                hs.len() <= usize::MAX,
                forall|k: int| 0 <= k < rev@.len() ==> #[trigger] heatmaps_view(rev@)[k] == hs[hs.len() - 1 - k],
                stored_view(out@) == known_heatmaps(info@, hs.take(i as int)),
            decreases rev.len(),
        {
            let ghost before = rev@;
            if let Some(((u, team), h)) = rev.pop() {
                assert(hs.take(i as int + 1).drop_last() == hs.take(i as int));
                assert(heatmaps_view(before)[before.len() - 1] == hs[i as int]);
                if let Some(p) = info.get(u.0) {
                    let ghost ob = out@;
                    out.push(((to_decimal(p.xuid), team), h));
                    assert(stored_view(out@) =~= stored_view(ob).push(((decimal_digits(p.xuid as nat), out@[ob.len() as int].0.1@), out@[ob.len() as int].1@)));
                }
                assert forall|k: int| 0 <= k < rev@.len() implies #[trigger] heatmaps_view(rev@)[k] == hs[hs.len() - 1 - k] by {
                    assert(heatmaps_view(rev@)[k] == heatmaps_view(before)[k]);
                }
                i = i + 1;
            }
        }
        assert(hs.take(hs.len() as int) == hs);
        Ok(out)
    }
}

/// The round timeline analysis.
pub struct PerRoundAnalysis {}

impl PerRoundAnalysis {
    pub fn new() -> Self {
        Self {}
    }

    /// The rounds of the match with their events.
    pub fn analyse(&self, demo: &ParsedDemo) -> (r: PerRound)
        ensures
            bounds_view(r.rounds@) == rounds_run(demo.ticks@),
            events_view(r.rounds@) == bucket_run(player_table(demo.player_info@), rounds_run(demo.ticks@), demo.events@).events,
    {
        perround::parse(demo)
    }
}

} // verus!
