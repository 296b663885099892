//! Positional heatmaps: a visit-count grid per (player, team) pair, built from
//! the per-tick body snapshots.

use vstd::prelude::*;

use crate::events::{
    copy_players, spawn_map, spawn_table, EntityState, EntityTickStates, ParsedDemo,
    PawnState, Player, TeamState, UserId,
};
use crate::idmap::IdMap;

verus! {

/// Analysis settings.
#[derive(Debug, Clone, Copy, PartialEq, Eq)]
pub struct Config {
    /// Side length of one heatmap bin, in world units.
    pub cell_size: u32,
}

/// The low eleven bits of a raw body handle, which identify the body.
pub open spec fn mask(h: u32) -> u32 {
    h & 0x7FF
}

/// A masked body handle.
#[derive(Debug, PartialEq, Eq, Clone, Copy, Hash, Structural)]
pub struct PawnID(pub u32);

impl From<i32> for PawnID {
    fn from(value: i32) -> Self {
        PawnID((value as u32) & 0x7FF)
    }
}

impl vstd::std_specs::convert::FromSpecImpl<i32> for PawnID {
    open spec fn obeys_from_spec() -> bool {
        true
    }

    open spec fn from_spec(v: i32) -> Self {
        PawnID(mask(v as u32))
    }
}

impl From<u32> for PawnID {
    fn from(value: u32) -> Self {
        PawnID(value & 0x7FF)
    }
}

impl vstd::std_specs::convert::FromSpecImpl<u32> for PawnID {
    open spec fn obeys_from_spec() -> bool {
        true
    }

    open spec fn from_spec(v: u32) -> Self {
        PawnID(mask(v))
    }
}

/// Masking twice is masking once, and only the low eleven bits of a handle
/// decide its mask.
pub proof fn lemma_mask_stable(h: u32, g: u32)
    ensures
        mask(h) == mask(h & 0x7FF),
        mask(h) < 2048,
        (h ^ g) & 0x7FF == 0 ==> mask(h) == mask(g),
{
    assert(h & 0x7FF == (h & 0x7FF) & 0x7FF) by (bit_vector);
    assert(h & 0x7FF < 2048) by (bit_vector);
    assert((h ^ g) & 0x7FF == 0 ==> h & 0x7FF == g & 0x7FF) by (bit_vector);
}

/// What a heatmap holds, as plain values.
pub struct HeatMapView {
    pub min_x: usize,
    pub min_y: usize,
    pub max_x: usize,
    pub max_y: usize,
    pub max_value: usize,
    pub grid: Seq<Seq<usize>>,
    pub block_size: u32,
}

/// Visit counts of one player in one team. Row `y`, column `x` counts the
/// visits of bin `(min_x + x, min_y + y)`; rows may differ in length, and
/// cells past the end of a row count zero.
#[derive(Debug, Clone)]
pub struct HeatMap {
    pub min_x: usize,
    pub min_y: usize,
    pub max_x: usize,
    pub max_y: usize,
    pub max_value: usize,
    pub rows: Vec<Vec<usize>>,
    pub block_size: u32,
}

impl View for HeatMap {
    type V = HeatMapView;

    open spec fn view(&self) -> HeatMapView {
        HeatMapView {
            min_x: self.min_x,
            min_y: self.min_y,
            max_x: self.max_x,
            max_y: self.max_y,
            max_value: self.max_value,
            grid: self.rows@.map_values(|r: Vec<usize>| r@),
            block_size: self.block_size,
        }
    }
}

/// `n` plus one, staying at the largest value.
pub open spec fn sat_inc(n: usize) -> usize {
    if n == usize::MAX {
        n
    } else {
        (n + 1) as usize
    }
}

pub open spec fn max_of(a: usize, b: usize) -> usize {
    if a >= b {
        a
    } else {
        b
    }
}

/// `r` extended with zeros to at least `n` cells.
pub open spec fn pad_row(r: Seq<usize>, n: int) -> Seq<usize> {
    if r.len() >= n {
        r
    } else {
        r + Seq::new((n - r.len()) as nat, |i: int| 0usize)
    }
}

/// `g` extended with empty rows to at least `n` rows.
pub open spec fn pad_rows(g: Seq<Seq<usize>>, n: int) -> Seq<Seq<usize>> {
    if g.len() >= n {
        g
    } else {
        g + Seq::new((n - g.len()) as nat, |i: int| Seq::<usize>::empty())
    }
}

/// `g` grown to hold cell `(x, y)`, with that cell counted once more.
pub open spec fn bump(g: Seq<Seq<usize>>, x: int, y: int) -> Seq<Seq<usize>> {
    let g1 = pad_rows(g, y + 1);
    let r = pad_row(g1[y], x + 1);
    g1.update(y, r.update(x, sat_inc(r[x])))
}

/// The heatmap after one more visit of bin `(x, y)`.
pub open spec fn incremented(h: HeatMapView, x: usize, y: usize) -> HeatMapView {
    let g = bump(h.grid, x as int, y as int);
    HeatMapView {
        max_x: max_of(h.max_x, x),
        max_y: max_of(h.max_y, y),
        max_value: max_of(h.max_value, g[y as int][x as int]),
        grid: g,
        ..h
    }
}

/// The cell of row `r`, column `c`, counting zero past the end of a row or grid.
pub open spec fn cell_at(g: Seq<Seq<usize>>, r: int, c: int) -> usize {
    if 0 <= r < g.len() && 0 <= c < g[r].len() {
        g[r][c]
    } else {
        0
    }
}

/// `a - b`, or zero where `b` is larger.
pub open spec fn sub_or_zero(a: int, b: int) -> nat {
    if a > b {
        (a - b) as nat
    } else {
        0
    }
}

/// The number of leading bins that `fit` drops along one axis.
pub open spec fn fit_skip(start: usize, block: u32, min: usize) -> nat {
    sub_or_zero((start as int) / (block as int), min as int)
}

/// The number of bins that a window covers along one axis.
pub open spec fn fit_steps(r: core::ops::Range<usize>, block: u32) -> nat {
    sub_or_zero(r.end as int, r.start as int) / (block as nat)
}

/// The grid re-expressed in a window: `ny` rows of `nx` cells, starting
/// `dy` rows down and `dx` columns across, zero where the grid holds nothing.
pub open spec fn window(g: Seq<Seq<usize>>, dx: nat, dy: nat, nx: nat, ny: nat) -> Seq<Seq<usize>> {
    Seq::new(ny, |r: int| Seq::new(nx, |c: int| cell_at(g, dy + r, dx + c)))
}

/// `a + b`, staying at the largest value.
pub open spec fn sat_add(a: int, b: int) -> usize {
    if a + b > usize::MAX {
        usize::MAX
    } else {
        (a + b) as usize
    }
}

/// The heatmap re-expressed in the window `xs` by `ys` (world units).
pub open spec fn fitted(h: HeatMapView, xs: core::ops::Range<usize>, ys: core::ops::Range<usize>) -> HeatMapView {
    let dx = fit_skip(xs.start, h.block_size, h.min_x);
    let dy = fit_skip(ys.start, h.block_size, h.min_y);
    let nx = fit_steps(xs, h.block_size);
    let ny = fit_steps(ys, h.block_size);
    let min_x = (h.min_x + dx) as usize;
    let min_y = (h.min_y + dy) as usize;
    HeatMapView {
        min_x,
        min_y,
        max_y: sat_add(min_y as int, ny as int),
        max_x: sat_add(min_x as int, if ny > 0 { nx as int } else { 0 }),
        grid: window(h.grid, dx, dy, nx, ny),
        ..h
    }
}


/// Every cell of the row is zero.
pub open spec fn zero_row(r: Seq<usize>) -> bool {
    forall|j: int| 0 <= j < r.len() ==> r[j] == 0
}

/// Column `c` holds no count in any row.
pub open spec fn zero_col(g: Seq<Seq<usize>>, c: int) -> bool {
    forall|r: int| 0 <= r < g.len() && c < g[r].len() ==> g[r][c] == 0
}

/// The length of the longest row.
pub open spec fn max_len(g: Seq<Seq<usize>>) -> nat
    decreases g.len(),
{
    if g.len() == 0 {
        0
    } else if g.last().len() > max_len(g.drop_last()) {
        g.last().len()
    } else {
        max_len(g.drop_last())
    }
}

/// Every row without its first `c` cells.
pub open spec fn drop_cols(g: Seq<Seq<usize>>, c: int) -> Seq<Seq<usize>> {
    Seq::new(g.len(), |r: int| if c <= g[r].len() { g[r].subrange(c, g[r].len() as int) } else { Seq::empty() })
}

/// `k` and `c` are the numbers of leading all-zero rows, and of leading
/// all-zero columns of the rows after those.
pub open spec fn trims(g: Seq<Seq<usize>>, k: int, c: int) -> bool {
    &&& 0 <= k <= g.len()
    &&& forall|r: int| 0 <= r < k ==> zero_row(#[trigger] g[r])
    &&& k < g.len() ==> !zero_row(g[k])
    &&& 0 <= c
    &&& forall|j: int| 0 <= j < c ==> zero_col(g.skip(k), j)
    &&& k < g.len() ==> !zero_col(g.skip(k), c)
    &&& k == g.len() ==> c == 0
}

/// The heatmap without its `k` leading rows and `c` leading columns.
pub open spec fn shrunk(h: HeatMapView, k: int, c: int) -> HeatMapView {
    let g = drop_cols(h.grid.skip(k), c);
    let min_x = sat_add(h.min_x as int, c);
    let min_y = sat_add(h.min_y as int, k);
    HeatMapView {
        min_x,
        min_y,
        max_y: sat_add(min_y as int, g.len() as int),
        max_x: sat_add(min_x as int, max_len(g) as int),
        grid: g,
        ..h
    }
}

/// The index of the first non-zero cell of `row`, if any.
fn first_count(row: &Vec<usize>) -> (r: Option<usize>)
    ensures
        match r {
            Some(j) => j < row@.len() && row@[j as int] != 0 && forall|i: int| 0 <= i < j ==> row@[i] == 0,
            None => zero_row(row@),
        },
{
    let mut j: usize = 0;
    while j < row.len()
        invariant
            j <= row@.len(),
            forall|i: int| 0 <= i < j ==> row@[i] == 0,
        decreases row.len() - j,
    {
        if row[j] != 0 {
            return Some(j);
        }
        j = j + 1;
    }
    None
}


/// Fitting again to the same window changes nothing.
pub proof fn lemma_fit_idempotent(h: HeatMapView, xs: core::ops::Range<usize>, ys: core::ops::Range<usize>)
    requires
        h.block_size > 0,
    ensures
        fitted(fitted(h, xs, ys), xs, ys) == fitted(h, xs, ys),
{
    let f = fitted(h, xs, ys);
    let nx = fit_steps(xs, h.block_size);
    let ny = fit_steps(ys, h.block_size);
    assert(fit_skip(xs.start, f.block_size, f.min_x) == 0);
    assert(fit_skip(ys.start, f.block_size, f.min_y) == 0);
    let w = window(f.grid, 0, 0, nx, ny);
    assert forall|r: int| 0 <= r < ny implies #[trigger] w[r] =~= f.grid[r] by {}
    assert(w =~= f.grid);
}

/// Adds one visit to cell `x` of `row`, growing the row as needed; returns the new count.
fn bump_row(row: &mut Vec<usize>, x: usize) -> (v: usize)
    requires
        x < usize::MAX,
    ensures
        final(row)@ == pad_row(old(row)@, x + 1).update(x as int, sat_inc(pad_row(old(row)@, x + 1)[x as int])),
        v == final(row)@[x as int],
{
    let ghost padded = pad_row(row@, x + 1);
    while row.len() <= x
        invariant
            x < usize::MAX,
            old(row)@.len() <= row@.len(),
            row@.len() <= x + 1 || row@.len() == old(row)@.len(),
            row@ == old(row)@ + Seq::new((row@.len() - old(row)@.len()) as nat, |i: int| 0usize),
        decreases x + 1 - row.len(),
    {
        row.push(0);
    }
    assert(row@ == padded);
    let v = row[x].saturating_add(1);
    row.set(x, v);
    v
}

impl HeatMap {
    pub fn new(block_size: u32) -> (r: Self)
        requires
            block_size > 0,
        ensures
            r@ == (HeatMapView {
                min_x: 0,
                min_y: 0,
                max_x: 0,
                max_y: 0,
                max_value: 0,
                grid: Seq::empty(),
                block_size,
            }),
    {
        let r = HeatMap { min_x: 0, min_y: 0, max_x: 0, max_y: 0, max_value: 0, rows: Vec::new(), block_size };
        assert(r@.grid =~= Seq::<Seq<usize>>::empty());
        r
    }

    /// Counts one more visit of bin `(x, y)`, growing the grid as needed.
    pub fn increment(&mut self, x: usize, y: usize)
        requires
            x < usize::MAX,
            y < usize::MAX,
        ensures
            final(self)@ == incremented(old(self)@, x, y),
    {
        let ghost g0 = self@.grid;
        while self.rows.len() <= y
            invariant
                y < usize::MAX,
                old(self).rows@.len() <= self.rows@.len(),
                self.rows@.len() <= y + 1 || self.rows@.len() == old(self).rows@.len(),
                forall|i: int| 0 <= i < self.rows@.len() ==> #[trigger] self.rows@[i]@ == (if i < g0.len() { g0[i] } else { Seq::<usize>::empty() }),
                self.min_x == old(self).min_x,
                self.min_y == old(self).min_y,
                self.max_x == old(self).max_x,
                self.max_y == old(self).max_y,
                self.max_value == old(self).max_value,
                self.block_size == old(self).block_size,
                g0 == old(self)@.grid,
            decreases y + 1 - self.rows.len(),
        {
            self.rows.push(Vec::new());
        }
        let ghost g1 = self@.grid;
        assert(g1 =~= pad_rows(g0, y + 1));
        if self.max_y < y {
            self.max_y = y;
        }
        let v = bump_row(&mut self.rows[y], x);
        if self.max_x < x {
            self.max_x = x;
        }
        if self.max_value < v {
            self.max_value = v;
        }
        assert(self@.grid =~= bump(g0, x as int, y as int));
    }

    /// Re-expresses the grid in the window `xs` by `ys` (world units): drops
    /// the bins before the window's origin, then pads with zeros or cuts every
    /// row to the window's width and the grid to its height. Bins keep their size.
    pub fn fit(&mut self, xs: core::ops::Range<usize>, ys: core::ops::Range<usize>)
        requires
            old(self).block_size > 0,
        ensures
            final(self)@ == fitted(old(self)@, xs, ys),
    {
        let ghost h = self@;
        let block = self.block_size as usize;
        let sx = xs.start / block;
        let sy = ys.start / block;
        let dx: usize = if sx > self.min_x { sx - self.min_x } else { 0 };
        let dy: usize = if sy > self.min_y { sy - self.min_y } else { 0 };
        let nx: usize = if xs.end > xs.start { (xs.end - xs.start) / block } else { 0 };
        let ny: usize = if ys.end > ys.start { (ys.end - ys.start) / block } else { 0 };
        let mut rows: Vec<Vec<usize>> = Vec::new();
        let mut r: usize = 0;
        while r < ny
            invariant
                r <= ny,
                rows@.len() == r,
                forall|i: int| 0 <= i < r ==> (#[trigger] rows@[i])@ == Seq::new(nx as nat, |c: int| cell_at(h.grid, dy + i, dx + c)),
                h == self@,
            decreases ny - r,
        {
            let mut row: Vec<usize> = Vec::new();
            let mut c: usize = 0;
            while c < nx
                invariant
                    c <= nx,
                    r < ny,
                    row@.len() == c,
                    forall|j: int| 0 <= j < c ==> #[trigger] row@[j] == cell_at(h.grid, dy + r, dx + j),
                    h == self@,
                decreases nx - c,
            {
                let v = self.cell(dy as u128 + r as u128, dx as u128 + c as u128);
                row.push(v);
                c = c + 1;
            }
            assert(row@ =~= Seq::new(nx as nat, |c: int| cell_at(h.grid, dy + r, dx + c)));
            rows.push(row);
            r = r + 1;
        }
        self.rows = rows;
        self.min_x = self.min_x + dx;
        self.min_y = self.min_y + dy;
        self.max_y = self.min_y.saturating_add(ny);
        self.max_x = self.min_x.saturating_add(if ny > 0 { nx } else { 0 });
        assert(self@.grid =~= window(h.grid, dx as nat, dy as nat, nx as nat, ny as nat));
    }

    /// Trims the leading all-zero rows, then the leading columns that hold
    /// no count in any remaining row, and recomputes the bounds.
    pub fn shrink(&mut self)
        ensures
            exists|k: int, c: int| trims(old(self)@.grid, k, c) && final(self)@ == shrunk(old(self)@, k, c),
    {
        let ghost h = self@;
        let ghost g = h.grid;
        let mut k: usize = 0;
        while k < self.rows.len() && first_count(&self.rows[k]).is_none()
            invariant
                h == self@,
                g == h.grid,
                k <= g.len(),
                forall|r: int| 0 <= r < k ==> zero_row(#[trigger] g[r]),
            decreases self.rows.len() - k,
        {
            k = k + 1;
        }
        let ghost g2 = g.skip(k as int);
        // The first column with a count in some remaining row.
        let mut c: usize = 0;
        let mut found = false;
        let mut r: usize = k;
        while r < self.rows.len()
            invariant
                h == self@,
                g == h.grid,
                g2 == g.skip(k as int),
                k <= r <= g.len(),
                found ==> exists|q: int| 0 <= q < r - k && c < g2[q].len() && g2[q][c as int] != 0,
                found ==> forall|j: int, q: int| 0 <= j < c && 0 <= q < r - k && j < g2[q].len() ==> #[trigger] g2[q][j] == 0,
                !found ==> forall|q: int| k <= q < r ==> zero_row(#[trigger] g[q]),
                !found ==> c == 0,
            decreases self.rows.len() - r,
        {
            let ghost q0 = r - k;
            assert(g2[q0 as int] == g[r as int]);
            match first_count(&self.rows[r]) {
                Some(j) => {
                    if !found || j < c {
                        c = j;
                        found = true;
                    }
                },
                None => {},
            }
            r = r + 1;
        }
        proof {
            if k < g.len() {
                assert(found) by {
                    if !found {
                        assert(zero_row(g[k as int]));
                    }
                }
            }
            assert forall|j: int| 0 <= j < c implies zero_col(g2, j) by {}
        }
        let mut rows: Vec<Vec<usize>> = Vec::new();
        let mut widest: usize = 0;
        let mut r: usize = k;
        while r < self.rows.len()
            invariant
                h == self@,
                g == h.grid,
                g2 == g.skip(k as int),
                k <= r <= g.len(),
                rows@.len() == r - k,
                forall|q: int| 0 <= q < r - k ==> (#[trigger] rows@[q])@ == drop_cols(g2, c as int)[q],
                widest == max_len(drop_cols(g2, c as int).take(r - k)),
            decreases self.rows.len() - r,
        {
            let src = &self.rows[r];
            let mut row: Vec<usize> = Vec::new();
            if c <= src.len() {
                let mut j: usize = c;
                while j < src.len()
                    invariant
                        c <= j <= src@.len(),
                        row@ == src@.subrange(c as int, j as int),
                    decreases src.len() - j,
                {
                    row.push(src[j]);
                    j = j + 1;
                    assert(row@ =~= src@.subrange(c as int, j as int));
                }
            }
            let ghost q = r - k;
            assert(g2[q as int] == src@);
            assert(row@ =~= drop_cols(g2, c as int)[q as int]);
            let ghost d = drop_cols(g2, c as int);
            assert(d.take(q + 1).drop_last() =~= d.take(q as int));
            if row.len() > widest {
                widest = row.len();
            }
            rows.push(row);
            r = r + 1;
        }
        proof {
            let d = drop_cols(g2, c as int);
            assert(d.take(d.len() as int) =~= d);
            assert(rows@.map_values(|v: Vec<usize>| v@) =~= d);
        }
        self.rows = rows;
        self.min_x = self.min_x.saturating_add(c);
        self.min_y = self.min_y.saturating_add(k);
        self.max_y = self.min_y.saturating_add(self.rows.len());
        self.max_x = self.min_x.saturating_add(widest);
        assert(trims(g, k as int, c as int));
        assert(self@ == shrunk(h, k as int, c as int));
    }

    /// The count of row `r`, column `c`; zero outside the stored cells.
    fn cell(&self, r: u128, c: u128) -> (v: usize)
        ensures
            v == cell_at(self@.grid, r as int, c as int),
    {
        if r < self.rows.len() as u128 {
            let row = &self.rows[r as usize];
            if c < row.len() as u128 {
                return row[c as usize];
            }
        }
        0
    }
}

/// Why a heatmap run stopped.
#[derive(Debug, Clone, Copy, PartialEq, Eq, Structural)]
pub enum HeatmapError {
    /// A reconstructed coordinate came out negative: the input is corrupt.
    NegativeCoordinate,
    /// A bin index does not fit in the grid's index type.
    CoordinateOutOfRange,
}

/// The heatmaps of a match, with the player table they refer to.
#[derive(Debug, Clone)]
pub struct HeatMapOutput {
    pub player_heatmaps: Vec<((UserId, String), HeatMap)>,
    pub player_info: Vec<(UserId, Player)>,
}

/// A team with its members.
#[derive(Debug, Clone, PartialEq, Eq)]
pub struct Team {
    pub num: u32,
    pub name: String,
    pub players: Vec<u32>,
    pub pawns: Vec<PawnID>,
}

/// World units per spatial cell.
pub const CELL_UNITS: u64 = 512;

/// What the snapshot pass carries from tick to tick.
pub struct HeatState {
    /// Team name by masked body handle.
    pub teams: Map<i32, String>,
    /// Last life-state code by player.
    pub lifestate: Map<i32, u32>,
    /// Last sub-cell offsets by player.
    pub position: Map<i32, (i32, i32, i32)>,
    /// Last cell indices by player.
    pub cells: Map<i32, (u32, u32, u32)>,
    /// One heatmap per (player, team name).
    pub heatmaps: Seq<((UserId, String), HeatMapView)>,
}

pub open spec fn empty_state() -> HeatState {
    HeatState {
        teams: Map::empty(),
        lifestate: Map::empty(),
        position: Map::empty(),
        cells: Map::empty(),
        heatmaps: Seq::empty(),
    }
}

pub open spec fn key_matches(e: ((UserId, String), HeatMapView), u: UserId, team: Seq<char>) -> bool {
    e.0.0 == u && e.0.1@ == team
}

pub open spec fn has_heatmap(s: Seq<((UserId, String), HeatMapView)>, u: UserId, team: Seq<char>) -> bool {
    exists|i: int| 0 <= i < s.len() && key_matches(#[trigger] s[i], u, team)
}

/// No two heatmaps share a (player, team name) key.
pub open spec fn keys_distinct(s: Seq<((UserId, String), HeatMapView)>) -> bool {
    forall|i: int, j: int|
        0 <= i < j < s.len() ==> !key_matches(#[trigger] s[i], s[j].0.0, (#[trigger] s[j]).0.1@)
}

/// The heatmaps after one visit of bin `(x, y)` by `u` in `team`: the
/// matching heatmap counts it, or a new one is added that holds just it.
pub open spec fn count_visit(
    s: Seq<((UserId, String), HeatMapView)>,
    u: UserId,
    team: String,
    block: u32,
    x: usize,
    y: usize,
) -> Seq<((UserId, String), HeatMapView)> {
    if has_heatmap(s, u, team@) {
        let i = choose|i: int| 0 <= i < s.len() && key_matches(#[trigger] s[i], u, team@);
        s.update(i, (s[i].0, incremented(s[i].1, x, y)))
    } else {
        s.push(((u, team), incremented(new_view(block), x, y)))
    }
}

pub open spec fn new_view(block: u32) -> HeatMapView {
    HeatMapView { min_x: 0, min_y: 0, max_x: 0, max_y: 0, max_value: 0, grid: Seq::empty(), block_size: block }
}

/// A field of this tick if present, else the last known value.
pub open spec fn or_last<T>(now: Option<T>, last: T) -> T {
    match now {
        Some(v) => v,
        None => last,
    }
}

/// One axis of a world position: cell index times the cell size, plus the offset.
pub open spec fn world(cell: u32, offset: i32) -> int {
    cell * CELL_UNITS + offset
}

/// The snapshot of one player body, applied to the state.
pub open spec fn pawn_step(cell_size: u32, pawn_ids: Map<i32, UserId>, s: HeatState, p: PawnState) -> Result<HeatState, HeatmapError> {
    let h = mask(p.id as u32) as i32;
    if !pawn_ids.contains_key(h) || !s.teams.contains_key(h) {
        Ok(s)
    } else {
        let u = pawn_ids[h];
        let team = s.teams[h];
        let lc = if s.cells.contains_key(u.0) { s.cells[u.0] } else { (0u32, 0u32, 0u32) };
        let lp = if s.position.contains_key(u.0) { s.position[u.0] } else { (0i32, 0i32, 0i32) };
        let c = (or_last(p.cell_x, lc.0), or_last(p.cell_y, lc.1), or_last(p.cell_z, lc.2));
        let o = (or_last(p.vec_x, lp.0), or_last(p.vec_y, lp.1), or_last(p.vec_z, lp.2));
        let s1 = HeatState { cells: s.cells.insert(u.0, c), position: s.position.insert(u.0, o), ..s };
        if o.0 < 0 || o.1 < 0 || o.2 < 0 {
            Err(HeatmapError::NegativeCoordinate)
        } else {
            let bx = world(c.0, o.0) / (cell_size as int);
            let by = world(c.1, o.1) / (cell_size as int);
            if bx >= usize::MAX || by >= usize::MAX {
                Err(HeatmapError::CoordinateOutOfRange)
            } else {
                let life = or_last(p.life_state, if s.lifestate.contains_key(u.0) { s.lifestate[u.0] } else { 1 });
                let s2 = HeatState { lifestate: s1.lifestate.insert(u.0, life), ..s1 };
                let s2 = if p.life_state is Some { s2 } else { s1 };
                if life != 0 {
                    Ok(s2)
                } else {
                    Ok(HeatState { heatmaps: count_visit(s2.heatmaps, u, team, cell_size, bx as usize, by as usize), ..s2 })
                }
            }
        }
    }
}

/// Each listed body handle, masked, joins the team `name`.
pub open spec fn join_team(teams: Map<i32, String>, pawns: Seq<u32>, name: String) -> Map<i32, String>
    decreases pawns.len(),
{
    if pawns.len() == 0 {
        teams
    } else {
        join_team(teams, pawns.drop_last(), name).insert(mask(pawns.last()) as i32, name)
    }
}

/// The snapshot of one team entity, applied to the state.
pub open spec fn team_step(s: HeatState, t: TeamState) -> HeatState {
    match t.name {
        Some(name) => HeatState { teams: join_team(s.teams, t.pawns@, name), ..s },
        None => s,
    }
}

pub open spec fn entity_step(cell_size: u32, pawn_ids: Map<i32, UserId>, s: HeatState, e: EntityState) -> Result<HeatState, HeatmapError> {
    match e {
        EntityState::PlayerPawn(p) => pawn_step(cell_size, pawn_ids, s, p),
        EntityState::Team(t) => Ok(team_step(s, t)),
        _ => Ok(s),
    }
}

/// The snapshots of one tick, applied in order; the first error stops the run.
pub open spec fn states_step(cell_size: u32, pawn_ids: Map<i32, UserId>, s: HeatState, es: Seq<EntityState>) -> Result<HeatState, HeatmapError>
    decreases es.len(),
{
    if es.len() == 0 {
        Ok(s)
    } else {
        match states_step(cell_size, pawn_ids, s, es.drop_last()) {
            Ok(s1) => entity_step(cell_size, pawn_ids, s1, es.last()),
            Err(e) => Err(e),
        }
    }
}

/// All ticks, applied in order; the first error stops the run.
pub open spec fn ticks_step(cell_size: u32, pawn_ids: Map<i32, UserId>, s: HeatState, ts: Seq<EntityTickStates>) -> Result<HeatState, HeatmapError>
    decreases ts.len(),
{
    if ts.len() == 0 {
        Ok(s)
    } else {
        match ticks_step(cell_size, pawn_ids, s, ts.drop_last()) {
            Ok(s1) => states_step(cell_size, pawn_ids, s1, ts.last().states@),
            Err(e) => Err(e),
        }
    }
}

pub open spec fn heatmaps_view(v: Seq<((UserId, String), HeatMap)>) -> Seq<((UserId, String), HeatMapView)> {
    v.map_values(|e: ((UserId, String), HeatMap)| (e.0, e.1@))
}

/// The state of the snapshot pass.
struct Tracker {
    teams: IdMap<String>,
    lifestate: IdMap<u32>,
    position: IdMap<(i32, i32, i32)>,
    cells: IdMap<(u32, u32, u32)>,
    heatmaps: Vec<((UserId, String), HeatMap)>,
}

impl Tracker {
    closed spec fn view(&self) -> HeatState {
        HeatState {
            teams: self.teams@,
            lifestate: self.lifestate@,
            position: self.position@,
            cells: self.cells@,
            heatmaps: heatmaps_view(self.heatmaps@),
        }
    }

    closed spec fn wf(&self) -> bool {
        &&& self.teams.wf()
        &&& self.lifestate.wf()
        &&& self.position.wf()
        &&& self.cells.wf()
        &&& keys_distinct(heatmaps_view(self.heatmaps@))
    }

    /// Counts a visit of bin `(x, y)` by `u` in `team`.
    fn count(&mut self, u: UserId, team: String, block: u32, x: usize, y: usize)
        requires
            old(self).wf(),
            block > 0,
            x < usize::MAX,
            y < usize::MAX,
        ensures
            final(self).wf(),
            final(self).view() == (HeatState { heatmaps: count_visit(old(self).view().heatmaps, u, team, block, x, y), ..old(self).view() }),
    {
        let ghost hs = heatmaps_view(self.heatmaps@);
        let mut i: usize = 0;
        while i < self.heatmaps.len()
            invariant
                i <= self.heatmaps@.len(),
                x < usize::MAX,
                y < usize::MAX,
                block > 0,
                self.wf(),
                *self == *old(self),
                hs == heatmaps_view(self.heatmaps@),
                forall|j: int| 0 <= j < i ==> !key_matches(#[trigger] hs[j], u, team@),
            decreases self.heatmaps.len() - i,
        {
            if self.heatmaps[i].0.0 == u && self.heatmaps[i].0.1 == team {
                assert(key_matches(hs[i as int], u, team@));
                let ghost k = choose|k: int| 0 <= k < hs.len() && key_matches(#[trigger] hs[k], u, team@);
                assert(k == i) by {
                    if k < i {
                    } else if k > i {
                        assert(!key_matches(hs[i as int], hs[k].0.0, hs[k].0.1@));
                    }
                }
                let mut entry = self.heatmaps.remove(i);
                entry.1.increment(x, y);
                self.heatmaps.insert(i, entry);
                assert(heatmaps_view(self.heatmaps@) =~= hs.update(i as int, (hs[i as int].0, incremented(hs[i as int].1, x, y))));
                assert(keys_distinct(heatmaps_view(self.heatmaps@))) by {
                    let n = heatmaps_view(self.heatmaps@);
                    assert forall|a: int| 0 <= a < n.len() implies (#[trigger] n[a]).0 == hs[a].0 by {}
                }
                return;
            }
            i = i + 1;
        }
        let mut h = HeatMap::new(block);
        h.increment(x, y);
        self.heatmaps.push(((u, team), h));
        assert(heatmaps_view(self.heatmaps@) =~= hs.push(((u, team), incremented(new_view(block), x, y))));
        assert(keys_distinct(heatmaps_view(self.heatmaps@))) by {
            let n = heatmaps_view(self.heatmaps@);
            assert forall|a: int, b: int| 0 <= a < b < n.len() implies !key_matches(#[trigger] n[a], n[b].0.0, (#[trigger] n[b]).0.1@) by {
                if b == hs.len() {
                    assert(!key_matches(hs[a], u, team@));
                } else {
                    assert(n[a] == hs[a] && n[b] == hs[b]);
                }
            }
        }
    }

    fn new() -> (r: Self)
        ensures
            r.wf(),
            r.view() == empty_state(),
    {
        let r = Tracker {
            teams: IdMap::new(),
            lifestate: IdMap::new(),
            position: IdMap::new(),
            cells: IdMap::new(),
            heatmaps: Vec::new(),
        };
        assert(heatmaps_view(r.heatmaps@) =~= Seq::empty());
        r
    }

    /// Applies a team snapshot: its listed bodies join the named team.
    fn team(&mut self, t: &TeamState)
        requires
            old(self).wf(),
        ensures
            final(self).wf(),
            final(self).view() == team_step(old(self).view(), *t),
    {
        if let Some(name) = &t.name {
            let mut i: usize = 0;
            while i < t.pawns.len()
                invariant
                    self.wf(),
                    i <= t.pawns@.len(),
                    self.view() == (HeatState { teams: join_team(old(self).view().teams, t.pawns@.take(i as int), *name), ..old(self).view() }),
                decreases t.pawns.len() - i,
            {
                let h = PawnID::from(t.pawns[i]);
                self.teams.insert(h.0 as i32, name.clone());
                assert(t.pawns@.take(i as int + 1).drop_last() == t.pawns@.take(i as int));
                proof {
                    let v = t.pawns@[i as int];
                    assert(v & 0x7FF < 2048) by (bit_vector);
                }
                i = i + 1;
            }
            assert(t.pawns@.take(t.pawns@.len() as int) == t.pawns@);
        }
    }

    /// Applies a body snapshot: carries the position forward, and counts a
    /// visit when the player is alive.
    fn pawn(&mut self, cell_size: u32, pawn_ids: &IdMap<UserId>, p: &PawnState) -> (r: Result<(), HeatmapError>)
        requires
            old(self).wf(),
            pawn_ids.wf(),
            cell_size > 0,
        ensures
            final(self).wf(),
            match r {
                Ok(_) => pawn_step(cell_size, pawn_ids@, old(self).view(), *p) == Ok::<HeatState, HeatmapError>(final(self).view()),
                Err(e) => pawn_step(cell_size, pawn_ids@, old(self).view(), *p) == Err::<HeatState, HeatmapError>(e),
            },
    {
        let h = PawnID::from(p.id);
        proof {
            let v = p.id as u32;
            assert(v & 0x7FF < 2048) by (bit_vector);
        }
        let key = h.0 as i32;
        let u = match pawn_ids.get(key) {
            Some(u) => *u,
            None => return Ok(()),
        };
        let team = match self.teams.get(key) {
            Some(t) => t.clone(),
            None => return Ok(()),
        };
        let lc = match self.cells.get(u.0) {
            Some(c) => *c,
            None => (0u32, 0u32, 0u32),
        };
        let lp = match self.position.get(u.0) {
            Some(o) => *o,
            None => (0i32, 0i32, 0i32),
        };
        let c = (
            match p.cell_x { Some(v) => v, None => lc.0 },
            match p.cell_y { Some(v) => v, None => lc.1 },
            match p.cell_z { Some(v) => v, None => lc.2 },
        );
        let o = (
            match p.vec_x { Some(v) => v, None => lp.0 },
            match p.vec_y { Some(v) => v, None => lp.1 },
            match p.vec_z { Some(v) => v, None => lp.2 },
        );
        self.cells.insert(u.0, c);
        self.position.insert(u.0, o);
        if o.0 < 0 || o.1 < 0 || o.2 < 0 {
            return Err(HeatmapError::NegativeCoordinate);
        }
        let wx: u64 = c.0 as u64 * CELL_UNITS + o.0 as u64;
        let wy: u64 = c.1 as u64 * CELL_UNITS + o.1 as u64;
        let bx = wx / cell_size as u64;
        let by = wy / cell_size as u64;
        if bx >= usize::MAX as u64 || by >= usize::MAX as u64 {
            return Err(HeatmapError::CoordinateOutOfRange);
        }
        let life = match p.life_state {
            Some(l) => {
                self.lifestate.insert(u.0, l);
                l
            },
            None => match self.lifestate.get(u.0) {
                Some(l) => *l,
                None => 1,
            },
        };
        if life != 0 {
            return Ok(());
        }
        self.count(u, team, cell_size, bx as usize, by as usize);
        Ok(())
    }
}

/// An error part way through a tick is the tick's result.
proof fn lemma_states_err(cs: u32, ids: Map<i32, UserId>, s: HeatState, es: Seq<EntityState>, n: int)
    requires
        0 <= n <= es.len(),
        states_step(cs, ids, s, es.take(n)) is Err,
    ensures
        states_step(cs, ids, s, es) == states_step(cs, ids, s, es.take(n)),
    decreases es.len() - n,
{
    if n < es.len() {
        assert(es.take(n + 1).drop_last() == es.take(n));
        lemma_states_err(cs, ids, s, es, n + 1);
    } else {
        assert(es.take(n) == es);
    }
}

/// An error at some tick is the run's result.
proof fn lemma_ticks_err(cs: u32, ids: Map<i32, UserId>, s: HeatState, ts: Seq<EntityTickStates>, n: int)
    requires
        0 <= n <= ts.len(),
        ticks_step(cs, ids, s, ts.take(n)) is Err,
    ensures
        ticks_step(cs, ids, s, ts) == ticks_step(cs, ids, s, ts.take(n)),
    decreases ts.len() - n,
{
    if n < ts.len() {
        assert(ts.take(n + 1).drop_last() == ts.take(n));
        lemma_ticks_err(cs, ids, s, ts, n + 1);
    } else {
        assert(ts.take(n) == ts);
    }
}

/// Applies the snapshots of one tick in order.
fn process_tick(config: &Config, tick_state: &EntityTickStates, pawn_ids: &IdMap<UserId>, t: &mut Tracker) -> (r: Result<(), HeatmapError>)
    requires
        old(t).wf(),
        pawn_ids.wf(),
        config.cell_size > 0,
    ensures
        final(t).wf(),
        match r {
            Ok(_) => states_step(config.cell_size, pawn_ids@, old(t).view(), tick_state.states@) == Ok::<HeatState, HeatmapError>(final(t).view()),
            Err(e) => states_step(config.cell_size, pawn_ids@, old(t).view(), tick_state.states@) == Err::<HeatState, HeatmapError>(e),
        },
{
    let ghost s0 = t.view();
    let ghost es = tick_state.states@;
    let mut i: usize = 0;
    while i < tick_state.states.len()
        invariant
            t.wf(),
            pawn_ids.wf(),
            config.cell_size > 0,
            i <= es.len(),
            es == tick_state.states@,
            s0 == old(t).view(),
            states_step(config.cell_size, pawn_ids@, s0, es.take(i as int)) == Ok::<HeatState, HeatmapError>(t.view()),
        decreases tick_state.states.len() - i,
    {
        assert(es.take(i as int + 1).drop_last() == es.take(i as int));
        match &tick_state.states[i] {
            EntityState::PlayerPawn(p) => {
                if let Err(e) = t.pawn(config.cell_size, pawn_ids, p) {
                    proof {
                        lemma_states_err(config.cell_size, pawn_ids@, s0, es, i as int + 1);
                    }
                    return Err(e);
                }
            },
            EntityState::Team(ts) => {
                t.team(ts);
            },
            _ => {},
        }
        i = i + 1;
    }
    assert(es.take(es.len() as int) == es);
    Ok(())
}

/// Builds the heatmap of every (player, team) pair: walks the snapshots tick
/// by tick, resolves each body to its player and team, reconstructs its
/// position and counts the bin it stands in while the player is alive.
/// Stops with an error where a position comes out negative.
pub fn parse(config: &Config, demo: &ParsedDemo) -> (r: Result<HeatMapOutput, HeatmapError>)
    requires
        config.cell_size > 0,
    ensures
        match r {
            Ok(out) => {
                &&& ticks_step(config.cell_size, spawn_table(demo.events@), empty_state(), demo.ticks@) is Ok
                &&& ticks_step(config.cell_size, spawn_table(demo.events@), empty_state(), demo.ticks@)->Ok_0.heatmaps
                    == heatmaps_view(out.player_heatmaps@)
                &&& out.player_info@ == demo.player_info@
            },
            Err(e) => ticks_step(config.cell_size, spawn_table(demo.events@), empty_state(), demo.ticks@) == Err::<HeatState, HeatmapError>(e),
        },
{
    let pawn_ids = spawn_map(&demo.events);
    let mut t = Tracker::new();
    let ghost ts = demo.ticks@;
    let mut i: usize = 0;
    while i < demo.ticks.len()
        invariant
            t.wf(),
            pawn_ids.wf(),
            pawn_ids@ == spawn_table(demo.events@),
            config.cell_size > 0,
            i <= ts.len(),
            ts == demo.ticks@,
            ticks_step(config.cell_size, pawn_ids@, empty_state(), ts.take(i as int)) == Ok::<HeatState, HeatmapError>(t.view()),
        decreases demo.ticks.len() - i,
    {
        assert(ts.take(i as int + 1).drop_last() == ts.take(i as int));
        if let Err(e) = process_tick(config, &demo.ticks[i], &pawn_ids, &mut t) {
            proof {
                lemma_ticks_err(config.cell_size, pawn_ids@, empty_state(), ts, i as int + 1);
            }
            return Err(e);
        }
        i = i + 1;
    }
    assert(ts.take(ts.len() as int) == ts);
    let player_info = copy_players(&demo.player_info);
    Ok(HeatMapOutput { player_heatmaps: t.heatmaps, player_info })
}

} // verus!
