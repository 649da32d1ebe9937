//! City districts: patches of grid cells that grow one cell at a time and,
//! once complete, seed new districts of another kind next to them.
use crate::chance::{random_below, random_ratio};
use crate::graph::Position;
use vstd::prelude::*;

verus! {

broadcast use {vstd::seq_lib::group_to_multiset_ensures, vstd::seq_lib::lemma_multiset_commutative};

/// The least size a district grows to.
pub const MAX_DISTRICT_SIZE: usize = 24;

/// A district's size limit is `MAX_DISTRICT_SIZE` plus a draw below this.
pub const DISTRICT_SIZE_SPREAD: usize = 40;

/// How many districts a complete district may seed.
pub const MAX_DERIVATIVES: u32 = 4;

/// Side of a district cell in world units; cell `(x, y)` is centred on
/// `(x * DISTRICT_CELL_SIZE, y * DISTRICT_CELL_SIZE)`.
pub const DISTRICT_CELL_SIZE: i64 = 50;

/// A station serves a cell when it stands within half a cell of the
/// cell's centre.
pub const SERVICE_RADIUS: i64 = 25;

/// Whether a station at `pos` serves the district cell `cell`.
pub open spec fn spec_serves(cell: Position, pos: Position) -> bool {
    let dx = cell.0 * DISTRICT_CELL_SIZE - pos.0;
    let dy = cell.1 * DISTRICT_CELL_SIZE - pos.1;
    dx * dx + dy * dy <= SERVICE_RADIUS * SERVICE_RADIUS
}

/// Whether a station at `pos` serves some cell of `cells`.
pub open spec fn spec_serves_any(cells: Seq<Position>, pos: Position) -> bool {
    exists|i: int| 0 <= i < cells.len() && #[trigger] spec_serves(cells[i], pos)
}

/// Whether a station at `pos` serves the district cell `cell`.
pub fn serves(cell: Position, pos: Position) -> (b: bool)
    ensures
        b == spec_serves(cell, pos),
{
    let dx: i64 = cell.0 as i64 * DISTRICT_CELL_SIZE - pos.0 as i64;
    let dy: i64 = cell.1 as i64 * DISTRICT_CELL_SIZE - pos.1 as i64;
    if dx < -SERVICE_RADIUS || dx > SERVICE_RADIUS || dy < -SERVICE_RADIUS || dy > SERVICE_RADIUS {
        assert(dx * dx + dy * dy > 625) by (nonlinear_arith)
            requires
                dx < -25 || dx > 25 || dy < -25 || dy > 25,
        ;
        return false;
    }
    assert(0 <= dx * dx <= 625 && 0 <= dy * dy <= 625) by (nonlinear_arith)
        requires
            -25 <= dx <= 25,
            -25 <= dy <= 25,
    ;
    dx * dx + dy * dy <= SERVICE_RADIUS * SERVICE_RADIUS
}

/// Whether a station at `pos` serves some cell of `cells`.
pub fn serves_any(cells: &Vec<Position>, pos: Position) -> (b: bool)
    ensures
        b == spec_serves_any(cells@, pos),
{
    let n = cells.len();
    for i in 0..n
        invariant
            n == cells@.len(),
            forall|j: int| 0 <= j < i ==> !spec_serves(cells@[j], pos),
    {
        if serves(cells[i], pos) {
            return true;
        }
    }
    false
}

/// What a district is for.
#[derive(Clone, Copy, PartialEq, Eq, Structural)]
pub enum DistrictType {
    Living,
    Work,
    Entertainment,
}

/// The kind of district that a district of kind `t` seeds; `turn` picks
/// between the two other kinds.
pub open spec fn spec_next_type(t: DistrictType, turn: bool) -> DistrictType {
    match t {
        DistrictType::Entertainment => if turn {
            DistrictType::Work
        } else {
            DistrictType::Living
        },
        DistrictType::Living => if turn {
            DistrictType::Work
        } else {
            DistrictType::Entertainment
        },
        DistrictType::Work => if turn {
            DistrictType::Entertainment
        } else {
            DistrictType::Living
        },
    }
}

/// The kind of district that a district of kind `t` seeds.
pub fn next_type(t: DistrictType, turn: bool) -> (r: DistrictType)
    ensures
        r == spec_next_type(t, turn),
        r != t,
{
    match t {
        DistrictType::Entertainment => if turn {
            DistrictType::Work
        } else {
            DistrictType::Living
        },
        DistrictType::Living => if turn {
            DistrictType::Work
        } else {
            DistrictType::Entertainment
        },
        DistrictType::Work => if turn {
            DistrictType::Entertainment
        } else {
            DistrictType::Living
        },
    }
}

/// A district.
pub struct District {
    /// The district's place in the map's list of districts.
    pub id: usize,
    pub district_type: DistrictType,
    pub is_completed: bool,
    pub derivatives_amount: u32,
    pub is_fertile: bool,
    pub cells: Vec<Position>,
    pub max_size: usize,
    /// Passengers who live here and have not yet left for a station.
    pub passenger_ids: Vec<usize>,
}

/// A district as plain values.
pub struct DistrictView {
    pub id: usize,
    pub district_type: DistrictType,
    pub is_completed: bool,
    pub derivatives_amount: u32,
    pub is_fertile: bool,
    pub cells: Seq<Position>,
    pub max_size: usize,
    pub passenger_ids: Seq<usize>,
}

impl District {
    pub open spec fn view(&self) -> DistrictView {
        DistrictView {
            id: self.id,
            district_type: self.district_type,
            is_completed: self.is_completed,
            derivatives_amount: self.derivatives_amount,
            is_fertile: self.is_fertile,
            cells: self.cells@,
            max_size: self.max_size,
            passenger_ids: self.passenger_ids@,
        }
    }

    /// A district of kind `district_type` made of the single cell `cell`.
    pub fn seeded(id: usize, district_type: DistrictType, cell: Position, is_fertile: bool, max_size: usize) -> (d: Self)
        ensures
            d@ == (DistrictView {
                id,
                district_type,
                is_completed: false,
                derivatives_amount: 0,
                is_fertile,
                cells: seq![cell],
                max_size,
                passenger_ids: Seq::empty(),
            }),
    {
        let mut cells: Vec<Position> = Vec::new();
        cells.push(cell);
        District {
            id,
            district_type,
            is_completed: false,
            derivatives_amount: 0,
            is_fertile,
            cells,
            max_size,
            passenger_ids: Vec::new(),
        }
    }
}

/// All districts and the cells they occupy.
pub struct DistrictMap {
    pub districts: Vec<District>,
    pub cells: Vec<Position>,
}

/// A district map as plain values.
pub struct DistrictMapView {
    pub districts: Seq<DistrictView>,
    pub cells: Seq<Position>,
}

/// The cells of all districts in `ds`, one district after the other.
pub open spec fn all_cells(ds: Seq<DistrictView>) -> Seq<Position>
    decreases ds.len(),
{
    if ds.len() == 0 {
        Seq::empty()
    } else {
        all_cells(ds.drop_last()) + ds.last().cells
    }
}

/// The map is consistent: each occupied cell is listed once, the cells of
/// all districts together are exactly the occupied cells (so each occupied
/// cell belongs to exactly one district), every district is no larger than
/// its limit, and each district's id is its place in the list.
pub open spec fn map_wf(m: DistrictMapView) -> bool {
    &&& m.cells.no_duplicates()
    &&& all_cells(m.districts).to_multiset() == m.cells.to_multiset()
    &&& forall|i: int|
        0 <= i < m.districts.len() ==> #[trigger] m.districts[i].cells.len()
            <= m.districts[i].max_size
    &&& forall|i: int| 0 <= i < m.districts.len() ==> #[trigger] m.districts[i].id == i
}

/// Every cell of `cells` lies strictly inside the coordinate range, so
/// that its four neighbours can be computed.
pub open spec fn strictly_inside(cells: Seq<Position>) -> bool {
    forall|i: int|
        0 <= i < cells.len() ==> {
            &&& i32::MIN < #[trigger] cells[i].0 < i32::MAX
            &&& i32::MIN < cells[i].1 < i32::MAX
        }
}

/// The first of the four neighbours of `c` (right, left, up, down) that is
/// not in `taken`.
pub open spec fn spec_free_neighbor(c: Position, taken: Seq<Position>) -> Option<Position> {
    let right = ((c.0 + 1) as i32, c.1);
    let left = ((c.0 - 1) as i32, c.1);
    let up = (c.0, (c.1 + 1) as i32);
    let down = (c.0, (c.1 - 1) as i32);
    if !taken.contains(right) {
        Some(right)
    } else if !taken.contains(left) {
        Some(left)
    } else if !taken.contains(up) {
        Some(up)
    } else if !taken.contains(down) {
        Some(down)
    } else {
        None
    }
}

/// For each cell of `cells` that has a free neighbour, that neighbour.
pub open spec fn border_of(cells: Seq<Position>, taken: Seq<Position>) -> Seq<Position>
    decreases cells.len(),
{
    if cells.len() == 0 {
        Seq::empty()
    } else {
        let rest = border_of(cells.drop_last(), taken);
        match spec_free_neighbor(cells.last(), taken) {
            Some(p) => rest.push(p),
            None => rest,
        }
    }
}

/// `m` after district `k` has taken the first free neighbour of its cells,
/// if there is one.
pub open spec fn grow_one(m: DistrictMapView, k: int) -> DistrictMapView {
    let b = border_of(m.districts[k].cells, m.cells);
    if b.len() == 0 {
        m
    } else {
        DistrictMapView {
            districts: m.districts.update(
                k,
                DistrictView { cells: m.districts[k].cells.push(b[0]), ..m.districts[k] },
            ),
            cells: m.cells.push(b[0]),
        }
    }
}

/// `m` after district `k` has been marked complete.
pub open spec fn complete(m: DistrictMapView, k: int) -> DistrictMapView {
    DistrictMapView {
        districts: m.districts.update(k, DistrictView { is_completed: true, ..m.districts[k] }),
        ..m
    }
}

/// One growth round from district `k` on: every unfinished district takes
/// one cell, until one that has reached its limit is found; that one is
/// marked complete and the round ends.
pub open spec fn grow_from(m: DistrictMapView, k: int) -> DistrictMapView
    decreases m.districts.len() - k,
{
    if k < 0 || k >= m.districts.len() {
        m
    } else if m.districts[k].is_completed {
        grow_from(m, k + 1)
    } else if m.districts[k].cells.len() >= m.districts[k].max_size {
        complete(m, k)
    } else {
        grow_from(grow_one(m, k), k + 1)
    }
}

/// Whether district `j` takes a cell in a growth round of `ds`: it is
/// unfinished and below its limit, and no unfinished district before it has
/// reached its limit (which would end the round).
pub open spec fn grows_in_round(ds: Seq<DistrictView>, j: int) -> bool {
    &&& !ds[j].is_completed
    &&& ds[j].cells.len() < ds[j].max_size
    &&& forall|i: int| 0 <= i < j ==> ds[i].is_completed || ds[i].cells.len() < ds[i].max_size
}

/// Whether a district may seed a new one.
pub open spec fn is_seeding(d: DistrictView) -> bool {
    d.is_completed && d.derivatives_amount < MAX_DERIVATIVES && d.is_fertile
}

/// Whether cells `a` and `b` share a side.
pub open spec fn adjacent(a: Position, b: Position) -> bool {
    ||| a.0 == b.0 + 1 && a.1 == b.1
    ||| a.0 == b.0 - 1 && a.1 == b.1
    ||| a.0 == b.0 && a.1 == b.1 + 1
    ||| a.0 == b.0 && a.1 == b.1 - 1
}

/// Whether cell `p` shares a side with a cell of `cells`.
pub open spec fn touches(p: Position, cells: Seq<Position>) -> bool {
    exists|j: int| 0 <= j < cells.len() && #[trigger] adjacent(p, cells[j])
}

/// How many of the first `k` districts of `ds` may seed a new one.
pub open spec fn seeding_before(ds: Seq<DistrictView>, k: int) -> nat
    decreases k,
{
    if k <= 0 {
        0
    } else {
        seeding_before(ds, k - 1) + if is_seeding(ds[k - 1]) {
            1nat
        } else {
            0nat
        }
    }
}

proof fn lemma_seeding_before_grows(ds: Seq<DistrictView>, i: int, j: int)
    requires
        0 <= i <= j,
    ensures
        seeding_before(ds, i) <= seeding_before(ds, j),
        i < j && is_seeding(ds[i]) ==> seeding_before(ds, i) < seeding_before(ds, j),
    decreases j - i,
{
    if i < j {
        lemma_seeding_before_grows(ds, i, j - 1);
        if is_seeding(ds[i]) && i == j - 1 {
        }
    }
}

/// Whether `p` is one of the first `n` cells of `v`.
fn taken_among(v: &Vec<Position>, p: Position) -> (b: bool)
    ensures
        b == v@.contains(p),
{
    let n = v.len();
    for i in 0..n
        invariant
            n == v@.len(),
            forall|j: int| 0 <= j < i ==> v@[j] != p,
    {
        if crate::graph::same_position(v[i], p) {
            return true;
        }
    }
    false
}

/// The first of the four neighbours of `c` that is not in `taken`.
pub fn free_neighbor(c: Position, taken: &Vec<Position>) -> (r: Option<Position>)
    requires
        i32::MIN < c.0 < i32::MAX,
        i32::MIN < c.1 < i32::MAX,
    ensures
        r == spec_free_neighbor(c, taken@),
{
    let right = (c.0 + 1, c.1);
    let left = (c.0 - 1, c.1);
    let up = (c.0, c.1 + 1);
    let down = (c.0, c.1 - 1);
    if !taken_among(taken, right) {
        Some(right)
    } else if !taken_among(taken, left) {
        Some(left)
    } else if !taken_among(taken, up) {
        Some(up)
    } else if !taken_among(taken, down) {
        Some(down)
    } else {
        None
    }
}

proof fn lemma_border_prefix(cells: Seq<Position>, taken: Seq<Position>, j: int)
    requires
        0 <= j <= cells.len(),
    ensures
        border_of(cells.take(j), taken).len() <= border_of(cells, taken).len(),
        forall|i: int|
            0 <= i < border_of(cells.take(j), taken).len() ==> #[trigger] border_of(
                cells.take(j),
                taken,
            )[i] == border_of(cells, taken)[i],
    decreases cells.len() - j,
{
    if j < cells.len() {
        lemma_border_prefix(cells, taken, j + 1);
        assert(cells.take(j + 1).drop_last() == cells.take(j));
        let short = border_of(cells.take(j), taken);
        let long = border_of(cells.take(j + 1), taken);
        assert forall|i: int| 0 <= i < short.len() implies #[trigger] short[i] == border_of(
            cells,
            taken,
        )[i] by {
            assert(short[i] == long[i]);
        }
    } else {
        assert(cells.take(j) == cells);
    }
}

proof fn lemma_all_cells_push(ds: Seq<DistrictView>, d: DistrictView)
    ensures
        all_cells(ds.push(d)) == all_cells(ds) + d.cells,
{
    assert(ds.push(d).drop_last() == ds);
}

proof fn lemma_all_cells_update(ds: Seq<DistrictView>, k: int, d: DistrictView, p: Position)
    requires
        0 <= k < ds.len(),
        d.cells == ds[k].cells.push(p),
    ensures
        all_cells(ds.update(k, d)).to_multiset() == all_cells(ds).to_multiset().insert(p),
    decreases ds.len(),
{
    let u = ds.update(k, d);
    if k == ds.len() - 1 {
        assert(u.drop_last() == ds.drop_last());
        assert(all_cells(u) == all_cells(ds.drop_last()) + ds[k].cells.push(p));
        assert(all_cells(ds.drop_last()) + ds[k].cells.push(p) == (all_cells(ds.drop_last())
            + ds[k].cells).push(p));
    } else {
        lemma_all_cells_update(ds.drop_last(), k, d, p);
        assert(u.drop_last() == ds.drop_last().update(k, d));
        assert(u.last() == ds.last());
    }
}

proof fn lemma_all_cells_same(ds: Seq<DistrictView>, k: int, d: DistrictView)
    requires
        0 <= k < ds.len(),
        d.cells == ds[k].cells,
    ensures
        all_cells(ds.update(k, d)) == all_cells(ds),
    decreases ds.len(),
{
    let u = ds.update(k, d);
    if k == ds.len() - 1 {
        assert(u.drop_last() == ds.drop_last());
    } else {
        lemma_all_cells_same(ds.drop_last(), k, d);
        assert(u.drop_last() == ds.drop_last().update(k, d));
    }
}

/// A border cell is free.
proof fn lemma_border_free(cells: Seq<Position>, taken: Seq<Position>, i: int)
    requires
        0 <= i < border_of(cells, taken).len(),
    ensures
        !taken.contains(border_of(cells, taken)[i]),
    decreases cells.len(),
{
    let rest = border_of(cells.drop_last(), taken);
    if i < rest.len() {
        lemma_border_free(cells.drop_last(), taken, i);
    }
}

/// A border cell of cells that lie strictly inside the coordinate range
/// shares a side with one of them.
proof fn lemma_border_cell(cells: Seq<Position>, taken: Seq<Position>, i: int)
    requires
        strictly_inside(cells),
        0 <= i < border_of(cells, taken).len(),
    ensures
        touches(border_of(cells, taken)[i], cells),
{
    assert(cells.take(cells.len() as int) == cells);
    lemma_border_cell_rec(cells, taken, cells.len() as int, i);
}

proof fn lemma_border_cell_rec(cells: Seq<Position>, taken: Seq<Position>, n: int, i: int)
    requires
        strictly_inside(cells),
        0 <= n <= cells.len(),
        0 <= i < border_of(cells.take(n), taken).len(),
    ensures
        touches(border_of(cells.take(n), taken)[i], cells),
    decreases n,
{
    let s = cells.take(n);
    if n > 0 {
        assert(s.drop_last() == cells.take(n - 1));
        let rest = border_of(cells.take(n - 1), taken);
        if i < rest.len() {
            lemma_border_cell_rec(cells, taken, n - 1, i);
        } else {
            let c = cells[n - 1];
            assert(i32::MIN < c.0 < i32::MAX);
            assert(i32::MIN < c.1 < i32::MAX);
            assert(s.last() == c);
            assert(adjacent(border_of(s, taken)[i], cells[n - 1]));
        }
    } else {
        assert(border_of(s, taken).len() == 0);
    }
}

/// Growing one unfinished district below its limit keeps the map
/// consistent.
proof fn lemma_grow_one_wf(m: DistrictMapView, k: int)
    requires
        map_wf(m),
        0 <= k < m.districts.len(),
        !m.districts[k].is_completed,
        m.districts[k].cells.len() < m.districts[k].max_size,
    ensures
        map_wf(grow_one(m, k)),
        grow_one(m, k).districts.len() == m.districts.len(),
{
    let b = border_of(m.districts[k].cells, m.cells);
    if b.len() > 0 {
        let p = b[0];
        lemma_border_free(m.districts[k].cells, m.cells, 0);
        let g = grow_one(m, k);
        let d = DistrictView { cells: m.districts[k].cells.push(p), ..m.districts[k] };
        lemma_all_cells_update(m.districts, k, d, p);
        assert(g.districts == m.districts.update(k, d));
        assert forall|i: int| 0 <= i < g.districts.len() implies #[trigger] g.districts[i].cells.len()
            <= g.districts[i].max_size by {
            if i == k {
            } else {
                assert(g.districts[i] == m.districts[i]);
            }
        }
        assert forall|i: int| 0 <= i < g.districts.len() implies #[trigger] g.districts[i].id == i by {
            if i != k {
                assert(g.districts[i] == m.districts[i]);
            }
        }
    }
}

/// Marking a district complete keeps the map consistent.
proof fn lemma_complete_wf(m: DistrictMapView, k: int)
    requires
        map_wf(m),
        0 <= k < m.districts.len(),
    ensures
        map_wf(complete(m, k)),
        complete(m, k).cells == m.cells,
{
    let c = complete(m, k);
    let d = DistrictView { is_completed: true, ..m.districts[k] };
    lemma_all_cells_same(m.districts, k, d);
    assert(c.districts == m.districts.update(k, d));
    assert forall|i: int| 0 <= i < c.districts.len() implies #[trigger] c.districts[i].cells.len()
        <= c.districts[i].max_size by {
        if i != k {
            assert(c.districts[i] == m.districts[i]);
        }
    }
    assert forall|i: int| 0 <= i < c.districts.len() implies #[trigger] c.districts[i].id == i by {
        if i != k {
            assert(c.districts[i] == m.districts[i]);
        }
    }
}

proof fn lemma_grow_from_wf(m: DistrictMapView, k: int)
    requires
        map_wf(m),
        0 <= k <= m.districts.len(),
    ensures
        map_wf(grow_from(m, k)),
    decreases m.districts.len() - k,
{
    if k < m.districts.len() {
        if m.districts[k].is_completed {
            lemma_grow_from_wf(m, k + 1);
        } else if m.districts[k].cells.len() >= m.districts[k].max_size {
            lemma_complete_wf(m, k);
        } else {
            lemma_grow_one_wf(m, k);
            lemma_grow_from_wf(grow_one(m, k), k + 1);
        }
    }
}

/// A growth round keeps the district map consistent: every occupied cell
/// is listed once and belongs to exactly one district, and no district
/// outgrows its limit.
pub proof fn law_growth_keeps_map_consistent(m: DistrictMapView)
    requires
        map_wf(m),
    ensures
        map_wf(grow_from(m, 0)),
{
    lemma_grow_from_wf(m, 0);
}

/// Whether district `j` ends a growth round of `ds` that is at district
/// `k`: it is the first unfinished district from `k` on that has reached
/// its limit.
pub open spec fn ends_round(ds: Seq<DistrictView>, k: int, j: int) -> bool {
    &&& k <= j < ds.len()
    &&& !ds[j].is_completed
    &&& ds[j].cells.len() >= ds[j].max_size
    &&& forall|i: int| k <= i < j ==> ds[i].is_completed || ds[i].cells.len() < ds[i].max_size
}

/// No district is larger than its limit.
pub open spec fn within_limits(ds: Seq<DistrictView>) -> bool {
    forall|j: int| 0 <= j < ds.len() ==> #[trigger] ds[j].cells.len() <= ds[j].max_size
}

/// What a growth round from district `k` on does to each district.
pub open spec fn round_effect(m: DistrictMapView, g: DistrictMapView, k: int) -> bool {
    &&& g.districts.len() == m.districts.len()
    &&& g.cells.len() >= m.cells.len()
    &&& g.cells.take(m.cells.len() as int) == m.cells
    &&& forall|j: int| 0 <= j < k && j < m.districts.len() ==> #[trigger] g.districts[j] == m.districts[j]
    &&& forall|j: int|
        k <= j < m.districts.len() ==> {
            let o = m.districts[j];
            let d = #[trigger] g.districts[j];
            &&& d == (DistrictView { cells: d.cells, is_completed: d.is_completed, ..o })
            &&& d.cells.take(o.cells.len() as int) == o.cells
            &&& d.cells.len() <= o.cells.len() + 1
            &&& d.cells.len() <= d.max_size
            &&& d.is_completed == (o.is_completed || ends_round(m.districts, k, j))
            &&& o.is_completed ==> d == o
            &&& ends_round(m.districts, k, j) ==> d.cells == o.cells
        }
    &&& forall|s: int, j: int|
        #[trigger] ends_round(m.districts, k, s) && s < j < m.districts.len() ==> #[trigger] g.districts[j]
            == m.districts[j]
}

proof fn lemma_round_effect(m: DistrictMapView, k: int)
    requires
        0 <= k <= m.districts.len(),
        within_limits(m.districts),
    ensures
        round_effect(m, grow_from(m, k), k),
    decreases m.districts.len() - k,
{
    let n = m.districts.len() as int;
    let ds = m.districts;
    if k == n {
        assert(m.cells.take(m.cells.len() as int) == m.cells);
        return;
    }
    let g = grow_from(m, k);
    if ds[k].is_completed {
        lemma_round_effect(m, k + 1);
        assert forall|j: int| k + 1 <= j < n implies ends_round(ds, k, j) == ends_round(ds, k + 1, j) by {
            if ends_round(ds, k + 1, j) {
                assert forall|i: int| k <= i < j implies ds[i].is_completed || ds[i].cells.len() < ds[i].max_size by {
                    if i > k {
                        assert(k + 1 <= i < j);
                    }
                }
            }
        }
        assert(!ends_round(ds, k, k));
        assert forall|j: int| 0 <= j < k && j < n implies #[trigger] g.districts[j] == ds[j] by {}
        assert forall|j: int| k <= j < n implies ({
            let o = ds[j];
            let e = #[trigger] g.districts[j];
            &&& e == (DistrictView { cells: e.cells, is_completed: e.is_completed, ..o })
            &&& e.cells.take(o.cells.len() as int) == o.cells
            &&& e.cells.len() <= o.cells.len() + 1
            &&& e.cells.len() <= e.max_size
            &&& e.is_completed == (o.is_completed || ends_round(ds, k, j))
            &&& o.is_completed ==> e == o
            &&& ends_round(ds, k, j) ==> e.cells == o.cells
        }) by {
            if j == k {
                assert(g.districts[k] == ds[k]);
                assert(ds[k].cells.take(ds[k].cells.len() as int) == ds[k].cells);
            }
        }
        assert forall|s: int, j: int| #[trigger] ends_round(ds, k, s) && s < j < n implies #[trigger] g.districts[j]
            == ds[j] by {
            assert(s != k);
            assert(ends_round(ds, k + 1, s));
        }
    } else if ds[k].cells.len() >= ds[k].max_size {
        let d = DistrictView { is_completed: true, ..ds[k] };
        assert(g.districts == ds.update(k, d));
        assert(g.cells == m.cells);
        assert(m.cells.take(m.cells.len() as int) == m.cells);
        assert(ends_round(ds, k, k));
        assert forall|j: int| k < j < n implies !ends_round(ds, k, j) by {
            assert(!(ds[k].is_completed || ds[k].cells.len() < ds[k].max_size));
        }
        assert forall|j: int| k <= j < n implies ({
            let o = ds[j];
            let e = #[trigger] g.districts[j];
            &&& e == (DistrictView { cells: e.cells, is_completed: e.is_completed, ..o })
            &&& e.cells.take(o.cells.len() as int) == o.cells
            &&& e.cells.len() <= o.cells.len() + 1
            &&& e.cells.len() <= e.max_size
            &&& e.is_completed == (o.is_completed || ends_round(ds, k, j))
            &&& o.is_completed ==> e == o
            &&& ends_round(ds, k, j) ==> e.cells == o.cells
        }) by {
            assert(ds[j].cells.take(ds[j].cells.len() as int) == ds[j].cells);
        }
        assert forall|s: int, j: int| #[trigger] ends_round(ds, k, s) && s < j < n implies #[trigger] g.districts[j]
            == ds[j] by {
            if s > k {
                assert(!ends_round(ds, k, s));
            }
        }
    } else {
        let m1 = grow_one(m, k);
        let b = border_of(ds[k].cells, m.cells);
        let d1 = if b.len() == 0 {
            ds[k]
        } else {
            DistrictView { cells: ds[k].cells.push(b[0]), ..ds[k] }
        };
        assert(m1.districts == ds.update(k, d1));
        assert(m1.cells.take(m.cells.len() as int) == m.cells);
        assert(ds[k].cells.take(ds[k].cells.len() as int) == ds[k].cells);
        assert(d1.cells.take(ds[k].cells.len() as int) == ds[k].cells);
        assert(within_limits(m1.districts)) by {
            assert forall|j: int| 0 <= j < m1.districts.len() implies #[trigger] m1.districts[j].cells.len()
                <= m1.districts[j].max_size by {
                if j != k {
                    assert(m1.districts[j] == ds[j]);
                }
            }
        }
        lemma_round_effect(m1, k + 1);
        assert(g == grow_from(m1, k + 1));
        let ds1 = m1.districts;
        assert forall|j: int| k + 1 <= j < n implies ends_round(ds, k, j) == ends_round(ds1, k + 1, j) by {
            assert forall|i: int| k + 1 <= i < n implies ds1[i] == ds[i] by {}
            if ends_round(ds1, k + 1, j) {
                assert forall|i: int| k <= i < j implies ds[i].is_completed || ds[i].cells.len() < ds[i].max_size by {
                    if i > k {
                        assert(ds1[i] == ds[i]);
                        assert(k + 1 <= i < j);
                    }
                }
            }
            if ends_round(ds, k, j) {
                assert forall|i: int| k + 1 <= i < j implies ds1[i].is_completed || ds1[i].cells.len()
                    < ds1[i].max_size by {
                    assert(ds1[i] == ds[i]);
                }
            }
        }
        assert(!ends_round(ds, k, k));
        assert(g.cells.take(m1.cells.len() as int) == m1.cells);
        assert(g.cells.take(m.cells.len() as int) =~= m.cells) by {
            assert(m1.cells.len() >= m.cells.len());
            assert forall|i: int| 0 <= i < m.cells.len() implies g.cells[i] == m.cells[i] by {
                assert(g.cells.take(m1.cells.len() as int)[i] == m1.cells[i]);
                assert(m1.cells.take(m.cells.len() as int)[i] == m.cells[i]);
            }
        }
        assert forall|j: int| 0 <= j < k && j < n implies #[trigger] g.districts[j] == ds[j] by {
            assert(g.districts[j] == ds1[j]);
        }
        assert forall|j: int| k <= j < n implies ({
            let o = ds[j];
            let e = #[trigger] g.districts[j];
            &&& e == (DistrictView { cells: e.cells, is_completed: e.is_completed, ..o })
            &&& e.cells.take(o.cells.len() as int) == o.cells
            &&& e.cells.len() <= o.cells.len() + 1
            &&& e.cells.len() <= e.max_size
            &&& e.is_completed == (o.is_completed || ends_round(ds, k, j))
            &&& o.is_completed ==> e == o
            &&& ends_round(ds, k, j) ==> e.cells == o.cells
        }) by {
            if j == k {
                assert(g.districts[k] == ds1[k]);
            } else {
                assert(ds1[j] == ds[j]);
            }
        }
        assert forall|s: int, j: int| #[trigger] ends_round(ds, k, s) && s < j < n implies #[trigger] g.districts[j]
            == ds[j] by {
            assert(s != k);
            assert(ends_round(ds1, k + 1, s));
            assert(ds1[j] == ds[j]);
        }
    }
}

/// What a growth round does to each district: its old cells stay, in
/// order, at the front of its cells and it gains at most one cell, never
/// past its limit; its other fields stay; a finished district is
/// untouched; the first unfinished district that has reached its limit is
/// marked complete instead of growing, and the round ends there, leaving
/// the districts after it untouched; the occupied cells only grow at their
/// end.
pub proof fn law_growth_round(m: DistrictMapView)
    requires
        within_limits(m.districts),
    ensures
        round_effect(m, grow_from(m, 0), 0),
{
    lemma_round_effect(m, 0);
}

/// The four neighbours of cell `c`, in the order they are tried: right,
/// left, up, down.
pub open spec fn neighbours(c: Position) -> Seq<Position> {
    seq![
        ((c.0 + 1) as i32, c.1),
        ((c.0 - 1) as i32, c.1),
        (c.0, (c.1 + 1) as i32),
        (c.0, (c.1 - 1) as i32),
    ]
}

/// All four neighbours of `c` are in `taken`.
pub open spec fn hemmed_in(c: Position, taken: Seq<Position>) -> bool {
    forall|i: int| 0 <= i < 4 ==> taken.contains(#[trigger] neighbours(c)[i])
}

/// The cells that districts `k` up to (not including) `j` of `m` have
/// gained in `g`, district after district.
pub open spec fn gained_between(m: DistrictMapView, g: DistrictMapView, k: int, j: int) -> Seq<Position>
    decreases j - k,
{
    if k >= j {
        Seq::empty()
    } else {
        g.districts[k].cells.skip(m.districts[k].cells.len() as int) + gained_between(m, g, k + 1, j)
    }
}

/// District `j` takes part in a growth round that has got to district `k`.
spec fn grows_from(ds: Seq<DistrictView>, k: int, j: int) -> bool {
    &&& !ds[j].is_completed
    &&& ds[j].cells.len() < ds[j].max_size
    &&& forall|i: int| k <= i < j ==> ds[i].is_completed || ds[i].cells.len() < ds[i].max_size
}

spec fn step_cells(cs: Seq<Position>, taken: Seq<Position>) -> Seq<Position> {
    let b = border_of(cs, taken);
    if b.len() == 0 {
        cs
    } else {
        cs.push(b[0])
    }
}

proof fn lemma_free_neighbor_first(c: Position, t: Seq<Position>)
    ensures
        (spec_free_neighbor(c, t) is None) == hemmed_in(c, t),
        forall|i: int|
            0 <= i < 4 && !t.contains(#[trigger] neighbours(c)[i]) && (forall|i2: int|
                0 <= i2 < i ==> t.contains(neighbours(c)[i2])) ==> spec_free_neighbor(c, t) == Some(
                neighbours(c)[i],
            ),
{
    let nb = neighbours(c);
    assert(nb[0] == ((c.0 + 1) as i32, c.1));
    assert(nb[1] == ((c.0 - 1) as i32, c.1));
    assert(nb[2] == (c.0, (c.1 + 1) as i32));
    assert(nb[3] == (c.0, (c.1 - 1) as i32));
    if hemmed_in(c, t) {
        assert(t.contains(nb[0]) && t.contains(nb[1]) && t.contains(nb[2]) && t.contains(nb[3]));
    }
    if spec_free_neighbor(c, t) is None {
        assert forall|i: int| 0 <= i < 4 implies t.contains(#[trigger] neighbours(c)[i]) by {
            if i == 0 {} else if i == 1 {} else if i == 2 {} else {}
        }
    }
    assert forall|i: int|
        0 <= i < 4 && !t.contains(#[trigger] neighbours(c)[i]) && (forall|i2: int|
            0 <= i2 < i ==> t.contains(neighbours(c)[i2])) implies spec_free_neighbor(c, t) == Some(
        neighbours(c)[i],
    ) by {
        if i >= 1 {
            assert(t.contains(nb[0]));
        }
        if i >= 2 {
            assert(t.contains(nb[1]));
        }
        if i >= 3 {
            assert(t.contains(nb[2]));
        }
    }
}

proof fn lemma_border_all_hemmed(cs: Seq<Position>, t: Seq<Position>)
    requires
        forall|c: int| 0 <= c < cs.len() ==> hemmed_in(#[trigger] cs[c], t),
    ensures
        border_of(cs, t).len() == 0,
    decreases cs.len(),
{
    if cs.len() > 0 {
        let d = cs.drop_last();
        assert forall|c: int| 0 <= c < d.len() implies hemmed_in(#[trigger] d[c], t) by {
            assert(d[c] == cs[c]);
        }
        lemma_border_all_hemmed(d, t);
        assert(hemmed_in(cs[cs.len() - 1], t));
        lemma_free_neighbor_first(cs.last(), t);
    }
}

proof fn lemma_border_first_free(cs: Seq<Position>, t: Seq<Position>, c: int)
    requires
        0 <= c < cs.len(),
        forall|c2: int| 0 <= c2 < c ==> hemmed_in(#[trigger] cs[c2], t),
        !hemmed_in(cs[c], t),
    ensures
        border_of(cs, t).len() > 0,
        spec_free_neighbor(cs[c], t) is Some,
        border_of(cs, t)[0] == spec_free_neighbor(cs[c], t)->0,
    decreases cs.len(),
{
    let d = cs.drop_last();
    lemma_free_neighbor_first(cs[c], t);
    lemma_free_neighbor_first(cs.last(), t);
    if c == cs.len() - 1 {
        assert forall|c2: int| 0 <= c2 < d.len() implies hemmed_in(#[trigger] d[c2], t) by {
            assert(d[c2] == cs[c2]);
        }
        lemma_border_all_hemmed(d, t);
    } else {
        assert forall|c2: int| 0 <= c2 < c implies hemmed_in(#[trigger] d[c2], t) by {
            assert(d[c2] == cs[c2]);
        }
        assert(d[c] == cs[c]);
        lemma_border_first_free(d, t, c);
    }
}

proof fn lemma_grow_one_within(m: DistrictMapView, k: int)
    requires
        0 <= k < m.districts.len(),
        within_limits(m.districts),
        m.districts[k].cells.len() < m.districts[k].max_size,
    ensures
        within_limits(grow_one(m, k).districts),
        grow_one(m, k).districts.len() == m.districts.len(),
        forall|i: int| 0 <= i < m.districts.len() && i != k ==> #[trigger] grow_one(m, k).districts[i] == m.districts[i],
        grow_one(m, k).districts[k] == (DistrictView {
            cells: step_cells(m.districts[k].cells, m.cells),
            ..m.districts[k]
        }),
        grow_one(m, k).cells == m.cells + step_cells(m.districts[k].cells, m.cells).skip(
            m.districts[k].cells.len() as int,
        ),
{
    let m1 = grow_one(m, k);
    let cs = m.districts[k].cells;
    let b = border_of(cs, m.cells);
    if b.len() == 0 {
        assert(cs.skip(cs.len() as int) =~= Seq::<Position>::empty());
        assert(m.cells + Seq::<Position>::empty() =~= m.cells);
    } else {
        assert(cs.push(b[0]).skip(cs.len() as int) =~= seq![b[0]]);
        assert(m.cells + seq![b[0]] =~= m.cells.push(b[0]));
    }
    assert forall|j: int| 0 <= j < m1.districts.len() implies #[trigger] m1.districts[j].cells.len()
        <= m1.districts[j].max_size by {
        if j != k {
            assert(m1.districts[j] == m.districts[j]);
        }
    }
}

proof fn lemma_gained_same(m: DistrictMapView, m1: DistrictMapView, g: DistrictMapView, k: int, j: int)
    requires
        forall|i: int| k <= i < j ==> #[trigger] m.districts[i].cells.len() == m1.districts[i].cells.len(),
    ensures
        gained_between(m, g, k, j) == gained_between(m1, g, k, j),
    decreases j - k,
{
    if k < j {
        lemma_gained_same(m, m1, g, k + 1, j);
        assert(m.districts[k].cells.len() == m1.districts[k].cells.len());
    }
}

proof fn lemma_growth_step(m: DistrictMapView, k: int, j: int)
    requires
        0 <= k <= j < m.districts.len(),
        within_limits(m.districts),
        grows_from(m.districts, k, j),
    ensures
        grow_from(m, k).districts[j].cells == step_cells(
            m.districts[j].cells,
            m.cells + gained_between(m, grow_from(m, k), k, j),
        ),
    decreases j - k,
{
    let ds = m.districts;
    let g = grow_from(m, k);
    if ds[k].is_completed {
        assert(k < j);
        lemma_round_effect(m, k + 1);
        assert(g == grow_from(m, k + 1));
        assert(g.districts[k] == ds[k]);
        lemma_growth_step(m, k + 1, j);
        assert(g.districts[k].cells.skip(ds[k].cells.len() as int) =~= Seq::<Position>::empty());
        assert(gained_between(m, g, k, j) =~= gained_between(m, g, k + 1, j));
    } else {
        assert(ds[k].cells.len() < ds[k].max_size);
        let m1 = grow_one(m, k);
        lemma_grow_one_within(m, k);
        lemma_round_effect(m1, k + 1);
        assert(g == grow_from(m1, k + 1));
        assert(g.districts[k] == m1.districts[k]);
        if j == k {
            assert(gained_between(m, g, k, k) =~= Seq::<Position>::empty());
            assert(m.cells + Seq::<Position>::empty() =~= m.cells);
        } else {
            assert(grows_from(m1.districts, k + 1, j)) by {
                assert(m1.districts[j] == ds[j]);
                assert forall|i: int| k + 1 <= i < j implies m1.districts[i].is_completed
                    || m1.districts[i].cells.len() < m1.districts[i].max_size by {
                    assert(m1.districts[i] == ds[i]);
                }
            }
            lemma_growth_step(m1, k + 1, j);
            assert(m1.districts[j] == ds[j]);
            assert forall|i: int| k + 1 <= i < j implies #[trigger] m.districts[i].cells.len()
                == m1.districts[i].cells.len() by {
                assert(m1.districts[i] == ds[i]);
            }
            lemma_gained_same(m, m1, g, k + 1, j);
            let a = step_cells(ds[k].cells, m.cells).skip(ds[k].cells.len() as int);
            assert(g.districts[k].cells.skip(ds[k].cells.len() as int) == a);
            assert(gained_between(m, g, k, j) == a + gained_between(m, g, k + 1, j));
            assert(m1.cells + gained_between(m1, g, k + 1, j) =~= m.cells + gained_between(m, g, k, j));
        }
    }
}

/// In a growth round each district that takes part (unfinished, below its
/// limit, and reached before the round ends) grows by the first free cell
/// round its cells: its cells are tried in order, and each cell's
/// neighbours in the order right, left, up, down; a cell counts as taken
/// when it was occupied before the round or was gained earlier in the
/// round by a district before it. A district all of whose cells are hemmed
/// in keeps its cells.
pub proof fn law_growth_takes_first_free_cell(m: DistrictMapView, j: int)
    requires
        within_limits(m.districts),
        0 <= j < m.districts.len(),
        grows_in_round(m.districts, j),
    ensures
        ({
            let g = grow_from(m, 0);
            let t = m.cells + gained_between(m, g, 0, j);
            let cs = m.districts[j].cells;
            &&& (forall|c: int| 0 <= c < cs.len() ==> hemmed_in(#[trigger] cs[c], t)) ==> g.districts[j].cells
                == cs
            &&& forall|c: int, i: int|
                0 <= c < cs.len() && 0 <= i < 4 && (forall|c2: int|
                    0 <= c2 < c ==> hemmed_in(#[trigger] cs[c2], t)) && !t.contains(
                    #[trigger] neighbours(cs[c])[i],
                ) && (forall|i2: int| 0 <= i2 < i ==> t.contains(neighbours(cs[c])[i2]))
                    ==> g.districts[j].cells == cs.push(neighbours(cs[c])[i])
        }),
{
    lemma_growth_step(m, 0, j);
    let g = grow_from(m, 0);
    let t = m.cells + gained_between(m, g, 0, j);
    let cs = m.districts[j].cells;
    if forall|c: int| 0 <= c < cs.len() ==> hemmed_in(#[trigger] cs[c], t) {
        lemma_border_all_hemmed(cs, t);
    }
    assert forall|c: int, i: int|
        0 <= c < cs.len() && 0 <= i < 4 && (forall|c2: int|
            0 <= c2 < c ==> hemmed_in(#[trigger] cs[c2], t)) && !t.contains(
            #[trigger] neighbours(cs[c])[i],
        ) && (forall|i2: int| 0 <= i2 < i ==> t.contains(neighbours(cs[c])[i2]))
        implies g.districts[j].cells == cs.push(neighbours(cs[c])[i]) by {
        assert(!hemmed_in(cs[c], t));
        lemma_border_first_free(cs, t, c);
        lemma_free_neighbor_first(cs[c], t);
    }
}

/// A seeded district is of one of the two other kinds, and the coin picks
/// between them: the two outcomes differ.
pub proof fn law_seeded_kind_differs(t: DistrictType)
    ensures
        spec_next_type(t, true) != t,
        spec_next_type(t, false) != t,
        spec_next_type(t, true) != spec_next_type(t, false),
{
}

impl DistrictMap {
    pub open spec fn view(&self) -> DistrictMapView {
        DistrictMapView {
            districts: self.districts@.map_values(|d: District| d@),
            cells: self.cells@,
        }
    }

    /// An empty map.
    pub fn new() -> (m: Self)
        ensures
            m@.districts.len() == 0,
            m@.cells.len() == 0,
            map_wf(m@),
    {
        let m = DistrictMap { districts: Vec::new(), cells: Vec::new() };
        assert(m@.districts == Seq::<DistrictView>::empty());
        m
    }

    /// The cells that district `k` could grow into: for each of its cells
    /// that has a free neighbour, the first such neighbour.
    pub fn border_points(&self, k: usize) -> (b: Vec<Position>)
        requires
            map_wf(self@),
            k < self.districts@.len(),
            strictly_inside(self@.districts[k as int].cells),
        ensures
            b@ == border_of(self@.districts[k as int].cells, self@.cells),
    {
        let d = &self.districts[k];
        let mut b: Vec<Position> = Vec::new();
        let n = d.cells.len();
        assert(self@.districts[k as int] == d@);
        for i in 0..n
            invariant
                n == d.cells@.len(),
                d@ == self@.districts[k as int],
                map_wf(self@),
                k < self.districts@.len(),
                strictly_inside(d.cells@),
                b@ == border_of(d.cells@.take(i as int), self.cells@),
        {
            assert(i32::MIN < d.cells@[i as int].0 < i32::MAX);
            assert(d.cells@.take(i + 1).drop_last() == d.cells@.take(i as int));
            match free_neighbor(d.cells[i], &self.cells) {
                Some(p) => b.push(p),
                None => {},
            }
        }
        assert(d.cells@.take(n as int) == d.cells@);
        b
    }

    /// One growth round: each unfinished district, in order, takes the
    /// first free neighbour of its cells; the round stops at the first
    /// unfinished district that has reached its limit, which is marked
    /// complete. The cells of each district that grows must lie strictly
    /// inside the coordinate range, so that their neighbours exist.
    pub fn grow_districts(&mut self)
        requires
            map_wf(old(self)@),
            forall|j: int|
                0 <= j < old(self)@.districts.len() && #[trigger] grows_in_round(
                    old(self)@.districts,
                    j,
                ) ==> strictly_inside(old(self)@.districts[j].cells),
        ensures
            final(self)@ == grow_from(old(self)@, 0),
            map_wf(final(self)@),
            round_effect(old(self)@, final(self)@, 0),
    {
        proof {
            lemma_grow_from_wf(self@, 0);
            lemma_round_effect(self@, 0);
        }
        let n = self.districts.len();
        for k in 0..n
            invariant
                n == self@.districts.len(),
                grow_from(self@, k as int) == grow_from(old(self)@, 0),
                round_effect(old(self)@, grow_from(old(self)@, 0), 0),
                map_wf(self@),
                forall|j: int| k <= j < n ==> #[trigger] self@.districts[j] == old(self)@.districts[j],
                forall|i: int|
                    0 <= i < k ==> old(self)@.districts[i].is_completed || old(
                        self,
                    )@.districts[i].cells.len() < old(self)@.districts[i].max_size,
                forall|j: int|
                    0 <= j < n && #[trigger] grows_in_round(old(self)@.districts, j)
                        ==> strictly_inside(old(self)@.districts[j].cells),
        {
            let ghost before = self@;
            assert(self@.districts[k as int] == old(self)@.districts[k as int]);
            if !self.districts[k].is_completed {
                if self.districts[k].cells.len() >= self.districts[k].max_size {
                    self.districts[k].is_completed = true;
                    assert(self@.districts == complete(before, k as int).districts);
                    assert(self@ == complete(before, k as int));
                    assert(self@ == grow_from(before, k as int));
                    proof {
                        lemma_complete_wf(before, k as int);
                    }
                    return;
                }
                proof {
                    lemma_grow_one_wf(before, k as int);
                    assert(grows_in_round(old(self)@.districts, k as int));
                }
                let b = self.border_points(k);
                if b.len() > 0 {
                    let p = b[0];
                    self.cells.push(p);
                    self.districts[k].cells.push(p);
                    assert(self@.districts == grow_one(before, k as int).districts);
                }
                assert(self@ == grow_one(before, k as int));
            }
            assert forall|j: int| k + 1 <= j < n implies #[trigger] self@.districts[j] == old(
                self,
            )@.districts[j] by {
                assert(self@.districts[j] == before.districts[j]);
            }
        }
    }

    /// Adds a district of one cell, `cell`. The map stays consistent when
    /// that cell was free.
    pub fn add_district(&mut self, district_type: DistrictType, cell: Position, is_fertile: bool, max_size: usize)
        requires
            map_wf(old(self)@),
            max_size >= 1,
        ensures
            !old(self)@.cells.contains(cell) ==> map_wf(final(self)@),
            final(self)@.districts == old(self)@.districts.push(
                DistrictView {
                    id: old(self)@.districts.len() as usize,
                    district_type,
                    is_completed: false,
                    derivatives_amount: 0,
                    is_fertile,
                    cells: seq![cell],
                    max_size,
                    passenger_ids: Seq::empty(),
                },
            ),
            final(self)@.cells == old(self)@.cells.push(cell),
    {
        let ghost before = self@;
        let id = self.districts.len();
        let d = District::seeded(id, district_type, cell, is_fertile, max_size);
        self.cells.push(cell);
        self.districts.push(d);
        assert(self@.districts == before.districts.push(d@));
        proof {
            lemma_all_cells_push(before.districts, d@);
            assert(seq![cell] == Seq::<Position>::empty().push(cell));
            assert(all_cells(self@.districts) == all_cells(before.districts) + seq![cell]);
            assert(all_cells(self@.districts) == all_cells(before.districts).push(cell));
            assert forall|i: int| 0 <= i < self@.districts.len() implies #[trigger] self@.districts[i].cells.len()
                <= self@.districts[i].max_size by {
                if i < before.districts.len() {
                    assert(self@.districts[i] == before.districts[i]);
                }
            }
            assert forall|i: int| 0 <= i < self@.districts.len() implies #[trigger] self@.districts[i].id == i by {
                if i < before.districts.len() {
                    assert(self@.districts[i] == before.districts[i]);
                }
            }
        }
    }

    /// Starts the first district of a game: a living district on the cell
    /// at the origin, with a size limit drawn at random. The map stays
    /// consistent when the origin was free.
    pub fn test_gen_district(&mut self)
        requires
            map_wf(old(self)@),
        ensures
            !old(self)@.cells.contains((0i32, 0i32)) ==> map_wf(final(self)@),
            final(self)@.cells == old(self)@.cells.push((0i32, 0i32)),
            final(self)@.districts.len() == old(self)@.districts.len() + 1,
            final(self)@.districts.drop_last() == old(self)@.districts,
            ({
                let d = final(self)@.districts.last();
                &&& d.id == old(self)@.districts.len()
                &&& d.district_type == DistrictType::Living
                &&& !d.is_completed
                &&& d.derivatives_amount == 0
                &&& d.is_fertile
                &&& d.cells == seq![(0i32, 0i32)]
                &&& MAX_DISTRICT_SIZE <= d.max_size < MAX_DISTRICT_SIZE + DISTRICT_SIZE_SPREAD
                &&& d.passenger_ids.len() == 0
            }),
    {
        let extra = random_below(0, DISTRICT_SIZE_SPREAD);
        let count = self.districts.len();
        assert(self@.districts.len() == count);
        self.add_district(DistrictType::Living, (0, 0), true, MAX_DISTRICT_SIZE + extra);
        assert(self@.districts.drop_last() == old(self)@.districts);
    }

    /// District `k` seeds a district next to it, given the outcome of the
    /// draws: `turn` picks its kind among the two others, `pick` the border
    /// cell it starts on, `fertile` whether it may seed in turn, and `extra`
    /// what its size limit adds to `MAX_DISTRICT_SIZE`. Returns `false`, and
    /// changes nothing, when district `k` has no free border cell.
    pub fn seed_from(&mut self, k: usize, turn: bool, pick: usize, fertile: bool, extra: usize) -> (seeded: bool)
        requires
            map_wf(old(self)@),
            k < old(self)@.districts.len(),
            strictly_inside(old(self)@.districts[k as int].cells),
            border_of(old(self)@.districts[k as int].cells, old(self)@.cells).len() > 0 ==> pick
                < border_of(old(self)@.districts[k as int].cells, old(self)@.cells).len(),
            extra <= usize::MAX - MAX_DISTRICT_SIZE,
        ensures
            map_wf(final(self)@),
            seeded == (border_of(old(self)@.districts[k as int].cells, old(self)@.cells).len() > 0),
            !seeded ==> final(self)@ == old(self)@,
            seeded ==> ({
                let cell = border_of(old(self)@.districts[k as int].cells, old(self)@.cells)[pick as int];
                &&& final(self)@.cells == old(self)@.cells.push(cell)
                &&& final(self)@.districts == old(self)@.districts.push(
                    DistrictView {
                        id: old(self)@.districts.len() as usize,
                        district_type: spec_next_type(old(self)@.districts[k as int].district_type, turn),
                        is_completed: false,
                        derivatives_amount: 0,
                        is_fertile: fertile,
                        cells: seq![cell],
                        max_size: (MAX_DISTRICT_SIZE + extra) as usize,
                        passenger_ids: Seq::empty(),
                    },
                )
            }),
    {
        let b = self.border_points(k);
        if b.len() == 0 {
            return false;
        }
        let cell = b[pick];
        proof {
            lemma_border_free(self@.districts[k as int].cells, self@.cells, pick as int);
        }
        assert(self@.districts[k as int] == self.districts@[k as int]@);
        let kind = next_type(self.districts[k].district_type, turn);
        self.add_district(kind, cell, fertile, MAX_DISTRICT_SIZE + extra);
        true
    }

    /// Lets every complete, fertile district that has seeded fewer than
    /// `MAX_DERIVATIVES` districts seed one more, in order: its count goes
    /// up, and a district of another kind appears on one of its border
    /// cells, drawn at random, with a random size limit and a 7 in 10
    /// chance of being fertile itself. The round ends early at the first
    /// such district that has no free border cell (its count still goes
    /// up). The `e` new districts come from the first `e` seeding districts,
    /// in order. The cells of each district that may seed must lie strictly
    /// inside the coordinate range, so that their neighbours exist. The
    /// seeding itself, and what each draw decides of the new district, is
    /// `seed_from`.
    #[verifier::spinoff_prover]
    pub fn start_new_districts(&mut self)
        requires
            map_wf(old(self)@),
            forall|j: int|
                0 <= j < old(self)@.districts.len() && is_seeding(#[trigger] old(self)@.districts[j])
                    ==> strictly_inside(old(self)@.districts[j].cells),
        ensures
            map_wf(final(self)@),
            ({
                let o = old(self)@.districts;
                let f = final(self)@.districts;
                let n = o.len() as int;
                let e = f.len() - n;
                &&& n <= f.len()
                &&& e <= seeding_before(o, n)
                &&& forall|i: int|
                    0 <= i < n ==> {
                        let d = #[trigger] f[i];
                        &&& d == (DistrictView { derivatives_amount: d.derivatives_amount, ..o[i] })
                        &&& d.derivatives_amount == o[i].derivatives_amount + if is_seeding(o[i])
                            && seeding_before(o, i) <= e {
                            1int
                        } else {
                            0int
                        }
                    }
                &&& forall|i: int|
                    0 <= i < n && is_seeding(o[i]) && #[trigger] seeding_before(o, i) < e ==> {
                        let d = f[n + seeding_before(o, i)];
                        &&& d.district_type != o[i].district_type
                        &&& touches(d.cells[0], o[i].cells)
                        &&& border_of(
                            o[i].cells,
                            final(self)@.cells.take((old(self)@.cells.len() + seeding_before(o, i)) as int),
                        ).contains(d.cells[0])
                    }
                &&& forall|i: int|
                    0 <= i < n && is_seeding(o[i]) && #[trigger] seeding_before(o, i) == e && e
                        < seeding_before(o, n) ==> border_of(o[i].cells, final(self)@.cells).len()
                        == 0
                &&& forall|i: int|
                    n <= i < f.len() ==> {
                        let d = #[trigger] f[i];
                        &&& d.cells.len() == 1
                        &&& d.id == i
                        &&& !d.is_completed
                        &&& d.derivatives_amount == 0
                        &&& MAX_DISTRICT_SIZE <= d.max_size < MAX_DISTRICT_SIZE
                            + DISTRICT_SIZE_SPREAD
                        &&& d.passenger_ids.len() == 0
                        &&& final(self)@.cells[old(self)@.cells.len() + i - n] == d.cells[0]
                    }
            }),
            final(self)@.cells.len() == old(self)@.cells.len() + final(self)@.districts.len()
                - old(self)@.districts.len(),
            final(self)@.cells.take(old(self)@.cells.len() as int) == old(self)@.cells,
    {
        let n = self.districts.len();
        let ghost n0 = old(self)@.cells.len();
        let ghost o = old(self)@.districts;
        for k in 0..n
            invariant
                n == o.len(),
                o == old(self)@.districts,
                n0 == old(self)@.cells.len(),
                map_wf(self@),
                self@.districts.len() == n + seeding_before(o, k as int),
                forall|j: int|
                    0 <= j < n && is_seeding(#[trigger] o[j]) ==> strictly_inside(o[j].cells),
                forall|i: int|
                    0 <= i < n ==> {
                        let d = #[trigger] self@.districts[i];
                        &&& d == (DistrictView { derivatives_amount: d.derivatives_amount, ..o[i] })
                        &&& d.derivatives_amount == o[i].derivatives_amount + if is_seeding(o[i])
                            && i < k {
                            1int
                        } else {
                            0int
                        }
                    },
                forall|i: int|
                    0 <= i < k && is_seeding(o[i]) ==> {
                        let d = self@.districts[n + #[trigger] seeding_before(o, i)];
                        &&& d.district_type != o[i].district_type
                        &&& touches(d.cells[0], o[i].cells)
                        &&& border_of(o[i].cells, self@.cells.take((n0 + seeding_before(o, i)) as int)).contains(
                            d.cells[0],
                        )
                    },
                forall|i: int|
                    n <= i < self@.districts.len() ==> {
                        let d = #[trigger] self@.districts[i];
                        &&& d.cells.len() == 1
                        &&& d.id == i
                        &&& !d.is_completed
                        &&& d.derivatives_amount == 0
                        &&& MAX_DISTRICT_SIZE <= d.max_size < MAX_DISTRICT_SIZE
                            + DISTRICT_SIZE_SPREAD
                        &&& d.passenger_ids.len() == 0
                        &&& self@.cells[n0 + i - n] == d.cells[0]
                    },
                self@.cells.len() == n0 + self@.districts.len() - n,
                self@.cells.take(n0 as int) == old(self)@.cells,
        {
            let ghost before = self@;
            assert(before.districts[k as int].cells == o[k as int].cells);
            assert(seeding_before(o, k + 1) == seeding_before(o, k as int) + if is_seeding(
                o[k as int],
            ) {
                1nat
            } else {
                0nat
            });
            let seeding = self.districts[k].is_completed && self.districts[k].derivatives_amount
                < MAX_DERIVATIVES && self.districts[k].is_fertile;
            assert(seeding == is_seeding(o[k as int]));
            if seeding {
                self.districts[k].derivatives_amount = self.districts[k].derivatives_amount + 1;
                let ghost bumped = self@;
                proof {
                    let d = DistrictView {
                        derivatives_amount: (before.districts[k as int].derivatives_amount + 1) as u32,
                        ..before.districts[k as int]
                    };
                    assert(bumped.districts == before.districts.update(k as int, d));
                    lemma_all_cells_same(before.districts, k as int, d);
                    assert forall|i: int| 0 <= i < bumped.districts.len() implies #[trigger] bumped.districts[i].cells.len()
                        <= bumped.districts[i].max_size by {
                        if i != k {
                            assert(bumped.districts[i] == before.districts[i]);
                        }
                    }
                    assert forall|i: int| 0 <= i < bumped.districts.len() implies #[trigger] bumped.districts[i].id == i by {
                        if i != k {
                            assert(bumped.districts[i] == before.districts[i]);
                        }
                    }
                    assert(map_wf(bumped));
                    assert(bumped.cells == before.cells);
                    assert(bumped.districts[k as int].cells == o[k as int].cells);
                }
                let turn = random_ratio(1, 2);
                let b = self.border_points(k);
                if b.len() == 0 {
                    proof {
                        let e = self@.districts.len() - n;
                        assert(e == seeding_before(o, k as int));
                        lemma_seeding_before_grows(o, k as int, n as int);
                        assert forall|i: int| 0 <= i < n implies {
                            let d = #[trigger] self@.districts[i];
                            &&& d == (DistrictView { derivatives_amount: d.derivatives_amount, ..o[i] })
                            &&& d.derivatives_amount == o[i].derivatives_amount + if is_seeding(o[i])
                                && seeding_before(o, i) <= e {
                                1int
                            } else {
                                0int
                            }
                        } by {
                            if i <= k {
                                lemma_seeding_before_grows(o, i, k as int);
                            } else {
                                lemma_seeding_before_grows(o, k as int, i);
                            }
                            if i != k {
                                assert(self@.districts[i] == before.districts[i]);
                            }
                        }
                        assert forall|i: int|
                            0 <= i < n && is_seeding(o[i]) && #[trigger] seeding_before(o, i) < e implies {
                            let d = self@.districts[n + seeding_before(o, i)];
                            &&& d.district_type != o[i].district_type
                            &&& touches(d.cells[0], o[i].cells)
                            &&& border_of(
                                o[i].cells,
                                self@.cells.take((old(self)@.cells.len() + seeding_before(o, i)) as int),
                            ).contains(d.cells[0])
                        } by {
                            if i >= k {
                                lemma_seeding_before_grows(o, k as int, i);
                            }
                            assert(self@.districts[n + seeding_before(o, i)] == before.districts[n
                                + seeding_before(o, i)]);
                        }
                        assert forall|i: int|
                            0 <= i < n && is_seeding(o[i]) && #[trigger] seeding_before(o, i) == e && e
                                < seeding_before(o, n as int) implies border_of(o[i].cells, self@.cells).len()
                                == 0 by {
                            if i < k {
                                lemma_seeding_before_grows(o, i, k as int);
                            } else if i > k {
                                lemma_seeding_before_grows(o, k as int, i);
                            }
                        }
                        assert forall|i: int| n <= i < self@.districts.len() implies #[trigger] self@.districts[i]
                            == before.districts[i] by {}
                    }
                    return;
                }
                let pick = random_below(0, b.len());
                let fertile = random_ratio(7, 10);
                let extra = random_below(0, DISTRICT_SIZE_SPREAD);
                let ghost mid = self@;
                let ghost cell = border_of(o[k as int].cells, bumped.cells)[pick as int];
                proof {
                    lemma_border_cell(o[k as int].cells, bumped.cells, pick as int);
                    assert(spec_next_type(o[k as int].district_type, turn) != o[k as int].district_type);
                }
                let seeded = self.seed_from(k, turn, pick, fertile, extra);
                assert(seeded);
                proof {
                    assert(self@.cells == mid.cells.push(cell));
                    assert(mid.cells == before.cells);
                    assert(self@.cells.take(n0 as int) == mid.cells.take(n0 as int));
                    assert forall|i: int| 0 <= i < mid.districts.len() implies #[trigger] self@.districts[i]
                        == mid.districts[i] by {}
                    assert forall|i: int| 0 <= i < n implies #[trigger] self@.districts[i] == mid.districts[i] by {}
                    let t = n + seeding_before(o, k as int);
                    assert(self@.districts[t].cells == seq![cell]);
                    assert(self@.cells.take((n0 + seeding_before(o, k as int)) as int) == mid.cells);
                    assert(border_of(o[k as int].cells, mid.cells)[pick as int] == cell);
                    assert forall|i: int|
                        0 <= i < k + 1 && is_seeding(o[i]) implies {
                        let d = self@.districts[n + #[trigger] seeding_before(o, i)];
                        &&& d.district_type != o[i].district_type
                        &&& touches(d.cells[0], o[i].cells)
                        &&& border_of(o[i].cells, self@.cells.take((n0 + seeding_before(o, i)) as int)).contains(
                            d.cells[0],
                        )
                    } by {
                        if i < k {
                            lemma_seeding_before_grows(o, i, k as int);
                            assert(self@.districts[n + seeding_before(o, i)] == mid.districts[n
                                + seeding_before(o, i)]);
                            assert(self@.cells.take((n0 + seeding_before(o, i)) as int) == mid.cells.take((n0 + seeding_before(o, i)) as int));
                        }
                    }
                    assert forall|i: int| n <= i < self@.districts.len() implies {
                        let d = #[trigger] self@.districts[i];
                        &&& d.cells.len() == 1
                        &&& d.id == i
                        &&& !d.is_completed
                        &&& d.derivatives_amount == 0
                        &&& MAX_DISTRICT_SIZE <= d.max_size < MAX_DISTRICT_SIZE
                            + DISTRICT_SIZE_SPREAD
                        &&& d.passenger_ids.len() == 0
                        &&& self@.cells[n0 + i - n] == d.cells[0]
                    } by {
                        if i < mid.districts.len() {
                            assert(self@.districts[i] == mid.districts[i]);
                            assert(self@.cells[n0 + i - n] == mid.cells[n0 + i - n]);
                        }
                    }
                }
            }
        }
        proof {
            lemma_seeding_before_grows(o, 0, n as int);
            assert forall|i: int| 0 <= i < n implies #[trigger] seeding_before(o, i) <= seeding_before(
                o,
                n as int,
            ) by {
                lemma_seeding_before_grows(o, i, n as int);
            }
        }
    }
}

/// The cells of `cells` that are not in `spawned`, each with the kind `t`.
pub open spec fn fresh_cells(cells: Seq<Position>, spawned: Seq<Position>, t: DistrictType) -> Seq<(Position, DistrictType)>
    decreases cells.len(),
{
    if cells.len() == 0 {
        Seq::empty()
    } else {
        let rest = fresh_cells(cells.drop_last(), spawned, t);
        if spawned.contains(cells.last()) {
            rest
        } else {
            rest.push((cells.last(), t))
        }
    }
}

/// The district cells not yet drawn, district after district, each with
/// its district's kind.
pub open spec fn cells_to_draw(ds: Seq<DistrictView>, spawned: Seq<Position>) -> Seq<(Position, DistrictType)>
    decreases ds.len(),
{
    if ds.len() == 0 {
        Seq::empty()
    } else {
        cells_to_draw(ds.drop_last(), spawned) + fresh_cells(ds.last().cells, spawned, ds.last().district_type)
    }
}

impl DistrictMap {
    /// The district cells that are to be drawn, given the cells drawn so
    /// far, district after district, each with its district's kind.
    pub fn cells_to_spawn(&self, spawned: &Vec<Position>) -> (r: Vec<(Position, DistrictType)>)
        ensures
            r@ == cells_to_draw(self@.districts, spawned@),
    {
        let mut r: Vec<(Position, DistrictType)> = Vec::new();
        let n = self.districts.len();
        for i in 0..n
            invariant
                n == self@.districts.len(),
                r@ == cells_to_draw(self@.districts.take(i as int), spawned@),
        {
            let d = &self.districts[i];
            assert(self@.districts[i as int] == d@);
            assert(self@.districts.take(i + 1).drop_last() == self@.districts.take(i as int));
            let ghost start = r@;
            let m = d.cells.len();
            for j in 0..m
                invariant
                    m == d.cells@.len(),
                    r@ == start + fresh_cells(d.cells@.take(j as int), spawned@, d.district_type),
            {
                assert(d.cells@.take(j + 1).drop_last() == d.cells@.take(j as int));
                if !taken_among(spawned, d.cells[j]) {
                    r.push((d.cells[j], d.district_type));
                }
            }
            assert(d.cells@.take(m as int) == d.cells@);
        }
        assert(self@.districts.take(n as int) == self@.districts);
        r
    }
}

proof fn lemma_fresh_cells(cells: Seq<Position>, spawned: Seq<Position>, t: DistrictType, e: (Position, DistrictType))
    ensures
        fresh_cells(cells, spawned, t).contains(e) <==> (e.1 == t && !spawned.contains(e.0) && cells.contains(e.0)),
    decreases cells.len(),
{
    if cells.len() > 0 {
        let d = cells.drop_last();
        lemma_fresh_cells(d, spawned, t, e);
        let rest = fresh_cells(d, spawned, t);
        let l = fresh_cells(cells, spawned, t);
        let n = cells.len() - 1;
        if l.contains(e) {
            let r = choose|r: int| 0 <= r < l.len() && l[r] == e;
            if r < rest.len() {
                assert(rest[r] == e);
                let j = choose|j: int| 0 <= j < d.len() && d[j] == e.0;
                assert(cells[j] == e.0);
            } else {
                assert(cells[n] == e.0);
            }
        }
        if e.1 == t && !spawned.contains(e.0) && cells.contains(e.0) {
            let j = choose|j: int| 0 <= j < cells.len() && cells[j] == e.0;
            if j < n {
                assert(d[j] == e.0);
                let r = choose|r: int| 0 <= r < rest.len() && rest[r] == e;
                assert(l[r] == e);
            } else {
                assert(l[rest.len() as int] == e);
            }
        }
    }
}

/// The cells still to be drawn are exactly the district cells not drawn
/// yet, each with the kind of its district: a cell and kind are listed
/// when, and only when, the cell is not among those drawn and a district of
/// that kind has it.
pub proof fn law_cells_to_draw(ds: Seq<DistrictView>, spawned: Seq<Position>, e: (Position, DistrictType))
    ensures
        cells_to_draw(ds, spawned).contains(e) <==> !spawned.contains(e.0) && exists|i: int|
            0 <= i < ds.len() && #[trigger] ds[i].district_type == e.1 && ds[i].cells.contains(e.0),
    decreases ds.len(),
{
    if ds.len() > 0 {
        let d = ds.drop_last();
        law_cells_to_draw(d, spawned, e);
        let n = ds.len() - 1;
        let rest = cells_to_draw(d, spawned);
        let f = fresh_cells(ds.last().cells, spawned, ds.last().district_type);
        lemma_fresh_cells(ds.last().cells, spawned, ds.last().district_type, e);
        let l = cells_to_draw(ds, spawned);
        assert(l == rest + f);
        if l.contains(e) {
            let r = choose|r: int| 0 <= r < l.len() && l[r] == e;
            if r < rest.len() {
                assert(rest[r] == e);
                let i = choose|i: int| 0 <= i < d.len() && #[trigger] d[i].district_type == e.1 && d[i].cells.contains(e.0);
                assert(ds[i] == d[i]);
            } else {
                assert(f[r - rest.len()] == e);
                assert(ds[n].district_type == e.1);
            }
        }
        if !spawned.contains(e.0) && exists|i: int|
            0 <= i < ds.len() && #[trigger] ds[i].district_type == e.1 && ds[i].cells.contains(e.0) {
            let i = choose|i: int| 0 <= i < ds.len() && #[trigger] ds[i].district_type == e.1 && ds[i].cells.contains(e.0);
            if i < n {
                assert(d[i] == ds[i]);
                assert(d[i].district_type == e.1);
                let r = choose|r: int| 0 <= r < rest.len() && rest[r] == e;
                assert(l[r] == e);
            } else {
                assert(f.contains(e));
                let r = choose|r: int| 0 <= r < f.len() && f[r] == e;
                assert(l[rest.len() + r] == e);
            }
        }
    }
}

} // verus!
