//! The metro as a whole: its lines and the graph of its stations.
use crate::graph::{Graph, Position};
use crate::line::{stations_at, MetroLine, LINE_HUE_COUNT, LINE_NAME_COUNT};
use crate::station::Station;
use vstd::prelude::*;

verus! {

/// Which way along a line something travels or grows.
#[derive(Clone, Copy, PartialEq, Eq, Structural)]
pub enum Direction {
    Forwards,
    Backwards,
}

impl Default for Direction {
    fn default() -> (d: Self)
        ensures
            d == Direction::Forwards,
    {
        Direction::Forwards
    }
}

/// The index of the first line in `lines` with a station at `position`.
pub open spec fn first_line_with(lines: Seq<MetroLine>, position: Position) -> Option<int> {
    if exists|i: int| 0 <= i < lines.len() && #[trigger] lines[i].spec_has(position) {
        Some(
            choose|i: int|
                0 <= i < lines.len() && #[trigger] lines[i].spec_has(position) && forall|j: int|
                    0 <= j < i ==> !lines[j].spec_has(position),
        )
    } else {
        None
    }
}

/// What `first_line_with` picks: the least index of a line through
/// `position`, and nothing when no line passes through it.
pub proof fn lemma_first_line_with(lines: Seq<MetroLine>, position: Position)
    ensures
        match first_line_with(lines, position) {
            Some(i) => {
                &&& 0 <= i < lines.len()
                &&& lines[i].spec_has(position)
                &&& forall|j: int| 0 <= j < i ==> !lines[j].spec_has(position)
            },
            None => forall|j: int| 0 <= j < lines.len() ==> !lines[j].spec_has(position),
        },
{
    if exists|i: int| 0 <= i < lines.len() && #[trigger] lines[i].spec_has(position) {
        let w = choose|i: int| 0 <= i < lines.len() && #[trigger] lines[i].spec_has(position);
        lemma_least_line_with(lines, position, w);
    }
}

proof fn lemma_least_line_with(lines: Seq<MetroLine>, position: Position, w: int)
    requires
        0 <= w < lines.len(),
        lines[w].spec_has(position),
    ensures
        exists|i: int|
            0 <= i < lines.len() && #[trigger] lines[i].spec_has(position) && forall|j: int|
                0 <= j < i ==> !lines[j].spec_has(position),
    decreases w,
{
    if exists|j: int| 0 <= j < w && #[trigger] lines[j].spec_has(position) {
        let v = choose|j: int| 0 <= j < w && #[trigger] lines[j].spec_has(position);
        lemma_least_line_with(lines, position, v);
    } else {
        assert(forall|j: int| 0 <= j < w ==> !lines[j].spec_has(position));
    }
}

/// The ids of the lines in `lines` with a station at `position`, in order.
pub open spec fn lines_through(lines: Seq<MetroLine>, position: Position) -> Seq<usize>
    decreases lines.len(),
{
    if lines.len() == 0 {
        Seq::empty()
    } else {
        let rest = lines_through(lines.drop_last(), position);
        if lines.last().spec_has(position) {
            rest.push(lines.last().id)
        } else {
            rest
        }
    }
}

/// The stations of all lines in `lines`, line after line.
pub open spec fn all_stations(lines: Seq<MetroLine>) -> Seq<Station>
    decreases lines.len(),
{
    if lines.len() == 0 {
        Seq::empty()
    } else {
        all_stations(lines.drop_last()) + lines.last().stations@
    }
}

/// The metro.
pub struct Metro {
    pub stations: Graph<Station>,
    pub lines: Vec<MetroLine>,
}

impl Metro {
    /// The station graph is well formed and each line's id is its place
    /// in the list of lines.
    pub open spec fn wf(&self) -> bool {
        &&& self.stations.wf()
        &&& forall|i: int| 0 <= i < self.lines@.len() ==> #[trigger] self.lines@[i].id == i
    }

    /// A metro without stations or lines.
    pub fn new() -> (m: Self)
        ensures
            m.wf(),
            m.stations@ == Map::<Position, crate::graph::NodeView<Station>>::empty(),
            m.lines@.len() == 0,
    {
        Metro { stations: Graph::new(), lines: Vec::new() }
    }

    /// Opens a new line through `points`, with a name and hue drawn at
    /// random, and hands it back for further building.
    pub fn add_line(&mut self, points: Vec<Position>) -> (line: &mut MetroLine)
        requires
            old(self).wf(),
        ensures
            line.id == old(self).lines@.len(),
            line.stations@ == stations_at(points@),
            line.name < LINE_NAME_COUNT,
            line.hue < LINE_HUE_COUNT,
            final(self).lines@ == old(self).lines@.push(*final(line)),
            final(self).stations == old(self).stations,
    {
        let id = self.lines.len();
        let line = MetroLine::new_from_points(id, points);
        self.lines.push(line);
        &mut self.lines[id]
    }

    /// The first line with a station at `station_id`.
    pub fn find_line_by_station(&self, station_id: Position) -> (r: Option<&MetroLine>)
        ensures
            match first_line_with(self.lines@, station_id) {
                Some(i) => r == Some(&self.lines@[i]),
                None => r.is_none(),
            },
    {
        proof {
            lemma_first_line_with(self.lines@, station_id);
        }
        let n = self.lines.len();
        for i in 0..n
            invariant
                n == self.lines@.len(),
                forall|j: int| 0 <= j < i ==> !self.lines@[j].spec_has(station_id),
        {
            if self.lines[i].has_station(station_id) {
                assert(self.lines@[i as int].spec_has(station_id));
                return Some(&self.lines[i]);
            }
        }
        None
    }

    /// The station at `station_id`, found on the first line through it.
    /// Some line must pass through `station_id`.
    pub fn find_station(&self, station_id: Position) -> (r: Option<&Station>)
        requires
            first_line_with(self.lines@, station_id).is_some(),
        ensures
            r == Some(&Station { position: station_id }),
    {
        proof {
            lemma_first_line_with(self.lines@, station_id);
        }
        let line = self.find_line_by_station(station_id).unwrap();
        let n = line.stations.len();
        for i in 0..n
            invariant
                n == line.stations@.len(),
                line.spec_has(station_id),
                forall|j: int| 0 <= j < i ==> line.stations@[j].position != station_id,
        {
            if crate::graph::same_position(line.stations[i].position, station_id) {
                return Some(&line.stations[i]);
            }
        }
        None
    }

    /// The stations of all lines, line after line.
    pub fn all_stations(&self) -> (v: Vec<Station>)
        ensures
            v@ == all_stations(self.lines@),
    {
        let mut v: Vec<Station> = Vec::new();
        let n = self.lines.len();
        for i in 0..n
            invariant
                n == self.lines@.len(),
                v@ == all_stations(self.lines@.take(i as int)),
        {
            assert(self.lines@.take(i + 1).drop_last() == self.lines@.take(i as int));
            let line = &self.lines[i];
            let m = line.stations.len();
            let ghost start = v@;
            for j in 0..m
                invariant
                    m == line.stations@.len(),
                    v@ == start + line.stations@.take(j as int),
            {
                v.push(line.stations[j]);
                assert(line.stations@.take(j + 1) == line.stations@.take(j as int).push(
                    line.stations@[j as int],
                ));
            }
            assert(line.stations@.take(m as int) == line.stations@);
        }
        assert(self.lines@.take(n as int) == self.lines@);
        v
    }

    /// The ids of the lines through `position`, in the order of the lines.
    pub fn lines_with_station(&self, position: Position) -> (ids: Vec<usize>)
        ensures
            ids@ == lines_through(self.lines@, position),
    {
        let mut ids: Vec<usize> = Vec::new();
        let n = self.lines.len();
        for i in 0..n
            invariant
                n == self.lines@.len(),
                ids@ == lines_through(self.lines@.take(i as int), position),
        {
            assert(self.lines@.take(i + 1).drop_last() == self.lines@.take(i as int));
            if self.lines[i].has_station(position) {
                ids.push(self.lines[i].id);
            }
        }
        assert(self.lines@.take(n as int) == self.lines@);
        ids
    }
}

/// The lines listed as passing through `position` are exactly those that
/// have a station there: an id is listed when, and only when, a line with
/// that id has a station at `position`.
pub proof fn law_lines_through(lines: Seq<MetroLine>, position: Position, x: usize)
    ensures
        lines_through(lines, position).contains(x) <==> exists|i: int|
            0 <= i < lines.len() && lines[i].spec_has(position) && #[trigger] lines[i].id == x,
    decreases lines.len(),
{
    if lines.len() > 0 {
        let d = lines.drop_last();
        law_lines_through(d, position, x);
        let rest = lines_through(d, position);
        let l = lines_through(lines, position);
        let n = lines.len() - 1;
        if l.contains(x) {
            let r = choose|r: int| 0 <= r < l.len() && l[r] == x;
            if r < rest.len() {
                assert(rest[r] == x);
                let i = choose|i: int| 0 <= i < d.len() && d[i].spec_has(position) && #[trigger] d[i].id == x;
                assert(lines[i] == d[i]);
            } else {
                assert(lines[n].id == x);
            }
        }
        if exists|i: int| 0 <= i < lines.len() && lines[i].spec_has(position) && #[trigger] lines[i].id == x {
            let i = choose|i: int| 0 <= i < lines.len() && lines[i].spec_has(position) && #[trigger] lines[i].id == x;
            if i < n {
                assert(d[i] == lines[i]);
                assert(rest.contains(x));
                let r = choose|r: int| 0 <= r < rest.len() && rest[r] == x;
                assert(l[r] == x);
            } else {
                assert(l[rest.len() as int] == x);
            }
        }
    }
}

/// The stations of the metro, taken line after line, are exactly the
/// stations of its lines: each listed station is a station of some line,
/// and every station of every line is listed.
pub proof fn law_all_stations(lines: Seq<MetroLine>, s: Station)
    ensures
        all_stations(lines).contains(s) <==> exists|i: int, j: int|
            0 <= i < lines.len() && 0 <= j < lines[i].stations@.len() && #[trigger] lines[i].stations@[j] == s,
    decreases lines.len(),
{
    if lines.len() > 0 {
        let d = lines.drop_last();
        law_all_stations(d, s);
        let rest = all_stations(d);
        let last = lines.last().stations@;
        let l = all_stations(lines);
        let n = lines.len() - 1;
        assert(l == rest + last);
        if l.contains(s) {
            let r = choose|r: int| 0 <= r < l.len() && l[r] == s;
            if r < rest.len() {
                assert(rest[r] == s);
                let (i, j) = choose|i: int, j: int|
                    0 <= i < d.len() && 0 <= j < d[i].stations@.len() && #[trigger] d[i].stations@[j] == s;
                assert(lines[i] == d[i]);
            } else {
                assert(lines[n].stations@[r - rest.len()] == s);
            }
        }
        if exists|i: int, j: int|
            0 <= i < lines.len() && 0 <= j < lines[i].stations@.len() && #[trigger] lines[i].stations@[j] == s {
            let (i, j) = choose|i: int, j: int|
                0 <= i < lines.len() && 0 <= j < lines[i].stations@.len() && #[trigger] lines[i].stations@[j] == s;
            if i < n {
                assert(d[i] == lines[i]);
                assert(d[i].stations@[j] == s);
                assert(rest.contains(s));
                let r = choose|r: int| 0 <= r < rest.len() && rest[r] == s;
                assert(l[r] == s);
            } else {
                assert(l[rest.len() + j] == s);
            }
        }
    }
}

} // verus!
