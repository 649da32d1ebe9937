//! Metro lines: an ordered run of stations with a name and a colour.
use crate::chance::random_below;
use crate::graph::{same_position, Position};
use crate::station::Station;
use std::collections::VecDeque;
use vstd::prelude::*;

verus! {

/// How many line names a new line draws from.
pub const LINE_NAME_COUNT: usize = 9;

/// How many hues a new line draws from; hue number `k` is `30 * k` degrees.
pub const LINE_HUE_COUNT: usize = 13;

/// The stations standing at `points`, in order.
pub open spec fn stations_at(points: Seq<Position>) -> Seq<Station> {
    points.map_values(|p: Position| Station { position: p })
}

/// A metro line.
pub struct MetroLine {
    /// Index into the line names.
    pub name: usize,
    pub id: usize,
    /// The stations from one end of the line to the other.
    pub stations: VecDeque<Station>,
    /// The line's hue number; its colour has hue `30 * hue` degrees.
    pub hue: usize,
}

impl MetroLine {
    /// Whether a station of the line stands at `position`.
    pub open spec fn spec_has(&self, position: Position) -> bool {
        exists|i: int| 0 <= i < self.stations@.len() && #[trigger] self.stations@[i].position == position
    }

    /// A new line through `new_points`, with a name and a hue drawn at random.
    pub fn new_from_points(id: usize, new_points: Vec<Position>) -> (l: Self)
        ensures
            l.id == id,
            l.stations@ == stations_at(new_points@),
            l.name < LINE_NAME_COUNT,
            l.hue < LINE_HUE_COUNT,
    {
        let name = random_below(0, LINE_NAME_COUNT);
        let hue = random_below(0, LINE_HUE_COUNT);
        Self::from_points(id, new_points, name, hue)
    }

    /// A new line through `new_points` with the given name and hue.
    pub fn from_points(id: usize, new_points: Vec<Position>, name: usize, hue: usize) -> (l: Self)
        ensures
            l.id == id,
            l.stations@ == stations_at(new_points@),
            l.name == name,
            l.hue == hue,
    {
        let mut stations: VecDeque<Station> = VecDeque::new();
        let n = new_points.len();
        for i in 0..n
            invariant
                n == new_points@.len(),
                stations@ == stations_at(new_points@.take(i as int)),
        {
            stations.push_back(Station::new(new_points[i]));
            assert(new_points@.take(i + 1) == new_points@.take(i as int).push(new_points@[i as int]));
        }
        assert(new_points@.take(n as int) == new_points@);
        Self { name, id, stations, hue }
    }

    /// Extends the line at its far end.
    pub fn push_back(&mut self, point: Position)
        ensures
            final(self).stations@ == old(self).stations@.push(Station { position: point }),
            final(self).id == old(self).id,
            final(self).name == old(self).name,
            final(self).hue == old(self).hue,
    {
        self.stations.push_back(Station::new(point));
    }

    /// Extends the line at its near end.
    pub fn push_front(&mut self, point: Position)
        ensures
            final(self).stations@ == seq![Station { position: point }] + old(self).stations@,
            final(self).id == old(self).id,
            final(self).name == old(self).name,
            final(self).hue == old(self).hue,
    {
        self.stations.push_front(Station::new(point));
    }

    /// Whether a station of the line stands at `position`.
    pub fn has_station(&self, position: Position) -> (b: bool)
        ensures
            b == self.spec_has(position),
    {
        let n = self.stations.len();
        for i in 0..n
            invariant
                n == self.stations@.len(),
                forall|j: int| 0 <= j < i ==> self.stations@[j].position != position,
        {
            if same_position(self.stations[i].position, position) {
                return true;
            }
        }
        false
    }

    /// The station at the near end, if the line has any.
    pub fn front(&self) -> (s: Option<Station>)
        ensures
            s == (if self.stations@.len() > 0 { Some(self.stations@[0]) } else { None::<Station> }),
    {
        if self.stations.len() > 0 {
            Some(self.stations[0])
        } else {
            None
        }
    }

    /// The station at the far end, if the line has any.
    pub fn back(&self) -> (s: Option<Station>)
        ensures
            s == (if self.stations@.len() > 0 {
                Some(self.stations@.last())
            } else {
                None::<Station>
            }),
    {
        let n = self.stations.len();
        if n > 0 {
            Some(self.stations[n - 1])
        } else {
            None
        }
    }
}

} // verus!
