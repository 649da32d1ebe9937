//! Trains: where they start, who gets off and on at a stop, and when they
//! turn round.
use crate::graph::{same_position, Position};
use crate::line::MetroLine;
use crate::metro::{Direction, Metro};
use crate::money::Money;
use crate::passenger::{Passenger, PassengerDatabase};
use crate::station::{Station, StationButton, STATION_MAX_PASSENGERS};
use vstd::prelude::*;

verus! {

broadcast use {
    vstd::std_specs::hash::group_hash_axioms,
    vstd::seq_lib::group_to_multiset_ensures,
    vstd::multiset::group_multiset_axioms,
};

/// How many passengers a train carries.
pub const TRAIN_MAX_PASSENGERS: usize = 6;

/// How long a train stands at a station, in milliseconds.
pub const TRAIN_STOP_MS: u64 = 1000;

/// A train may stop again only this many milliseconds after its last stop.
pub const TRAIN_STOP_GAP_MS: u64 = 1100;

/// A request for a train on line `line`, starting at `station`.
pub struct SpawnTrainEvent {
    pub line: usize,
    pub station: Position,
}

/// A train.
pub struct Train {
    pub line: usize,
    /// Index of the point of the line's path the train is heading for.
    pub current: usize,
    pub passenger_ids: Vec<usize>,
    pub direction: Direction,
    /// When the train last stopped, in milliseconds of game time.
    pub last_stop_ms: u64,
}

/// `s` without its last `k` elements (all of them when it has fewer).
pub open spec fn drop_back<A>(s: Seq<A>, k: int) -> Seq<A> {
    if k >= s.len() {
        Seq::empty()
    } else {
        s.take(s.len() - k)
    }
}

/// Whether a passenger whose route is `route`, after `k` earlier pops of
/// it, gets off at `pos`.
pub open spec fn gets_off(route: Seq<Station>, k: int, pos: Position) -> bool {
    k >= route.len() || route[0].position == pos
}

/// The passengers of `ids` who get off at `pos`, in order: each entry is
/// judged by its route after one pop for each earlier entry of the same
/// passenger.
pub open spec fn leaving(ids: Seq<usize>, db: Map<usize, Passenger>, pos: Position) -> Seq<usize>
    decreases ids.len(),
{
    if ids.len() == 0 {
        Seq::empty()
    } else {
        let rest = leaving(ids.drop_last(), db, pos);
        let id = ids.last();
        if gets_off(db[id].route@, ids.drop_last().to_multiset().count(id) as int, pos) {
            rest.push(id)
        } else {
            rest
        }
    }
}

impl Train {
    /// A train on `line` travelling in `direction`, empty, that has not
    /// stopped yet.
    pub fn new(line: usize, direction: Direction) -> (t: Self)
        ensures
            t.line == line,
            t.current == 0,
            t.passenger_ids@.len() == 0,
            t.direction == direction,
            t.last_stop_ms == 0,
    {
        Train { line, current: 0, passenger_ids: Vec::new(), direction, last_stop_ms: 0 }
    }

    /// Turns the train round at the ends of a path of `path_len` points:
    /// forwards at the first point, then backwards at the last.
    pub fn switch_direction(&mut self, path_len: usize)
        requires
            path_len >= 1,
        ensures
            ({
                let d1 = if old(self).current == 0 && old(self).direction == Direction::Backwards {
                    Direction::Forwards
                } else {
                    old(self).direction
                };
                let d2 = if old(self).current == path_len - 1 && d1 == Direction::Forwards {
                    Direction::Backwards
                } else {
                    d1
                };
                *final(self) == Train { direction: d2, ..*old(self) }
            }),
    {
        if self.current == 0 && self.direction == Direction::Backwards {
            self.direction = Direction::Forwards;
        }
        if self.current == path_len - 1 && self.direction == Direction::Forwards {
            self.direction = Direction::Backwards;
        }
    }

    /// Whether the train, having reached `point`, stops there at time
    /// `now_ms`: a station of its line stands there and the last stop is
    /// long enough ago.
    pub fn should_stop(&self, line: &MetroLine, point: Position, now_ms: u64) -> (b: bool)
        requires
            now_ms >= self.last_stop_ms,
        ensures
            b == (line.spec_has(point) && now_ms - self.last_stop_ms >= TRAIN_STOP_GAP_MS),
    {
        line.has_station(point) && now_ms - self.last_stop_ms >= TRAIN_STOP_GAP_MS
    }
}

/// The point of its path a train heads for, given the index `nearest` of
/// the path point closest to it among `len` points: the next point in its
/// direction, or the closest point itself at that end of the path.
pub fn next_point(nearest: usize, len: usize, direction: Direction) -> (i: usize)
    requires
        nearest < len,
    ensures
        i == if direction == Direction::Forwards {
            if nearest + 1 >= len {
                nearest as int
            } else {
                nearest + 1
            }
        } else {
            if nearest == 0 {
                nearest as int
            } else {
                nearest - 1
            }
        },
        i < len,
{
    match direction {
        Direction::Forwards => if nearest + 1 >= len {
            nearest
        } else {
            nearest + 1
        },
        Direction::Backwards => if nearest == 0 {
            nearest
        } else {
            nearest - 1
        },
    }
}

/// The train that a request for one on `line` (whose id is `line_id`) at
/// `station` produces: none when the line does not pass there; otherwise
/// one that sets off backwards from the far end of the line and forwards
/// from anywhere else.
pub fn train_for(line: &MetroLine, line_id: usize, station: Position) -> (t: Option<Train>)
    ensures
        match t {
            None => !line.spec_has(station),
            Some(t) => {
                &&& line.spec_has(station)
                &&& t.line == line_id
                &&& t.current == 0
                &&& t.passenger_ids@.len() == 0
                &&& t.last_stop_ms == 0
                &&& t.direction == if line.stations@.last().position == station {
                    Direction::Backwards
                } else {
                    Direction::Forwards
                }
            },
        },
{
    if !line.has_station(station) {
        return None;
    }
    let back = line.back().unwrap();
    let direction = if same_position(back.position, station) {
        Direction::Backwards
    } else {
        Direction::Forwards
    };
    Some(Train::new(line_id, direction))
}

/// Whether `id` is in `v`.
fn listed(v: &Vec<usize>, id: usize) -> (b: bool)
    ensures
        b == v@.contains(id),
{
    let n = v.len();
    for i in 0..n
        invariant
            n == v@.len(),
            forall|j: int| 0 <= j < i ==> v@[j] != id,
    {
        if v[i] == id {
            return true;
        }
    }
    false
}

/// Lets off at `station` every passenger of the train whose route is used
/// up or whose next stop is that station; each carried passenger's route
/// loses its last stop once for every time it is listed on the train. The
/// leavers are taken off the train; they are handed back, last leaver
/// first, when the station has room (fewer than `STATION_MAX_PASSENGERS`
/// waiting), and are lost otherwise.
pub fn offload_passengers(
    station_button: &mut StationButton,
    station: &Station,
    train: &mut Train,
    passenger_database: &mut PassengerDatabase,
) -> (offloaded: Vec<usize>)
    requires
        forall|i: int|
            0 <= i < old(train).passenger_ids@.len() ==> #[trigger] old(
                passenger_database,
            ).0@.contains_key(old(train).passenger_ids@[i]),
    ensures
        ({
            let off = leaving(
                old(train).passenger_ids@,
                old(passenger_database).0@,
                station.position,
            );
            &&& final(train).passenger_ids@ == old(train).passenger_ids@.filter(
                |x: usize| !off.contains(x),
            )
            &&& *final(train) == Train { passenger_ids: final(train).passenger_ids, ..*old(train) }
            &&& offloaded@ == if old(station_button).passenger_ids@.len()
                < STATION_MAX_PASSENGERS {
                off.reverse()
            } else {
                Seq::empty()
            }
        }),
        *final(station_button) == *old(station_button),
        final(passenger_database).0@.dom() == old(passenger_database).0@.dom(),
        forall|id: usize|
            #[trigger] old(passenger_database).0@.contains_key(id) ==> {
                let o = old(passenger_database).0@[id];
                let q = final(passenger_database).0@[id];
                &&& q == Passenger { route: q.route, ..o }
                &&& q.route@ == drop_back(
                    o.route@,
                    old(train).passenger_ids@.to_multiset().count(id) as int,
                )
            },
{
    let ghost ids = train.passenger_ids@;
    let ghost db0 = passenger_database.0@;
    let mut offloading: Vec<usize> = Vec::new();
    let n = train.passenger_ids.len();
    proof {
        assert(ids.take(0) =~= Seq::<usize>::empty());
        assert forall|id: usize| #[trigger] db0.contains_key(id) implies db0[id].route@ == drop_back(
            db0[id].route@,
            ids.take(0).to_multiset().count(id) as int,
        ) by {
            assert(db0[id].route@.take(db0[id].route@.len() as int) =~= db0[id].route@);
        }
    }
    for i in 0..n
        invariant
            n == ids.len(),
            train.passenger_ids@ == ids,
            forall|j: int| 0 <= j < ids.len() ==> #[trigger] db0.contains_key(ids[j]),
            offloading@ == leaving(ids.take(i as int), db0, station.position),
            passenger_database.0@.dom() == db0.dom(),
            forall|id: usize|
                #[trigger] db0.contains_key(id) ==> {
                    let o = db0[id];
                    let q = passenger_database.0@[id];
                    &&& q == Passenger { route: q.route, ..o }
                    &&& q.route@ == drop_back(o.route@, ids.take(i as int).to_multiset().count(id) as int)
                },
    {
        let id = train.passenger_ids[i];
        assert(ids.take(i + 1).drop_last() == ids.take(i as int));
        assert(db0.contains_key(id));
        let ghost before = passenger_database.0@;
        let ghost k = ids.take(i as int).to_multiset().count(id) as int;
        match passenger_database.0.remove(&id) {
            Some(mut passenger) => {
                assert(passenger.route@ == drop_back(db0[id].route@, k));
                if passenger.route.len() == 0 || same_position(
                    passenger.route[0].position,
                    station.position,
                ) {
                    offloading.push(id);
                }
                passenger.route.pop();
                assert(passenger.route@ == drop_back(db0[id].route@, k + 1));
                passenger_database.0.insert(id, passenger);
                proof {
                    assert(ids.take(i + 1) == ids.take(i as int).push(id));
                    assert(passenger_database.0@ == before.insert(id, passenger));
                    assert(passenger_database.0@.dom() =~= db0.dom());
                    assert forall|x: usize| #[trigger] db0.contains_key(x) implies {
                        let o = db0[x];
                        let q = passenger_database.0@[x];
                        &&& q == Passenger { route: q.route, ..o }
                        &&& q.route@ == drop_back(
                            o.route@,
                            ids.take(i + 1).to_multiset().count(x) as int,
                        )
                    } by {
                        if x != id {
                            assert(ids.take(i + 1).to_multiset().count(x) == ids.take(
                                i as int,
                            ).to_multiset().count(x));
                        }
                    }
                }
            },
            None => {},
        }
    }
    assert(ids.take(n as int) == ids);
    let ghost off = offloading@;
    let mut kept: Vec<usize> = Vec::new();
    for i in 0..n
        invariant
            n == ids.len(),
            train.passenger_ids@ == ids,
            offloading@ == off,
            kept@ == ids.take(i as int).filter(|x: usize| !off.contains(x)),
    {
        let id = train.passenger_ids[i];
        proof {
            reveal_with_fuel(Seq::filter, 1);
            assert(ids.take(i + 1).drop_last() == ids.take(i as int));
        }
        if !listed(&offloading, id) {
            kept.push(id);
        }
    }
    assert(ids.take(n as int) == ids);
    train.passenger_ids = kept;
    let mut offloaded: Vec<usize> = Vec::new();
    while station_button.passenger_ids.len() < STATION_MAX_PASSENGERS && offloading.len() > 0
        invariant
            offloading@ == off.take(offloading@.len() as int),
            offloading@.len() <= off.len(),
            station_button.passenger_ids@.len() < STATION_MAX_PASSENGERS ==> offloaded@ == off.reverse().take(off.len() - offloading@.len()),
            station_button.passenger_ids@.len() >= STATION_MAX_PASSENGERS ==> offloaded@.len() == 0,
        decreases offloading@.len(),
    {
        let last = offloading.pop().unwrap();
        offloaded.push(last);
        assert(offloaded@ =~= off.reverse().take(off.len() - offloading@.len()));
    }
    assert(station_button.passenger_ids@.len() < STATION_MAX_PASSENGERS ==> offloaded@ =~= off.reverse());
    offloaded
}

/// How many passengers boarding takes on: as many as fit on a train
/// carrying `carried`, but no more than the `waiting` at the station.
pub open spec fn boarding_count(carried: int, waiting: int) -> int {
    if carried >= TRAIN_MAX_PASSENGERS {
        0
    } else if TRAIN_MAX_PASSENGERS - carried <= waiting {
        TRAIN_MAX_PASSENGERS - carried
    } else {
        waiting
    }
}

/// What boarding needs: while the train has room and someone waits, the
/// first waiting passenger is known, has a route, and the train's line
/// serves its next stop.
pub open spec fn can_board(
    carried: int,
    waiting: Seq<usize>,
    db: Map<usize, Passenger>,
    line: MetroLine,
) -> bool {
    (carried < TRAIN_MAX_PASSENGERS && waiting.len() > 0) ==> {
        &&& db.contains_key(waiting[0])
        &&& db[waiting[0]].route@.len() > 0
        &&& line.spec_has(db[waiting[0]].route@[0].position)
    }
}

/// Boards the train: while it has room and someone waits, the first
/// waiting passenger boards and the last waiting place is freed. Then the
/// passengers in `offloaded` join the end of the station's queue.
pub fn load_passengers(
    station_button: &mut StationButton,
    train: &mut Train,
    offloaded: &mut Vec<usize>,
    pass_database: &PassengerDatabase,
    metro: &Metro,
)
    requires
        old(train).line < metro.lines@.len(),
        can_board(
            old(train).passenger_ids@.len() as int,
            old(station_button).passenger_ids@,
            pass_database.0@,
            metro.lines@[old(train).line as int],
        ),
    ensures
        ({
            let waiting = old(station_button).passenger_ids@;
            let k = boarding_count(old(train).passenger_ids@.len() as int, waiting.len() as int);
            &&& final(train).passenger_ids@ == old(train).passenger_ids@ + Seq::new(
                k as nat,
                |j: int| waiting[0],
            )
            &&& *final(train) == Train { passenger_ids: final(train).passenger_ids, ..*old(train) }
            &&& final(station_button).passenger_ids@ == waiting.take(waiting.len() - k) + old(
                offloaded,
            )@
            &&& final(station_button).selected == old(station_button).selected
            &&& final(station_button).name == old(station_button).name
            &&& final(station_button).overload_ms == old(station_button).overload_ms
        }),
        final(offloaded)@.len() == 0,
{
    let ghost waiting = station_button.passenger_ids@;
    let ghost carried = train.passenger_ids@;
    let line = &metro.lines[train.line];
    while train.passenger_ids.len() < TRAIN_MAX_PASSENGERS && station_button.passenger_ids.len() > 0
        invariant
            old(train).line < metro.lines@.len(),
            line == &metro.lines@[old(train).line as int],
            train.passenger_ids@.len() <= TRAIN_MAX_PASSENGERS || train.passenger_ids@.len()
                == carried.len(),
            can_board(carried.len() as int, waiting, pass_database.0@, *line),
            *train == (Train { passenger_ids: train.passenger_ids, ..*old(train) }),
            carried.len() <= train.passenger_ids@.len(),
            train.passenger_ids@.len() - carried.len() == waiting.len() - station_button.passenger_ids@.len(),
            train.passenger_ids@ == carried + Seq::new(
                (train.passenger_ids@.len() - carried.len()) as nat,
                |j: int| waiting[0],
            ),
            station_button.passenger_ids@ == waiting.take(station_button.passenger_ids@.len() as int),
            station_button.selected == old(station_button).selected,
            station_button.name == old(station_button).name,
            station_button.overload_ms == old(station_button).overload_ms,
        decreases station_button.passenger_ids@.len(),
    {
        let loading = station_button.passenger_ids[0];
        let passenger = pass_database.0.get(&loading).unwrap();
        assert(line.spec_has(passenger.route@[0].position));
        station_button.passenger_ids.pop();
        train.passenger_ids.push(loading);
        assert(train.passenger_ids@ =~= carried + Seq::new(
            (train.passenger_ids@.len() - carried.len()) as nat,
            |j: int| waiting[0],
        ));
        assert(station_button.passenger_ids@ =~= waiting.take(
            station_button.passenger_ids@.len() as int,
        ));
    }
    assert(train.passenger_ids@.len() - carried.len() == boarding_count(
        carried.len() as int,
        waiting.len() as int,
    ));
    station_button.passenger_ids.append(offloaded);
}

/// What a stop of train `t` at `pos` needs, with `waiting` at the
/// station, passengers `db`, the metro's `lines` and `money` in hand:
/// the train's line exists, every passenger on the train is known, the
/// money earned fits, and, when someone can board, the first waiting
/// passenger is known, still has a route after the pops the stop makes,
/// and the train's line serves its next stop.
pub open spec fn stop_allowed(
    t: Train,
    waiting: Seq<usize>,
    pos: Position,
    db: Map<usize, Passenger>,
    lines: Seq<MetroLine>,
    money: u32,
) -> bool {
    let ids = t.passenger_ids@;
    &&& t.line < lines.len()
    &&& forall|i: int| 0 <= i < ids.len() ==> #[trigger] db.contains_key(ids[i])
    &&& ({
        let off = leaving(ids, db, pos);
        let kept = ids.filter(|x: usize| !off.contains(x));
        let handed = if waiting.len() < STATION_MAX_PASSENGERS {
            off.len()
        } else {
            0
        };
        &&& money + handed <= u32::MAX
        &&& (kept.len() < TRAIN_MAX_PASSENGERS && waiting.len() > 0) ==> {
            let first = waiting[0];
            let route = drop_back(db[first].route@, ids.to_multiset().count(first) as int);
            &&& db.contains_key(first)
            &&& route.len() > 0
            &&& lines[t.line as int].spec_has(route[0].position)
        }
    })
}

/// How many times `x` is among the first `upto` entries of `v`.
fn count_among(v: &Vec<usize>, upto: usize, x: usize) -> (c: usize)
    requires
        upto <= v@.len(),
    ensures
        c == v@.take(upto as int).to_multiset().count(x),
{
    let mut c: usize = 0;
    for j in 0..upto
        invariant
            upto <= v@.len(),
            c == v@.take(j as int).to_multiset().count(x),
            c <= j,
    {
        assert(v@.take(j + 1) == v@.take(j as int).push(v@[j as int]));
        if v[j] == x {
            c = c + 1;
        }
    }
    c
}

impl Train {
    /// Whether a stop at `station` now is one the game can make; see
    /// `stop_allowed`.
    pub fn can_stop_at(
        &self,
        station_button: &StationButton,
        station: &Station,
        passenger_database: &PassengerDatabase,
        metro: &Metro,
        money: &Money,
    ) -> (b: bool)
        ensures
            b == stop_allowed(
                *self,
                station_button.passenger_ids@,
                station.position,
                passenger_database.0@,
                metro.lines@,
                money.0,
            ),
    {
        let ids = &self.passenger_ids;
        let db = &passenger_database.0;
        let pos = station.position;
        if self.line >= metro.lines.len() {
            return false;
        }
        let n = ids.len();
        for i in 0..n
            invariant
                n == ids@.len(),
                ids@ == self.passenger_ids@,
                db@ == passenger_database.0@,
                forall|j: int| 0 <= j < i ==> #[trigger] db@.contains_key(ids@[j]),
        {
            if !db.contains_key(&ids[i]) {
                assert(!db@.contains_key(ids@[i as int]));
                return false;
            }
        }
        let mut off: Vec<usize> = Vec::new();
        for i in 0..n
            invariant
                n == ids@.len(),
                forall|j: int| 0 <= j < n ==> #[trigger] db@.contains_key(ids@[j]),
                off@ == leaving(ids@.take(i as int), db@, pos),
        {
            assert(ids@.take(i + 1).drop_last() == ids@.take(i as int));
            assert(ids@.take(i + 1).last() == ids@[i as int]);
            let id = ids[i];
            let c = count_among(ids, i, id);
            assert(db@.contains_key(ids@[i as int]));
            let p = db.get(&id).unwrap();
            if c >= p.route.len() || same_position(p.route[0].position, pos) {
                off.push(id);
            }
        }
        assert(ids@.take(n as int) == ids@);
        let ghost offs = off@;
        let mut kept: Vec<usize> = Vec::new();
        for i in 0..n
            invariant
                n == ids@.len(),
                off@ == offs,
                kept@ == ids@.take(i as int).filter(|x: usize| !offs.contains(x)),
        {
            proof {
                reveal_with_fuel(Seq::filter, 1);
                assert(ids@.take(i + 1).drop_last() == ids@.take(i as int));
            }
            if !listed(&off, ids[i]) {
                kept.push(ids[i]);
            }
        }
        assert(ids@.take(n as int) == ids@);
        let waiting = &station_button.passenger_ids;
        let handed: usize = if waiting.len() < STATION_MAX_PASSENGERS {
            off.len()
        } else {
            0
        };
        if handed as u64 > (u32::MAX - money.0) as u64 {
            return false;
        }
        if kept.len() < TRAIN_MAX_PASSENGERS && waiting.len() > 0 {
            let first = waiting[0];
            if !db.contains_key(&first) {
                return false;
            }
            let c = count_among(ids, n, first);
            let route = &db.get(&first).unwrap().route;
            if c >= route.len() {
                return false;
            }
            return metro.lines[self.line].has_station(route[0].position);
        }
        true
    }

    /// A stop at `station` at time `now_ms`: passengers get off (see
    /// `offload_passengers`), each one handed to the station earns one
    /// unit of money, waiting passengers board (see `load_passengers`),
    /// and the time of the stop is recorded.
    pub fn stop_at_station(
        &mut self,
        station_button: &mut StationButton,
        station: &Station,
        passenger_database: &mut PassengerDatabase,
        metro: &Metro,
        money: &mut Money,
        now_ms: u64,
    ) -> (earned: usize)
        requires
            stop_allowed(
                *old(self),
                old(station_button).passenger_ids@,
                station.position,
                old(passenger_database).0@,
                metro.lines@,
                old(money).0,
            ),
        ensures
            ({
                let ids = old(self).passenger_ids@;
                let off = leaving(ids, old(passenger_database).0@, station.position);
                let kept = ids.filter(|x: usize| !off.contains(x));
                let waiting = old(station_button).passenger_ids@;
                let handed = if waiting.len() < STATION_MAX_PASSENGERS {
                    off.reverse()
                } else {
                    Seq::empty()
                };
                let k = boarding_count(kept.len() as int, waiting.len() as int);
                &&& earned == handed.len()
                &&& final(money).0 == old(money).0 + handed.len()
                &&& final(self).passenger_ids@ == kept + Seq::new(k as nat, |j: int| waiting[0])
                &&& *final(self) == Train {
                    passenger_ids: final(self).passenger_ids,
                    last_stop_ms: now_ms,
                    ..*old(self)
                }
                &&& final(station_button).passenger_ids@ == waiting.take(waiting.len() - k)
                    + handed
                &&& final(station_button).selected == old(station_button).selected
                &&& final(station_button).name == old(station_button).name
                &&& final(station_button).overload_ms == old(station_button).overload_ms
            }),
            final(passenger_database).0@.dom() == old(passenger_database).0@.dom(),
            forall|id: usize|
                #[trigger] old(passenger_database).0@.contains_key(id) ==> {
                    let o = old(passenger_database).0@[id];
                    let q = final(passenger_database).0@[id];
                    &&& q == Passenger { route: q.route, ..o }
                    &&& q.route@ == drop_back(
                        o.route@,
                        old(self).passenger_ids@.to_multiset().count(id) as int,
                    )
                },
    {
        let mut offloaded = offload_passengers(station_button, station, self, passenger_database);
        let earned = offloaded.len();
        money.0 = money.0 + earned as u32;
        proof {
            let waiting = station_button.passenger_ids@;
            if self.passenger_ids@.len() < TRAIN_MAX_PASSENGERS && waiting.len() > 0 {
                let first = waiting[0];
                assert(passenger_database.0@.contains_key(first));
                assert(passenger_database.0@[first].route@ == drop_back(
                    old(passenger_database).0@[first].route@,
                    old(self).passenger_ids@.to_multiset().count(first) as int,
                ));
            }
        }
        load_passengers(station_button, self, &mut offloaded, passenger_database, metro);
        self.last_stop_ms = now_ms;
        earned
    }
}

/// Boarding never overfills a train: a train carrying no more than
/// `TRAIN_MAX_PASSENGERS` still carries no more after boarding, and
/// boarding takes no more passengers than wait; and it leaves nobody
/// behind who would fit: either the train is full or everyone boarded.
pub proof fn law_boarding_keeps_train_capacity(carried: int, waiting: int)
    requires
        0 <= carried <= TRAIN_MAX_PASSENGERS,
        0 <= waiting,
    ensures
        carried + boarding_count(carried, waiting) <= TRAIN_MAX_PASSENGERS,
        0 <= boarding_count(carried, waiting) <= waiting,
        carried + boarding_count(carried, waiting) == TRAIN_MAX_PASSENGERS || boarding_count(
            carried,
            waiting,
        ) == waiting,
{
}

/// The route of the passenger at place `i` of `ids`, once the earlier
/// places of the same passenger have each popped its last stop.
pub open spec fn route_at(ids: Seq<usize>, db: Map<usize, Passenger>, i: int) -> Seq<Station> {
    drop_back(db[ids[i]].route@, ids.take(i).to_multiset().count(ids[i]) as int)
}

/// Whether the passenger at place `i` of `ids` is done at `pos`: its
/// remaining route is empty or starts at `pos`.
pub open spec fn done_at(ids: Seq<usize>, db: Map<usize, Passenger>, i: int, pos: Position) -> bool {
    route_at(ids, db, i).len() == 0 || route_at(ids, db, i)[0].position == pos
}

proof fn lemma_gets_off_first_stop(route: Seq<Station>, k: int, pos: Position)
    requires
        0 <= k,
    ensures
        gets_off(route, k, pos) == (drop_back(route, k).len() == 0 || drop_back(route, k)[0].position
            == pos),
{
}

/// Who gets off a train at a station at `pos`: exactly the passengers who
/// hold a place on the train whose remaining route, after the pops made
/// for their earlier places, is empty or has `pos` as its next stop.
pub proof fn law_who_gets_off(ids: Seq<usize>, db: Map<usize, Passenger>, pos: Position, x: usize)
    ensures
        leaving(ids, db, pos).contains(x) <==> exists|i: int|
            0 <= i < ids.len() && ids[i] == x && #[trigger] done_at(ids, db, i, pos),
    decreases ids.len(),
{
    if ids.len() > 0 {
        let d = ids.drop_last();
        let n = ids.len() - 1;
        law_who_gets_off(d, db, pos, x);
        let rest = leaving(d, db, pos);
        let id = ids.last();
        assert(ids.take(n) == d);
        lemma_gets_off_first_stop(db[id].route@, d.to_multiset().count(id) as int, pos);
        assert forall|i: int| 0 <= i < n implies #[trigger] done_at(ids, db, i, pos) == done_at(
            d,
            db,
            i,
            pos,
        ) && ids[i] == d[i] by {
            assert(ids.take(i) == d.take(i));
        }
        let g = gets_off(db[id].route@, d.to_multiset().count(id) as int, pos);
        assert(done_at(ids, db, n, pos) == g);
        assert(ids[n] == id);
        let l = leaving(ids, db, pos);
        assert(l == if g {
            rest.push(id)
        } else {
            rest
        });
        if exists|i: int| 0 <= i < ids.len() && ids[i] == x && #[trigger] done_at(ids, db, i, pos) {
            let i = choose|i: int| 0 <= i < ids.len() && ids[i] == x && #[trigger] done_at(ids, db, i, pos);
            if i < n {
                assert(done_at(d, db, i, pos));
                assert(rest.contains(x));
                let r = choose|r: int| 0 <= r < rest.len() && rest[r] == x;
                if g {
                    assert(l[r] == x);
                }
            } else {
                assert(l[rest.len() as int] == x);
            }
            assert(l.contains(x));
        }
        if l.contains(x) {
            let r = choose|r: int| 0 <= r < l.len() && l[r] == x;
            if g && r == rest.len() {
                assert(done_at(ids, db, n, pos));
            } else {
                assert(rest[r] == x);
                assert(rest.contains(x));
                let i = choose|i: int| 0 <= i < d.len() && d[i] == x && #[trigger] done_at(d, db, i, pos);
                assert(done_at(ids, db, i, pos));
            }
        }
    }
}

} // verus!
