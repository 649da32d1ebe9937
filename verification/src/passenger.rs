//! Passengers: where they live, work and have fun, and where they head.
use crate::chance::{random_below, random_ratio};
use crate::district::{spec_serves_any, serves_any, DistrictMap, DistrictType, DistrictView};
use crate::metro::{all_stations, Metro};
use crate::graph::Position;
use crate::station::{PlacedStation, Station, STATION_MAX_PASSENGERS};
use std::collections::HashMap;
use vstd::multiset::Multiset;
use vstd::prelude::*;

verus! {

broadcast use vstd::std_specs::hash::group_hash_axioms;

/// What a passenger wants to do next.
#[derive(Clone, Copy, PartialEq, Eq, Structural)]
pub enum PassengerDesire {
    Home,
    Work,
    Entertainment,
}

/// Where in a passenger's district list the district for a desire is.
pub open spec fn spec_slot(d: PassengerDesire) -> int {
    match d {
        PassengerDesire::Home => 0,
        PassengerDesire::Work => 1,
        PassengerDesire::Entertainment => 2,
    }
}

/// Where in a passenger's district list the district for a desire is.
pub fn slot(d: PassengerDesire) -> (i: usize)
    ensures
        i == spec_slot(d),
{
    match d {
        PassengerDesire::Home => 0,
        PassengerDesire::Work => 1,
        PassengerDesire::Entertainment => 2,
    }
}

/// The desire that follows `d`; `turn` picks between the two others.
pub open spec fn spec_next_desire(d: PassengerDesire, turn: bool) -> PassengerDesire {
    match d {
        PassengerDesire::Entertainment => if turn {
            PassengerDesire::Work
        } else {
            PassengerDesire::Home
        },
        PassengerDesire::Home => if turn {
            PassengerDesire::Work
        } else {
            PassengerDesire::Entertainment
        },
        PassengerDesire::Work => if turn {
            PassengerDesire::Entertainment
        } else {
            PassengerDesire::Home
        },
    }
}

/// The desire that follows `d`; `turn` picks between the two others.
pub fn next_desire(d: PassengerDesire, turn: bool) -> (r: PassengerDesire)
    ensures
        r == spec_next_desire(d, turn),
        r != d,
{
    match d {
        PassengerDesire::Entertainment => if turn {
            PassengerDesire::Work
        } else {
            PassengerDesire::Home
        },
        PassengerDesire::Home => if turn {
            PassengerDesire::Work
        } else {
            PassengerDesire::Entertainment
        },
        PassengerDesire::Work => if turn {
            PassengerDesire::Entertainment
        } else {
            PassengerDesire::Home
        },
    }
}

/// A passenger.
pub struct Passenger {
    pub current_desire: PassengerDesire,
    pub last_visited_district: usize,
    /// Home, work and entertainment district, in that order; `0` in the
    /// last two means not chosen yet.
    pub district_ids: [usize; 3],
    pub destination_station: Option<Station>,
    /// Stations still to pass; the first is the next stop.
    pub route: Vec<Station>,
}

impl Passenger {
    /// A passenger at home in district `district_id`, with no work or
    /// entertainment district yet and nowhere to go.
    pub fn new(district_id: usize) -> (p: Self)
        ensures
            p.current_desire == PassengerDesire::Home,
            p.last_visited_district == district_id,
            p.district_ids@ == seq![district_id, 0usize, 0usize],
            p.destination_station.is_none(),
            p.route@.len() == 0,
    {
        Passenger {
            current_desire: PassengerDesire::Home,
            last_visited_district: district_id,
            district_ids: [district_id, 0, 0],
            destination_station: None,
            route: Vec::new(),
        }
    }

    /// Whether the passenger is about to pick a new desire: it is not on
    /// its way anywhere and has a work and an entertainment district.
    pub open spec fn is_deciding(&self) -> bool {
        &&& self.destination_station.is_none()
        &&& self.district_ids@[1] != 0
        &&& self.district_ids@[2] != 0
    }

    /// A deciding passenger switches to the desire that follows its own,
    /// `turn` picking between the two others, and heads for the last
    /// station of `stations` that serves a cell of the district of that
    /// desire (none when no station serves it). Anyone else is left as is.
    pub fn decide_with(&mut self, turn: bool, district_map: &DistrictMap, stations: &Vec<Station>)
        requires
            old(self).is_deciding() ==> forall|j: int|
                0 <= j < 3 ==> old(self).district_ids@[j] < district_map@.districts.len(),
        ensures
            old(self).is_deciding() ==> ({
                let desire = spec_next_desire(old(self).current_desire, turn);
                *final(self) == (Passenger {
                    current_desire: desire,
                    destination_station: last_serving(
                        stations@,
                        district_map@.districts[old(self).district_ids@[spec_slot(desire)] as int].cells,
                    ),
                    ..*old(self)
                })
            }),
            !old(self).is_deciding() ==> *final(self) == *old(self),
    {
        if self.destination_station.is_none() && self.district_ids[1] != 0 && self.district_ids[2] != 0 {
            let desire = next_desire(self.current_desire, turn);
            self.current_desire = desire;
            let target = self.district_ids[slot(desire)];
            let cells = &district_map.districts[target].cells;
            assert(district_map@.districts[target as int].cells == cells@);
            self.destination_station = last_serving_station(stations, cells);
        }
    }

    /// Fills in the passenger's missing districts, given the districts of
    /// each kind and the drawn picks among them: a missing work district
    /// becomes `works[pick_w]`; when there is no work district at all the
    /// passenger is left as is; otherwise a missing entertainment district
    /// becomes `fun[pick_f]`, if there is one.
    pub fn fill_with(&mut self, works: &Vec<usize>, fun: &Vec<usize>, pick_w: usize, pick_f: usize)
        requires
            works@.len() > 0 ==> pick_w < works@.len(),
            fun@.len() > 0 ==> pick_f < fun@.len(),
        ensures
            ({
                let o = old(self).district_ids@;
                let q = final(self).district_ids@;
                let has_work = o[1] != 0 || works@.len() > 0;
                &&& *final(self) == (Passenger { district_ids: final(self).district_ids, ..*old(self) })
                &&& q[0] == o[0]
                &&& q[1] == if o[1] == 0 && works@.len() > 0 {
                    works@[pick_w as int]
                } else {
                    o[1]
                }
                &&& q[2] == if has_work && o[2] == 0 && fun@.len() > 0 {
                    fun@[pick_f as int]
                } else {
                    o[2]
                }
            }),
    {
        let mut ids: [usize; 3] = self.district_ids;
        if ids[1] == 0 {
            if works.len() == 0 {
                return;
            }
            ids = [ids[0], works[pick_w], ids[2]];
        }
        if ids[2] == 0 && fun.len() > 0 {
            ids = [ids[0], ids[1], fun[pick_f]];
        }
        self.district_ids = ids;
    }
}

/// All passengers, by id.
pub struct PassengerDatabase(pub HashMap<usize, Passenger>);

/// The last station of `stations` that serves a cell of `cells`.
pub open spec fn last_serving(stations: Seq<Station>, cells: Seq<crate::graph::Position>) -> Option<Station>
    decreases stations.len(),
{
    if stations.len() == 0 {
        None
    } else if spec_serves_any(cells, stations.last().position) {
        Some(stations.last())
    } else {
        last_serving(stations.drop_last(), cells)
    }
}

/// The ids of the districts of kind `t`, in order.
pub open spec fn ids_of_type(ds: Seq<DistrictView>, t: DistrictType) -> Seq<usize>
    decreases ds.len(),
{
    if ds.len() == 0 {
        Seq::empty()
    } else {
        let rest = ids_of_type(ds.drop_last(), t);
        if ds.last().district_type == t {
            rest.push(ds.last().id)
        } else {
            rest
        }
    }
}

proof fn lemma_ids_of_type(ds: Seq<DistrictView>, t: DistrictType, i: int)
    requires
        0 <= i < ids_of_type(ds, t).len(),
    ensures
        exists|j: int|
            0 <= j < ds.len() && ds[j].district_type == t && #[trigger] ds[j].id == ids_of_type(
                ds,
                t,
            )[i],
    decreases ds.len(),
{
    let rest = ids_of_type(ds.drop_last(), t);
    if i < rest.len() {
        lemma_ids_of_type(ds.drop_last(), t, i);
        let j = choose|j: int|
            0 <= j < ds.drop_last().len() && ds.drop_last()[j].district_type == t
                && #[trigger] ds.drop_last()[j].id == rest[i];
        assert(ds[j] == ds.drop_last()[j]);
    } else {
        assert(ds[ds.len() - 1].id == ids_of_type(ds, t)[i]);
    }
}

/// The ids of the districts of kind `t`, in order.
pub fn district_ids_of_type(map: &DistrictMap, t: DistrictType) -> (v: Vec<usize>)
    ensures
        v@ == ids_of_type(map@.districts, t),
{
    let mut v: Vec<usize> = Vec::new();
    let n = map.districts.len();
    for i in 0..n
        invariant
            n == map@.districts.len(),
            v@ == ids_of_type(map@.districts.take(i as int), t),
    {
        assert(map@.districts.take(i + 1).drop_last() == map@.districts.take(i as int));
        assert(map@.districts[i as int] == map.districts@[i as int]@);
        if map.districts[i].district_type == t {
            v.push(map.districts[i].id);
        }
    }
    assert(map@.districts.take(n as int) == map@.districts);
    v
}

impl PassengerDatabase {
    /// Passengers are numbered from zero without gaps.
    pub open spec fn wf(&self) -> bool {
        &&& forall|i: usize| #[trigger] self.0@.contains_key(i) <==> (i as int) < self.0@.len()
    }

    /// No passengers.
    pub fn new() -> (db: Self)
        ensures
            db.wf(),
            db.0@.len() == 0,
    {
        PassengerDatabase(HashMap::new())
    }

    /// How many passengers there are.
    pub fn len(&self) -> (n: usize)
        ensures
            n == self.0@.len(),
    {
        self.0.len()
    }

    /// A new passenger at home in district `district_id`, who joins that
    /// district's list of waiting passengers. Its id is the number of
    /// passengers before it.
    pub fn add_passenger(&mut self, district_map: &mut DistrictMap, district_id: usize) -> (id: usize)
        requires
            old(self).wf(),
            district_id < old(district_map)@.districts.len(),
        ensures
            final(self).wf(),
            id == old(self).0@.len(),
            final(self).0@ == old(self).0@.insert(id, final(self).0@[id]),
            ({
                let p = final(self).0@[id];
                &&& p.current_desire == PassengerDesire::Home
                &&& p.last_visited_district == district_id
                &&& p.district_ids@ == seq![district_id, 0usize, 0usize]
                &&& p.destination_station.is_none()
                &&& p.route@.len() == 0
            }),
            final(district_map)@.cells == old(district_map)@.cells,
            final(district_map)@.districts == old(district_map)@.districts.update(
                district_id as int,
                DistrictView {
                    passenger_ids: old(district_map)@.districts[district_id as int].passenger_ids.push(id),
                    ..old(district_map)@.districts[district_id as int]
                },
            ),
    {
        let id = self.0.len();
        proof {
            if self.0@.contains_key(id) {
                assert((id as int) < self.0@.len());
            }
            assert(self.0@.dom().finite());
        }
        district_map.districts[district_id].passenger_ids.push(id);
        assert(district_map@.districts =~= old(district_map)@.districts.update(
            district_id as int,
            DistrictView {
                passenger_ids: old(district_map)@.districts[district_id as int].passenger_ids.push(id),
                ..old(district_map)@.districts[district_id as int]
            },
        ));
        self.0.insert(id, Passenger::new(district_id));
        proof {
            assert(self.0@.len() == old(self).0@.len() + 1);
            assert forall|i: usize| #[trigger] self.0@.contains_key(i) <==> (i as int) < self.0@.len() by {
                if i != id {
                    assert(self.0@.contains_key(i) == old(self).0@.contains_key(i));
                }
            }
        }
        id
    }
}

/// Whether `p` is a passenger just added at home in district `d`.
pub open spec fn is_newcomer(p: Passenger, d: usize) -> bool {
    &&& p.current_desire == PassengerDesire::Home
    &&& p.last_visited_district == d
    &&& p.district_ids@ == seq![d, 0usize, 0usize]
    &&& p.destination_station.is_none()
    &&& p.route@.len() == 0
}

/// The ids that the passengers added for `district_ids` get in district
/// `k`, in order, when the first of them gets id `first`.
pub open spec fn arrivals(district_ids: Seq<usize>, first: int, k: int) -> Seq<usize>
    decreases district_ids.len(),
{
    if district_ids.len() == 0 {
        Seq::empty()
    } else {
        let rest = arrivals(district_ids.drop_last(), first, k);
        if district_ids.last() == k {
            rest.push((first + district_ids.len() - 1) as usize)
        } else {
            rest
        }
    }
}

impl PassengerDatabase {
    /// One new passenger for each entry of `district_ids`, in order, as
    /// `add_passenger` adds them: they get the next ids, and each joins the
    /// end of its home district's list.
    pub fn add_passengers(&mut self, district_map: &mut DistrictMap, district_ids: &Vec<usize>)
        requires
            old(self).wf(),
            forall|i: int|
                0 <= i < district_ids@.len() ==> #[trigger] district_ids@[i] < old(district_map)@.districts.len(),
        ensures
            final(self).wf(),
            final(self).0@.len() == old(self).0@.len() + district_ids@.len(),
            forall|id: usize|
                #[trigger] old(self).0@.contains_key(id) ==> final(self).0@[id] == old(self).0@[id],
            forall|i: int|
                0 <= i < district_ids@.len() ==> is_newcomer(
                    #[trigger] final(self).0@[(old(self).0@.len() + i) as usize],
                    district_ids@[i],
                ),
            final(district_map)@.cells == old(district_map)@.cells,
            final(district_map)@.districts.len() == old(district_map)@.districts.len(),
            forall|k: int|
                0 <= k < old(district_map)@.districts.len() ==> #[trigger] final(district_map)@.districts[k] == (DistrictView {
                    passenger_ids: old(district_map)@.districts[k].passenger_ids + arrivals(
                        district_ids@,
                        old(self).0@.len() as int,
                        k,
                    ),
                    ..old(district_map)@.districts[k]
                }),
    {
        let ghost n0 = self.0@.len();
        let ghost db0 = self.0@;
        let ghost ds0 = district_map@.districts;
        let n = district_ids.len();
        for i in 0..n
            invariant
                n == district_ids@.len(),
                self.wf(),
                self.0@.len() == n0 + i,
                forall|j: int| 0 <= j < n ==> #[trigger] district_ids@[j] < ds0.len(),
                forall|id: usize| #[trigger] db0.contains_key(id) ==> self.0@[id] == db0[id],
                forall|x: usize| #[trigger] db0.contains_key(x) ==> (x as int) < n0,
                forall|j: int|
                    0 <= j < i ==> is_newcomer(#[trigger] self.0@[(n0 + j) as usize], district_ids@[j]),
                district_map@.cells == old(district_map)@.cells,
                district_map@.districts.len() == ds0.len(),
                n0 == old(self).0@.len(),
                db0 == old(self).0@,
                ds0 == old(district_map)@.districts,
                forall|k: int|
                    0 <= k < ds0.len() ==> #[trigger] district_map@.districts[k] == (DistrictView {
                        passenger_ids: ds0[k].passenger_ids + arrivals(
                            district_ids@.take(i as int),
                            n0 as int,
                            k,
                        ),
                        ..ds0[k]
                    }),
        {
            let ghost before = self.0@;
            let ghost dbefore = district_map@.districts;
            let d = district_ids[i];
            let id = self.add_passenger(district_map, d);
            proof {
                assert(district_ids@.take(i + 1).drop_last() == district_ids@.take(i as int));
                assert(id == n0 + i);
                assert forall|x: usize| #[trigger] db0.contains_key(x) implies self.0@[x] == db0[x] by {
                    assert(before.contains_key(x));
                    assert((x as int) < n0);
                }
                assert forall|j: int| 0 <= j < i + 1 implies is_newcomer(
                    #[trigger] self.0@[(n0 + j) as usize],
                    district_ids@[j],
                ) by {
                    if j < i {
                        assert(before.contains_key((n0 + j) as usize));
                    }
                }
                assert forall|k: int| 0 <= k < ds0.len() implies #[trigger] district_map@.districts[k]
                    == (DistrictView {
                    passenger_ids: ds0[k].passenger_ids + arrivals(
                        district_ids@.take(i + 1),
                        n0 as int,
                        k,
                    ),
                    ..ds0[k]
                }) by {
                    let a = arrivals(district_ids@.take(i as int), n0 as int, k);
                    assert(district_ids@.take(i + 1).last() == d);
                    if k == d {
                        assert(ds0[k].passenger_ids + a.push(id) == (ds0[k].passenger_ids + a).push(id));
                    } else {
                        assert(district_map@.districts[k] == dbefore[k]);
                    }
                }
            }
        }
        assert(district_ids@.take(n as int) == district_ids@);
    }
}

/// The last station of `stations` that serves a cell of `cells`.
pub fn last_serving_station(stations: &Vec<Station>, cells: &Vec<crate::graph::Position>) -> (r: Option<Station>)
    ensures
        r == last_serving(stations@, cells@),
{
    let mut r: Option<Station> = None;
    let n = stations.len();
    for i in 0..n
        invariant
            n == stations@.len(),
            r == last_serving(stations@.take(i as int), cells@),
    {
        assert(stations@.take(i + 1).drop_last() == stations@.take(i as int));
        if serves_any(cells, stations[i].position) {
            r = Some(stations[i]);
        }
    }
    assert(stations@.take(n as int) == stations@);
    r
}

impl PassengerDatabase {
    /// Gives every passenger without a work district one, and then, if it
    /// has one by then, an entertainment district, each drawn at random
    /// from the districts of that kind. A passenger for whom no work
    /// district exists gets neither. What the picks decide is stated by
    /// `Passenger::fill_with`.
    pub fn fill_passenger_pool(&mut self, district_map: &DistrictMap)
        requires
            old(self).wf(),
        ensures
            final(self).wf(),
            final(self).0@.dom() == old(self).0@.dom(),
            forall|i: usize|
                #[trigger] old(self).0@.contains_key(i) ==> {
                    let o = old(self).0@[i];
                    let q = final(self).0@[i];
                    let works = ids_of_type(district_map@.districts, DistrictType::Work);
                    let fun = ids_of_type(district_map@.districts, DistrictType::Entertainment);
                    let has_work = o.district_ids@[1] != 0 || works.len() > 0;
                    &&& q == Passenger { district_ids: q.district_ids, ..o }
                    &&& q.district_ids@[0] == o.district_ids@[0]
                    &&& if o.district_ids@[1] == 0 && works.len() > 0 {
                        works.contains(q.district_ids@[1])
                    } else {
                        q.district_ids@[1] == o.district_ids@[1]
                    }
                    &&& if has_work && o.district_ids@[2] == 0 && fun.len() > 0 {
                        fun.contains(q.district_ids@[2])
                    } else {
                        q.district_ids@[2] == o.district_ids@[2]
                    }
                },
    {
        let works = district_ids_of_type(district_map, DistrictType::Work);
        let fun = district_ids_of_type(district_map, DistrictType::Entertainment);
        let n = self.0.len();
        for i in 0..n
            invariant
                n == old(self).0@.len(),
                works@ == ids_of_type(district_map@.districts, DistrictType::Work),
                fun@ == ids_of_type(district_map@.districts, DistrictType::Entertainment),
                self.wf(),
                self.0@.dom() == old(self).0@.dom(),
                forall|j: usize|
                    #[trigger] old(self).0@.contains_key(j) && j >= i ==> self.0@[j] == old(self).0@[j],
                forall|j: usize|
                    #[trigger] old(self).0@.contains_key(j) && j < i ==> {
                        let o = old(self).0@[j];
                        let q = self.0@[j];
                        let has_work = o.district_ids@[1] != 0 || works@.len() > 0;
                        &&& q == Passenger { district_ids: q.district_ids, ..o }
                        &&& q.district_ids@[0] == o.district_ids@[0]
                        &&& if o.district_ids@[1] == 0 && works@.len() > 0 {
                            works@.contains(q.district_ids@[1])
                        } else {
                            q.district_ids@[1] == o.district_ids@[1]
                        }
                        &&& if has_work && o.district_ids@[2] == 0 && fun@.len() > 0 {
                            fun@.contains(q.district_ids@[2])
                        } else {
                            q.district_ids@[2] == o.district_ids@[2]
                        }
                    },
        {
            assert(self.0@.contains_key(i));
            let ghost before = self.0@;
            match self.0.remove(&i) {
                Some(mut p) => {
                    let needs_work = p.district_ids[1] == 0;
                    let has_work = !needs_work || works.len() > 0;
                    let pick_w = if needs_work && works.len() > 0 {
                        random_below(0, works.len())
                    } else {
                        0
                    };
                    let pick_f = if has_work && p.district_ids[2] == 0 && fun.len() > 0 {
                        random_below(0, fun.len())
                    } else {
                        0
                    };
                    let ghost op = p;
                    p.fill_with(&works, &fun, pick_w, pick_f);
                    assert(needs_work && works@.len() > 0 ==> works@.contains(p.district_ids@[1]));
                    assert(has_work && op.district_ids@[2] == 0 && fun@.len() > 0 ==> fun@.contains(
                        p.district_ids@[2],
                    ));
                    self.0.insert(i, p);
                    proof {
                        assert(self.0@ == before.insert(i, p));
                        assert(self.0@.dom() =~= before.dom());
                        assert forall|j: usize| #[trigger] self.0@.contains_key(j) <==> (j as int) < self.0@.len() by {
                            assert(self.0@.contains_key(j) == before.contains_key(j));
                        }
                    }
                },
                None => {},
            }
        }
    }

    /// Every passenger who is not on the way somewhere and has all three
    /// districts switches, at random, to one of its two other desires and
    /// heads for the last station (in the order of the lines and their
    /// stations) that serves a cell of the district of that desire; when
    /// no station serves it, it stays without a destination. What the coin
    /// decides is stated by `Passenger::decide_with`.
    pub fn decide_where_to_go(&mut self, district_map: &DistrictMap, metro: &Metro)
        requires
            old(self).wf(),
            forall|i: usize|
                #[trigger] old(self).0@.contains_key(i) ==> {
                    let p = old(self).0@[i];
                    (p.destination_station.is_none() && p.district_ids@[1] != 0
                        && p.district_ids@[2] != 0) ==> forall|j: int|
                        0 <= j < 3 ==> p.district_ids@[j] < district_map@.districts.len()
                },
        ensures
            final(self).wf(),
            final(self).0@.dom() == old(self).0@.dom(),
            forall|i: usize|
                #[trigger] old(self).0@.contains_key(i) ==> {
                    let o = old(self).0@[i];
                    let q = final(self).0@[i];
                    if o.destination_station.is_none() && o.district_ids@[1] != 0
                        && o.district_ids@[2] != 0 {
                        &&& q.current_desire != o.current_desire
                        &&& q == Passenger {
                            current_desire: q.current_desire,
                            destination_station: last_serving(
                                all_stations(metro.lines@),
                                district_map@.districts[o.district_ids@[spec_slot(
                                    q.current_desire,
                                )] as int].cells,
                            ),
                            ..o
                        }
                    } else {
                        q == o
                    }
                },
    {
        let stations = metro.all_stations();
        let n = self.0.len();
        for i in 0..n
            invariant
                n == old(self).0@.len(),
                stations@ == all_stations(metro.lines@),
                self.wf(),
                self.0@.dom() == old(self).0@.dom(),
                forall|j: usize|
                    #[trigger] old(self).0@.contains_key(j) && j >= i ==> self.0@[j] == old(self).0@[j],
                forall|j: usize|
                    #[trigger] old(self).0@.contains_key(j) ==> {
                        let p = old(self).0@[j];
                        (p.destination_station.is_none() && p.district_ids@[1] != 0
                            && p.district_ids@[2] != 0) ==> forall|k: int|
                            0 <= k < 3 ==> p.district_ids@[k] < district_map@.districts.len()
                    },
                forall|j: usize|
                    #[trigger] old(self).0@.contains_key(j) && j < i ==> {
                        let o = old(self).0@[j];
                        let q = self.0@[j];
                        if o.destination_station.is_none() && o.district_ids@[1] != 0
                            && o.district_ids@[2] != 0 {
                            &&& q.current_desire != o.current_desire
                            &&& q == Passenger {
                                current_desire: q.current_desire,
                                destination_station: last_serving(
                                    all_stations(metro.lines@),
                                    district_map@.districts[o.district_ids@[spec_slot(
                                        q.current_desire,
                                    )] as int].cells,
                                ),
                                ..o
                            }
                        } else {
                            q == o
                        }
                    },
        {
            assert(self.0@.contains_key(i));
            let ghost before = self.0@;
            match self.0.remove(&i) {
                Some(mut p) => {
                    if p.destination_station.is_none() && p.district_ids[1] != 0
                        && p.district_ids[2] != 0 {
                        let turn = random_ratio(1, 2);
                        p.decide_with(turn, district_map, &stations);
                        assert(p.current_desire != before[i].current_desire);
                    }
                    self.0.insert(i, p);
                    proof {
                        assert(self.0@ == before.insert(i, p));
                        assert(self.0@.dom() =~= before.dom());
                        assert forall|j: usize| #[trigger] self.0@.contains_key(j) <==> (j as int) < self.0@.len() by {
                            assert(self.0@.contains_key(j) == before.contains_key(j));
                        }
                    }
                },
                None => {},
            }
        }
    }
}

/// The first placed station standing at `pos`.
pub open spec fn entry_at(placed: Seq<Position>, pos: Position) -> Option<int>
    decreases placed.len(),
{
    if placed.len() == 0 {
        None
    } else {
        match entry_at(placed.drop_last(), pos) {
            Some(i) => Some(i),
            None => if placed.last() == pos {
                Some(placed.len() - 1)
            } else {
                None
            },
        }
    }
}

/// Where a passenger leaving a district with cells `cells` goes: to the
/// placed station (by index) of the first station of `stations` that
/// serves the district and whose waiting room is not full.
pub open spec fn boarding_target(
    stations: Seq<Station>,
    cells: Seq<Position>,
    placed: Seq<Position>,
    waiting: Seq<Seq<usize>>,
) -> Option<int>
    decreases stations.len(),
{
    if stations.len() == 0 {
        None
    } else {
        let s = stations[0];
        let here = if spec_serves_any(cells, s.position) {
            match entry_at(placed, s.position) {
                Some(j) => if waiting[j].len() < STATION_MAX_PASSENGERS {
                    Some(j)
                } else {
                    None
                },
                None => None,
            }
        } else {
            None
        };
        match here {
            Some(j) => Some(j),
            None => boarding_target(stations.drop_first(), cells, placed, waiting),
        }
    }
}

/// `s` without the first occurrence of `x`.
pub open spec fn without_first(s: Seq<usize>, x: usize) -> Seq<usize>
    decreases s.len(),
{
    if s.len() == 0 {
        s
    } else if s[0] == x {
        s.drop_first()
    } else {
        seq![s[0]] + without_first(s.drop_first(), x)
    }
}

/// Who waits where, as plain values: the districts, and the queue of each
/// placed station.
pub struct WaitingView {
    pub districts: Seq<DistrictView>,
    pub queues: Seq<Seq<usize>>,
}

/// Passenger `id` of district `k` tries to leave for a station.
pub open spec fn move_one(
    w: WaitingView,
    k: int,
    id: usize,
    db: Map<usize, Passenger>,
    stations: Seq<Station>,
    placed: Seq<Position>,
) -> WaitingView {
    if db[id].destination_station.is_none() {
        w
    } else {
        match boarding_target(stations, w.districts[k].cells, placed, w.queues) {
            None => w,
            Some(j) => WaitingView {
                districts: w.districts.update(
                    k,
                    DistrictView {
                        passenger_ids: without_first(w.districts[k].passenger_ids, id),
                        ..w.districts[k]
                    },
                ),
                queues: w.queues.update(j, w.queues[j].push(id)),
            },
        }
    }
}

/// The passengers `ids` of district `k`, one after the other, try to leave.
pub open spec fn move_list(
    w: WaitingView,
    k: int,
    ids: Seq<usize>,
    db: Map<usize, Passenger>,
    stations: Seq<Station>,
    placed: Seq<Position>,
) -> WaitingView
    decreases ids.len(),
{
    if ids.len() == 0 {
        w
    } else {
        move_one(move_list(w, k, ids.drop_last(), db, stations, placed), k, ids.last(), db, stations, placed)
    }
}

/// The passengers of the districts from `k` on, district after district,
/// try to leave.
pub open spec fn move_from(
    w: WaitingView,
    k: int,
    db: Map<usize, Passenger>,
    stations: Seq<Station>,
    placed: Seq<Position>,
) -> WaitingView
    decreases w.districts.len() - k,
{
    if k < 0 || k >= w.districts.len() {
        w
    } else {
        let w1 = move_list(w, k, w.districts[k].passenger_ids, db, stations, placed);
        if w1.districts.len() == w.districts.len() {
            move_from(w1, k + 1, db, stations, placed)
        } else {
            w1
        }
    }
}

/// The positions of the placed stations.
pub open spec fn placed_positions(placed: Seq<PlacedStation>) -> Seq<Position> {
    placed.map_values(|p: PlacedStation| p.station.position)
}

/// The queues of the placed stations.
pub open spec fn placed_queues(placed: Seq<PlacedStation>) -> Seq<Seq<usize>> {
    placed.map_values(|p: PlacedStation| p.button.passenger_ids@)
}

/// The first placed station standing at `pos`.
fn find_entry(placed: &Vec<PlacedStation>, pos: Position) -> (r: Option<usize>)
    ensures
        match r {
            Some(j) => entry_at(placed_positions(placed@), pos) == Some(j as int) && j < placed@.len(),
            None => entry_at(placed_positions(placed@), pos).is_none(),
        },
{
    let ghost ps = placed_positions(placed@);
    let n = placed.len();
    for i in 0..n
        invariant
            n == placed@.len(),
            ps == placed_positions(placed@),
            entry_at(ps.take(i as int), pos).is_none(),
    {
        assert(ps.take(i + 1).drop_last() == ps.take(i as int));
        if crate::graph::same_position(placed[i].station.position, pos) {
            proof {
                lemma_entry_at_prefix(ps, i as int + 1, pos);
            }
            return Some(i);
        }
    }
    assert(ps.take(n as int) == ps);
    None
}

proof fn lemma_entry_at_prefix(ps: Seq<Position>, j: int, pos: Position)
    requires
        0 <= j <= ps.len(),
        entry_at(ps.take(j), pos).is_some(),
    ensures
        entry_at(ps, pos) == entry_at(ps.take(j), pos),
    decreases ps.len() - j,
{
    if j < ps.len() {
        assert(ps.take(j + 1).drop_last() == ps.take(j));
        lemma_entry_at_prefix(ps, j + 1, pos);
    } else {
        assert(ps.take(j) == ps);
    }
}

proof fn lemma_entry_at_bound(ps: Seq<Position>, pos: Position)
    ensures
        entry_at(ps, pos) matches Some(i) ==> 0 <= i < ps.len() && ps[i] == pos,
    decreases ps.len(),
{
    if ps.len() > 0 {
        lemma_entry_at_bound(ps.drop_last(), pos);
    }
}

/// Where a passenger leaving a district with cells `cells` goes.
fn find_target(stations: &Vec<Station>, cells: &Vec<Position>, placed: &Vec<PlacedStation>) -> (r: Option<usize>)
    ensures
        match r {
            Some(j) => boarding_target(stations@, cells@, placed_positions(placed@), placed_queues(placed@))
                == Some(j as int) && j < placed@.len(),
            None => boarding_target(stations@, cells@, placed_positions(placed@), placed_queues(placed@)).is_none(),
        },
{
    let ghost ps = placed_positions(placed@);
    let ghost qs = placed_queues(placed@);
    let n = stations.len();
    assert(stations@.skip(0) == stations@);
    for i in 0..n
        invariant
            n == stations@.len(),
            ps == placed_positions(placed@),
            qs == placed_queues(placed@),
            boarding_target(stations@, cells@, ps, qs) == boarding_target(
                stations@.skip(i as int),
                cells@,
                ps,
                qs,
            ),
    {
        let s = stations[i];
        let ghost rest = stations@.skip(i as int);
        assert(rest.len() > 0);
        assert(rest[0] == s);
        assert(rest.drop_first() == stations@.skip(i + 1));
        let ghost here = if spec_serves_any(cells@, s.position) {
            match entry_at(ps, s.position) {
                Some(j) => if qs[j].len() < STATION_MAX_PASSENGERS {
                    Some(j)
                } else {
                    None
                },
                None => None,
            }
        } else {
            None
        };
        assert(boarding_target(rest, cells@, ps, qs) == match here {
            Some(j) => Some(j),
            None => boarding_target(rest.drop_first(), cells@, ps, qs),
        });
        let mut found: Option<usize> = None;
        if serves_any(cells, s.position) {
            proof {
                lemma_entry_at_bound(ps, s.position);
            }
            match find_entry(placed, s.position) {
                Some(j) => {
                    assert(qs[j as int] == placed@[j as int].button.passenger_ids@);
                    assert(entry_at(ps, s.position) == Some(j as int));
                    if placed[j].button.passenger_ids.len() < STATION_MAX_PASSENGERS {
                        assert(here == Some(j as int));
                        found = Some(j);
                    } else {
                        assert(here.is_none());
                    }
                },
                None => {},
            }
        }
        match found {
            Some(j) => {
                assert(boarding_target(rest, cells@, ps, qs) == Some(j as int));
                return Some(j);
            },
            None => {
                assert(boarding_target(rest, cells@, ps, qs) == boarding_target(
                    stations@.skip(i + 1),
                    cells@,
                    ps,
                    qs,
                ));
            },
        }
    }
    assert(stations@.skip(n as int).len() == 0);
    None
}

proof fn lemma_without_first(s: Seq<usize>, i: int)
    requires
        0 <= i < s.len(),
        forall|j: int| 0 <= j < i ==> s[j] != s[i],
    ensures
        without_first(s, s[i]) == s.remove(i),
    decreases s.len(),
{
    if i > 0 {
        lemma_without_first(s.drop_first(), i - 1);
        assert(s.remove(i) == seq![s[0]] + s.drop_first().remove(i - 1));
    } else {
        assert(s.remove(0) == s.drop_first());
    }
}

proof fn lemma_without_first_absent(s: Seq<usize>, x: usize)
    requires
        !s.contains(x),
    ensures
        without_first(s, x) == s,
    decreases s.len(),
{
    if s.len() > 0 {
        assert(!s.drop_first().contains(x)) by {
            if s.drop_first().contains(x) {
                let j = choose|j: int| 0 <= j < s.drop_first().len() && s.drop_first()[j] == x;
                assert(s[j + 1] == x);
            }
        }
        lemma_without_first_absent(s.drop_first(), x);
        assert(seq![s[0]] + s.drop_first() == s);
    }
}

/// Takes the first occurrence of `x` out of `v`.
fn remove_first(v: &mut Vec<usize>, x: usize)
    ensures
        final(v)@ == without_first(old(v)@, x),
{
    let n = v.len();
    for i in 0..n
        invariant
            n == v@.len(),
            v@ == old(v)@,
            forall|j: int| 0 <= j < i ==> v@[j] != x,
    {
        if v[i] == x {
            proof {
                lemma_without_first(v@, i as int);
            }
            v.remove(i);
            return;
        }
    }
    proof {
        lemma_without_first_absent(v@, x);
    }
}

/// Every passenger waiting in a district is known to the database.
pub open spec fn residents_known(ds: Seq<DistrictView>, db: Map<usize, Passenger>) -> bool {
    forall|k: int, a: int|
        0 <= k < ds.len() && 0 <= a < ds[k].passenger_ids.len() ==> #[trigger] db.contains_key(
            ds[k].passenger_ids[a],
        )
}

proof fn lemma_without_first_keeps(s: Seq<usize>, x: usize)
    ensures
        forall|b: int|
            0 <= b < without_first(s, x).len() ==> #[trigger] s.contains(without_first(s, x)[b]),
    decreases s.len(),
{
    if s.len() > 0 {
        lemma_without_first_keeps(s.drop_first(), x);
        let t = without_first(s, x);
        assert forall|b: int| 0 <= b < t.len() implies #[trigger] s.contains(t[b]) by {
            if s[0] == x {
                assert(s[b + 1] == t[b]);
            } else if b == 0 {
                assert(s[0] == t[0]);
            } else {
                let r = without_first(s.drop_first(), x);
                assert(t[b] == r[b - 1]);
                assert(s.drop_first().contains(r[b - 1]));
                let c = choose|c: int| 0 <= c < s.drop_first().len() && s.drop_first()[c] == r[b - 1];
                assert(s[c + 1] == t[b]);
            }
        }
    }
}

proof fn lemma_boarding_target_bound(
    stations: Seq<Station>,
    cells: Seq<Position>,
    placed: Seq<Position>,
    waiting: Seq<Seq<usize>>,
)
    ensures
        boarding_target(stations, cells, placed, waiting) matches Some(j) ==> 0 <= j < placed.len(),
    decreases stations.len(),
{
    if stations.len() > 0 {
        lemma_entry_at_bound(placed, stations[0].position);
        lemma_boarding_target_bound(stations.drop_first(), cells, placed, waiting);
    }
}

proof fn lemma_move_list_len(
    w: WaitingView,
    k: int,
    ids: Seq<usize>,
    db: Map<usize, Passenger>,
    stations: Seq<Station>,
    placed: Seq<Position>,
)
    requires
        0 <= k < w.districts.len(),
        w.queues.len() == placed.len(),
    ensures
        move_list(w, k, ids, db, stations, placed).districts.len() == w.districts.len(),
        move_list(w, k, ids, db, stations, placed).queues.len() == w.queues.len(),
    decreases ids.len(),
{
    if ids.len() > 0 {
        lemma_move_list_len(w, k, ids.drop_last(), db, stations, placed);
        let w1 = move_list(w, k, ids.drop_last(), db, stations, placed);
        lemma_boarding_target_bound(stations, w1.districts[k].cells, placed, w1.queues);
    }
}

/// Passengers with somewhere to go leave their district, district after
/// district and in the order they wait there, for the first station (in
/// the order of the lines and their stations) that serves their district
/// and whose waiting room is not full; each joins the end of that
/// station's queue and leaves its district's list. The others stay.
/// Nobody is lost, no station's queue grows past its room, and a passenger
/// with nowhere to go stays where it was; each single departure is as
/// `law_departure` states.
pub fn start_moving(
    database: &PassengerDatabase,
    district_map: &mut DistrictMap,
    metro: &Metro,
    placed: &mut Vec<PlacedStation>,
)
    requires
        residents_known(old(district_map)@.districts, database.0@),
    ensures
        ({
            let w = move_from(
                WaitingView {
                    districts: old(district_map)@.districts,
                    queues: placed_queues(old(placed)@),
                },
                0,
                database.0@,
                all_stations(metro.lines@),
                placed_positions(old(placed)@),
            );
            &&& final(district_map)@.districts == w.districts
            &&& placed_queues(final(placed)@) == w.queues
        }),
        final(district_map)@.cells == old(district_map)@.cells,
        placed_positions(final(placed)@) == placed_positions(old(placed)@),
        final(placed)@.len() == old(placed)@.len(),
        forall|j: int|
            0 <= j < old(placed)@.len() ==> {
                &&& (#[trigger] final(placed)@[j]).station == old(placed)@[j].station
                &&& final(placed)@[j].button.selected == old(placed)@[j].button.selected
                &&& final(placed)@[j].button.name == old(placed)@[j].button.name
                &&& final(placed)@[j].button.overload_ms == old(placed)@[j].button.overload_ms
            },
        everyone(
            WaitingView { districts: final(district_map)@.districts, queues: placed_queues(final(placed)@) },
        ) == everyone(
            WaitingView {
                districts: old(district_map)@.districts,
                queues: placed_queues(old(placed)@),
            },
        ),
        queues_within_capacity(placed_queues(old(placed)@)) ==> queues_within_capacity(
            placed_queues(final(placed)@),
        ),
        forall|x: usize|
            #[trigger] database.0@[x].destination_station.is_none() ==> stays_put(
                WaitingView {
                    districts: old(district_map)@.districts,
                    queues: placed_queues(old(placed)@),
                },
                WaitingView {
                    districts: final(district_map)@.districts,
                    queues: placed_queues(final(placed)@),
                },
                x,
            ),
{
    let ghost w0 = WaitingView {
        districts: old(district_map)@.districts,
        queues: placed_queues(old(placed)@),
    };
    proof {
        law_leaving_keeps_everyone(w0, database.0@, all_stations(metro.lines@), placed_positions(old(placed)@));
        if queues_within_capacity(w0.queues) {
            law_leaving_keeps_station_capacity(
                w0,
                database.0@,
                all_stations(metro.lines@),
                placed_positions(old(placed)@),
            );
        }
        assert forall|x: usize| #[trigger] database.0@[x].destination_station.is_none() implies stays_put(
            w0,
            move_from(w0, 0, database.0@, all_stations(metro.lines@), placed_positions(old(placed)@)),
            x,
        ) by {
            law_idle_passengers_stay(w0, x, database.0@, all_stations(metro.lines@), placed_positions(old(placed)@));
        }
    }
    let stations = metro.all_stations();
    let ghost db = database.0@;
    let ghost ps = placed_positions(placed@);
    let ghost st = stations@;
    let n = district_map.districts.len();
    for k in 0..n
        invariant
            n == district_map@.districts.len(),
            stations@ == st,
            st == all_stations(metro.lines@),
            db == database.0@,
            ps == placed_positions(old(placed)@),
            placed_positions(placed@) == ps,
            placed@.len() == old(placed)@.len(),
            forall|j: int|
                0 <= j < old(placed)@.len() ==> {
                    &&& (#[trigger] placed@[j]).station == old(placed)@[j].station
                    &&& placed@[j].button.selected == old(placed)@[j].button.selected
                    &&& placed@[j].button.name == old(placed)@[j].button.name
                    &&& placed@[j].button.overload_ms == old(placed)@[j].button.overload_ms
                },
            district_map@.cells == old(district_map)@.cells,
            residents_known(district_map@.districts, db),
            move_from(
                WaitingView { districts: district_map@.districts, queues: placed_queues(placed@) },
                k as int,
                db,
                st,
                ps,
            ) == move_from(
                WaitingView {
                    districts: old(district_map)@.districts,
                    queues: placed_queues(old(placed)@),
                },
                0,
                db,
                st,
                ps,
            ),
    {
        let ghost w0 = WaitingView {
            districts: district_map@.districts,
            queues: placed_queues(placed@),
        };
        assert(district_map@.districts[k as int] == district_map.districts@[k as int]@);
        let m = district_map.districts[k].passenger_ids.len();
        let mut ids: Vec<usize> = Vec::new();
        for a in 0..m
            invariant
                k < district_map.districts@.len(),
                m == district_map.districts@[k as int].passenger_ids@.len(),
                ids@ == district_map.districts@[k as int].passenger_ids@.take(a as int),
        {
            ids.push(district_map.districts[k].passenger_ids[a]);
            assert(ids@ == district_map.districts@[k as int].passenger_ids@.take(a + 1));
        }
        assert(ids@ == w0.districts[k as int].passenger_ids);
        for a in 0..m
            invariant
                n == district_map@.districts.len(),
                k < n,
                m == ids@.len(),
                ids@ == w0.districts[k as int].passenger_ids,
                w0.districts.len() == n,
                w0.queues.len() == placed@.len(),
                residents_known(w0.districts, db),
                stations@ == st,
                db == database.0@,
                placed_positions(placed@) == ps,
                placed@.len() == old(placed)@.len(),
                forall|j: int|
                    0 <= j < old(placed)@.len() ==> {
                        &&& (#[trigger] placed@[j]).station == old(placed)@[j].station
                        &&& placed@[j].button.selected == old(placed)@[j].button.selected
                        &&& placed@[j].button.name == old(placed)@[j].button.name
                        &&& placed@[j].button.overload_ms == old(placed)@[j].button.overload_ms
                    },
                district_map@.cells == old(district_map)@.cells,
                (WaitingView { districts: district_map@.districts, queues: placed_queues(placed@) })
                    == move_list(w0, k as int, ids@.take(a as int), db, st, ps),
                district_map@.districts.len() == n,
                forall|i: int| 0 <= i < n && i != k ==> district_map@.districts[i] == w0.districts[i],
                district_map@.districts[k as int] == (DistrictView {
                    passenger_ids: district_map@.districts[k as int].passenger_ids,
                    ..w0.districts[k as int]
                }),
                forall|b: int|
                    0 <= b < district_map@.districts[k as int].passenger_ids.len() ==> #[trigger] db.contains_key(
                        district_map@.districts[k as int].passenger_ids[b],
                    ),
        {
            let id = ids[a];
            assert(ids@.take(a + 1).drop_last() == ids@.take(a as int));
            assert(ids@.take(a + 1).last() == id);
            assert(db.contains_key(id));
            let ghost before = WaitingView {
                districts: district_map@.districts,
                queues: placed_queues(placed@),
            };
            let passenger = database.0.get(&id).unwrap();
            if passenger.destination_station.is_some() {
                assert(district_map@.districts[k as int] == district_map.districts@[k as int]@);
                match find_target(&stations, &district_map.districts[k].cells, placed) {
                    Some(j) => {
                        assert(j < placed@.len());
                        assert(before.districts[k as int].cells == district_map.districts@[k as int].cells@);
                        assert(boarding_target(st, before.districts[k as int].cells, ps, before.queues)
                            == Some(j as int));
                        assert(db[id].destination_station.is_some());
                        let ghost old_ids = district_map@.districts[k as int].passenger_ids;
                        placed[j].button.passenger_ids.push(id);
                        remove_first(&mut district_map.districts[k].passenger_ids, id);
                        proof {
                            assert(district_map@.districts =~= before.districts.update(
                                k as int,
                                DistrictView {
                                    passenger_ids: without_first(old_ids, id),
                                    ..before.districts[k as int]
                                },
                            ));
                            assert(placed_queues(placed@) =~= before.queues.update(
                                j as int,
                                before.queues[j as int].push(id),
                            ));
                            assert(placed_positions(placed@) =~= ps);
                            lemma_without_first_keeps(old_ids, id);
                            let t = without_first(old_ids, id);
                            assert forall|b: int| 0 <= b < t.len() implies #[trigger] db.contains_key(
                                t[b],
                            ) by {
                                assert(old_ids.contains(t[b]));
                                let c = choose|c: int| 0 <= c < old_ids.len() && old_ids[c] == t[b];
                                assert(db.contains_key(old_ids[c]));
                            }
                            assert((WaitingView {
                                districts: district_map@.districts,
                                queues: placed_queues(placed@),
                            }) == move_one(before, k as int, id, db, st, ps));
                            assert forall|i: int| 0 <= i < n && i != k implies district_map@.districts[i]
                                == w0.districts[i] by {
                                assert(district_map@.districts[i] == before.districts[i]);
                            }
                        }
                    },
                    None => {},
                }
            }
            assert((WaitingView {
                districts: district_map@.districts,
                queues: placed_queues(placed@),
            }) == move_one(before, k as int, id, db, st, ps));
        }
        assert(ids@.take(m as int) == ids@);
        proof {
            lemma_move_list_len(w0, k as int, ids@, db, st, ps);
            assert forall|kk: int, b: int|
                0 <= kk < district_map@.districts.len() && 0 <= b
                    < district_map@.districts[kk].passenger_ids.len() implies #[trigger] db.contains_key(
                district_map@.districts[kk].passenger_ids[b],
            ) by {
                if kk != k {
                    assert(district_map@.districts[kk] == w0.districts[kk]);
                }
            }
        }
    }
}

/// No queue is longer than a station holds.
pub open spec fn queues_within_capacity(queues: Seq<Seq<usize>>) -> bool {
    forall|j: int| 0 <= j < queues.len() ==> #[trigger] queues[j].len() <= STATION_MAX_PASSENGERS
}

proof fn lemma_move_one_capacity(
    w: WaitingView,
    k: int,
    id: usize,
    db: Map<usize, Passenger>,
    stations: Seq<Station>,
    placed: Seq<Position>,
)
    requires
        0 <= k < w.districts.len(),
        w.queues.len() == placed.len(),
        queues_within_capacity(w.queues),
    ensures
        queues_within_capacity(move_one(w, k, id, db, stations, placed).queues),
        move_one(w, k, id, db, stations, placed).queues.len() == w.queues.len(),
        move_one(w, k, id, db, stations, placed).districts.len() == w.districts.len(),
{
    lemma_boarding_target_bound(stations, w.districts[k].cells, placed, w.queues);
    lemma_boarding_target_room(stations, w.districts[k].cells, placed, w.queues);
    let w1 = move_one(w, k, id, db, stations, placed);
    assert forall|j: int| 0 <= j < w1.queues.len() implies #[trigger] w1.queues[j].len()
        <= STATION_MAX_PASSENGERS by {
        assert(w.queues[j].len() <= STATION_MAX_PASSENGERS);
    }
}

proof fn lemma_boarding_target_room(
    stations: Seq<Station>,
    cells: Seq<Position>,
    placed: Seq<Position>,
    waiting: Seq<Seq<usize>>,
)
    ensures
        boarding_target(stations, cells, placed, waiting) matches Some(j) ==> waiting[j].len()
            < STATION_MAX_PASSENGERS,
    decreases stations.len(),
{
    if stations.len() > 0 {
        lemma_boarding_target_room(stations.drop_first(), cells, placed, waiting);
    }
}

proof fn lemma_move_list_capacity(
    w: WaitingView,
    k: int,
    ids: Seq<usize>,
    db: Map<usize, Passenger>,
    stations: Seq<Station>,
    placed: Seq<Position>,
)
    requires
        0 <= k < w.districts.len(),
        w.queues.len() == placed.len(),
        queues_within_capacity(w.queues),
    ensures
        queues_within_capacity(move_list(w, k, ids, db, stations, placed).queues),
        move_list(w, k, ids, db, stations, placed).queues.len() == w.queues.len(),
        move_list(w, k, ids, db, stations, placed).districts.len() == w.districts.len(),
    decreases ids.len(),
{
    if ids.len() > 0 {
        lemma_move_list_capacity(w, k, ids.drop_last(), db, stations, placed);
        lemma_move_one_capacity(
            move_list(w, k, ids.drop_last(), db, stations, placed),
            k,
            ids.last(),
            db,
            stations,
            placed,
        );
    }
}

proof fn lemma_move_from_capacity(
    w: WaitingView,
    k: int,
    db: Map<usize, Passenger>,
    stations: Seq<Station>,
    placed: Seq<Position>,
)
    requires
        0 <= k,
        w.queues.len() == placed.len(),
        queues_within_capacity(w.queues),
    ensures
        queues_within_capacity(move_from(w, k, db, stations, placed).queues),
    decreases w.districts.len() - k,
{
    if k < w.districts.len() {
        lemma_move_list_capacity(w, k, w.districts[k].passenger_ids, db, stations, placed);
        let w1 = move_list(w, k, w.districts[k].passenger_ids, db, stations, placed);
        lemma_move_from_capacity(w1, k + 1, db, stations, placed);
    }
}

/// Passengers leaving their districts never overfill a station: when no
/// queue is longer than `STATION_MAX_PASSENGERS` before, none is after.
pub proof fn law_leaving_keeps_station_capacity(
    w: WaitingView,
    db: Map<usize, Passenger>,
    stations: Seq<Station>,
    placed: Seq<Position>,
)
    requires
        w.queues.len() == placed.len(),
        queues_within_capacity(w.queues),
    ensures
        queues_within_capacity(move_from(w, 0, db, stations, placed).queues),
{
    lemma_move_from_capacity(w, 0, db, stations, placed);
}


/// Everyone waiting in the districts of `ds`.
pub open spec fn in_districts(ds: Seq<DistrictView>) -> Multiset<usize>
    decreases ds.len(),
{
    if ds.len() == 0 {
        Multiset::empty()
    } else {
        in_districts(ds.drop_last()).add(ds.last().passenger_ids.to_multiset())
    }
}

/// Everyone waiting in the station queues `qs`.
pub open spec fn in_queues(qs: Seq<Seq<usize>>) -> Multiset<usize>
    decreases qs.len(),
{
    if qs.len() == 0 {
        Multiset::empty()
    } else {
        in_queues(qs.drop_last()).add(qs.last().to_multiset())
    }
}

/// Everyone who waits, in a district or at a station.
pub open spec fn everyone(w: WaitingView) -> Multiset<usize> {
    in_districts(w.districts).add(in_queues(w.queues))
}

proof fn lemma_in_districts_update(ds: Seq<DistrictView>, k: int, d: DistrictView)
    requires
        0 <= k < ds.len(),
    ensures
        in_districts(ds.update(k, d)).add(ds[k].passenger_ids.to_multiset()) == in_districts(
            ds,
        ).add(d.passenger_ids.to_multiset()),
    decreases ds.len(),
{
    broadcast use {vstd::seq_lib::group_to_multiset_ensures, vstd::multiset::group_multiset_axioms};

    let u = ds.update(k, d);
    assert(u.drop_last() == if k == ds.len() - 1 {
        ds.drop_last()
    } else {
        ds.drop_last().update(k, d)
    });
    let a = ds[k].passenger_ids.to_multiset();
    let b = d.passenger_ids.to_multiset();
    assert(in_districts(u) == in_districts(u.drop_last()).add(u.last().passenger_ids.to_multiset()));
    assert(in_districts(ds) == in_districts(ds.drop_last()).add(ds.last().passenger_ids.to_multiset()));
    if k < ds.len() - 1 {
        lemma_in_districts_update(ds.drop_last(), k, d);
        assert(ds.drop_last()[k] == ds[k]);
        assert(u.last() == ds.last());
        let r = in_districts(ds.drop_last().update(k, d));
        assert(r.add(a) == in_districts(ds.drop_last()).add(b));
        assert forall|v: usize| #[trigger] in_districts(u).add(a).count(v) == in_districts(ds).add(b).count(v) by {
            assert(r.add(a).count(v) == in_districts(ds.drop_last()).add(b).count(v));
        }
    } else {
        assert(u.last() == d);
        assert(ds.last() == ds[k]);
        assert(u.drop_last() == ds.drop_last());
    }
    assert(in_districts(u).add(a) =~= in_districts(ds).add(b));
}

proof fn lemma_in_queues_update(qs: Seq<Seq<usize>>, j: int, q: Seq<usize>)
    requires
        0 <= j < qs.len(),
    ensures
        in_queues(qs.update(j, q)).add(qs[j].to_multiset()) == in_queues(qs).add(q.to_multiset()),
    decreases qs.len(),
{
    broadcast use {vstd::seq_lib::group_to_multiset_ensures, vstd::multiset::group_multiset_axioms};

    let u = qs.update(j, q);
    assert(u.drop_last() == if j == qs.len() - 1 {
        qs.drop_last()
    } else {
        qs.drop_last().update(j, q)
    });
    let a = qs[j].to_multiset();
    let b = q.to_multiset();
    assert(in_queues(u) == in_queues(u.drop_last()).add(u.last().to_multiset()));
    assert(in_queues(qs) == in_queues(qs.drop_last()).add(qs.last().to_multiset()));
    if j < qs.len() - 1 {
        lemma_in_queues_update(qs.drop_last(), j, q);
        assert(qs.drop_last()[j] == qs[j]);
        assert(u.last() == qs.last());
        let r = in_queues(qs.drop_last().update(j, q));
        assert(r.add(a) == in_queues(qs.drop_last()).add(b));
        assert forall|v: usize| #[trigger] in_queues(u).add(a).count(v) == in_queues(qs).add(b).count(v) by {
            assert(r.add(a).count(v) == in_queues(qs.drop_last()).add(b).count(v));
        }
    } else {
        assert(u.last() == q);
        assert(qs.last() == qs[j]);
        assert(u.drop_last() == qs.drop_last());
    }
    assert(in_queues(u).add(a) =~= in_queues(qs).add(b));
}

proof fn lemma_without_first_multiset(s: Seq<usize>, x: usize)
    requires
        s.contains(x),
    ensures
        without_first(s, x).to_multiset().insert(x) == s.to_multiset(),
    decreases s.len(),
{
    broadcast use {vstd::seq_lib::group_to_multiset_ensures, vstd::multiset::group_multiset_axioms};

    if s[0] == x {
        assert(s == seq![x] + s.drop_first());
        vstd::seq_lib::lemma_multiset_commutative(seq![x], s.drop_first());
    } else {
        let j = choose|j: int| 0 <= j < s.len() && s[j] == x;
        assert(s.drop_first()[j - 1] == x);
        lemma_without_first_multiset(s.drop_first(), x);
        assert(s == seq![s[0]] + s.drop_first());
        vstd::seq_lib::lemma_multiset_commutative(seq![s[0]], s.drop_first());
        vstd::seq_lib::lemma_multiset_commutative(seq![s[0]], without_first(s.drop_first(), x));
    }
}

proof fn lemma_move_one_everyone(
    w: WaitingView,
    k: int,
    id: usize,
    db: Map<usize, Passenger>,
    stations: Seq<Station>,
    placed: Seq<Position>,
)
    requires
        0 <= k < w.districts.len(),
        w.queues.len() == placed.len(),
        w.districts[k].passenger_ids.contains(id),
    ensures
        everyone(move_one(w, k, id, db, stations, placed)) == everyone(w),
        ({
            let after = move_one(w, k, id, db, stations, placed).districts[k].passenger_ids;
            after.to_multiset() == w.districts[k].passenger_ids.to_multiset()
                || after.to_multiset().insert(id) == w.districts[k].passenger_ids.to_multiset()
        }),
{
    broadcast use {vstd::seq_lib::group_to_multiset_ensures, vstd::multiset::group_multiset_axioms};

    lemma_boarding_target_bound(stations, w.districts[k].cells, placed, w.queues);
    if db[id].destination_station.is_some() {
        match boarding_target(stations, w.districts[k].cells, placed, w.queues) {
            None => {},
            Some(j) => {
                let old_ids = w.districts[k].passenger_ids;
                let d = DistrictView { passenger_ids: without_first(old_ids, id), ..w.districts[k] };
                let q = w.queues[j].push(id);
                lemma_in_districts_update(w.districts, k, d);
                lemma_in_queues_update(w.queues, j, q);
                lemma_without_first_multiset(old_ids, id);
                let w1 = move_one(w, k, id, db, stations, placed);
                assert(w1.districts == w.districts.update(k, d));
                assert(w1.queues == w.queues.update(j, q));
                assert(everyone(w1) =~= everyone(w)) by {
                    assert forall|x: usize| #[trigger] everyone(w1).count(x) == everyone(w).count(x) by {
                        assert(in_districts(w1.districts).add(old_ids.to_multiset()).count(x)
                            == in_districts(w.districts).add(d.passenger_ids.to_multiset()).count(x));
                        assert(in_queues(w1.queues).add(w.queues[j].to_multiset()).count(x)
                            == in_queues(w.queues).add(q.to_multiset()).count(x));
                    }
                }
            },
        }
    }
}

proof fn lemma_move_list_everyone(
    w: WaitingView,
    k: int,
    ids: Seq<usize>,
    j: int,
    db: Map<usize, Passenger>,
    stations: Seq<Station>,
    placed: Seq<Position>,
)
    requires
        0 <= k < w.districts.len(),
        w.queues.len() == placed.len(),
        ids == w.districts[k].passenger_ids,
        0 <= j <= ids.len(),
    ensures
        everyone(move_list(w, k, ids.take(j), db, stations, placed)) == everyone(w),
        ids.skip(j).to_multiset().subset_of(
            move_list(w, k, ids.take(j), db, stations, placed).districts[k].passenger_ids.to_multiset(),
        ),
        move_list(w, k, ids.take(j), db, stations, placed).districts.len() == w.districts.len(),
        move_list(w, k, ids.take(j), db, stations, placed).queues.len() == w.queues.len(),
    decreases j,
{
    broadcast use {vstd::seq_lib::group_to_multiset_ensures, vstd::multiset::group_multiset_axioms};

    if j == 0 {
        assert(ids.take(0) == Seq::<usize>::empty());
        assert(ids.skip(0) == ids);
    } else {
        lemma_move_list_everyone(w, k, ids, j - 1, db, stations, placed);
        let p = ids.take(j);
        assert(p.drop_last() == ids.take(j - 1));
        assert(p.last() == ids[j - 1]);
        let w0 = move_list(w, k, ids.take(j - 1), db, stations, placed);
        lemma_move_list_len(w, k, ids.take(j - 1), db, stations, placed);
        let cur = w0.districts[k].passenger_ids;
        let x = ids[j - 1];
        assert(ids.skip(j - 1) == seq![x] + ids.skip(j));
        vstd::seq_lib::lemma_multiset_commutative(seq![x], ids.skip(j));
        assert(ids.skip(j - 1).to_multiset() == ids.skip(j).to_multiset().insert(x));
        assert(cur.to_multiset().count(x) > 0);
        assert(cur.contains(x));
        lemma_move_one_everyone(w0, k, x, db, stations, placed);
        lemma_boarding_target_bound(stations, w0.districts[k].cells, placed, w0.queues);
        let after = move_list(w, k, p, db, stations, placed).districts[k].passenger_ids;
        assert forall|v: usize| ids.skip(j).to_multiset().count(v) <= #[trigger] after.to_multiset().count(v) by {
            assert(ids.skip(j - 1).to_multiset().count(v) <= cur.to_multiset().count(v));
        }
    }
}

proof fn lemma_move_from_everyone(
    w: WaitingView,
    k: int,
    db: Map<usize, Passenger>,
    stations: Seq<Station>,
    placed: Seq<Position>,
)
    requires
        0 <= k,
        w.queues.len() == placed.len(),
    ensures
        everyone(move_from(w, k, db, stations, placed)) == everyone(w),
    decreases w.districts.len() - k,
{
    if k < w.districts.len() {
        let ids = w.districts[k].passenger_ids;
        lemma_move_list_everyone(w, k, ids, ids.len() as int, db, stations, placed);
        assert(ids.take(ids.len() as int) == ids);
        let w1 = move_list(w, k, ids, db, stations, placed);
        lemma_move_from_everyone(w1, k + 1, db, stations, placed);
    }
}

/// Nobody is lost or duplicated when passengers leave their districts:
/// everyone who waited in a district or at a station before still waits in
/// a district or at a station afterwards, as many times as before.
pub proof fn law_leaving_keeps_everyone(
    w: WaitingView,
    db: Map<usize, Passenger>,
    stations: Seq<Station>,
    placed: Seq<Position>,
)
    requires
        w.queues.len() == placed.len(),
    ensures
        everyone(move_from(w, 0, db, stations, placed)) == everyone(w),
{
    lemma_move_from_everyone(w, 0, db, stations, placed);
}

/// Passenger `id` of district `k` moved from `w` to `w1` by going to
/// placed station `j`: a station of `stations` that serves a cell of the
/// district and whose queue had room, at the end of which it now waits,
/// having left its district's list.
pub open spec fn leaves_for(
    w: WaitingView,
    w1: WaitingView,
    k: int,
    id: usize,
    j: int,
    stations: Seq<Station>,
    placed: Seq<Position>,
) -> bool {
    &&& 0 <= j < placed.len()
    &&& w.queues[j].len() < STATION_MAX_PASSENGERS
    &&& spec_serves_any(w.districts[k].cells, placed[j])
    &&& exists|i: int| 0 <= i < stations.len() && #[trigger] stations[i].position == placed[j]
    &&& w1.queues == w.queues.update(j, w.queues[j].push(id))
    &&& w1.districts == w.districts.update(
        k,
        DistrictView {
            passenger_ids: without_first(w.districts[k].passenger_ids, id),
            ..w.districts[k]
        },
    )
}

proof fn lemma_boarding_target_serves(
    stations: Seq<Station>,
    cells: Seq<Position>,
    placed: Seq<Position>,
    waiting: Seq<Seq<usize>>,
)
    ensures
        boarding_target(stations, cells, placed, waiting) matches Some(j) ==> {
            &&& spec_serves_any(cells, placed[j])
            &&& exists|i: int| 0 <= i < stations.len() && #[trigger] stations[i].position == placed[j]
        },
    decreases stations.len(),
{
    if stations.len() > 0 {
        let s = stations[0];
        lemma_entry_at_bound(placed, s.position);
        lemma_boarding_target_serves(stations.drop_first(), cells, placed, waiting);
        match boarding_target(stations, cells, placed, waiting) {
            Some(j) => {
                if spec_serves_any(cells, s.position) && entry_at(placed, s.position) == Some(j)
                    && waiting[j].len() < STATION_MAX_PASSENGERS {
                    assert(stations[0].position == placed[j]);
                } else {
                    let r = stations.drop_first();
                    let i = choose|i: int| 0 <= i < r.len() && #[trigger] r[i].position == placed[j];
                    assert(stations[i + 1].position == placed[j]);
                }
            },
            None => {},
        }
    }
}

/// A passenger leaves its district only with somewhere to go, and only for
/// a station that serves a cell of its district and has room, joining the
/// end of that station's queue; otherwise nothing changes. Leaving the
/// districts is this step, passenger after passenger.
pub proof fn law_departure(
    w: WaitingView,
    k: int,
    id: usize,
    db: Map<usize, Passenger>,
    stations: Seq<Station>,
    placed: Seq<Position>,
)
    requires
        0 <= k < w.districts.len(),
        w.queues.len() == placed.len(),
    ensures
        ({
            let w1 = move_one(w, k, id, db, stations, placed);
            ||| w1 == w
            ||| db[id].destination_station.is_some() && exists|j: int|
                #[trigger] leaves_for(w, w1, k, id, j, stations, placed)
        }),
{
    let cells = w.districts[k].cells;
    lemma_boarding_target_bound(stations, cells, placed, w.queues);
    lemma_boarding_target_room(stations, cells, placed, w.queues);
    lemma_boarding_target_serves(stations, cells, placed, w.queues);
    let w1 = move_one(w, k, id, db, stations, placed);
    if db[id].destination_station.is_some() {
        match boarding_target(stations, cells, placed, w.queues) {
            Some(j) => {
                assert(leaves_for(w, w1, k, id, j, stations, placed));
            },
            None => {},
        }
    }
}

/// Passenger `x` is where it was: it waits as many times in the districts,
/// and as many times at the stations, in `w1` as in `w`.
pub open spec fn stays_put(w: WaitingView, w1: WaitingView, x: usize) -> bool {
    &&& in_districts(w1.districts).count(x) == in_districts(w.districts).count(x)
    &&& in_queues(w1.queues).count(x) == in_queues(w.queues).count(x)
}

proof fn lemma_move_one_idle(
    w: WaitingView,
    k: int,
    id: usize,
    x: usize,
    db: Map<usize, Passenger>,
    stations: Seq<Station>,
    placed: Seq<Position>,
)
    requires
        0 <= k < w.districts.len(),
        w.queues.len() == placed.len(),
        db[x].destination_station.is_none(),
    ensures
        stays_put(w, move_one(w, k, id, db, stations, placed), x),
{
    broadcast use {vstd::seq_lib::group_to_multiset_ensures, vstd::multiset::group_multiset_axioms};

    lemma_boarding_target_bound(stations, w.districts[k].cells, placed, w.queues);
    if db[id].destination_station.is_some() {
        match boarding_target(stations, w.districts[k].cells, placed, w.queues) {
            None => {},
            Some(j) => {
                let old_ids = w.districts[k].passenger_ids;
                let d = DistrictView { passenger_ids: without_first(old_ids, id), ..w.districts[k] };
                let q = w.queues[j].push(id);
                lemma_in_districts_update(w.districts, k, d);
                lemma_in_queues_update(w.queues, j, q);
                if old_ids.contains(id) {
                    lemma_without_first_multiset(old_ids, id);
                } else {
                    lemma_without_first_absent(old_ids, id);
                }
                assert(d.passenger_ids.to_multiset().count(x) == old_ids.to_multiset().count(x));
                assert(q.to_multiset().count(x) == w.queues[j].to_multiset().count(x));
                let w1 = move_one(w, k, id, db, stations, placed);
                assert(w1.districts == w.districts.update(k, d));
                assert(w1.queues == w.queues.update(j, q));
                assert(in_districts(w1.districts).add(old_ids.to_multiset()).count(x)
                    == in_districts(w.districts).add(d.passenger_ids.to_multiset()).count(x));
                assert(in_queues(w1.queues).add(w.queues[j].to_multiset()).count(x)
                    == in_queues(w.queues).add(q.to_multiset()).count(x));
            },
        }
    }
}

proof fn lemma_move_list_idle(
    w: WaitingView,
    k: int,
    ids: Seq<usize>,
    x: usize,
    db: Map<usize, Passenger>,
    stations: Seq<Station>,
    placed: Seq<Position>,
)
    requires
        0 <= k < w.districts.len(),
        w.queues.len() == placed.len(),
        db[x].destination_station.is_none(),
    ensures
        stays_put(w, move_list(w, k, ids, db, stations, placed), x),
    decreases ids.len(),
{
    if ids.len() > 0 {
        lemma_move_list_idle(w, k, ids.drop_last(), x, db, stations, placed);
        lemma_move_list_len(w, k, ids.drop_last(), db, stations, placed);
        let w1 = move_list(w, k, ids.drop_last(), db, stations, placed);
        lemma_move_one_idle(w1, k, ids.last(), x, db, stations, placed);
    }
}

proof fn lemma_move_from_idle(
    w: WaitingView,
    k: int,
    x: usize,
    db: Map<usize, Passenger>,
    stations: Seq<Station>,
    placed: Seq<Position>,
)
    requires
        0 <= k,
        w.queues.len() == placed.len(),
        db[x].destination_station.is_none(),
    ensures
        stays_put(w, move_from(w, k, db, stations, placed), x),
    decreases w.districts.len() - k,
{
    if k < w.districts.len() {
        let ids = w.districts[k].passenger_ids;
        lemma_move_list_idle(w, k, ids, x, db, stations, placed);
        lemma_move_list_len(w, k, ids, db, stations, placed);
        let w1 = move_list(w, k, ids, db, stations, placed);
        lemma_move_from_idle(w1, k + 1, x, db, stations, placed);
    }
}

/// A passenger with nowhere to go does not leave its district: it waits
/// in the districts, and at the stations, as many times after passengers
/// leave as before.
pub proof fn law_idle_passengers_stay(
    w: WaitingView,
    x: usize,
    db: Map<usize, Passenger>,
    stations: Seq<Station>,
    placed: Seq<Position>,
)
    requires
        w.queues.len() == placed.len(),
        db[x].destination_station.is_none(),
    ensures
        stays_put(w, move_from(w, 0, db, stations, placed), x),
{
    lemma_move_from_idle(w, 0, x, db, stations, placed);
}

/// Placed station `j` is the first placed station standing at `pos`.
pub open spec fn first_placed_at(placed: Seq<Position>, pos: Position, j: int) -> bool {
    &&& 0 <= j < placed.len()
    &&& placed[j] == pos
    &&& forall|j2: int| 0 <= j2 < j ==> placed[j2] != pos
}

/// The station at `pos`, placed first as placed station `j`, can take a
/// passenger from a district with cells `cells`: it serves one of those
/// cells and its queue has room.
pub open spec fn takes_from(
    cells: Seq<Position>,
    pos: Position,
    placed: Seq<Position>,
    queues: Seq<Seq<usize>>,
    j: int,
) -> bool {
    &&& spec_serves_any(cells, pos)
    &&& first_placed_at(placed, pos, j)
    &&& queues[j].len() < STATION_MAX_PASSENGERS
}

/// The station at `pos` can take a passenger from a district with cells
/// `cells`.
pub open spec fn open_for(cells: Seq<Position>, pos: Position, placed: Seq<Position>, queues: Seq<Seq<usize>>) -> bool {
    exists|j: int| #[trigger] takes_from(cells, pos, placed, queues, j)
}

proof fn lemma_entry_at_first(ps: Seq<Position>, pos: Position)
    ensures
        match entry_at(ps, pos) {
            Some(j) => first_placed_at(ps, pos, j),
            None => forall|j: int| 0 <= j < ps.len() ==> ps[j] != pos,
        },
    decreases ps.len(),
{
    if ps.len() > 0 {
        let d = ps.drop_last();
        lemma_entry_at_first(d, pos);
        assert forall|j: int| 0 <= j < d.len() implies d[j] == ps[j] by {}
    }
}

proof fn lemma_first_placed_unique(ps: Seq<Position>, pos: Position, j: int)
    requires
        first_placed_at(ps, pos, j),
    ensures
        entry_at(ps, pos) == Some(j),
{
    lemma_entry_at_first(ps, pos);
    match entry_at(ps, pos) {
        Some(j0) => {
            if j0 < j {
                assert(ps[j0] != pos);
            } else if j < j0 {
                assert(ps[j] != pos);
            }
        },
        None => {
            assert(ps[j] != pos);
        },
    }
}

proof fn lemma_open_when_chosen(
    s: Station,
    cells: Seq<Position>,
    placed: Seq<Position>,
    queues: Seq<Seq<usize>>,
)
    requires
        spec_serves_any(cells, s.position),
        entry_at(placed, s.position) is Some,
        queues[entry_at(placed, s.position)->0].len() < STATION_MAX_PASSENGERS,
    ensures
        open_for(cells, s.position, placed, queues),
{
    lemma_entry_at_first(placed, s.position);
    assert(takes_from(cells, s.position, placed, queues, entry_at(placed, s.position)->0));
}

proof fn lemma_boarding_first_open(
    stations: Seq<Station>,
    cells: Seq<Position>,
    placed: Seq<Position>,
    queues: Seq<Seq<usize>>,
    i: int,
    j: int,
)
    requires
        0 <= i < stations.len(),
        takes_from(cells, stations[i].position, placed, queues, j),
        forall|i2: int| 0 <= i2 < i ==> !open_for(cells, #[trigger] stations[i2].position, placed, queues),
    ensures
        boarding_target(stations, cells, placed, queues) == Some(j),
    decreases i,
{
    let s = stations[0];
    if i == 0 {
        lemma_first_placed_unique(placed, s.position, j);
    } else {
        assert(!open_for(cells, stations[0].position, placed, queues));
        if spec_serves_any(cells, s.position) && entry_at(placed, s.position) is Some {
            if queues[entry_at(placed, s.position)->0].len() < STATION_MAX_PASSENGERS {
                lemma_open_when_chosen(s, cells, placed, queues);
            }
        }
        let r = stations.drop_first();
        assert(r[i - 1] == stations[i]);
        assert forall|i2: int| 0 <= i2 < i - 1 implies !open_for(cells, #[trigger] r[i2].position, placed, queues) by {
            assert(r[i2] == stations[i2 + 1]);
        }
        lemma_boarding_first_open(r, cells, placed, queues, i - 1, j);
    }
}

proof fn lemma_boarding_none_open(
    stations: Seq<Station>,
    cells: Seq<Position>,
    placed: Seq<Position>,
    queues: Seq<Seq<usize>>,
)
    requires
        forall|i: int| 0 <= i < stations.len() ==> !open_for(cells, #[trigger] stations[i].position, placed, queues),
    ensures
        boarding_target(stations, cells, placed, queues) is None,
    decreases stations.len(),
{
    if stations.len() > 0 {
        let s = stations[0];
        assert(!open_for(cells, stations[0].position, placed, queues));
        if spec_serves_any(cells, s.position) && entry_at(placed, s.position) is Some {
            if queues[entry_at(placed, s.position)->0].len() < STATION_MAX_PASSENGERS {
                lemma_open_when_chosen(s, cells, placed, queues);
            }
        }
        let r = stations.drop_first();
        assert forall|i: int| 0 <= i < r.len() implies !open_for(cells, #[trigger] r[i].position, placed, queues) by {
            assert(r[i] == stations[i + 1]);
        }
        lemma_boarding_none_open(r, cells, placed, queues);
    }
}

/// Where a passenger of district `k` goes when it tries to leave: with no
/// destination it stays; otherwise it joins the end of the queue of the
/// first station of `stations`, in their order, that serves a cell of its
/// district and has room (a full or unplaced station on the way is passed
/// over), and leaves its district's list; when no station can take it, it
/// stays.
pub proof fn law_first_open_station(
    w: WaitingView,
    k: int,
    id: usize,
    db: Map<usize, Passenger>,
    stations: Seq<Station>,
    placed: Seq<Position>,
)
    requires
        0 <= k < w.districts.len(),
        w.queues.len() == placed.len(),
    ensures
        db[id].destination_station is None ==> move_one(w, k, id, db, stations, placed) == w,
        (forall|i: int|
            0 <= i < stations.len() ==> !open_for(
                w.districts[k].cells,
                #[trigger] stations[i].position,
                placed,
                w.queues,
            )) ==> move_one(w, k, id, db, stations, placed) == w,
        forall|i: int, j: int|
            0 <= i < stations.len() && db[id].destination_station is Some && #[trigger] takes_from(
                w.districts[k].cells,
                stations[i].position,
                placed,
                w.queues,
                j,
            ) && (forall|i2: int|
                0 <= i2 < i ==> !open_for(
                    w.districts[k].cells,
                    #[trigger] stations[i2].position,
                    placed,
                    w.queues,
                )) ==> move_one(w, k, id, db, stations, placed) == (WaitingView {
                districts: w.districts.update(
                    k,
                    DistrictView {
                        passenger_ids: without_first(w.districts[k].passenger_ids, id),
                        ..w.districts[k]
                    },
                ),
                queues: w.queues.update(j, w.queues[j].push(id)),
            }),
{
    let cells = w.districts[k].cells;
    if forall|i: int| 0 <= i < stations.len() ==> !open_for(cells, #[trigger] stations[i].position, placed, w.queues) {
        lemma_boarding_none_open(stations, cells, placed, w.queues);
    }
    assert forall|i: int, j: int|
        0 <= i < stations.len() && db[id].destination_station is Some && #[trigger] takes_from(
            cells,
            stations[i].position,
            placed,
            w.queues,
            j,
        ) && (forall|i2: int|
            0 <= i2 < i ==> !open_for(cells, #[trigger] stations[i2].position, placed, w.queues)) implies move_one(
        w,
        k,
        id,
        db,
        stations,
        placed,
    ) == (WaitingView {
        districts: w.districts.update(
            k,
            DistrictView { passenger_ids: without_first(w.districts[k].passenger_ids, id), ..w.districts[k] },
        ),
        queues: w.queues.update(j, w.queues[j].push(id)),
    }) by {
        lemma_boarding_first_open(stations, cells, placed, w.queues, i, j);
    }
}

/// The station a passenger heads for is the last one, in the order given,
/// that serves a cell of its target district: a station of the list that
/// serves it with none after it doing so; there is none exactly when no
/// station of the list serves the district.
pub proof fn law_last_serving_station(stations: Seq<Station>, cells: Seq<Position>)
    ensures
        match last_serving(stations, cells) {
            Some(s) => exists|i: int|
                0 <= i < stations.len() && #[trigger] stations[i] == s && spec_serves_any(cells, s.position)
                    && forall|i2: int|
                    i < i2 < stations.len() ==> !spec_serves_any(cells, #[trigger] stations[i2].position),
            None => forall|i: int| 0 <= i < stations.len() ==> !spec_serves_any(cells, #[trigger] stations[i].position),
        },
    decreases stations.len(),
{
    if stations.len() > 0 {
        let d = stations.drop_last();
        law_last_serving_station(d, cells);
        let n = stations.len() - 1;
        if spec_serves_any(cells, stations.last().position) {
            assert(stations[n] == stations.last());
        } else {
            match last_serving(d, cells) {
                Some(s) => {
                    let i = choose|i: int|
                        0 <= i < d.len() && #[trigger] d[i] == s && spec_serves_any(cells, s.position)
                            && forall|i2: int|
                            i < i2 < d.len() ==> !spec_serves_any(cells, #[trigger] d[i2].position);
                    assert(stations[i] == s);
                    assert forall|i2: int| i < i2 < stations.len() implies !spec_serves_any(
                        cells,
                        #[trigger] stations[i2].position,
                    ) by {
                        if i2 < n {
                            assert(stations[i2] == d[i2]);
                        }
                    }
                },
                None => {
                    assert forall|i: int| 0 <= i < stations.len() implies !spec_serves_any(
                        cells,
                        #[trigger] stations[i].position,
                    ) by {
                        if i < n {
                            assert(stations[i] == d[i]);
                        }
                    }
                },
            }
        }
    }
}

/// The districts of a kind listed for passengers to pick from are exactly
/// the districts of that kind: an id is listed when, and only when, a
/// district of that kind has it.
pub proof fn law_districts_of_kind(ds: Seq<DistrictView>, t: DistrictType, x: usize)
    ensures
        ids_of_type(ds, t).contains(x) <==> exists|j: int|
            0 <= j < ds.len() && ds[j].district_type == t && #[trigger] ds[j].id == x,
    decreases ds.len(),
{
    if ds.len() > 0 {
        let d = ds.drop_last();
        law_districts_of_kind(d, t, x);
        let rest = ids_of_type(d, t);
        let l = ids_of_type(ds, t);
        let n = ds.len() - 1;
        if l.contains(x) {
            let r = choose|r: int| 0 <= r < l.len() && l[r] == x;
            if r < rest.len() {
                assert(rest[r] == x);
                let j = choose|j: int| 0 <= j < d.len() && d[j].district_type == t && #[trigger] d[j].id == x;
                assert(ds[j] == d[j]);
            } else {
                assert(ds[n].id == x);
            }
        }
        if exists|j: int| 0 <= j < ds.len() && ds[j].district_type == t && #[trigger] ds[j].id == x {
            let j = choose|j: int| 0 <= j < ds.len() && ds[j].district_type == t && #[trigger] ds[j].id == x;
            if j < n {
                assert(d[j] == ds[j]);
                assert(rest.contains(x));
                let r = choose|r: int| 0 <= r < rest.len() && rest[r] == x;
                assert(l[r] == x);
            } else {
                assert(l[rest.len() as int] == x);
            }
        }
    }
}

/// A passenger's next desire is always one of the two others, and the
/// coin picks between them: the two outcomes differ.
pub proof fn law_desire_changes(d: PassengerDesire)
    ensures
        spec_next_desire(d, true) != d,
        spec_next_desire(d, false) != d,
        spec_next_desire(d, true) != spec_next_desire(d, false),
        spec_slot(PassengerDesire::Home) == 0,
        spec_slot(PassengerDesire::Work) == 1,
        spec_slot(PassengerDesire::Entertainment) == 2,
{
}

} // verus!
