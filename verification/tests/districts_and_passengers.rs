use podzemka::district::{
    free_neighbor, next_type, serves, serves_any, District, DistrictMap, DistrictType,
    DISTRICT_SIZE_SPREAD, MAX_DERIVATIVES, MAX_DISTRICT_SIZE,
};
use podzemka::line::MetroLine;
use podzemka::metro::Metro;
use podzemka::passenger::{
    district_ids_of_type, last_serving_station, next_desire, slot, start_moving, Passenger,
    PassengerDatabase, PassengerDesire,
};
use podzemka::station::{PlacedStation, Station, StationButton, STATION_MAX_PASSENGERS};

fn district(id: usize, t: DistrictType, cells: Vec<(i32, i32)>) -> District {
    District {
        id,
        district_type: t,
        is_completed: false,
        derivatives_amount: 0,
        is_fertile: true,
        cells,
        max_size: MAX_DISTRICT_SIZE,
        passenger_ids: vec![],
    }
}

fn three_districts() -> DistrictMap {
    DistrictMap {
        districts: vec![
            district(0, DistrictType::Living, vec![(0, 0)]),
            district(1, DistrictType::Work, vec![(2, 0)]),
            district(2, DistrictType::Entertainment, vec![(4, 0)]),
        ],
        cells: vec![(0, 0), (2, 0), (4, 0)],
    }
}

fn placed(positions: &[(i32, i32)]) -> Vec<PlacedStation> {
    positions
        .iter()
        .map(|p| PlacedStation { station: Station::new(*p), button: StationButton::named(0) })
        .collect()
}

fn no_duplicates(v: &[(i32, i32)]) -> bool {
    (0..v.len()).all(|i| (0..v.len()).all(|j| i == j || v[i] != v[j]))
}

fn consistent(m: &DistrictMap) -> bool {
    let mut all: Vec<(i32, i32)> = m.districts.iter().flat_map(|d| d.cells.clone()).collect();
    let mut cells = m.cells.clone();
    all.sort();
    cells.sort();
    no_duplicates(&m.cells)
        && all == cells
        && m.districts.iter().all(|d| d.cells.len() <= d.max_size)
        && m.districts.iter().enumerate().all(|(i, d)| d.id == i)
}

#[test]
fn station_serves_within_half_a_cell() {
    assert!(serves((1, 0), (50, 0)));
    assert!(serves((1, 0), (70, 0)));
    assert!(serves((1, 0), (75, 0)));
    assert!(!serves((1, 0), (76, 0)));
    assert!(serves((1, 1), (65, 65)));
    assert!(!serves((1, 1), (68, 68)));
    assert!(serves((-2, 3), (-100, 150)));
    assert!(serves_any(&vec![(9, 9), (2, 0)], (100, 0)));
    assert!(!serves_any(&vec![(9, 9)], (100, 0)));
    assert!(!serves_any(&vec![], (0, 0)));
}

#[test]
fn next_type_is_another_kind() {
    assert!(next_type(DistrictType::Living, true) == DistrictType::Work);
    assert!(next_type(DistrictType::Living, false) == DistrictType::Entertainment);
    assert!(next_type(DistrictType::Work, true) == DistrictType::Entertainment);
    assert!(next_type(DistrictType::Work, false) == DistrictType::Living);
    assert!(next_type(DistrictType::Entertainment, true) == DistrictType::Work);
    assert!(next_type(DistrictType::Entertainment, false) == DistrictType::Living);
}

#[test]
fn free_neighbor_order() {
    assert_eq!(free_neighbor((0, 0), &vec![]), Some((1, 0)));
    assert_eq!(free_neighbor((0, 0), &vec![(1, 0)]), Some((-1, 0)));
    assert_eq!(free_neighbor((0, 0), &vec![(1, 0), (-1, 0)]), Some((0, 1)));
    assert_eq!(free_neighbor((0, 0), &vec![(1, 0), (-1, 0), (0, 1)]), Some((0, -1)));
    assert_eq!(free_neighbor((0, 0), &vec![(1, 0), (-1, 0), (0, 1), (0, -1)]), None);
}

#[test]
fn first_district_at_origin() {
    let mut m = DistrictMap::new();
    assert!(m.districts.is_empty() && m.cells.is_empty());
    m.test_gen_district();
    assert_eq!(m.cells, vec![(0, 0)]);
    let d = &m.districts[0];
    assert_eq!(d.id, 0);
    assert!(d.district_type == DistrictType::Living);
    assert!(d.is_fertile && !d.is_completed);
    assert_eq!(d.cells, vec![(0, 0)]);
    assert!(MAX_DISTRICT_SIZE <= d.max_size && d.max_size < MAX_DISTRICT_SIZE + DISTRICT_SIZE_SPREAD);
}

#[test]
fn border_points_lists_first_free_neighbours() {
    let mut m = DistrictMap::new();
    m.add_district(DistrictType::Living, (0, 0), true, 5);
    m.add_district(DistrictType::Work, (1, 0), true, 5);
    assert_eq!(m.border_points(0), vec![(-1, 0)]);
    assert_eq!(m.border_points(1), vec![(2, 0)]);
}

#[test]
fn growth_round_takes_one_cell_each() {
    let mut m = DistrictMap::new();
    m.add_district(DistrictType::Living, (0, 0), true, 3);
    m.add_district(DistrictType::Work, (10, 0), true, 3);
    m.grow_districts();
    assert_eq!(m.districts[0].cells, vec![(0, 0), (1, 0)]);
    assert_eq!(m.districts[1].cells, vec![(10, 0), (11, 0)]);
    assert_eq!(m.cells, vec![(0, 0), (10, 0), (1, 0), (11, 0)]);
    m.grow_districts();
    assert_eq!(m.districts[0].cells, vec![(0, 0), (1, 0), (-1, 0)]);
    m.grow_districts();
    assert!(m.districts[0].is_completed);
    assert!(!m.districts[1].is_completed);
    assert_eq!(m.districts[1].cells.len(), 3);
    assert!(consistent(&m));
}

#[test]
fn growth_keeps_map_consistent() {
    let mut m = DistrictMap::new();
    m.add_district(DistrictType::Living, (0, 0), true, 30);
    m.add_district(DistrictType::Work, (2, 0), true, 30);
    m.add_district(DistrictType::Entertainment, (0, 2), true, 30);
    for _ in 0..40 {
        m.grow_districts();
        assert!(consistent(&m));
    }
}

#[test]
fn complete_district_seeds_a_new_one() {
    let mut m = DistrictMap::new();
    m.add_district(DistrictType::Living, (0, 0), true, 1);
    m.grow_districts();
    assert!(m.districts[0].is_completed);
    m.start_new_districts();
    assert_eq!(m.districts.len(), 2);
    assert_eq!(m.districts[0].derivatives_amount, 1);
    let d = &m.districts[1];
    assert_eq!(d.id, 1);
    assert!(d.district_type != DistrictType::Living);
    assert_eq!(d.cells, vec![(1, 0)]);
    assert_eq!(m.cells, vec![(0, 0), (1, 0)]);
    assert!(consistent(&m));
}

#[test]
fn seeding_stops_after_max_derivatives() {
    let mut m = DistrictMap::new();
    m.add_district(DistrictType::Living, (0, 0), true, 1);
    m.districts[0].is_completed = true;
    m.districts[0].derivatives_amount = MAX_DERIVATIVES;
    m.start_new_districts();
    assert_eq!(m.districts.len(), 1);
    m.districts[0].derivatives_amount = 0;
    m.districts[0].is_fertile = false;
    m.start_new_districts();
    assert_eq!(m.districts.len(), 1);
    assert_eq!(m.districts[0].derivatives_amount, 0);
}

#[test]
fn cells_to_spawn_skips_drawn_cells() {
    let m = three_districts();
    let r = m.cells_to_spawn(&vec![(2, 0)]);
    assert_eq!(r.len(), 2);
    assert!(r[0] == ((0, 0), DistrictType::Living));
    assert!(r[1] == ((4, 0), DistrictType::Entertainment));
}

#[test]
fn desire_slots_and_turns() {
    assert_eq!(slot(PassengerDesire::Home), 0);
    assert_eq!(slot(PassengerDesire::Work), 1);
    assert_eq!(slot(PassengerDesire::Entertainment), 2);
    assert!(next_desire(PassengerDesire::Home, true) == PassengerDesire::Work);
    assert!(next_desire(PassengerDesire::Home, false) == PassengerDesire::Entertainment);
    assert!(next_desire(PassengerDesire::Work, true) == PassengerDesire::Entertainment);
    assert!(next_desire(PassengerDesire::Work, false) == PassengerDesire::Home);
    assert!(next_desire(PassengerDesire::Entertainment, true) == PassengerDesire::Work);
    assert!(next_desire(PassengerDesire::Entertainment, false) == PassengerDesire::Home);
}

#[test]
fn new_passenger_is_at_home() {
    let p = Passenger::new(4);
    assert!(p.current_desire == PassengerDesire::Home);
    assert_eq!(p.last_visited_district, 4);
    assert_eq!(p.district_ids, [4, 0, 0]);
    assert!(p.destination_station.is_none());
    assert!(p.route.is_empty());
}

#[test]
fn add_passenger_numbers_passengers() {
    let mut m = three_districts();
    let mut db = PassengerDatabase::new();
    assert_eq!(db.len(), 0);
    assert_eq!(db.add_passenger(&mut m, 0), 0);
    assert_eq!(db.add_passenger(&mut m, 0), 1);
    assert_eq!(db.add_passenger(&mut m, 2), 2);
    assert_eq!(db.len(), 3);
    assert_eq!(m.districts[0].passenger_ids, vec![0, 1]);
    assert_eq!(m.districts[2].passenger_ids, vec![2]);
    assert_eq!(db.0[&2].district_ids, [2, 0, 0]);
}

#[test]
fn districts_by_kind() {
    let m = three_districts();
    assert_eq!(district_ids_of_type(&m, DistrictType::Work), vec![1]);
    assert_eq!(district_ids_of_type(&m, DistrictType::Living), vec![0]);
    let empty = DistrictMap::new();
    assert!(district_ids_of_type(&empty, DistrictType::Work).is_empty());
}

#[test]
fn passenger_pool_gets_work_and_fun() {
    let mut m = three_districts();
    let mut db = PassengerDatabase::new();
    db.add_passenger(&mut m, 0);
    db.fill_passenger_pool(&m);
    assert_eq!(db.0[&0].district_ids, [0, 1, 2]);
}

#[test]
fn passenger_pool_without_work_gets_nothing() {
    let mut m = DistrictMap {
        districts: vec![
            district(0, DistrictType::Living, vec![(0, 0)]),
            district(1, DistrictType::Entertainment, vec![(4, 0)]),
        ],
        cells: vec![(0, 0), (4, 0)],
    };
    let mut db = PassengerDatabase::new();
    db.add_passenger(&mut m, 0);
    db.fill_passenger_pool(&m);
    assert_eq!(db.0[&0].district_ids, [0, 0, 0]);
}

#[test]
fn last_serving_station_takes_last() {
    let stations = vec![Station::new((100, 0)), Station::new((0, 0)), Station::new((100, 10))];
    let r = last_serving_station(&stations, &vec![(2, 0)]);
    assert!(r == Some(Station::new((100, 10))));
    assert!(last_serving_station(&stations, &vec![(9, 9)]).is_none());
}

#[test]
fn passengers_decide_where_to_go() {
    let mut m = three_districts();
    let mut metro = Metro::new();
    metro.lines.push(MetroLine::from_points(0, vec![(0, 0), (100, 0), (200, 0)], 0, 0));
    let mut db = PassengerDatabase::new();
    db.add_passenger(&mut m, 0);
    db.add_passenger(&mut m, 0);
    db.fill_passenger_pool(&m);
    db.0.get_mut(&1).unwrap().destination_station = Some(Station::new((0, 0)));
    db.decide_where_to_go(&m, &metro);
    let p = &db.0[&0];
    match p.current_desire {
        PassengerDesire::Work => assert!(p.destination_station == Some(Station::new((100, 0)))),
        PassengerDesire::Entertainment => {
            assert!(p.destination_station == Some(Station::new((200, 0))))
        }
        PassengerDesire::Home => panic!("desire must change"),
    }
    let q = &db.0[&1];
    assert!(q.current_desire == PassengerDesire::Home);
    assert!(q.destination_station == Some(Station::new((0, 0))));
}

#[test]
fn passengers_leave_for_serving_station() {
    let mut m = three_districts();
    let mut metro = Metro::new();
    metro.lines.push(MetroLine::from_points(0, vec![(0, 0), (100, 0)], 0, 0));
    let mut db = PassengerDatabase::new();
    db.add_passenger(&mut m, 0);
    db.add_passenger(&mut m, 0);
    db.add_passenger(&mut m, 1);
    db.0.get_mut(&0).unwrap().destination_station = Some(Station::new((100, 0)));
    db.0.get_mut(&2).unwrap().destination_station = Some(Station::new((0, 0)));
    let mut stations = placed(&[(100, 0), (0, 0)]);
    start_moving(&db, &mut m, &metro, &mut stations);
    assert_eq!(m.districts[0].passenger_ids, vec![1]);
    assert!(m.districts[1].passenger_ids.is_empty());
    assert_eq!(stations[1].button.passenger_ids, vec![0]);
    assert_eq!(stations[0].button.passenger_ids, vec![2]);
}

#[test]
fn full_station_takes_nobody_more() {
    let mut m = three_districts();
    let mut metro = Metro::new();
    metro.lines.push(MetroLine::from_points(0, vec![(0, 0)], 0, 0));
    let mut db = PassengerDatabase::new();
    db.add_passenger(&mut m, 0);
    db.0.get_mut(&0).unwrap().destination_station = Some(Station::new((0, 0)));
    let mut stations = placed(&[(0, 0)]);
    stations[0].button.passenger_ids = (100..100 + STATION_MAX_PASSENGERS).collect();
    start_moving(&db, &mut m, &metro, &mut stations);
    assert_eq!(stations[0].button.passenger_ids.len(), STATION_MAX_PASSENGERS);
    assert_eq!(m.districts[0].passenger_ids, vec![0]);
}

#[test]
fn leaving_keeps_everyone() {
    let mut m = three_districts();
    let mut metro = Metro::new();
    metro.lines.push(MetroLine::from_points(0, vec![(0, 0), (100, 0), (200, 0)], 0, 0));
    let mut db = PassengerDatabase::new();
    for k in [0, 0, 1, 2, 2, 2] {
        db.add_passenger(&mut m, k);
    }
    for id in [0, 2, 3, 5] {
        db.0.get_mut(&id).unwrap().destination_station = Some(Station::new((0, 0)));
    }
    let mut stations = placed(&[(0, 0), (100, 0), (200, 0)]);
    stations[2].button.passenger_ids = vec![40, 41];
    let count = |m: &DistrictMap, s: &Vec<PlacedStation>| {
        let mut all: Vec<usize> = m.districts.iter().flat_map(|d| d.passenger_ids.clone()).collect();
        all.extend(s.iter().flat_map(|p| p.button.passenger_ids.clone()));
        all.sort();
        all
    };
    let before = count(&m, &stations);
    start_moving(&db, &mut m, &metro, &mut stations);
    assert_eq!(count(&m, &stations), before);
    assert_eq!(stations[0].button.passenger_ids, vec![0]);
    assert_eq!(stations[1].button.passenger_ids, vec![2]);
    assert_eq!(stations[2].button.passenger_ids, vec![40, 41, 3, 5]);
    assert_eq!(m.districts[2].passenger_ids, vec![4]);
}

#[test]
fn desires_are_drawn_both_ways() {
    let mut m = three_districts();
    let mut metro = Metro::new();
    metro.lines.push(MetroLine::from_points(0, vec![(0, 0), (100, 0), (200, 0)], 0, 0));
    let mut db = PassengerDatabase::new();
    for _ in 0..100 {
        db.add_passenger(&mut m, 0);
    }
    db.fill_passenger_pool(&m);
    db.decide_where_to_go(&m, &metro);
    let work = (0..100).filter(|i| db.0[i].current_desire == PassengerDesire::Work).count();
    assert!(work > 0 && work < 100);
}

#[test]
fn growth_near_the_edge_of_the_map() {
    let mut m = DistrictMap::new();
    m.add_district(DistrictType::Living, (i32::MAX - 1, 0), true, 5);
    m.grow_districts();
    assert_eq!(m.districts[0].cells, vec![(i32::MAX - 1, 0), (i32::MAX, 0)]);
    let mut s = DistrictMap::new();
    s.add_district(DistrictType::Living, (i32::MAX - 1, 0), true, 1);
    s.districts[0].is_completed = true;
    s.start_new_districts();
    assert_eq!(s.districts.len(), 2);
    assert_eq!(s.districts[1].cells, vec![(i32::MAX, 0)]);
}

#[test]
fn seeded_cell_is_a_border_cell() {
    let mut m = DistrictMap::new();
    m.add_district(DistrictType::Work, (0, 0), true, 2);
    m.add_district(DistrictType::Living, (1, 0), true, 2);
    m.districts[0].is_completed = true;
    for _ in 0..20 {
        let mut c = DistrictMap::new();
        c.add_district(DistrictType::Work, (0, 0), true, 2);
        c.add_district(DistrictType::Living, (1, 0), true, 2);
        c.districts[0].is_completed = true;
        let border = c.border_points(0);
        c.start_new_districts();
        assert!(border.contains(&c.districts[2].cells[0]));
        assert!(c.districts[2].district_type != DistrictType::Work);
    }
    assert_eq!(m.border_points(0), vec![(-1, 0)]);
}

#[test]
fn passengers_added_in_a_run() {
    let mut m = three_districts();
    let mut db = PassengerDatabase::new();
    db.add_passenger(&mut m, 1);
    db.add_passengers(&mut m, &vec![0, 2, 0]);
    assert_eq!(db.len(), 4);
    assert_eq!(m.districts[0].passenger_ids, vec![1, 3]);
    assert_eq!(m.districts[1].passenger_ids, vec![0]);
    assert_eq!(m.districts[2].passenger_ids, vec![2]);
    assert_eq!(db.0[&2].district_ids, [2, 0, 0]);
    assert_eq!(db.0[&0].district_ids, [1, 0, 0]);
}

#[test]
fn seed_from_uses_the_draws() {
    let mut m = DistrictMap::new();
    m.add_district(DistrictType::Living, (0, 0), true, 5);
    m.add_district(DistrictType::Work, (1, 0), true, 5);
    assert!(m.seed_from(0, true, 0, false, 7));
    let d = &m.districts[2];
    assert_eq!(d.id, 2);
    assert!(d.district_type == DistrictType::Work);
    assert_eq!(d.cells, vec![(-1, 0)]);
    assert!(!d.is_fertile && !d.is_completed);
    assert_eq!(d.max_size, MAX_DISTRICT_SIZE + 7);
    assert_eq!(m.cells, vec![(0, 0), (1, 0), (-1, 0)]);
    assert!(m.seed_from(0, false, 0, true, 0));
    let e = &m.districts[3];
    assert!(e.district_type == DistrictType::Entertainment);
    assert_eq!(e.cells, vec![(0, 1)]);
    assert!(e.is_fertile);
    assert_eq!(e.max_size, MAX_DISTRICT_SIZE);
    assert!(consistent(&m));
}

#[test]
fn seed_from_picks_among_border_cells() {
    let mut m = DistrictMap::new();
    m.add_district(DistrictType::Work, (0, 0), true, 5);
    m.districts[0].cells.push((0, 1));
    m.cells.push((0, 1));
    assert_eq!(m.border_points(0), vec![(1, 0), (1, 1)]);
    assert!(m.seed_from(0, true, 1, true, 3));
    let d = &m.districts[1];
    assert!(d.district_type == DistrictType::Entertainment);
    assert_eq!(d.cells, vec![(1, 1)]);
    assert_eq!(m.cells.last(), Some(&(1, 1)));
}

#[test]
fn seed_from_without_room_changes_nothing() {
    let mut m = DistrictMap::new();
    m.add_district(DistrictType::Living, (0, 0), true, 5);
    for (i, c) in [(1, 0), (-1, 0), (0, 1), (0, -1)].iter().enumerate() {
        m.add_district(DistrictType::Work, *c, true, 5);
        assert_eq!(m.districts[i + 1].id, i + 1);
    }
    assert!(!m.seed_from(0, true, 0, true, 0));
    assert_eq!(m.districts.len(), 5);
    assert_eq!(m.cells.len(), 5);
}

#[test]
fn first_district_when_origin_taken() {
    let mut m = DistrictMap::new();
    m.add_district(DistrictType::Work, (0, 0), true, 5);
    m.test_gen_district();
    assert_eq!(m.cells, vec![(0, 0), (0, 0)]);
    assert_eq!(m.districts.len(), 2);
    assert_eq!(m.districts[1].cells, vec![(0, 0)]);
}

#[test]
fn decide_with_follows_the_coin() {
    let m = three_districts();
    let stations = vec![Station::new((100, 0)), Station::new((200, 0))];
    let mut p = Passenger::new(0);
    p.district_ids = [0, 1, 2];
    p.decide_with(true, &m, &stations);
    assert!(p.current_desire == PassengerDesire::Work);
    assert!(p.destination_station == Some(Station::new((100, 0))));
    let mut q = Passenger::new(0);
    q.district_ids = [0, 1, 2];
    q.decide_with(false, &m, &stations);
    assert!(q.current_desire == PassengerDesire::Entertainment);
    assert!(q.destination_station == Some(Station::new((200, 0))));
    let mut r = Passenger::new(0);
    r.district_ids = [0, 1, 2];
    r.current_desire = PassengerDesire::Work;
    r.decide_with(false, &m, &stations);
    assert!(r.current_desire == PassengerDesire::Home);
    assert!(r.destination_station.is_none());
}

#[test]
fn decide_with_leaves_travellers_alone() {
    let m = three_districts();
    let stations = vec![Station::new((100, 0))];
    let mut p = Passenger::new(0);
    p.district_ids = [0, 1, 2];
    p.destination_station = Some(Station::new((0, 0)));
    p.decide_with(true, &m, &stations);
    assert!(p.current_desire == PassengerDesire::Home);
    assert!(p.destination_station == Some(Station::new((0, 0))));
    let mut q = Passenger::new(0);
    q.district_ids = [0, 1, 0];
    q.decide_with(true, &m, &stations);
    assert!(q.current_desire == PassengerDesire::Home);
    assert!(q.destination_station.is_none());
}

#[test]
fn fill_with_takes_the_picks() {
    let works = vec![5, 6, 7];
    let fun = vec![8, 9];
    let mut p = Passenger::new(0);
    p.fill_with(&works, &fun, 2, 1);
    assert_eq!(p.district_ids, [0, 7, 9]);
    let mut q = Passenger::new(0);
    q.fill_with(&vec![], &fun, 0, 1);
    assert_eq!(q.district_ids, [0, 0, 0]);
    let mut r = Passenger::new(0);
    r.district_ids = [0, 3, 0];
    r.fill_with(&vec![], &fun, 0, 0);
    assert_eq!(r.district_ids, [0, 3, 8]);
    let mut s = Passenger::new(0);
    s.district_ids = [0, 3, 4];
    s.fill_with(&works, &fun, 1, 1);
    assert_eq!(s.district_ids, [0, 3, 4]);
}

#[test]
fn passenger_without_destination_stays() {
    let mut m = three_districts();
    let mut metro = Metro::new();
    metro.lines.push(MetroLine::from_points(0, vec![(0, 0)], 0, 0));
    let mut db = PassengerDatabase::new();
    db.add_passenger(&mut m, 0);
    let mut stations = placed(&[(0, 0)]);
    start_moving(&db, &mut m, &metro, &mut stations);
    assert_eq!(m.districts[0].passenger_ids, vec![0]);
    assert!(stations[0].button.passenger_ids.is_empty());
}
