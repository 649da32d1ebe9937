use podzemka::line::MetroLine;
use podzemka::metro::{Direction, Metro};
use podzemka::money::Money;
use podzemka::passenger::{Passenger, PassengerDatabase, PassengerDesire};
use podzemka::station::{Station, StationButton, STATION_MAX_PASSENGERS};
use podzemka::train::{
    load_passengers, next_point, offload_passengers, train_for, Train, TRAIN_MAX_PASSENGERS, TRAIN_STOP_GAP_MS,
};
use std::collections::HashMap;

fn passenger(route: Vec<(i32, i32)>) -> Passenger {
    Passenger {
        current_desire: PassengerDesire::Home,
        last_visited_district: 0,
        district_ids: [0, 1, 2],
        destination_station: None,
        route: route.into_iter().map(Station::new).collect(),
    }
}

fn database(routes: Vec<Vec<(i32, i32)>>) -> PassengerDatabase {
    let mut map = HashMap::new();
    for (id, route) in routes.into_iter().enumerate() {
        map.insert(id, passenger(route));
    }
    PassengerDatabase(map)
}

fn line_metro() -> Metro {
    let mut metro = Metro::new();
    metro.lines.push(MetroLine::from_points(0, vec![(0, 0), (100, 0), (200, 0)], 0, 0));
    metro
}

fn route_of(db: &PassengerDatabase, id: usize) -> Vec<(i32, i32)> {
    db.0[&id].route.iter().map(|s| s.position).collect()
}

#[test]
fn train_new_is_empty() {
    let t = Train::new(4, Direction::Backwards);
    assert_eq!(t.line, 4);
    assert_eq!(t.current, 0);
    assert!(t.passenger_ids.is_empty());
    assert!(t.direction == Direction::Backwards);
    assert_eq!(t.last_stop_ms, 0);
}

#[test]
fn train_turns_round_at_the_ends() {
    let mut t = Train::new(0, Direction::Backwards);
    t.switch_direction(5);
    assert!(t.direction == Direction::Forwards);
    t.current = 4;
    t.switch_direction(5);
    assert!(t.direction == Direction::Backwards);
    t.current = 2;
    t.switch_direction(5);
    assert!(t.direction == Direction::Backwards);
    let mut single = Train::new(0, Direction::Backwards);
    single.switch_direction(1);
    assert!(single.direction == Direction::Backwards);
}

#[test]
fn train_stops_only_at_stations_after_gap() {
    let metro = line_metro();
    let mut t = Train::new(0, Direction::Forwards);
    t.last_stop_ms = 1000;
    assert!(t.should_stop(&metro.lines[0], (100, 0), 1000 + TRAIN_STOP_GAP_MS));
    assert!(!t.should_stop(&metro.lines[0], (100, 0), 1000 + TRAIN_STOP_GAP_MS - 1));
    assert!(!t.should_stop(&metro.lines[0], (50, 0), 5000));
}

#[test]
fn train_for_picks_direction() {
    let metro = line_metro();
    let line = &metro.lines[0];
    assert!(train_for(line, 0, (7, 7)).is_none());
    let from_back = train_for(line, 0, (200, 0)).unwrap();
    assert!(from_back.direction == Direction::Backwards);
    assert_eq!(from_back.line, 0);
    let from_front = train_for(line, 0, (0, 0)).unwrap();
    assert!(from_front.direction == Direction::Forwards);
    let from_middle = train_for(line, 0, (100, 0)).unwrap();
    assert!(from_middle.direction == Direction::Forwards);
}

#[test]
fn offload_lets_off_arrivals() {
    let mut db = database(vec![vec![(100, 0)], vec![(200, 0)], vec![]]);
    let mut train = Train::new(0, Direction::Forwards);
    train.passenger_ids = vec![0, 1, 2];
    let mut button = StationButton::named(1);
    let station = Station::new((100, 0));
    let off = offload_passengers(&mut button, &station, &mut train, &mut db);
    assert_eq!(off, vec![2, 0]);
    assert_eq!(train.passenger_ids, vec![1]);
    assert!(button.passenger_ids.is_empty());
    assert!(route_of(&db, 0).is_empty());
    assert!(route_of(&db, 1).is_empty());
    assert!(route_of(&db, 2).is_empty());
}

#[test]
fn offload_into_full_station_hands_nobody() {
    let mut db = database(vec![vec![(100, 0)]]);
    let mut train = Train::new(0, Direction::Forwards);
    train.passenger_ids = vec![0];
    let mut button = StationButton::named(1);
    button.passenger_ids = (10..10 + STATION_MAX_PASSENGERS).collect();
    let station = Station::new((100, 0));
    let off = offload_passengers(&mut button, &station, &mut train, &mut db);
    assert!(off.is_empty());
    assert!(train.passenger_ids.is_empty());
    assert_eq!(button.passenger_ids.len(), STATION_MAX_PASSENGERS);
}

#[test]
fn offload_pops_route_once_per_listing() {
    let mut db = database(vec![vec![(0, 0), (100, 0), (200, 0)]]);
    let mut train = Train::new(0, Direction::Forwards);
    train.passenger_ids = vec![0, 0];
    let mut button = StationButton::named(1);
    let station = Station::new((5, 5));
    let off = offload_passengers(&mut button, &station, &mut train, &mut db);
    assert!(off.is_empty());
    assert_eq!(train.passenger_ids, vec![0, 0]);
    assert_eq!(route_of(&db, 0), vec![(0, 0)]);
}

#[test]
fn load_takes_first_waiting_while_room() {
    let metro = line_metro();
    let db = database(vec![vec![(200, 0)], vec![(200, 0)], vec![(200, 0)]]);
    let mut train = Train::new(0, Direction::Forwards);
    train.passenger_ids = vec![9];
    let mut button = StationButton::named(2);
    button.passenger_ids = vec![0, 1];
    let mut offloaded = vec![7, 8];
    load_passengers(&mut button, &mut train, &mut offloaded, &db, &metro);
    assert_eq!(train.passenger_ids, vec![9, 0, 0]);
    assert_eq!(button.passenger_ids, vec![7, 8]);
    assert!(offloaded.is_empty());
    assert_eq!(button.name, 2);
}

#[test]
fn load_never_overfills_train() {
    let metro = line_metro();
    let db = database(vec![vec![(0, 0)]; 20]);
    let mut train = Train::new(0, Direction::Forwards);
    train.passenger_ids = vec![1, 2];
    let mut button = StationButton::named(0);
    button.passenger_ids = (0..10).collect();
    let mut offloaded = vec![];
    load_passengers(&mut button, &mut train, &mut offloaded, &db, &metro);
    assert_eq!(train.passenger_ids.len(), TRAIN_MAX_PASSENGERS);
    assert_eq!(button.passenger_ids, vec![0, 1, 2, 3, 4, 5]);
}

#[test]
fn full_train_boards_nobody() {
    let metro = line_metro();
    let db = database(vec![vec![(0, 0)]; 8]);
    let mut train = Train::new(0, Direction::Forwards);
    train.passenger_ids = vec![1; TRAIN_MAX_PASSENGERS];
    let mut button = StationButton::named(0);
    button.passenger_ids = vec![3, 4];
    let mut offloaded = vec![];
    load_passengers(&mut button, &mut train, &mut offloaded, &db, &metro);
    assert_eq!(train.passenger_ids.len(), TRAIN_MAX_PASSENGERS);
    assert_eq!(button.passenger_ids, vec![3, 4]);
}

#[test]
fn stop_at_station_pays_per_arrival() {
    let metro = line_metro();
    let mut db = database(vec![vec![(100, 0)], vec![(100, 0)], vec![(200, 0)]]);
    let mut train = Train::new(0, Direction::Forwards);
    train.passenger_ids = vec![0, 1];
    let mut button = StationButton::named(0);
    button.passenger_ids = vec![2];
    let station = Station::new((100, 0));
    let mut money = Money(10);
    let earned = train.stop_at_station(&mut button, &station, &mut db, &metro, &mut money, 5000);
    assert_eq!(earned, 2);
    assert_eq!(money.0, 12);
    assert_eq!(train.passenger_ids, vec![2]);
    assert_eq!(button.passenger_ids, vec![1, 0]);
    assert_eq!(train.last_stop_ms, 5000);
}

#[test]
fn next_point_follows_direction() {
    assert_eq!(next_point(3, 10, Direction::Forwards), 4);
    assert_eq!(next_point(9, 10, Direction::Forwards), 9);
    assert_eq!(next_point(3, 10, Direction::Backwards), 2);
    assert_eq!(next_point(0, 10, Direction::Backwards), 0);
    assert_eq!(next_point(0, 1, Direction::Forwards), 0);
}

#[test]
fn can_stop_checks_what_a_stop_needs() {
    let metro = line_metro();
    let db = database(vec![vec![(100, 0)], vec![(200, 0)], vec![(200, 0)], vec![]]);
    let station = Station::new((100, 0));
    let mut train = Train::new(0, Direction::Forwards);
    train.passenger_ids = vec![0, 1];
    let mut button = StationButton::named(0);
    button.passenger_ids = vec![2];
    assert!(train.can_stop_at(&button, &station, &db, &metro, &Money(0)));
    assert!(!train.can_stop_at(&button, &station, &db, &metro, &Money(u32::MAX)));
    button.passenger_ids = vec![1];
    assert!(!train.can_stop_at(&button, &station, &db, &metro, &Money(0)));
    button.passenger_ids = vec![3];
    assert!(!train.can_stop_at(&button, &station, &db, &metro, &Money(0)));
    button.passenger_ids = vec![9];
    assert!(!train.can_stop_at(&button, &station, &db, &metro, &Money(0)));
    train.passenger_ids = vec![0, 5];
    button.passenger_ids = vec![];
    assert!(!train.can_stop_at(&button, &station, &db, &metro, &Money(0)));
    train.line = 3;
    train.passenger_ids = vec![];
    assert!(!train.can_stop_at(&button, &station, &db, &metro, &Money(0)));
}
