use podzemka::graph::{position_key, same_position, Graph, Node};
use podzemka::line::{MetroLine, LINE_HUE_COUNT, LINE_NAME_COUNT};
use podzemka::map_generation::{spawn_map, FIRST_STATION, SECOND_STATION};
use podzemka::metro::{Direction, Metro};
use podzemka::money::{Money, START_MONEY, STATION_COST, TRAIN_COST};
use podzemka::station::{
    build_new, build_station, same_station, spawn_station, station_warning, BuildStationEvent,
    SpawnStationEvent, Station, StationBuilt, StationButton, WarningColor, WarningUpdate,
    GAMEOVER_MS, STATION_MAX_PASSENGERS, STATION_NAME_DRAW,
};

fn metro_with(lines: Vec<Vec<(i32, i32)>>) -> Metro {
    let mut metro = Metro::new();
    for (id, points) in lines.into_iter().enumerate() {
        metro.lines.push(MetroLine::from_points(id, points, 0, 0));
    }
    metro
}

#[test]
fn graph_starts_empty() {
    let mut g: Graph<u32> = Graph::new();
    assert!(g.get((0, 0)).is_none());
    assert!(g.get_mut((0, 0)).is_none());
}

#[test]
fn graph_add_without_connection_changes_nothing() {
    let mut g: Graph<u32> = Graph::new();
    g.add((0, 0), (1, 1), 7);
    assert!(g.get((1, 1)).is_none());
    assert!(g.get((0, 0)).is_none());
    assert!(g.get_mut((1, 1)).is_none());
}

#[test]
fn position_keys_are_distinct() {
    assert_eq!(position_key((0, 0)), 0x8000_0000_8000_0000);
    assert_ne!(position_key((1, 0)), position_key((0, 1)));
    assert_ne!(position_key((-1, 0)), position_key((0, -1)));
    assert_eq!(position_key((i32::MIN, i32::MIN)), 0);
    assert_eq!(position_key((i32::MAX, i32::MAX)), u64::MAX);
    assert!(same_position((3, -4), (3, -4)));
    assert!(!same_position((3, -4), (-4, 3)));
}

#[test]
fn line_from_points_keeps_order() {
    let line = MetroLine::from_points(3, vec![(0, 0), (100, 0), (200, 50)], 4, 5);
    assert_eq!(line.id, 3);
    assert_eq!(line.name, 4);
    assert_eq!(line.hue, 5);
    let positions: Vec<(i32, i32)> = line.stations.iter().map(|s| s.position).collect();
    assert_eq!(positions, vec![(0, 0), (100, 0), (200, 50)]);
    assert!(line.front() == Some(Station::new((0, 0))));
    assert!(line.back() == Some(Station::new((200, 50))));
    assert!(line.has_station((100, 0)));
    assert!(!line.has_station((100, 1)));
}

#[test]
fn line_random_name_and_hue_in_range() {
    for _ in 0..50 {
        let line = MetroLine::new_from_points(0, vec![(1, 2)]);
        assert!(line.name < LINE_NAME_COUNT);
        assert!(line.hue < LINE_HUE_COUNT);
        assert_eq!(line.stations.len(), 1);
    }
}

#[test]
fn line_push_front_and_back() {
    let mut line = MetroLine::from_points(0, vec![(0, 0)], 1, 1);
    line.push_back((1, 0));
    line.push_front((-1, 0));
    let positions: Vec<(i32, i32)> = line.stations.iter().map(|s| s.position).collect();
    assert_eq!(positions, vec![(-1, 0), (0, 0), (1, 0)]);
    let empty = MetroLine::from_points(0, vec![], 0, 0);
    assert!(empty.front().is_none());
    assert!(empty.back().is_none());
}

#[test]
fn metro_add_line_numbers_lines() {
    let mut metro = Metro::new();
    let first = metro.add_line(vec![(0, 0), (100, 0)]);
    assert_eq!(first.id, 0);
    first.push_back((200, 0));
    let second = metro.add_line(vec![(5, 5)]);
    assert_eq!(second.id, 1);
    assert_eq!(metro.lines.len(), 2);
    assert_eq!(metro.lines[0].stations.len(), 3);
}

#[test]
fn metro_finds_first_line_through_station() {
    let metro = metro_with(vec![vec![(0, 0), (100, 0)], vec![(100, 0), (100, 100)]]);
    assert_eq!(metro.find_line_by_station((100, 0)).unwrap().id, 0);
    assert_eq!(metro.find_line_by_station((100, 100)).unwrap().id, 1);
    assert!(metro.find_line_by_station((7, 7)).is_none());
    assert!(metro.find_station((100, 100)) == Some(&Station::new((100, 100))));
    assert_eq!(metro.lines_with_station((100, 0)), vec![0, 1]);
    assert_eq!(metro.lines_with_station((0, 0)), vec![0]);
    assert!(metro.lines_with_station((9, 9)).is_empty());
    let all: Vec<(i32, i32)> = metro.all_stations().iter().map(|s| s.position).collect();
    assert_eq!(all, vec![(0, 0), (100, 0), (100, 0), (100, 100)]);
}

#[test]
fn direction_defaults_forwards() {
    assert!(Direction::default() == Direction::Forwards);
}

#[test]
fn money_prices() {
    assert_eq!(Money::new().0, START_MONEY);
    assert_eq!(START_MONEY, 99999);
    assert_eq!(TRAIN_COST, 50);
    assert_eq!(STATION_COST, 100);
}

#[test]
fn station_button_fresh_and_overflow() {
    for _ in 0..50 {
        let b = StationButton::new();
        assert!(!b.selected);
        assert!(b.passenger_ids.is_empty());
        assert!(b.name < STATION_NAME_DRAW);
    }
    let mut b = StationButton::named(3);
    assert_eq!(b.name, 3);
    for i in 0..STATION_MAX_PASSENGERS - 1 {
        b.passenger_ids.push(i);
    }
    assert!(!b.is_overflowing());
    b.passenger_ids.push(99);
    assert!(b.is_overflowing());
}

#[test]
fn same_station_compares_positions() {
    assert!(same_station(Station::new((1, 2)), Station::new((1, 2))));
    assert!(!same_station(Station::new((1, 2)), Station::new((2, 1))));
}

#[test]
fn build_new_from_ends_and_middle() {
    let metro = metro_with(vec![vec![(0, 0), (100, 0), (200, 0)]]);
    let front = build_new(&metro, Station::new((0, 0)));
    assert_eq!(front.len(), 1);
    assert!(front[0].direction == Direction::Backwards);
    assert_eq!(front[0].line_to_attach, 0);
    assert_eq!(front[0].connection, (0, 0));
    assert!(!front[0].from_menu);
    let middle = build_new(&metro, Station::new((100, 0)));
    assert!(middle[0].direction == Direction::Forwards);
    assert_eq!(middle[0].line_to_attach, usize::MAX);
    let back = build_new(&metro, Station::new((200, 0)));
    assert!(back[0].direction == Direction::Forwards);
    assert_eq!(back[0].line_to_attach, 0);
    assert!(build_new(&metro, Station::new((5, 5))).is_empty());
}

#[test]
fn build_new_once_per_line() {
    let metro = metro_with(vec![vec![(0, 0), (100, 0)], vec![(300, 0)], vec![(100, 0), (0, 100)]]);
    let events = build_new(&metro, Station::new((100, 0)));
    assert_eq!(events.len(), 2);
    assert_eq!(events[0].line_to_attach, 0);
    assert!(events[0].direction == Direction::Forwards);
    assert_eq!(events[1].line_to_attach, 2);
    assert!(events[1].direction == Direction::Backwards);
}

#[test]
fn build_station_refused_without_money() {
    let mut metro = metro_with(vec![vec![(0, 0), (100, 0)]]);
    let mut money = Money(STATION_COST - 1);
    let ev = BuildStationEvent {
        position: (200, 0),
        connection: (100, 0),
        direction: Direction::Forwards,
        line_to_attach: 0,
    };
    assert!(build_station(&mut metro, &mut money, &ev).is_none());
    assert_eq!(money.0, STATION_COST - 1);
    assert_eq!(metro.lines[0].stations.len(), 2);
}

#[test]
fn build_station_extends_line_forwards_and_backwards() {
    let mut metro = metro_with(vec![vec![(0, 0), (100, 0)]]);
    let mut money = Money(250);
    let ev = BuildStationEvent {
        position: (200, 0),
        connection: (100, 0),
        direction: Direction::Forwards,
        line_to_attach: 0,
    };
    assert!(build_station(&mut metro, &mut money, &ev) == Some(StationBuilt::ExtendedLine(0)));
    assert_eq!(money.0, 150);
    let ev = BuildStationEvent {
        position: (-100, 0),
        connection: (0, 0),
        direction: Direction::Backwards,
        line_to_attach: 0,
    };
    assert!(build_station(&mut metro, &mut money, &ev) == Some(StationBuilt::ExtendedLine(0)));
    assert_eq!(money.0, 50);
    let positions: Vec<(i32, i32)> = metro.lines[0].stations.iter().map(|s| s.position).collect();
    assert_eq!(positions, vec![(-100, 0), (0, 0), (100, 0), (200, 0)]);
}

#[test]
fn build_station_opens_new_line() {
    let mut metro = metro_with(vec![vec![(0, 0), (100, 0)]]);
    let mut money = Money(100);
    let ev = BuildStationEvent {
        position: (0, 100),
        connection: (0, 0),
        direction: Direction::Forwards,
        line_to_attach: usize::MAX,
    };
    assert!(build_station(&mut metro, &mut money, &ev) == Some(StationBuilt::NewLine(1)));
    assert_eq!(money.0, 0);
    assert_eq!(metro.lines.len(), 2);
    assert_eq!(metro.lines[1].id, 1);
    let positions: Vec<(i32, i32)> = metro.lines[1].stations.iter().map(|s| s.position).collect();
    assert_eq!(positions, vec![(0, 100), (0, 0)]);
}

#[test]
fn spawn_station_needs_existing_connection() {
    let mut metro = Metro::new();
    let button = spawn_station(&mut metro, &SpawnStationEvent { position: (0, 0), connection: (100, 0) });
    assert!(button.passenger_ids.is_empty());
    assert!(!button.selected);
    assert!(button.name < STATION_NAME_DRAW);
    assert!(metro.stations.get((0, 0)).is_none());
}

#[test]
fn spawn_map_opens_first_line() {
    let mut metro = Metro::new();
    let start = spawn_map(&mut metro);
    assert_eq!(metro.lines.len(), 1);
    assert_eq!(metro.lines[0].id, 0);
    let positions: Vec<(i32, i32)> = metro.lines[0].stations.iter().map(|s| s.position).collect();
    assert_eq!(positions, vec![FIRST_STATION, SECOND_STATION]);
    assert_eq!(FIRST_STATION, (0, 0));
    assert_eq!(SECOND_STATION, (100, 0));
    assert_eq!(start.line_curve, 0);
    assert!(start.stations[0] == SpawnStationEvent { position: (0, 0), connection: (100, 0) });
    assert!(start.stations[1] == SpawnStationEvent { position: (100, 0), connection: (0, 0) });
    assert_eq!(start.train.line, 0);
    assert_eq!(start.train.station, (0, 0));
}

#[test]
fn station_warning_counts_down() {
    let calm = WarningUpdate { visible: false, color: Some(WarningColor::Green), game_over: false };
    assert!(station_warning(false, 19000, true) == calm);
    assert!(station_warning(true, 0, false) == WarningUpdate { visible: true, color: None, game_over: false });
    assert!(station_warning(true, GAMEOVER_MS / 2, false).color.is_none());
    assert!(station_warning(true, GAMEOVER_MS / 2 + 1, false).color == Some(WarningColor::Yellow));
    assert!(station_warning(true, 15000, false).color == Some(WarningColor::Yellow));
    assert!(station_warning(true, 15001, false).color == Some(WarningColor::Red));
    assert!(station_warning(true, GAMEOVER_MS, true) == WarningUpdate {
        visible: true,
        color: Some(WarningColor::Red),
        game_over: true,
    });
}

#[test]
fn random_names_vary() {
    let names: Vec<usize> = (0..200).map(|_| StationButton::new().name).collect();
    assert!(names.iter().all(|&n| n < STATION_NAME_DRAW));
    assert!(names.iter().any(|&n| n != names[0]));
    let hues: Vec<usize> = (0..200).map(|_| MetroLine::new_from_points(0, vec![]).hue).collect();
    assert!(hues.iter().any(|&h| h != hues[0]));
}

#[test]
fn node_starts_with_its_connection() {
    let n = Node::new((1, 2), (3, 4), 'x');
    assert_eq!(n.connections, vec![(3, 4)]);
    assert_eq!(n.data, 'x');
}

#[test]
fn build_station_without_money_ignores_missing_line() {
    let mut metro = metro_with(vec![vec![(0, 0), (100, 0)]]);
    let mut money = Money(STATION_COST - 1);
    let ev = BuildStationEvent {
        position: (200, 0),
        connection: (100, 0),
        direction: Direction::Forwards,
        line_to_attach: 7,
    };
    assert!(build_station(&mut metro, &mut money, &ev).is_none());
    assert_eq!(money.0, STATION_COST - 1);
    assert_eq!(metro.lines.len(), 1);
}

#[test]
fn countdown_runs_while_full() {
    let mut b = StationButton::named(0);
    assert_eq!(b.overload_ms, 0);
    let w = b.tick_warning(5000);
    assert!(w == WarningUpdate { visible: false, color: Some(WarningColor::Green), game_over: false });
    assert_eq!(b.overload_ms, 0);
    b.passenger_ids = (0..STATION_MAX_PASSENGERS).collect();
    let w = b.tick_warning(9000);
    assert!(w == WarningUpdate { visible: true, color: None, game_over: false });
    assert_eq!(b.overload_ms, 9000);
    let w = b.tick_warning(2000);
    assert!(w.color == Some(WarningColor::Yellow) && !w.game_over);
    let w = b.tick_warning(5000);
    assert!(w.color == Some(WarningColor::Red) && !w.game_over);
    assert_eq!(b.overload_ms, 16000);
    let w = b.tick_warning(4000);
    assert!(w.game_over);
    assert_eq!(b.overload_ms, GAMEOVER_MS);
    let w = b.tick_warning(1000);
    assert!(!w.game_over && w.visible);
    assert_eq!(b.overload_ms, GAMEOVER_MS);
    b.passenger_ids.pop();
    let w = b.tick_warning(1000);
    assert!(!w.visible && !w.game_over);
    assert_eq!(b.overload_ms, 0);
}

#[test]
fn countdown_survives_huge_frames() {
    let mut b = StationButton::named(0);
    b.passenger_ids = (0..STATION_MAX_PASSENGERS).collect();
    b.overload_ms = 19_999;
    let w = b.tick_warning(u64::MAX);
    assert!(w.game_over);
    assert_eq!(b.overload_ms, GAMEOVER_MS);
}
