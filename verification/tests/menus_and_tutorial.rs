use podzemka::blueprint::{Release, StationBlueprint};
use podzemka::line::MetroLine;
use podzemka::menu::{changing_states, GameState, MainMenuStates};
use podzemka::metro::{Direction, Metro};
use podzemka::money::{Money, TRAIN_COST};
use podzemka::settings::{
    checkbox_ticked, read_settings, toggled_switches, SettingsType, SETTINGS_LEN,
};
use podzemka::station::{BuildStationEvent, StartBuildingEvent, Station};
use podzemka::station_menu::{menu_click, MenuClick, PopupMenu, MAX_LINES_IN_MENU};
use podzemka::tutorial::{
    hint_index, Progress, TasksInTutorial, TutorialAction, TutorialInput, TUTORIAL_HINT_COUNT,
};

fn quiet() -> TutorialInput {
    TutorialInput {
        hint_shown: true,
        camera_key_pressed: false,
        wheel_scrolled: false,
        build_menu_opened: false,
        line_prolonged: false,
        line_built: false,
        train_bought: false,
        close_pressed: false,
        exit_pressed: false,
    }
}

fn two_line_metro() -> Metro {
    let mut metro = Metro::new();
    metro.lines.push(MetroLine::from_points(0, vec![(0, 0), (100, 0), (200, 0)], 0, 0));
    metro.lines.push(MetroLine::from_points(1, vec![(100, 0), (100, 100)], 0, 0));
    metro
}

fn blueprint(line: usize) -> StationBlueprint {
    StationBlueprint {
        menu_flag: false,
        can_build: true,
        line_to_attach: line,
        connection: (200, 0),
        direction: Direction::Forwards,
    }
}

#[test]
fn main_menu_choices() {
    assert!(GameState::default() == GameState::MainMenu);
    assert!(changing_states(MainMenuStates::NewGame) == (GameState::InGame, false));
    assert!(changing_states(MainMenuStates::Tutorial) == (GameState::InGame, true));
    assert!(changing_states(MainMenuStates::Settings) == (GameState::Settings, false));
}

#[test]
fn settings_lines() {
    assert_eq!(SETTINGS_LEN, 5);
    assert!(SettingsType::from_index(0) == SettingsType::TurnOfSFX);
    assert!(SettingsType::from_index(1) == SettingsType::TurnOfMetroSFX);
    assert!(SettingsType::from_index(2) == SettingsType::MusicVolume);
    assert!(SettingsType::from_index(3) == SettingsType::SFXVolume);
    assert!(SettingsType::from_index(4) == SettingsType::SFXMetroVolume);
    assert!(!SettingsType::TurnOfSFX.is_volume());
    assert!(!SettingsType::TurnOfMetroSFX.is_volume());
    assert!(SettingsType::MusicVolume.is_volume());
    assert!(checkbox_ticked(SettingsType::TurnOfMetroSFX, false, true));
    assert!(!checkbox_ticked(SettingsType::TurnOfSFX, false, true));
    assert!(checkbox_ticked(SettingsType::MusicVolume, true, false));
}

#[test]
fn settings_file_is_read_line_by_line() {
    let lines: Vec<String> = vec!["true", "false", "50", "25.5", "100"]
        .into_iter()
        .map(String::from)
        .collect();
    let s = read_settings(&lines);
    assert_eq!(s.turn_on_sfx, Some(true));
    assert_eq!(s.turn_on_metro_sfx, Some(false));
    assert_eq!(s.music_volume, Some("50".to_string()));
    assert_eq!(s.sfx_volume, Some("25.5".to_string()));
    assert_eq!(s.metro_sfx_volume, Some("100".to_string()));
    let short = read_settings(&vec!["yes".to_string()]);
    assert_eq!(short.turn_on_sfx, Some(false));
    assert_eq!(short.turn_on_metro_sfx, None);
    assert_eq!(short.music_volume, None);
    let empty = read_settings(&vec![]);
    assert_eq!(empty.turn_on_sfx, None);
}

#[test]
fn tutorial_runs_through_its_tasks() {
    let mut p = Progress::new();
    assert!(p.current_task == TasksInTutorial::MoveCamera);
    assert_eq!(hint_index(p.current_task), 0);
    let none = TutorialAction { redraw_hint: false, close_tutorial: false, leave_to_menu: false };
    let redraw = TutorialAction { redraw_hint: true, close_tutorial: false, leave_to_menu: false };
    assert!(p.track_progress(quiet()) == none);
    let mut hidden = quiet();
    hidden.hint_shown = false;
    hidden.camera_key_pressed = true;
    assert!(p.track_progress(hidden) == none);
    let mut i = quiet();
    i.camera_key_pressed = true;
    assert!(p.track_progress(i) == redraw);
    assert!(p.current_task == TasksInTutorial::UseZoom);
    let mut i = quiet();
    i.line_built = true;
    assert!(p.track_progress(i) == none);
    i.wheel_scrolled = true;
    assert!(p.track_progress(i) == redraw);
    let mut i = quiet();
    i.build_menu_opened = true;
    p.track_progress(i);
    let mut i = quiet();
    i.line_prolonged = true;
    p.track_progress(i);
    let mut i = quiet();
    i.line_built = true;
    p.track_progress(i);
    assert!(p.current_task == TasksInTutorial::BuyTrain);
    let mut i = quiet();
    i.train_bought = true;
    p.track_progress(i);
    assert!(p.current_task == TasksInTutorial::EndOfTutorial);
    assert_eq!(hint_index(p.current_task), TUTORIAL_HINT_COUNT - 1);
    let mut i = quiet();
    i.close_pressed = true;
    i.exit_pressed = true;
    let a = p.track_progress(i);
    assert!(a == TutorialAction { redraw_hint: false, close_tutorial: true, leave_to_menu: true });
    assert!(p.current_task == TasksInTutorial::EndOfTutorial);
}

#[test]
fn blueprint_check_on_attached_line() {
    let metro = two_line_metro();
    let mut b = blueprint(0);
    assert_eq!(b.check_building_position(&metro, Station::new((100, 0)), true), Some(false));
    assert!(!b.can_build);
    assert_eq!(b.check_building_position(&metro, Station::new((100, 0)), false), Some(true));
    assert_eq!(b.check_building_position(&metro, Station::new((100, 100)), true), Some(true));
    assert!(b.can_build);
    let mut fresh = blueprint(usize::MAX);
    fresh.can_build = false;
    assert_eq!(fresh.check_building_position(&metro, Station::new((0, 0)), true), None);
    assert!(!fresh.can_build);
}

#[test]
fn blueprint_release() {
    let mut b = blueprint(0);
    b.menu_flag = true;
    assert!(b.release(true, false, (300, 0)) == Release::Keep);
    assert!(!b.menu_flag);
    let ev = BuildStationEvent {
        position: (300, 0),
        connection: (200, 0),
        direction: Direction::Forwards,
        line_to_attach: 0,
    };
    assert!(b.release(true, false, (300, 0)) == Release::Build(ev));
    assert!(b.release(false, false, (300, 0)) == Release::Hide);
    let r = b.release(true, true, (300, 0));
    assert!(r == Release::Build(BuildStationEvent { line_to_attach: usize::MAX, ..ev }));
    assert_eq!(b.line_to_attach, usize::MAX);
    b.can_build = false;
    assert!(b.release(true, false, (300, 0)) == Release::Hide);
}

#[test]
fn menu_clicks() {
    assert!(menu_click(false, false, Some((0, 0)), (0, 0), true) == MenuClick::Nothing);
    assert!(menu_click(true, false, None, (0, 0), false) == MenuClick::Hide);
    assert!(menu_click(false, true, None, (0, 0), true) == MenuClick::Hide);
    assert!(menu_click(false, true, None, (0, 0), false) == MenuClick::Nothing);
    assert!(menu_click(false, true, Some((5, 5)), (0, 0), true) == MenuClick::Nothing);
    assert!(
        menu_click(true, false, Some((5, 5)), (0, 0), true)
            == MenuClick::Redraw { station: (5, 5), change_text: true }
    );
    assert!(
        menu_click(true, false, Some((0, 0)), (0, 0), true)
            == MenuClick::Redraw { station: (0, 0), change_text: false }
    );
}

#[test]
fn popup_menu_lists_lines_and_requests() {
    let metro = two_line_metro();
    let mut menu = PopupMenu { station: (0, 0), picked_line: 9 };
    let lines = menu.redraw(&metro, (100, 0));
    assert_eq!(lines, vec![0, 1]);
    assert!(lines.len() <= MAX_LINES_IN_MENU);
    assert_eq!(menu.station, (100, 0));
    assert_eq!(menu.picked_line, 0);
    assert!(!menu.can_extend(&metro, 0));
    assert!(menu.can_extend(&metro, 1));
    assert!(menu.new_station_request(&metro, false).is_none());
    menu.picked_line = 1;
    let r = menu.new_station_request(&metro, true).unwrap();
    assert!(r == StartBuildingEvent {
        connection: (100, 0),
        direction: Direction::Backwards,
        line_to_attach: 1,
        from_menu: true,
    });
    let mut end_menu = PopupMenu { station: (200, 0), picked_line: 0 };
    end_menu.redraw(&metro, (200, 0));
    let r = end_menu.new_station_request(&metro, true).unwrap();
    assert!(r.direction == Direction::Forwards);
    assert_eq!(r.line_to_attach, 0);
    assert!(menu.new_line_request() == StartBuildingEvent {
        connection: (100, 0),
        direction: Direction::Forwards,
        line_to_attach: usize::MAX,
        from_menu: true,
    });
}

#[test]
fn buying_a_train() {
    let menu = PopupMenu { station: (100, 100), picked_line: 1 };
    let mut money = Money(TRAIN_COST + 5);
    let ev = menu.buy_train(&mut money);
    assert_eq!(money.0, 5);
    assert_eq!(ev.line, 1);
    assert_eq!(ev.station, (100, 100));
}

#[test]
fn sound_switch_keys() {
    assert_eq!(toggled_switches(true, true, false, false), (true, true));
    assert_eq!(toggled_switches(true, true, true, false), (false, true));
    assert_eq!(toggled_switches(true, false, false, true), (true, true));
    assert_eq!(toggled_switches(false, false, true, true), (true, true));
}

#[test]
fn blueprint_starts_building() {
    let mut b = StationBlueprint::new();
    assert!(!b.menu_flag && !b.can_build);
    assert_eq!(b.line_to_attach, usize::MAX);
    b.start(StartBuildingEvent {
        connection: (100, 0),
        direction: Direction::Backwards,
        line_to_attach: 2,
        from_menu: true,
    });
    assert!(b.menu_flag && b.can_build);
    assert_eq!(b.line_to_attach, 2);
    assert_eq!(b.connection, (100, 0));
    assert!(b.direction == Direction::Backwards);
    assert!(b.release(true, false, (0, 0)) == Release::Keep);
    assert!(b.release(true, false, (0, 0)) == Release::Build(BuildStationEvent {
        position: (0, 0),
        connection: (100, 0),
        direction: Direction::Backwards,
        line_to_attach: 2,
    }));
}
