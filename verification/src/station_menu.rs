//! The pop-up menu of a station: which lines it lists, and what its
//! buttons ask for.
use crate::graph::{same_position, Position};
use crate::metro::{first_line_with, lines_through, Direction, Metro};
use crate::money::{Money, TRAIN_COST};
use crate::station::{same_station, StartBuildingEvent, Station};
use crate::train::SpawnTrainEvent;
use vstd::prelude::*;

verus! {

/// How many lines the menu has room for.
pub const MAX_LINES_IN_MENU: usize = 5;

/// The menu: the station it belongs to and the line picked in it.
pub struct PopupMenu {
    pub station: Position,
    pub picked_line: usize,
}

/// What a mouse click does with the menu.
#[derive(Clone, Copy, PartialEq, Eq)]
pub enum MenuClick {
    Nothing,
    Hide,
    /// Show the menu for the station at `station`; `change_text` tells
    /// whether it was showing another station.
    Redraw { station: Position, change_text: bool },
}

/// A click with the right and/or left button while `selected` is the
/// station under the cursor, if any, the menu belongs to `menu_station`,
/// and `cursor_outside` tells whether the cursor is outside the menu. The
/// right button opens the menu on a station and closes it elsewhere; the
/// left button closes it when clicked outside it.
pub fn menu_click(
    right: bool,
    left: bool,
    selected: Option<Position>,
    menu_station: Position,
    cursor_outside: bool,
) -> (c: MenuClick)
    ensures
        c == if !right && !left {
            MenuClick::Nothing
        } else {
            match selected {
                None => if left {
                    if cursor_outside {
                        MenuClick::Hide
                    } else {
                        MenuClick::Nothing
                    }
                } else {
                    MenuClick::Hide
                },
                Some(s) => if left {
                    MenuClick::Nothing
                } else {
                    MenuClick::Redraw { station: s, change_text: s != menu_station }
                },
            }
        },
{
    if !right && !left {
        return MenuClick::Nothing;
    }
    match selected {
        None => if left {
            if cursor_outside {
                MenuClick::Hide
            } else {
                MenuClick::Nothing
            }
        } else {
            MenuClick::Hide
        },
        Some(s) => if left {
            MenuClick::Nothing
        } else {
            MenuClick::Redraw { station: s, change_text: !same_position(s, menu_station) }
        },
    }
}

impl PopupMenu {
    /// Shows the menu for the station at `station`: the lines through it
    /// are listed in order, the first one picked. Some line must pass
    /// there, and no more than the menu has room for.
    pub fn redraw(&mut self, metro: &Metro, station: Position) -> (lines: Vec<usize>)
        requires
            lines_through(metro.lines@, station).len() >= 1,
            lines_through(metro.lines@, station).len() <= MAX_LINES_IN_MENU,
        ensures
            lines@ == lines_through(metro.lines@, station),
            final(self).station == station,
            final(self).picked_line == lines@[0],
    {
        let lines = metro.lines_with_station(station);
        self.picked_line = lines[0];
        self.station = station;
        lines
    }

    /// Whether the "new station" button works for the line `line_id`
    /// picked in the menu: only when the menu's station ends that line.
    pub fn can_extend(&self, metro: &Metro, line_id: usize) -> (b: bool)
        requires
            metro.wf(),
            line_id < metro.lines@.len(),
            metro.lines@[line_id as int].stations@.len() > 0,
            first_line_with(metro.lines@, self.station).is_some(),
        ensures
            b == (metro.lines@[line_id as int].stations@[0] == Station { position: self.station }
                || metro.lines@[line_id as int].stations@.last() == Station {
                position: self.station,
            }),
    {
        let line = &metro.lines[line_id];
        let here = *metro.find_station(self.station).unwrap();
        let front = line.front().unwrap();
        let back = line.back().unwrap();
        same_station(front, here) || same_station(back, here)
    }

    /// What the "new station" button asks for: building onto the picked
    /// line from the menu's station, backwards when the station is the
    /// line's near end. Nothing when the button is disabled.
    pub fn new_station_request(&self, metro: &Metro, can_continue: bool) -> (r: Option<StartBuildingEvent>)
        requires
            metro.wf(),
            self.picked_line < metro.lines@.len(),
            first_line_with(metro.lines@, self.station).is_some(),
        ensures
            !can_continue ==> r.is_none(),
            can_continue ==> r == Some(
                StartBuildingEvent {
                    connection: self.station,
                    direction: if metro.lines@[self.picked_line as int].stations@.len() > 0
                        && metro.lines@[self.picked_line as int].stations@[0] == (Station {
                        position: self.station,
                    }) {
                        Direction::Backwards
                    } else {
                        Direction::Forwards
                    },
                    line_to_attach: self.picked_line,
                    from_menu: true,
                },
            ),
    {
        if !can_continue {
            return None;
        }
        let line = &metro.lines[self.picked_line];
        let here = *metro.find_station(self.station).unwrap();
        let direction = match line.front() {
            Some(front) => if same_station(front, here) {
                Direction::Backwards
            } else {
                Direction::Forwards
            },
            None => Direction::Forwards,
        };
        Some(
            StartBuildingEvent {
                connection: self.station,
                direction,
                line_to_attach: self.picked_line,
                from_menu: true,
            },
        )
    }

    /// What the "new line" button asks for: a new line from the menu's
    /// station.
    pub fn new_line_request(&self) -> (r: StartBuildingEvent)
        ensures
            r == (StartBuildingEvent {
                connection: self.station,
                direction: Direction::Forwards,
                line_to_attach: usize::MAX,
                from_menu: true,
            }),
    {
        StartBuildingEvent {
            connection: self.station,
            direction: Direction::Forwards,
            line_to_attach: usize::MAX,
            from_menu: true,
        }
    }

    /// Buys a train for the picked line, starting at the menu's station.
    /// The player must be able to pay for it.
    pub fn buy_train(&self, money: &mut Money) -> (ev: SpawnTrainEvent)
        requires
            old(money).0 >= TRAIN_COST,
        ensures
            final(money).0 == old(money).0 - TRAIN_COST,
            ev == (SpawnTrainEvent { line: self.picked_line, station: self.station }),
    {
        money.0 = money.0 - TRAIN_COST;
        SpawnTrainEvent { line: self.picked_line, station: self.station }
    }
}

} // verus!
