//! The ghost station that follows the cursor while the player builds.
use crate::graph::Position;
use crate::metro::{Direction, Metro};
use crate::station::{BuildStationEvent, StartBuildingEvent, Station};
use vstd::prelude::*;

verus! {

/// The building state of the blueprint.
pub struct StationBlueprint {
    /// Set when building was started from a menu; the next release of the
    /// mouse button only clears it.
    pub menu_flag: bool,
    pub can_build: bool,
    pub line_to_attach: usize,
    pub connection: Position,
    pub direction: Direction,
}

/// What releasing the mouse button does with the blueprint.
#[derive(Clone, Copy, PartialEq, Eq)]
pub enum Release {
    /// Nothing is built and the blueprint stays as it is.
    Keep,
    /// Nothing is built and the blueprint is hidden.
    Hide,
    /// The blueprint is hidden and this station is to be built.
    Build(BuildStationEvent),
}

impl StationBlueprint {
    /// A blueprint that is not building anything.
    pub fn new() -> (b: Self)
        ensures
            b == (StationBlueprint {
                menu_flag: false,
                can_build: false,
                line_to_attach: usize::MAX,
                connection: (0i32, 0i32),
                direction: Direction::Forwards,
            }),
    {
        StationBlueprint {
            menu_flag: false,
            can_build: false,
            line_to_attach: usize::MAX,
            connection: (0, 0),
            direction: Direction::Forwards,
        }
    }

    /// Starts building as `ev` asks: the blueprint remembers the station it
    /// connects to, the way it grows and the line it extends, and whether
    /// building was started from a menu; it may be placed until a check
    /// says otherwise.
    pub fn start(&mut self, ev: StartBuildingEvent)
        ensures
            *final(self) == (StationBlueprint {
                menu_flag: ev.from_menu,
                can_build: true,
                line_to_attach: ev.line_to_attach,
                connection: ev.connection,
                direction: ev.direction,
            }),
    {
        self.menu_flag = ev.from_menu;
        self.can_build = true;
        self.line_to_attach = ev.line_to_attach;
        self.connection = ev.connection;
        self.direction = ev.direction;
    }

    /// Rechecks whether the blueprint may be placed, given the station
    /// nearest to the cursor and whether it lies within building reach: it
    /// may not when that station is on the line being extended. Nothing is
    /// checked while a new line is being started. Returns the new verdict
    /// when there is one.
    pub fn check_building_position(&mut self, metro: &Metro, closest: Station, in_reach: bool) -> (r: Option<bool>)
        requires
            old(self).line_to_attach == usize::MAX || old(self).line_to_attach < metro.lines@.len(),
        ensures
            old(self).line_to_attach == usize::MAX ==> r.is_none() && *final(self) == *old(self),
            old(self).line_to_attach != usize::MAX ==> {
                let can = !in_reach || !metro.lines@[old(self).line_to_attach as int].spec_has(
                    closest.position,
                );
                &&& r == Some(can)
                &&& *final(self) == (StationBlueprint { can_build: can, ..*old(self) })
            },
    {
        if self.line_to_attach == usize::MAX {
            return None;
        }
        let can = if in_reach {
            !metro.lines[self.line_to_attach].has_station(closest.position)
        } else {
            true
        };
        self.can_build = can;
        Some(can)
    }

    /// Releasing the mouse button over `position` while the blueprint is
    /// `visible`, with the left shift key held or not.
    pub fn release(&mut self, visible: bool, shift_held: bool, position: Position) -> (r: Release)
        ensures
            old(self).menu_flag ==> r == Release::Keep && *final(self) == (StationBlueprint {
                menu_flag: false,
                ..*old(self)
            }),
            !old(self).menu_flag && (!old(self).can_build || !visible) ==> r == Release::Hide
                && *final(self) == *old(self),
            !old(self).menu_flag && old(self).can_build && visible ==> {
                let line = if shift_held {
                    usize::MAX
                } else {
                    old(self).line_to_attach
                };
                &&& *final(self) == (StationBlueprint { line_to_attach: line, ..*old(self) })
                &&& r == Release::Build(
                    (BuildStationEvent {
                        position,
                        connection: old(self).connection,
                        direction: old(self).direction,
                        line_to_attach: line,
                    }),
                )
            },
    {
        if self.menu_flag {
            self.menu_flag = false;
            return Release::Keep;
        }
        if !self.can_build || !visible {
            return Release::Hide;
        }
        if shift_held {
            self.line_to_attach = usize::MAX;
        }
        Release::Build(
            BuildStationEvent {
                position,
                connection: self.connection,
                direction: self.direction,
                line_to_attach: self.line_to_attach,
            },
        )
    }
}

} // verus!
