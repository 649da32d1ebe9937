//! Stations, the waiting room each of them has, and the rules for
//! building new ones.
use crate::chance::random_below;
use crate::graph::{spec_added, Position};
use crate::line::{stations_at, MetroLine, LINE_HUE_COUNT, LINE_NAME_COUNT};
use crate::metro::{Direction, Metro};
use crate::money::{Money, STATION_COST};
use vstd::prelude::*;

verus! {

/// How many station names there are to pick from.
pub const STATION_NAME_COUNT: usize = 11;

/// A new station's name is drawn from the first this many names.
pub const STATION_NAME_DRAW: usize = 10;

/// How many passengers a station holds before it starts to overflow.
pub const STATION_MAX_PASSENGERS: usize = 12;

/// A station, known by where it stands.
#[derive(Clone, Copy, PartialEq, Eq)]
pub struct Station {
    pub position: Position,
}

impl Station {
    /// The station at `position`.
    pub fn new(position: Position) -> (s: Self)
        ensures
            s.position == position,
    {
        Self { position }
    }
}

/// The state of a station as the player sees it: whether the cursor is on
/// it, who waits there, its name (an index into the station names), and
/// for how many milliseconds it has been full without a break (its
/// game-over countdown).
pub struct StationButton {
    pub selected: bool,
    pub passenger_ids: Vec<usize>,
    pub name: usize,
    pub overload_ms: u64,
}

impl StationButton {
    /// A fresh, empty station with a name drawn at random.
    pub fn new() -> (b: Self)
        ensures
            !b.selected,
            b.passenger_ids@ == Seq::<usize>::empty(),
            b.name < STATION_NAME_DRAW,
            b.overload_ms == 0,
    {
        let name = random_below(0, STATION_NAME_DRAW);
        Self::named(name)
    }

    /// A fresh, empty station with the given name.
    pub fn named(name: usize) -> (b: Self)
        ensures
            !b.selected,
            b.passenger_ids@ == Seq::<usize>::empty(),
            b.name == name,
            b.overload_ms == 0,
    {
        Self { selected: false, passenger_ids: Vec::new(), name, overload_ms: 0 }
    }

    /// Whether the station is full, which is when its warning shows and
    /// its game-over countdown runs.
    pub fn is_overflowing(&self) -> (b: bool)
        ensures
            b == (self.passenger_ids@.len() >= STATION_MAX_PASSENGERS),
    {
        self.passenger_ids.len() >= STATION_MAX_PASSENGERS
    }

    /// One frame of `delta_ms` milliseconds for the station's warning sign:
    /// the countdown runs while the station is full and starts over when
    /// it has room, and the sign shows, changes colour and ends the game as
    /// `station_warning` says.
    pub fn tick_warning(&mut self, delta_ms: u64) -> (w: WarningUpdate)
        ensures
            ({
                let over = old(self).passenger_ids@.len() >= STATION_MAX_PASSENGERS;
                let ms = old(self).overload_ms;
                &&& *final(self) == (StationButton {
                    overload_ms: countdown_after(ms, over, delta_ms),
                    ..*old(self)
                })
                &&& w == warning_for(
                    over,
                    countdown_after(ms, over, delta_ms),
                    runs_out(ms, over, delta_ms),
                )
            }),
    {
        let over = self.is_overflowing();
        let ms = self.overload_ms;
        let just_finished = over && ms < GAMEOVER_MS && delta_ms >= GAMEOVER_MS - ms;
        let after = if !over {
            0
        } else if ms >= GAMEOVER_MS || delta_ms >= GAMEOVER_MS - ms {
            GAMEOVER_MS
        } else {
            ms + delta_ms
        };
        self.overload_ms = after;
        station_warning(over, after, just_finished)
    }
}

/// The countdown after `deltas`, frame by frame, with the station full
/// throughout, starting at `ms`.
pub open spec fn countdown_run(ms: u64, deltas: Seq<u64>) -> u64
    decreases deltas.len(),
{
    if deltas.len() == 0 {
        ms
    } else {
        countdown_after(countdown_run(ms, deltas.drop_last()), true, deltas.last())
    }
}

/// The total length of the frames `deltas`, in milliseconds.
pub open spec fn total_ms(deltas: Seq<u64>) -> int
    decreases deltas.len(),
{
    if deltas.len() == 0 {
        0
    } else {
        total_ms(deltas.drop_last()) + deltas.last()
    }
}

/// A game is lost only after `GAMEOVER_MS` of unbroken overload: over a
/// run of frames in which a station stays full, starting from a fresh
/// countdown, the countdown is the time spent so far (at most
/// `GAMEOVER_MS`); in every frame of the run the warning sign shows, and
/// the frame ends the game exactly when it is the one in which that time
/// first reaches `GAMEOVER_MS`. A frame with room starts the countdown
/// over and never ends the game. (`tick_warning` makes one such frame.)
pub proof fn law_countdown(deltas: Seq<u64>)
    ensures
        countdown_run(0, deltas) == if total_ms(deltas) >= GAMEOVER_MS {
            GAMEOVER_MS as int
        } else {
            total_ms(deltas)
        },
        deltas.len() > 0 ==> (runs_out(countdown_run(0, deltas.drop_last()), true, deltas.last()) <==> (
        total_ms(deltas.drop_last()) < GAMEOVER_MS && total_ms(deltas) >= GAMEOVER_MS)),
        deltas.len() > 0 ==> ({
            let before = countdown_run(0, deltas.drop_last());
            let u = warning_for(
                true,
                countdown_after(before, true, deltas.last()),
                runs_out(before, true, deltas.last()),
            );
            &&& u.visible
            &&& u.game_over <==> (total_ms(deltas.drop_last()) < GAMEOVER_MS && total_ms(deltas)
                >= GAMEOVER_MS)
        }),
        forall|ms: u64, delta_ms: u64|
            {
                &&& #[trigger] countdown_after(ms, false, delta_ms) == 0
                &&& !runs_out(ms, false, delta_ms)
                &&& !warning_for(false, 0, false).visible
                &&& !warning_for(false, 0, false).game_over
            },
    decreases deltas.len(),
{
    if deltas.len() > 0 {
        law_countdown(deltas.drop_last());
    }
}

/// How long, in milliseconds, a station may stay full before the game is
/// lost.
pub const GAMEOVER_MS: u64 = 20000;

/// The colour of a station's warning sign.
#[derive(Clone, Copy, PartialEq, Eq, Structural)]
pub enum WarningColor {
    Green,
    Yellow,
    Red,
}

/// What a station's warning sign does in one frame.
#[derive(Clone, Copy, PartialEq, Eq, Structural)]
pub struct WarningUpdate {
    pub visible: bool,
    /// The sign's new colour; `None` leaves it as it was.
    pub color: Option<WarningColor>,
    /// The station's countdown ran out in this frame: the game is lost.
    pub game_over: bool,
}

/// What the warning sign does in a frame after which the countdown stands
/// at `elapsed_ms`; see `station_warning`.
pub open spec fn warning_for(overflowing: bool, elapsed_ms: u64, just_finished: bool) -> WarningUpdate {
    if !overflowing {
        WarningUpdate { visible: false, color: Some(WarningColor::Green), game_over: false }
    } else {
        WarningUpdate {
            visible: true,
            color: if 4 * elapsed_ms > 3 * GAMEOVER_MS {
                Some(WarningColor::Red)
            } else if 2 * elapsed_ms > GAMEOVER_MS {
                Some(WarningColor::Yellow)
            } else {
                None
            },
            game_over: just_finished,
        }
    }
}

/// The countdown after a frame of `delta_ms` milliseconds that started at
/// `ms`: it runs while the station is full, stopping at `GAMEOVER_MS`, and
/// starts over when the station has room.
pub open spec fn countdown_after(ms: u64, overflowing: bool, delta_ms: u64) -> u64 {
    if !overflowing {
        0
    } else if ms + delta_ms >= GAMEOVER_MS {
        GAMEOVER_MS
    } else {
        (ms + delta_ms) as u64
    }
}

/// Whether the countdown runs out in that frame.
pub open spec fn runs_out(ms: u64, overflowing: bool, delta_ms: u64) -> bool {
    overflowing && ms < GAMEOVER_MS && ms + delta_ms >= GAMEOVER_MS
}

/// The warning sign of a station in one frame. While the station is full
/// its countdown runs (`elapsed_ms` is its value after this frame, and
/// `just_finished` tells whether it ran out in this frame): the sign shows,
/// turns yellow once less than half of `GAMEOVER_MS` remains and red once
/// less than a quarter remains, and the game is lost when the countdown
/// runs out. A station with room hides the sign, turns it green, and its
/// countdown starts over.
pub fn station_warning(overflowing: bool, elapsed_ms: u64, just_finished: bool) -> (w: WarningUpdate)
    ensures
        w == warning_for(overflowing, elapsed_ms, just_finished),
        !overflowing ==> w == (WarningUpdate {
            visible: false,
            color: Some(WarningColor::Green),
            game_over: false,
        }),
        overflowing ==> w == (WarningUpdate {
            visible: true,
            color: if 4 * elapsed_ms > 3 * GAMEOVER_MS {
                Some(WarningColor::Red)
            } else if 2 * elapsed_ms > GAMEOVER_MS {
                Some(WarningColor::Yellow)
            } else {
                None
            },
            game_over: just_finished,
        }),
{
    if !overflowing {
        return WarningUpdate { visible: false, color: Some(WarningColor::Green), game_over: false };
    }
    let color = if elapsed_ms > 3 * GAMEOVER_MS / 4 {
        Some(WarningColor::Red)
    } else if elapsed_ms > GAMEOVER_MS / 2 {
        Some(WarningColor::Yellow)
    } else {
        None
    };
    WarningUpdate { visible: true, color, game_over: just_finished }
}

/// A station on the map together with its waiting room.
pub struct PlacedStation {
    pub station: Station,
    pub button: StationButton,
}

/// The player started to build next to `connection`: onto line
/// `line_to_attach` growing in `direction`, or a new line when
/// `line_to_attach` is `usize::MAX`.
#[derive(Clone, Copy, PartialEq, Eq)]
pub struct StartBuildingEvent {
    pub connection: Position,
    pub direction: Direction,
    pub line_to_attach: usize,
    pub from_menu: bool,
}

/// A station is to be built at `position` next to `connection`.
#[derive(Clone, Copy, PartialEq, Eq)]
pub struct BuildStationEvent {
    pub position: Position,
    pub connection: Position,
    pub direction: Direction,
    pub line_to_attach: usize,
}

/// A station has been built at `position` next to `connection`.
#[derive(Clone, Copy, PartialEq, Eq)]
pub struct SpawnStationEvent {
    pub position: Position,
    pub connection: Position,
}

/// Building from `s`, an end of `line` or a station in its middle: from the
/// near end the line grows backwards, from the far end forwards, and from
/// the middle a new line starts.
pub open spec fn start_from(line: MetroLine, s: Station) -> StartBuildingEvent {
    if line.stations@[0] == s {
        StartBuildingEvent {
            connection: s.position,
            direction: Direction::Backwards,
            line_to_attach: line.id,
            from_menu: false,
        }
    } else if line.stations@.last() != s {
        StartBuildingEvent {
            connection: s.position,
            direction: Direction::Forwards,
            line_to_attach: usize::MAX,
            from_menu: false,
        }
    } else {
        StartBuildingEvent {
            connection: s.position,
            direction: Direction::Forwards,
            line_to_attach: line.id,
            from_menu: false,
        }
    }
}

/// One start of building for each line of `lines` through `s`, in order.
pub open spec fn starts_from(lines: Seq<MetroLine>, s: Station) -> Seq<StartBuildingEvent>
    decreases lines.len(),
{
    if lines.len() == 0 {
        Seq::empty()
    } else {
        let rest = starts_from(lines.drop_last(), s);
        if lines.last().spec_has(s.position) {
            rest.push(start_from(lines.last(), s))
        } else {
            rest
        }
    }
}

/// Pressing on station `selected` starts building from it, once for each
/// line through it.
pub fn build_new(metro: &Metro, selected: Station) -> (events: Vec<StartBuildingEvent>)
    ensures
        events@ == starts_from(metro.lines@, selected),
{
    let mut events: Vec<StartBuildingEvent> = Vec::new();
    let n = metro.lines.len();
    for i in 0..n
        invariant
            n == metro.lines@.len(),
            events@ == starts_from(metro.lines@.take(i as int), selected),
    {
        assert(metro.lines@.take(i + 1).drop_last() == metro.lines@.take(i as int));
        let line = &metro.lines[i];
        if line.has_station(selected.position) {
            let front = line.front().unwrap();
            let back = line.back().unwrap();
            let ev = if same_station(front, selected) {
                StartBuildingEvent {
                    connection: selected.position,
                    direction: Direction::Backwards,
                    line_to_attach: line.id,
                    from_menu: false,
                }
            } else if !same_station(back, selected) {
                StartBuildingEvent {
                    connection: selected.position,
                    direction: Direction::Forwards,
                    line_to_attach: usize::MAX,
                    from_menu: false,
                }
            } else {
                StartBuildingEvent {
                    connection: selected.position,
                    direction: Direction::Forwards,
                    line_to_attach: line.id,
                    from_menu: false,
                }
            };
            events.push(ev);
        }
    }
    assert(metro.lines@.take(n as int) == metro.lines@);
    events
}

/// Whether two stations are the same.
pub fn same_station(a: Station, b: Station) -> (r: bool)
    ensures
        r == (a == b),
{
    crate::graph::same_position(a.position, b.position)
}

/// What building a station did to the lines.
#[derive(Clone, Copy, PartialEq, Eq, Structural)]
pub enum StationBuilt {
    /// A new line was opened; it has this id.
    NewLine(usize),
    /// This line was extended.
    ExtendedLine(usize),
}

/// Builds the station that `ev` asks for, if the player can pay
/// `STATION_COST` for it (otherwise nothing changes, whatever line `ev`
/// names): either a new line from the new station to its
/// connection, with a name and hue drawn at random, or the attached line
/// extended at the end `ev.direction` points to.
pub fn build_station(metro: &mut Metro, money: &mut Money, ev: &BuildStationEvent) -> (built: Option<StationBuilt>)
    requires
        old(metro).wf(),
        old(money).0 >= STATION_COST ==> ev.line_to_attach == usize::MAX || ev.line_to_attach
            < old(metro).lines@.len(),
    ensures
        final(metro).wf(),
        final(metro).stations == old(metro).stations,
        old(money).0 < STATION_COST ==> {
            &&& built.is_none()
            &&& final(money).0 == old(money).0
            &&& final(metro).lines@ == old(metro).lines@
        },
        old(money).0 >= STATION_COST ==> {
            &&& final(money).0 == old(money).0 - STATION_COST
            &&& if ev.line_to_attach == usize::MAX {
                let n = old(metro).lines@.len();
                &&& built == Some(StationBuilt::NewLine(n as usize))
                &&& final(metro).lines@.len() == n + 1
                &&& final(metro).lines@.drop_last() == old(metro).lines@
                &&& final(metro).lines@[n as int].id == n
                &&& final(metro).lines@[n as int].name < LINE_NAME_COUNT
                &&& final(metro).lines@[n as int].hue < LINE_HUE_COUNT
                &&& final(metro).lines@[n as int].stations@ == stations_at(
                    seq![ev.position, ev.connection],
                )
            } else {
                let l = ev.line_to_attach as int;
                let o = old(metro).lines@[l];
                let e = final(metro).lines@[l];
                &&& built == Some(StationBuilt::ExtendedLine(ev.line_to_attach))
                &&& final(metro).lines@ == old(metro).lines@.update(l, e)
                &&& e.id == o.id && e.name == o.name && e.hue == o.hue
                &&& e.stations@ == if ev.direction == Direction::Forwards {
                    o.stations@.push(Station { position: ev.position })
                } else {
                    seq![Station { position: ev.position }] + o.stations@
                }
            }
        },
{
    if money.0 < STATION_COST {
        return None;
    }
    money.0 = money.0 - STATION_COST;
    if ev.line_to_attach == usize::MAX {
        let mut points: Vec<Position> = Vec::new();
        points.push(ev.position);
        points.push(ev.connection);
        assert(points@ == seq![ev.position, ev.connection]);
        let ghost before = metro.lines@;
        let line = metro.add_line(points);
        let id = line.id;
        proof {
            assert(metro.lines@.drop_last() == before);
            assert forall|i: int| 0 <= i < metro.lines@.len() implies #[trigger] metro.lines@[i].id == i by {
                if i < before.len() {
                    assert(metro.lines@[i] == before[i]);
                }
            }
        }
        Some(StationBuilt::NewLine(id))
    } else {
        let l = ev.line_to_attach;
        let ghost before = metro.lines@;
        match ev.direction {
            Direction::Forwards => metro.lines[l].push_back(ev.position),
            Direction::Backwards => metro.lines[l].push_front(ev.position),
        }
        proof {
            assert(metro.lines@ == before.update(l as int, metro.lines@[l as int]));
            assert forall|i: int| 0 <= i < metro.lines@.len() implies #[trigger] metro.lines@[i].id == i by {
                if i != l {
                    assert(metro.lines@[i] == before[i]);
                }
            }
        }
        Some(StationBuilt::ExtendedLine(l))
    }
}

/// Records a newly built station in the station graph, connected to its
/// connection, and gives it a fresh waiting room with a random name.
pub fn spawn_station(metro: &mut Metro, ev: &SpawnStationEvent) -> (button: StationButton)
    requires
        old(metro).wf(),
    ensures
        final(metro).wf(),
        final(metro).lines == old(metro).lines,
        final(metro).stations@ == spec_added(
            old(metro).stations@,
            ev.connection,
            ev.position,
            Station { position: ev.position },
        ),
        !button.selected,
        button.passenger_ids@.len() == 0,
        button.name < STATION_NAME_DRAW,
{
    let station = Station::new(ev.position);
    metro.stations.add(ev.connection, ev.position, station);
    StationButton::new()
}

} // verus!
