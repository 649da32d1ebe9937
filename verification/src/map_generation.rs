//! The map a new game starts with.
use crate::graph::Position;
use crate::line::{stations_at, LINE_HUE_COUNT, LINE_NAME_COUNT};
use crate::metro::Metro;
use crate::station::SpawnStationEvent;
use crate::train::SpawnTrainEvent;
use vstd::prelude::*;

verus! {

/// Where the first two stations stand.
pub const FIRST_STATION: Position = (0, 0);

/// Where the second station stands.
pub const SECOND_STATION: Position = (100, 0);

/// What starting a map asks the rest of the game to do: draw line 0, put
/// up the two stations, and put a train on the line.
pub struct StartMap {
    pub line_curve: usize,
    pub stations: Vec<SpawnStationEvent>,
    pub train: SpawnTrainEvent,
}

/// Opens the first line, from `FIRST_STATION` to `SECOND_STATION`.
pub fn spawn_map(metro: &mut Metro) -> (start: StartMap)
    requires
        old(metro).wf(),
    ensures
        final(metro).wf(),
        final(metro).stations == old(metro).stations,
        final(metro).lines@.drop_last() == old(metro).lines@,
        final(metro).lines@.last().id == old(metro).lines@.len(),
        final(metro).lines@.last().name < LINE_NAME_COUNT,
        final(metro).lines@.last().hue < LINE_HUE_COUNT,
        final(metro).lines@.last().stations@ == stations_at(seq![FIRST_STATION, SECOND_STATION]),
        start.line_curve == 0,
        start.stations@ == seq![
            SpawnStationEvent { position: FIRST_STATION, connection: SECOND_STATION },
            SpawnStationEvent { position: SECOND_STATION, connection: FIRST_STATION },
        ],
        start.train == (SpawnTrainEvent { line: 0, station: FIRST_STATION }),
{
    let ghost before = metro.lines@;
    let line = metro.add_line(Vec::new());
    line.push_back(FIRST_STATION);
    line.push_back(SECOND_STATION);
    proof {
        assert(metro.lines@.drop_last() == before);
        assert forall|i: int| 0 <= i < metro.lines@.len() implies #[trigger] metro.lines@[i].id == i by {
            if i < before.len() {
                assert(metro.lines@[i] == before[i]);
            }
        }
        assert(metro.lines@.last().stations@ =~= stations_at(seq![FIRST_STATION, SECOND_STATION]));
    }
    let mut stations: Vec<SpawnStationEvent> = Vec::new();
    stations.push(SpawnStationEvent { position: FIRST_STATION, connection: SECOND_STATION });
    stations.push(SpawnStationEvent { position: SECOND_STATION, connection: FIRST_STATION });
    StartMap {
        line_curve: 0,
        stations,
        train: SpawnTrainEvent { line: 0, station: FIRST_STATION },
    }
}

} // verus!
