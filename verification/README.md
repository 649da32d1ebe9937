# podzemka

A small metro-building game. The rules of the game live in a library that
is verified with Verus; the game itself is a Bevy program around it.

- `src/` — the verified library: the station graph, metro lines, stations
  and their waiting rooms, trains (who gets off and on), city districts
  (growth and seeding), passengers (where they live, work and go), the
  music player's play order and track changes, the player and station
  menus, the tutorial and the sound settings file. Random draws go to the
  `rand` crate through `src/chance.rs`; each function that draws hands the
  drawn values to one that takes them as arguments and states exactly what
  they decide (`DistrictMap::seed_from`, `MusicPlayer::shuffle_with`,
  `Passenger::decide_with`, `Passenger::fill_with`, `MetroLine::from_points`,
  `StationButton::named`).
- `tests/` — tests of the library on concrete values.
- `app/` — the game: window, camera, drawing, sound, input, the settings
  file, and the loop that feeds the library's functions each frame.
