pub mod audio;
pub mod blueprint;
mod chance;
pub mod district;
pub mod graph;
pub mod line;
pub mod map_generation;
pub mod menu;
pub mod metro;
pub mod money;
pub mod passenger;
pub mod player;
pub mod settings;
pub mod station;
pub mod station_menu;
pub mod train;
pub mod tutorial;
