pub mod bus;
pub mod ledger;
pub mod schedule;
pub mod simulation;
pub mod topology;

pub use bus::Bus;
pub use schedule::Event;
pub use simulation::Simulation;
pub use topology::{City, Road};
pub mod chess;
pub mod keyboard_game;
pub mod polynomial;
pub mod expressions;
