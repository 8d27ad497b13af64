//! Verified core of the estate management game: the mini-game rules, the
//! garden state machine and the operator back office.

pub mod backend;
pub mod backend_admin;
pub mod backend_laws;
pub mod backend_ops;
pub mod catalog;
pub mod clock;
pub mod dice;
pub mod digest;
pub mod game_2048;
pub mod garden;
pub mod garden_fits;
pub mod garden_laws;
pub mod listing;
pub mod make10;
pub mod match3;
pub mod models;
pub mod order;
pub mod text;
