pub mod constants;
pub mod counting;
pub mod errors;
pub mod laws;
pub mod model;
pub mod pubkey;
pub mod record;
pub mod stake;
pub mod state;
pub mod user;
pub mod vault;
