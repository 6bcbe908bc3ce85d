//! Session lifecycle of a minigame server: the lobby-to-match state machine of
//! each game instance, first-fit matchmaking over the live instances, and the
//! provisioning of an instance's terrain from chunk loads.

pub mod game;
pub mod parkourtag;
pub mod server;
pub mod world;
