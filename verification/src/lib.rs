//! The rules behind an introductions bot: which post introduces whom, who is meant by a name, and
//! what is answered to a command.

pub mod command;
pub mod discovery;
pub mod ids;
pub mod laws;
pub mod links;
pub mod markdown;
pub mod model;
pub mod names;
pub mod refresh;
pub mod registry;
pub mod state;
pub mod text;
pub mod util;
