//! Advisory inbox: parsing of agent reports, inbox markdown and the scan
//! state file, with their contracts proved by Verus.

pub mod text;
pub mod row;
pub mod sentinel;
pub mod inbox;
pub mod seen;
pub mod state;
pub mod cli;
pub mod mcp;
