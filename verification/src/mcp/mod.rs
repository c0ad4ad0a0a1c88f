//! The MCP tool surface: tool inputs and outputs, the tool error shape, and
//! the computations of the tools (transport and file work stay with the caller).

pub mod tools;
