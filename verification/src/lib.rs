//! Verified core of a Model Context Protocol server that drives the Gowin EDA
//! command line tools (`gw_sh`, `programmer_cli`): cable-listing parsing,
//! argument construction, install layout and the decision logic of each tool.

pub mod text;
pub mod cable;
pub mod paths;
pub mod env;
pub mod error;
pub mod process;
pub mod scan;
pub mod flash;
pub mod tcl;
