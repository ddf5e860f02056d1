//! The decisions of a Minecraft server wrapper: what the server's console says, which console
//! commands are passed on and when, and what the clients on the socket are answered.

pub mod command;
pub mod console;
pub mod console_line;
pub mod console_output;
pub mod conversation;
pub mod expiroset;
pub mod external;
pub mod filters;
pub mod guards;
pub mod ids;
pub mod minecraft;
pub mod ready;
pub mod secretary;
pub mod shared;
pub mod shutdown;
pub mod slang;
pub mod text;
pub mod usage;
pub mod util;
