//! Byte values of the Telnet wire protocol: command introducers and the
//! well-known option codes.

pub mod op_command;
pub mod op_option;
