//! A verified core for maintaining a list of detached application packages:
//! the binary record format of the list file, the operations over its bytes,
//! and the decision and rendering logic of three interactive terminal menus.

pub mod codec;
pub mod store;
pub mod utf32string;
pub mod colorize;
pub mod menus;
pub mod lines;
pub mod packages;
pub mod lev;
pub mod ops;
