//! Safe building blocks for handing C-compatible strings and arrays to an
//! immediate-mode rendering toolkit.
//!
//! The crate models three small data structures:
//!
//! * [`string::ImString`] / [`string::ImStr`]: an owned, growable,
//!   implicitly nul-terminated UTF-8 string and its borrowed counterpart;
//! * [`string::UiBuffer`]: a reusable scratch arena that stages transient
//!   nul-terminated strings for one staging round;
//! * [`internal::ImVector`]: a typed view over the toolkit's dynamic-array
//!   descriptor (logical size, capacity and elements).
//!
//! Every operation carries a contract over the byte-level model defined in
//! [`nulterm`], and the contracts are machine-checked.

pub mod internal;
pub mod nulterm;
pub mod string;
