//! The capability surface the core consumes. The toolchain itself never
//! touches the environment: reading input, writing output, driving the
//! terminal, and the host's single-precision float semantics all come
//! through an implementation of this trait, injected at construction
//! time. Floats appear here only as their 32-bit IEEE-754 bit patterns.
use vstd::prelude::*;
use crate::data_struct::IError;

verus! {

pub trait Infra: Sized {
    /// Reads one line of input.
    fn read_line(&mut self) -> Result<String, IError>;

    /// Writes text to the output.
    fn print(&mut self, to_print: String);

    /// Writes text and a newline to the output.
    fn println(&mut self, to_print: String);

    /// Flushes the output.
    fn flush(&mut self);

    /// Writes colored text, given an ANSI color code.
    fn color_print(&mut self, to_print: String, color: u64);

    /// A fresh capability handle for a child compiler.
    fn clone_self(&self) -> Self;

    fn enable_raw_mode(&self) -> Result<(), IError>;

    fn disable_raw_mode(&self) -> Result<(), IError>;

    fn clear_purge(&mut self) -> Result<(), IError>;

    fn clear_all(&mut self) -> Result<(), IError>;

    /// Polls the keyboard for up to `duration` milliseconds and returns
    /// the key code pressed, or zero.
    fn poll(&self, duration: u64) -> Result<u32, IError>;

    fn hide_cursor(&mut self) -> Result<(), IError>;

    fn show_cursor(&mut self) -> Result<(), IError>;

    fn move_cursor(&mut self, x: u32, y: u32) -> Result<(), IError>;

    /// The host's float addition on bit patterns.
    fn float_add(&self, a: u32, b: u32) -> u32;

    /// The host's float subtraction on bit patterns.
    fn float_sub(&self, a: u32, b: u32) -> u32;

    /// The host's float multiplication on bit patterns.
    fn float_mul(&self, a: u32, b: u32) -> u32;

    /// The host's float division on bit patterns.
    fn float_div(&self, a: u32, b: u32) -> u32;

    /// The host's float remainder on bit patterns.
    fn float_rem(&self, a: u32, b: u32) -> u32;

    /// Whether two floats agree once truncated to `decimal_places`
    /// decimal places.
    fn float_approx_eq(&self, a: u32, b: u32, decimal_places: u8) -> bool;

    /// The host's rendering of a float.
    fn float_to_string(&self, bits: u32) -> String;

    /// The host's parse of a float literal, as its bit pattern.
    fn parse_float(&self, text: &str) -> Option<u32>;
}

} // verus!
