use vstd::prelude::*;

verus! {

/// The four operations of arithmetic.
#[derive(Clone, Copy, Debug, PartialEq, Eq, Structural)]
pub enum Arithmetic {
    Plus,
    Minus,
    Times,
    Over,
}

/// What a running program needs from the machine it runs on: arithmetic
/// on 64-bit IEEE 754 floats, which are handed over and taken back as
/// their bit patterns, their reading and writing in decimal, the running
/// of commands, and a place to write to.
pub trait Host {
    /// The float that the decimal text `text` (digits, and perhaps a
    /// point and further digits) stands for.
    fn number(&mut self, text: &String) -> u64;

    /// The decimal text of the float `bits`; a whole number is written
    /// without a fraction.
    fn number_text(&mut self, bits: u64) -> String;

    /// `left op right` on floats.
    fn arithmetic(&mut self, op: Arithmetic, left: u64, right: u64) -> u64;

    /// Takes what the program writes, as soon as it writes it. The
    /// interpreter keeps what was written as well.
    fn write(&mut self, text: &String);

    /// Runs the program that the first of `words` names, with the others
    /// as its arguments, and gives what it wrote to its standard output.
    fn run_command(&mut self, words: &Vec<String>) -> String;
}

} // verus!
