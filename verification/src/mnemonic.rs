//! The categories of commands.

use vstd::prelude::*;

verus! {

/// A general command category.
#[derive(Debug, Clone, Copy, PartialEq, Eq, Structural, Hash)]
pub enum Mnemonic {
    /// A program number (`O555`).
    ProgramNumber,
    /// A tool change command (`T6`).
    ToolChange,
    /// A machine-specific routine (`M3`).
    MachineRoutine,
    /// A general command (`G01`).
    General,
}

impl Mnemonic {
    /// The letter that stands for the category in a program's text.
    pub open spec fn letter_of(self) -> char {
        match self {
            Mnemonic::ProgramNumber => 'O',
            Mnemonic::ToolChange => 'T',
            Mnemonic::MachineRoutine => 'M',
            Mnemonic::General => 'G',
        }
    }

    /// The letter that stands for the category in a program's text.
    pub fn letter(&self) -> (c: char)
        ensures
            c == self.letter_of(),
    {
        match self {
            Mnemonic::ProgramNumber => 'O',
            Mnemonic::ToolChange => 'T',
            Mnemonic::MachineRoutine => 'M',
            Mnemonic::General => 'G',
        }
    }
}

impl Default for Mnemonic {
    /// A command is a general one unless it says otherwise.
    fn default() -> (r: Mnemonic)
        ensures
            r == Mnemonic::General,
    {
        Mnemonic::General
    }
}

} // verus!
