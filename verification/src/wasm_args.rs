//! Compiler-argument vocabulary for the companion query-execution runtime:
//! the C language standard and the optimisation level, each with the flag
//! value it contributes to the compiler command line. Running the compiler
//! itself is outside this library.

use vstd::prelude::*;

verus! {

/// The C language standard the runtime sources are compiled under.
pub enum WasmStandard {
    C89,
    C99,
    C11,
    C17,
}

impl WasmStandard {
    /// The value of the language-standard flag.
    pub open spec fn flag_spec(&self) -> Seq<char> {
        match self {
            WasmStandard::C89 => "c89"@,
            WasmStandard::C99 => "c99"@,
            WasmStandard::C11 => "c11"@,
            WasmStandard::C17 => "c17"@,
        }
    }

    /// The value of the language-standard flag.
    pub fn flag(&self) -> (r: &'static str)
        ensures
            r@ == self.flag_spec(),
    {
        match self {
            WasmStandard::C89 => "c89",
            WasmStandard::C99 => "c99",
            WasmStandard::C11 => "c11",
            WasmStandard::C17 => "c17",
        }
    }
}

/// The optimisation level the runtime is compiled at.
pub enum WasmOptimisationLevel {
    Level(u8),
    Fast,
    S,
    Z,
    G,
}

impl WasmOptimisationLevel {
    /// Numbered levels exist only up to 3.
    pub open spec fn is_valid(&self) -> bool {
        match self {
            WasmOptimisationLevel::Level(l) => l <= 3,
            _ => true,
        }
    }

    /// The value of the optimisation flag.
    pub open spec fn flag_spec(&self) -> Seq<char> {
        match self {
            WasmOptimisationLevel::Level(l) => {
                if l == 0 {
                    "0"@
                } else if l == 1 {
                    "1"@
                } else if l == 2 {
                    "2"@
                } else {
                    "3"@
                }
            },
            WasmOptimisationLevel::Fast => "fast"@,
            WasmOptimisationLevel::S => "s"@,
            WasmOptimisationLevel::Z => "z"@,
            WasmOptimisationLevel::G => "g"@,
        }
    }

    /// The value of the optimisation flag; an out-of-range numbered level
    /// is excluded by precondition.
    pub fn flag(&self) -> (r: &'static str)
        requires
            self.is_valid(),
        ensures
            r@ == self.flag_spec(),
    {
        match self {
            WasmOptimisationLevel::Level(l) => {
                if *l == 0 {
                    "0"
                } else if *l == 1 {
                    "1"
                } else if *l == 2 {
                    "2"
                } else {
                    "3"
                }
            },
            WasmOptimisationLevel::Fast => "fast",
            WasmOptimisationLevel::S => "s",
            WasmOptimisationLevel::Z => "z",
            WasmOptimisationLevel::G => "g",
        }
    }
}

} // verus!
