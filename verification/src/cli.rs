//! The rules of the command line that need no parser: the compile mode, the check for
//! input files, and the spelling of the language-standard option.

use vstd::prelude::*;

use crate::ascii;

verus! {

/// How far the compilation is to go.
#[derive(Copy, Clone, Eq, PartialEq, Debug, Structural)]
pub enum CompileMode {
    PreprocessOnly,
    CompileOnly,
    AssembleOnly,
    Link,
}

/// The mode that the flags `-E`, `-S` and `-c` ask for. Where several are given, the one
/// that stops earliest decides; where none is given, the program is linked.
pub open spec fn mode_of(
    preprocess_only: bool,
    compile_only: bool,
    assemble_only: bool,
) -> CompileMode {
    if preprocess_only {
        CompileMode::PreprocessOnly
    } else if compile_only {
        CompileMode::CompileOnly
    } else if assemble_only {
        CompileMode::AssembleOnly
    } else {
        CompileMode::Link
    }
}

impl CompileMode {
    /// The mode that the flags `-E`, `-S` and `-c` ask for.
    #[must_use]
    pub fn select(preprocess_only: bool, compile_only: bool, assemble_only: bool) -> (mode:
        CompileMode)
        ensures
            mode == mode_of(preprocess_only, compile_only, assemble_only),
    {
        if preprocess_only {
            CompileMode::PreprocessOnly
        } else if compile_only {
            CompileMode::CompileOnly
        } else if assemble_only {
            CompileMode::AssembleOnly
        } else {
            CompileMode::Link
        }
    }
}

/// Whether a command line lacks its input files: it names none and does not merely ask
/// for the version.
#[must_use]
pub fn inputs_missing(show_version: bool, inputs: usize) -> (missing: bool)
    ensures
        missing <==> !show_version && inputs == 0,
{
    !show_version && inputs == 0
}

/// `-std`, the spelling of the language-standard option with one dash.
pub open spec fn std_flag() -> Seq<u8> {
    seq![ascii::MINUS, ascii::LOWER_S, ascii::LOWER_T, ascii::LOWER_D]
}

/// Whether `arg` is the language-standard option with one dash: `-std` alone, or `-std=`
/// with its value attached.
pub open spec fn is_std_flag(arg: Seq<u8>) -> bool {
    &&& arg.len() >= 4
    &&& arg.subrange(0, 4) == std_flag()
    &&& arg.len() > 4 ==> arg[4] == ascii::EQUALS
}

/// The argument as the option parser wants it: the language-standard option gets its
/// second dash, and every other argument stays as it is.
pub open spec fn normalized(arg: Seq<u8>) -> Seq<u8> {
    if is_std_flag(arg) {
        seq![ascii::MINUS] + arg
    } else {
        arg
    }
}

/// Rewrites `-std` and `-std=...` to the spelling with two dashes and copies every other
/// argument.
#[must_use]
pub fn normalize_gcc_arg(arg: &[u8]) -> (out: Vec<u8>)
    ensures
        out@ == normalized(arg@),
{
    let is_flag = arg.len() >= 4 && arg[0] == ascii::MINUS && arg[1] == ascii::LOWER_S && arg[2]
        == ascii::LOWER_T && arg[3] == ascii::LOWER_D && (arg.len() == 4 || arg[4]
        == ascii::EQUALS);
    assert(is_flag == is_std_flag(arg@)) by {
        if arg@.len() >= 4 {
            assert(arg@.subrange(0, 4) == std_flag() <==> (arg@[0] == ascii::MINUS && arg@[1]
                == ascii::LOWER_S && arg@[2] == ascii::LOWER_T && arg@[3] == ascii::LOWER_D)) by {
                if arg@[0] == ascii::MINUS && arg@[1] == ascii::LOWER_S && arg@[2] == ascii::LOWER_T
                    && arg@[3] == ascii::LOWER_D {
                    assert(arg@.subrange(0, 4) =~= std_flag());
                }
            }
        }
    }
    let mut out: Vec<u8> = Vec::new();
    if is_flag {
        out.push(ascii::MINUS);
    }
    let ghost head = out@;
    let mut i: usize = 0;
    while i < arg.len()
        invariant
            i <= arg@.len(),
            out@ == head + arg@.subrange(0, i as int),
        decreases arg@.len() - i,
    {
        out.push(arg[i]);
        i += 1;
    }
    out
}

} // verus!
