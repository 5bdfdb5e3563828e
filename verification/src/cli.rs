//! The run decision taken from the command line.
//!
//! The program is invoked as `<program> <directory> [-r]`. The library
//! decides, from the argument list and from what a probe of the target path
//! reported, whether the run is a usage error, a configuration error, or a
//! walk of the target directory — and which exit code each of those earns.
//! Reading the real arguments and probing the real filesystem happen
//! outside the library.

use vstd::prelude::*;

use crate::path_model::copy_bytes;

verus! {

/// The recursion flag: the two bytes of `-r`.
pub open spec fn r_flag() -> Seq<u8> {
    seq![45u8, 114u8]
}

/// Whether any argument — at any position, as the original command line is
/// scanned whole — is the recursion flag.
pub open spec fn wants_recursive(args: Seq<Vec<u8>>) -> bool {
    exists|i: int| 0 <= i < args.len() && (#[trigger] args[i])@ == r_flag()
}

/// Whether one argument is the recursion flag.
fn arg_is_r_flag(a: &Vec<u8>) -> (r: bool)
    ensures
        r == (a@ == r_flag()),
{
    let r = a.len() == 2 && a[0] == 45 && a[1] == 114;
    proof {
        if a@ == r_flag() {
            assert(a@.len() == 2 && a@[0] == 45 && a@[1] == 114);
        }
        if r {
            assert(a@ =~= r_flag());
        }
    }
    r
}

/// Scans the whole argument list for the recursion flag.
fn contains_r_flag(args: &Vec<Vec<u8>>) -> (r: bool)
    ensures
        r == wants_recursive(args@),
{
    let mut i: usize = 0;
    while i < args.len()
        invariant
            i <= args@.len(),
            forall|k: int| 0 <= k < i ==> (#[trigger] args@[k])@ != r_flag(),
        decreases args@.len() - i,
    {
        if arg_is_r_flag(&args[i]) {
            proof {
                assert(args@[i as int]@ == r_flag());
            }
            return true;
        }
        i = i + 1;
    }
    false
}

/// What the run will do, decided before any traversal.
pub enum RunDecision {
    /// Too few arguments: print the usage line and exit.
    UsageError,
    /// The target is missing or is not a directory: print an error and exit.
    InvalidDirectory,
    /// Walk `directory`, recursing when `recursive` is set.
    Proceed { directory: Vec<u8>, recursive: bool },
}

impl RunDecision {
    /// The process exit code the decision earns: 1 for the two pre-traversal
    /// errors, 0 for a run — whatever the outcomes of the individual files.
    pub fn exit_code(&self) -> (c: i32)
        ensures
            c == 0 <==> self is Proceed,
            c == 0 || c == 1,
    {
        match self {
            RunDecision::Proceed { .. } => 0,
            _ => 1,
        }
    }
}

/// Decides the run from the argument list (the program name first, as
/// handed to the process) and from the probe of the target path: fewer than
/// two arguments is a usage error; a target that does not exist or is not a
/// directory is a configuration error; otherwise the walk proceeds on the
/// second argument, recursing when any argument is the recursion flag. The
/// probe flags describe the second argument's target and are ignored when
/// there is none.
pub fn decide_run(args: &Vec<Vec<u8>>, dir_exists: bool, dir_is_dir: bool) -> (r: RunDecision)
    ensures
        args@.len() < 2 ==> r is UsageError,
        args@.len() >= 2 && !(dir_exists && dir_is_dir) ==> r is InvalidDirectory,
        args@.len() >= 2 && dir_exists && dir_is_dir ==> (r matches RunDecision::Proceed {
            directory,
            recursive,
        } && directory@ == args@[1]@ && recursive == wants_recursive(args@)),
{
    if args.len() < 2 {
        RunDecision::UsageError
    } else if !(dir_exists && dir_is_dir) {
        RunDecision::InvalidDirectory
    } else {
        RunDecision::Proceed {
            directory: copy_bytes(&args[1]),
            recursive: contains_r_flag(args),
        }
    }
}

} // verus!
