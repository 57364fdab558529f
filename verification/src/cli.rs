//! The command-line decision.
//!
//! Given the argument list, the program either prints the usage line
//! and exits with code 1, or extracts the archive named by the first
//! positional argument.

use vstd::prelude::*;

use crate::render::{build_usage_line, usage_line_of};
use crate::sanitize::copy_bytes;

verus! {

/// What the program does for a given argument list.
pub enum CliAction {
    /// Print `line` and exit with code 1.
    Usage { line: Vec<u8> },
    /// Extract the archive at `archive_path` and exit with code 0 on
    /// full success.
    Extract { archive_path: Vec<u8> },
}

/// Decides the run from the argument list (the program name first,
/// then the positional arguments).  Fewer than one positional argument
/// asks for the usage line; otherwise the first positional argument
/// names the archive.
pub fn cli_action(args: &Vec<Vec<u8>>) -> (r: CliAction)
    requires
        args@.len() >= 1,
    ensures
        args@.len() < 2 ==> (r matches CliAction::Usage { line } && line@ == usage_line_of(
            args.deep_view()[0],
        )),
        args@.len() >= 2 ==> (r matches CliAction::Extract { archive_path } && archive_path@
            == args.deep_view()[1]),
{
    if args.len() < 2 {
        let line = build_usage_line(&args[0]);
        proof {
            assert(args@[0]@ =~= args.deep_view()[0]);
        }
        CliAction::Usage { line }
    } else {
        let archive_path = copy_bytes(&args[1]);
        proof {
            assert(args@[1]@ =~= args.deep_view()[1]);
        }
        CliAction::Extract { archive_path }
    }
}

} // verus!
