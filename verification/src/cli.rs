//! The command line: where the image goes.

use vstd::prelude::*;

verus! {

/// The file that the image is written to. `args` is the command line as the
/// process got it, the program's name first: with exactly one argument after
/// the name that argument is the path, and with any other number the path is
/// `out.png`.
pub fn output_path(args: &Vec<String>) -> (path: String)
    ensures
        path@ == (if args.len() == 2 {
            args[1]@
        } else {
            "out.png"@
        }),
{
    if args.len() == 2 {
        args[1].clone()
    } else {
        "out.png".to_owned()
    }
}

} // verus!
