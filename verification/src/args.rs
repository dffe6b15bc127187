//! Resolution of the quiz-source name from the program's argument list.

use vstd::prelude::*;
use vstd::string::StringExecFns;

verus! {

/// Pick the quiz-source name: exactly one argument, after the program name,
/// is required. A missing argument or any extra argument is an input error,
/// reported with a human-readable message.
pub fn get_file_name_from_args(args: Vec<String>) -> (r: Result<String, String>)
    ensures
        args@.len() == 2 ==> r is Ok && r->Ok_0@ == args@[1]@,
        args@.len() != 2 ==> r is Err && r->Err_0@
            == "Error: Please input one parameter for json filename"@,
{
    if args.len() == 2 {
        Ok(args[1].clone())
    } else {
        Err(String::from_str("Error: Please input one parameter for json filename"))
    }
}

} // verus!
