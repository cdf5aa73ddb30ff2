//! The listing utility's argument handling: the directory traversal
//! itself is the caller's concern.
use vstd::prelude::*;
use vstd::string::*;

verus! {

/// The target of a listing: the last argument wins; no recursion flag
/// exists here.
pub open spec fn ls_target_spec(args: Seq<Seq<char>>) -> Option<Seq<char>> {
    if args.len() == 0 {
        None
    } else {
        Some(args.last())
    }
}

/// Extracts the path to list from the arguments.  The first component
/// of the pair, a recursion flag, is never set by this utility.
pub fn parse_arguments(args: &Vec<String>) -> (r: (bool, Option<String>))
    ensures
        r.0 == false,
        r.1.deep_view() == ls_target_spec(args.deep_view()),
{
    let recursive = false;
    if args.len() == 0 {
        (recursive, None)
    } else {
        let target = args[args.len() - 1].clone();
        assert(target@ == args.deep_view().last());
        (recursive, Some(target))
    }
}

} // verus!
