//! The removal utility's argument handling: the deletion itself is
//! the caller's concern.
use vstd::prelude::*;
use vstd::string::*;

use crate::text::str_eq;

verus! {

/// Whether the recursion flag appears anywhere in the arguments.
pub open spec fn rm_recursive_spec(args: Seq<Seq<char>>) -> bool {
    exists|i: int| 0 <= i < args.len() && args[i] == "-r"@
}

/// The target of a removal: the first argument that is not the
/// recursion flag.
pub open spec fn rm_target_spec(args: Seq<Seq<char>>) -> Option<Seq<char>>
    decreases args.len(),
{
    if args.len() == 0 {
        None
    } else if args[0] == "-r"@ {
        rm_target_spec(args.drop_first())
    } else {
        Some(args[0])
    }
}

/// Extracts the recursion flag and the path to remove from the
/// arguments.
pub fn parse_arguments(args: &Vec<String>) -> (r: (bool, Option<String>))
    ensures
        r.0 == rm_recursive_spec(args.deep_view()),
        r.1.deep_view() == rm_target_spec(args.deep_view()),
{
    let mut recursive = false;
    let mut target: Option<String> = None;
    proof {
        assert(args.deep_view().skip(0) =~= args.deep_view());
    }
    let mut i: usize = 0;
    while i < args.len()
        invariant
            i <= args.len(),
            recursive == exists|j: int| 0 <= j < i && args.deep_view()[j] == "-r"@,
            match target {
                Some(t) => rm_target_spec(args.deep_view()) == Some(t@),
                None => rm_target_spec(args.deep_view()) == rm_target_spec(
                    args.deep_view().skip(i as int),
                ),
            },
        decreases args.len() - i,
    {
        let ghost rest = args.deep_view().skip(i as int);
        assert(rest[0] == args.deep_view()[i as int]);
        if str_eq(args[i].as_str(), "-r") {
            recursive = true;
            assert(args.deep_view()[i as int] == "-r"@);
        } else {
            if target.is_none() {
                target = Some(args[i].clone());
            }
            assert(args.deep_view()[i as int] != "-r"@);
        }
        proof {
            assert(rest.drop_first() =~= args.deep_view().skip(i + 1));
        }
        i += 1;
    }
    proof {
        if target is None {
            assert(rm_target_spec(args.deep_view().skip(args.len() as int)) == None::<Seq<char>>);
        }
    }
    (recursive, target)
}

} // verus!
