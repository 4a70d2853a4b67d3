//! The arguments that the host and verifier programs accept.
use vstd::prelude::*;
use crate::names::{parse_u32, parse_u32_spec};
use crate::transform::{str_equals, string_views};

verus! {

#[derive(Clone, Debug)]
/// What the transformation host is asked to prove.
pub struct HostRequest {
    pub image_path: String,
    pub transformations: Vec<String>,
    pub recursive: bool,
    pub recursive_id: Option<u32>,
}

/// Reads the arguments from position `i` on: `--recursive` marks the run as
/// part of a chain and takes the next argument as the run's number when it
/// reads as a `u32`; every other argument names a transformation.
pub open spec fn scan_host_args(
    args: Seq<Seq<char>>,
    i: int,
    ts: Seq<Seq<char>>,
    recursive: bool,
    id: Option<u32>,
) -> (Seq<Seq<char>>, bool, Option<u32>)
    decreases args.len() - i,
{
    if i < 0 || i >= args.len() {
        (ts, recursive, id)
    } else if args[i] == "--recursive"@ {
        if i + 1 < args.len() && parse_u32_spec(args[i + 1]) is Some {
            scan_host_args(args, i + 2, ts, true, parse_u32_spec(args[i + 1]))
        } else {
            scan_host_args(args, i + 1, ts, true, id)
        }
    } else {
        scan_host_args(args, i + 1, ts.push(args[i]), recursive, id)
    }
}

/// Reads the host's command line: the program, the image path, then
/// transformations and `--recursive [number]`. `None` (a usage error) with
/// fewer than three arguments.
pub fn parse_host_args(args: &Vec<String>) -> (r: Option<HostRequest>)
    ensures
        r is None <==> args@.len() < 3,
        r matches Some(q) ==> q.image_path@ == args@[1]@ && (
            string_views(q.transformations@),
            q.recursive,
            q.recursive_id,
        ) == scan_host_args(string_views(args@), 2, Seq::empty(), false, None),
{
    if args.len() < 3 {
        return None;
    }
    let ghost views = string_views(args@);
    let mut transformations: Vec<String> = Vec::new();
    let mut recursive = false;
    let mut recursive_id: Option<u32> = None;
    let mut i: usize = 2;
    assert(string_views(transformations@) =~= Seq::<Seq<char>>::empty());
    while i < args.len()
        invariant
            2 <= i <= args.len() + 1,
            views == string_views(args@),
            scan_host_args(views, 2, Seq::empty(), false, None) == scan_host_args(
                views,
                i as int,
                string_views(transformations@),
                recursive,
                recursive_id,
            ),
        decreases args.len() + 1 - i,
    {
        assert(views[i as int] == args@[i as int]@);
        if str_equals(args[i].as_str(), "--recursive") {
            recursive = true;
            if i + 1 < args.len() {
                assert(views[i + 1] == args@[i + 1]@);
                match parse_u32(args[i + 1].as_str()) {
                    Some(id) => {
                        recursive_id = Some(id);
                        i += 1;
                    },
                    None => {},
                }
            }
        } else {
            let ghost before = transformations@;
            transformations.push(args[i].clone());
            assert(string_views(transformations@) =~= string_views(before).push(views[i as int]));
        }
        i += 1;
    }
    Some(HostRequest { image_path: args[1].clone(), transformations, recursive, recursive_id })
}

/// Whether one of the arguments is exactly `flag`.
pub fn has_flag(args: &Vec<String>, flag: &str) -> (r: bool)
    ensures
        r == string_views(args@).contains(flag@),
{
    let ghost views = string_views(args@);
    let mut i: usize = 0;
    while i < args.len()
        invariant
            i <= args.len(),
            views == string_views(args@),
            forall|j: int| 0 <= j < i ==> views[j] != flag@,
        decreases args.len() - i,
    {
        assert(views[i as int] == args@[i as int]@);
        if str_equals(args[i].as_str(), flag) {
            return true;
        }
        i += 1;
    }
    false
}

#[derive(Clone, Debug)]
/// The receipt and the public image that a verifier checks.
pub struct VerifierArgs {
    pub receipt_path: String,
    pub image_path: String,
    pub parallel: bool,
}

/// The transformation verifier's command line: exactly the program, the
/// receipt and the public image.
pub fn transformation_verifier_args(args: &Vec<String>) -> (r: Option<VerifierArgs>)
    ensures
        r is Some <==> args@.len() == 3,
        r matches Some(v) ==> v.receipt_path@ == args@[1]@ && v.image_path@ == args@[2]@
            && !v.parallel,
{
    if args.len() != 3 {
        return None;
    }
    Some(
        VerifierArgs {
            receipt_path: args[1].clone(),
            image_path: args[2].clone(),
            parallel: false,
        },
    )
}

/// The composition verifier's command line: the program, the receipt, the
/// public image, and at most one more argument; `--parallel` anywhere asks
/// for the stitched form of the journal.
pub fn composition_verifier_args(args: &Vec<String>) -> (r: Option<VerifierArgs>)
    ensures
        r is Some <==> 3 <= args@.len() <= 4,
        r matches Some(v) ==> v.receipt_path@ == args@[1]@ && v.image_path@ == args@[2]@
            && v.parallel == string_views(args@).contains("--parallel"@),
{
    if args.len() < 3 || args.len() > 4 {
        return None;
    }
    let parallel = has_flag(args, "--parallel");
    Some(
        VerifierArgs { receipt_path: args[1].clone(), image_path: args[2].clone(), parallel },
    )
}

} // verus!
