//! The argument resolver: which arguments a run receives, and what the run
//! decides to do with them before any file is touched.

use vstd::prelude::*;
use crate::scan::string_views;
use crate::style::CommentType;
use crate::style::spec_token_style;
use crate::style::str_to_comment_type;

verus! {

/// The process's arguments with the program name removed, or nothing at all
/// when no argument beyond the program name was passed.
pub fn collect_cli_args(argv: &Vec<String>) -> (r: Option<Vec<String>>)
    ensures
        argv@.len() <= 1 ==> r is None,
        argv@.len() > 1 ==> (r matches Some(args) && string_views(args@) == string_views(
            argv@,
        ).drop_first()),
{
    if argv.len() <= 1 {
        return None;
    }
    let mut args: Vec<String> = Vec::new();
    let mut i: usize = 1;
    while i < argv.len()
        invariant
            1 <= i <= argv@.len(),
            args@.len() == i - 1,
            forall|j: int| 0 <= j < i - 1 ==> args@[j]@ == argv@[j + 1]@,
        decreases argv@.len() - i,
    {
        args.push(argv[i].clone());
        i += 1;
    }
    proof {
        assert(string_views(args@) =~= string_views(argv@).drop_first());
    }
    Some(args)
}

/// What one run does, decided from the arguments and from what the
/// filesystem says of the chosen path.
#[derive(Debug, PartialEq, Eq)]
pub enum RunPlan {
    /// No argument was given: report it and scan nothing.
    NotEnoughArguments,
    /// The chosen path is not on the filesystem: report it and scan nothing.
    PathDoesNotExist,
    /// Print the results banner; scan the directory's entries first when
    /// `scan_directory` holds, otherwise report on no files at all.
    Report { path: String, style: CommentType, scan_directory: bool },
}

/// Decides a run from the argument list (program name excluded) and the two
/// filesystem facts the caller looked up about the first argument. The first
/// argument is the path to scan; the last argument, case-insensitively, is
/// the style token, so a single argument serves as both.
pub fn plan_run(args: &Vec<String>, path_exists: bool, path_is_dir: bool) -> (r: RunPlan)
    ensures
        args@.len() == 0 ==> r is NotEnoughArguments,
        args@.len() > 0 && !path_exists ==> r is PathDoesNotExist,
        args@.len() > 0 && path_exists ==> (r matches RunPlan::Report {
            path,
            style,
            scan_directory,
        } && path@ == args@[0]@ && style == spec_token_style(args@.last()@) && scan_directory
            == path_is_dir),
{
    if args.len() == 0 {
        return RunPlan::NotEnoughArguments;
    }
    if !path_exists {
        return RunPlan::PathDoesNotExist;
    }
    let path = args[0].clone();
    let style = str_to_comment_type(args[args.len() - 1].as_str());
    RunPlan::Report { path, style, scan_directory: path_is_dir }
}

} // verus!
