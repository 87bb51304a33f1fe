//! What the application is started with: its data directory and the kind
//! of resource it manages.
use vstd::prelude::*;
use crate::text::str_eq;

verus! {

/// The data directory given at start-up, if any.
#[derive(Debug)]
pub struct DataDirState {
    pub dir: Option<String>,
}

/// The kind of resource given at start-up; empty when none was given.
#[derive(Debug)]
pub struct ResourceTypeState {
    pub resource_type: String,
}

/// The options read from the command line.
#[derive(Debug)]
pub struct LaunchArgs {
    pub data_dir: Option<String>,
    pub resource_type: String,
}

/// The text of an optional string.
pub open spec fn opt_text(o: Option<String>) -> Option<Seq<char>> {
    match o {
        Some(s) => Some(s@),
        None => None,
    }
}

impl DataDirState {
    /// No data directory yet.
    pub fn new() -> (r: DataDirState)
        ensures
            r.dir is None,
    {
        DataDirState { dir: None }
    }

    /// Records the data directory.
    pub fn set(&mut self, dir: String)
        ensures
            opt_text(final(self).dir) == Some(dir@),
    {
        self.dir = Some(dir);
    }

    /// The data directory, if one was recorded.
    pub fn get(&self) -> (r: Option<String>)
        ensures
            opt_text(r) == opt_text(self.dir),
    {
        match &self.dir {
            Some(d) => Some(d.clone()),
            None => None,
        }
    }
}

/// The options that the arguments from index `i` on leave, starting from
/// `dir` and `kind`: `--data-dir X` sets the data directory and
/// `--resource-type X` the kind of resource, the last one winning; any
/// other argument, or an option with nothing after it, is passed over.
pub open spec fn launch_options(
    args: Seq<Seq<char>>,
    i: int,
    dir: Option<Seq<char>>,
    kind: Seq<char>,
) -> (Option<Seq<char>>, Seq<char>)
    decreases args.len() - i,
{
    if i < 0 || i >= args.len() {
        (dir, kind)
    } else if args[i] == "--data-dir"@ && i + 1 < args.len() {
        launch_options(args, i + 2, Some(args[i + 1]), kind)
    } else if args[i] == "--resource-type"@ && i + 1 < args.len() {
        launch_options(args, i + 2, dir, args[i + 1])
    } else {
        launch_options(args, i + 1, dir, kind)
    }
}

/// Reads the options from the command line, whose first argument is the
/// program itself.
pub fn parse_launch_args(args: &Vec<String>) -> (r: LaunchArgs)
    ensures
        (opt_text(r.data_dir), r.resource_type@) == launch_options(
            args@.map_values(|a: String| a@),
            1,
            None,
            Seq::empty(),
        ),
{
    let ghost all = args@.map_values(|a: String| a@);
    let mut dir: Option<String> = None;
    let mut kind = String::new();
    let mut i: usize = 1;
    while i < args.len()
        invariant
            1 <= i,
            all == args@.map_values(|a: String| a@),
            launch_options(all, 1, None, Seq::empty()) == launch_options(all, i as int, opt_text(dir), kind@),
        decreases args.len() - i,
    {
        if str_eq(args[i].as_str(), "--data-dir") && i + 1 < args.len() {
            dir = Some(args[i + 1].clone());
            i = i + 2;
        } else if str_eq(args[i].as_str(), "--resource-type") && i + 1 < args.len() {
            kind = args[i + 1].clone();
            i = i + 2;
        } else {
            i = i + 1;
        }
    }
    LaunchArgs { data_dir: dir, resource_type: kind }
}

} // verus!
