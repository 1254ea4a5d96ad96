//! Run configuration: the action selected at startup, the directory paths
//! it operates on, and the small decisions taken on raw command-line and
//! prompt input.

use vstd::prelude::*;
use vstd::string::StrSliceExecFns;
use vstd::string::StringExecFns;

verus! {

/// The action chosen for one run. `Error` marks an unparsed or invalid
/// selection; it is the initial value before parsing succeeds.
#[derive(Debug, Copy, Clone, PartialEq, Eq, Structural)]
pub enum Action {
    Error,
    ShowSameFiles,
    ShowDiffFiles,
    MergeIntoA,
    MergeIntoB,
    Merge,
}

/// Configuration of one run: the two directories to compare, an optional
/// merge output directory, the action, and whether deletions ask for
/// confirmation first.
#[derive(Debug, Clone, PartialEq, Eq)]
pub struct Args {
    pub dir_a: String,
    pub dir_b: String,
    pub merge_dir: String,
    pub action: Action,
    pub with_check: bool,
}

impl Default for Args {
    fn default() -> (a: Args)
        ensures
            a.dir_a@ == Seq::<char>::empty(),
            a.dir_b@ == Seq::<char>::empty(),
            a.merge_dir@ == Seq::<char>::empty(),
            a.action == Action::Error,
            a.with_check == false,
    {
        Args {
            dir_a: String::new(),
            dir_b: String::new(),
            merge_dir: String::new(),
            action: Action::Error,
            with_check: false,
        }
    }
}

impl Args {
    pub fn new() -> (a: Args)
        ensures
            a.dir_a@ == Seq::<char>::empty(),
            a.dir_b@ == Seq::<char>::empty(),
            a.merge_dir@ == Seq::<char>::empty(),
            a.action == Action::Error,
            a.with_check == false,
    {
        Default::default()
    }
}

/// The action that an action string selects: each of the five valid words
/// names its action, and any other string is invalid.
pub open spec fn action_of(s: Seq<char>) -> Action {
    if s == "diff"@ {
        Action::ShowDiffFiles
    } else if s == "equal"@ {
        Action::ShowSameFiles
    } else if s == "merge_into_a"@ {
        Action::MergeIntoA
    } else if s == "merge_into_b"@ {
        Action::MergeIntoB
    } else if s == "merge"@ {
        Action::Merge
    } else {
        Action::Error
    }
}

/// Parse an action string. An invalid string yields `Action::Error`: the
/// caller reports it and exits without scanning any directory.
pub fn parse_action(s: &String) -> (r: Action)
    ensures
        r == action_of(s@),
{
    if *s == String::from_str("diff") {
        Action::ShowDiffFiles
    } else if *s == String::from_str("equal") {
        Action::ShowSameFiles
    } else if *s == String::from_str("merge_into_a") {
        Action::MergeIntoA
    } else if *s == String::from_str("merge_into_b") {
        Action::MergeIntoB
    } else if *s == String::from_str("merge") {
        Action::Merge
    } else {
        Action::Error
    }
}

/// The arguments suffice for their action: the merge action needs a
/// non-empty merge output directory, every other action needs nothing
/// more.
pub open spec fn args_valid(args: Args) -> bool {
    args.action != Action::Merge || args.merge_dir@.len() > 0
}

/// Whether the merge output directory required by the selected action is
/// there. A run whose action is `Merge` but whose merge directory is empty
/// must stop before any directory is scanned or hashed.
pub fn check_args(args: &Args) -> (r: bool)
    ensures
        r == args_valid(*args),
{
    match args.action {
        Action::Merge => !args.merge_dir.as_str().is_empty(),
        _ => true,
    }
}

/// A deletion prompt answer approves the deletion iff it starts with `y`
/// or `Y`; anything else skips that one file.
pub open spec fn affirms_deletion(resp: Seq<char>) -> bool {
    resp.len() > 0 && (resp[0] == 'y' || resp[0] == 'Y')
}

/// Whether a deletion prompt answer approves the deletion.
pub fn approves_delete(resp: &str) -> (r: bool)
    ensures
        r == affirms_deletion(resp@),
{
    if resp.unicode_len() == 0 {
        false
    } else {
        let c = resp.get_char(0);
        c == 'y' || c == 'Y'
    }
}

/// An overwrite prompt answer declines iff it starts with `n` or `N`; any
/// other answer proceeds with the existing directory.
pub open spec fn declines_overwrite_spec(resp: Seq<char>) -> bool {
    resp.len() > 0 && (resp[0] == 'n' || resp[0] == 'N')
}

/// Whether an overwrite prompt answer declines the overwrite and aborts
/// the whole run.
pub fn declines_overwrite(resp: &str) -> (r: bool)
    ensures
        r == declines_overwrite_spec(resp@),
{
    if resp.unicode_len() == 0 {
        false
    } else {
        let c = resp.get_char(0);
        c == 'n' || c == 'N'
    }
}

} // verus!
