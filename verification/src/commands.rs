//! The data carried by each command of the surrounding tool. The library
//! holds the plain values; argument parsing, file access, and terminal work
//! stay outside and hand values in.
use vstd::prelude::*;
use crate::target::Target;

verus! {

/// Editing a note, creating it first if asked to.
#[derive(Debug)]
pub struct Edit {
    /// The target to edit.
    pub target: Target,
    /// Create the target if it does not exist, without a prompt.
    pub create: bool,
}

/// Showing a note or the tree of notes.
#[derive(Debug)]
pub struct Show {
    /// The target to show; the whole root when absent.
    pub target: Option<Target>,
    /// Show everything, hidden directories included.
    pub all: bool,
    /// How many levels of the tree to show.
    pub depth: i32,
    /// List the available colour themes instead.
    pub list_themes: bool,
    /// The colour theme to show a note with.
    pub theme: Option<String>,
}

impl Default for Show {
    /// One level of the tree, without hidden directories, default theme.
    fn default() -> (r: Show)
        ensures
            r.target is None,
            !r.all,
            r.depth == 1,
            !r.list_themes,
            r.theme is None,
    {
        Show { target: None, all: false, depth: 1, list_themes: false, theme: None }
    }
}

/// Removing a note or a directory.
#[derive(Debug)]
pub struct Remove {
    /// The target to remove.
    pub target: Target,
    /// Remove without a prompt, and tolerate a missing target.
    pub force: bool,
}

/// Moving a note or a directory.
#[derive(Debug)]
pub struct Move {
    /// The source to move.
    pub source: Target,
    /// Where to move it.
    pub destination: Target,
}

/// Archiving a note or a directory under the hidden archive directory.
#[derive(Debug)]
pub struct Archive {
    /// The target to archive.
    pub target: Target,
}

/// Synchronising the note repository with its remote.
#[derive(Debug)]
pub struct Sync {}

/// Writing shell completions; the shell is named by the user.
#[derive(Debug)]
pub struct Completions {
    /// The shell to write completions for.
    pub shell: String,
}

/// One invocation of the tool.
#[derive(Debug)]
pub enum SubCommand {
    Edit(Edit),
    Show(Show),
    Remove(Remove),
    Move(Move),
    Sync(Sync),
    Completions(Completions),
}

/// Options shared by every command.
#[derive(Debug)]
pub struct GlobalOpts {
    /// The root directory that notes are stored under.
    pub root: String,
}

/// Everything given on the command line.
#[derive(Debug)]
pub struct Opts {
    /// The verbosity: higher means more logging.
    pub verbose: u32,
    pub globals: GlobalOpts,
    /// The command to run; a plain listing when absent.
    pub subcommand: Option<SubCommand>,
}

} // verus!
