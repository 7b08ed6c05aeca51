//! Finding the tools that the subvolume listing is made with.

use crate::text::{trim, trimmed};
use vstd::prelude::*;

verus! {

/// A tool that was looked for and not found.
#[derive(Clone, Copy, Debug, PartialEq, Eq, Structural)]
pub enum Missing {
    /// The subvolume tool itself.
    Btrfs,
    /// The tool that runs it with more rights.
    Sudo,
}

/// The path of a tool, from what the search for it printed: the output without the
/// whitespace around it. A search that printed nothing has not found the tool.
pub fn find(stdout: &str) -> (r: Option<String>)
    ensures
        match r {
            Some(path) => stdout@.len() > 0 && path@ == trimmed(stdout@),
            None => stdout@.len() == 0,
        },
{
    if stdout.is_empty() {
        None
    } else {
        Some(trim(stdout))
    }
}

/// The binaries to list subvolumes with: the `sudo` to go through, where one is asked
/// for, and the subvolume tool. `btrfs_found` and `sudo_found` are what the searches
/// for the two printed; the second is looked at only where `use_sudo` holds. The
/// subvolume tool is missed first.
pub fn btrfs(use_sudo: bool, btrfs_found: &str, sudo_found: &str) -> (r: Result<
    (Option<String>, String),
    Missing,
>)
    ensures
        match r {
            Ok((sudo, tool)) => {
                &&& btrfs_found@.len() > 0
                &&& tool@ == trimmed(btrfs_found@)
                &&& match sudo {
                    Some(path) => use_sudo && sudo_found@.len() > 0 && path@ == trimmed(
                        sudo_found@,
                    ),
                    None => !use_sudo,
                }
            },
            Err(Missing::Btrfs) => btrfs_found@.len() == 0,
            Err(Missing::Sudo) => btrfs_found@.len() > 0 && use_sudo && sudo_found@.len() == 0,
        },
{
    let tool = match find(btrfs_found) {
        Some(path) => path,
        None => {
            return Err(Missing::Btrfs);
        },
    };
    let sudo = if use_sudo {
        match find(sudo_found) {
            Some(path) => Some(path),
            None => {
                return Err(Missing::Sudo);
            },
        }
    } else {
        None
    };
    Ok((sudo, tool))
}

/// A command to run: the program and the arguments that it begins with.
pub struct Invocation {
    /// The program to start.
    pub program: String,
    /// Its first arguments.
    pub args: Vec<String>,
}

/// How `command` is started: by itself, or through `sudo` with `command` as its first
/// argument.
pub fn prepare(sudo: &Option<String>, command: &str) -> (r: Invocation)
    ensures
        match sudo {
            Some(through) => {
                &&& r.program@ == through@
                &&& r.args@.len() == 1
                &&& r.args@[0]@ == command@
            },
            None => r.program@ == command@ && r.args@.len() == 0,
        },
{
    match sudo {
        Some(through) => {
            let mut args: Vec<String> = Vec::new();
            args.push(command.to_owned());
            Invocation { program: through.clone(), args }
        },
        None => Invocation { program: command.to_owned(), args: Vec::new() },
    }
}

} // verus!
