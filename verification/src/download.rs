//! The order of work in one run over the queue, and the call that fetches
//! one item.
//!
//! A run takes the items of the queue in file order, up to a limit. Each is
//! fetched; when the fetch has succeeded the item is removed from the queue
//! file; then the next item is taken, whether or not the fetch or the removal
//! succeeded. Fetching and the rewriting of the file are done by the caller:
//! it performs each action and reports whether it succeeded.

use std::path::Path;
use vstd::prelude::*;
use crate::args::Opt;
use crate::item::{DownloadItem, Entry};

verus! {

/// What a run does next.
#[derive(Debug, Clone, Copy, PartialEq, Eq, Structural)]
pub enum Action {
    /// Fetch the item at this index of the queue.
    Fetch(usize),
    /// Remove the item at this index from the queue file.
    Remove(usize),
    /// Nothing is left to do.
    Stop,
}

/// Number of items that a run over `total` items attempts under `opt`: all of
/// them, but no more than the limit.
pub open spec fn attempts(total: usize, opt: Opt) -> nat {
    if total <= opt.num {
        total as nat
    } else {
        opt.num as nat
    }
}

/// The fetch of the item at `index` if the run gets that far, else the end
/// of the run.
pub open spec fn fetch_or_stop(index: int, total: usize, opt: Opt) -> Action {
    if 0 <= index < attempts(total, opt) {
        Action::Fetch(index as usize)
    } else {
        Action::Stop
    }
}

/// The action that follows `pending`, once `pending` has been performed and
/// has succeeded or not.
///
/// A fetch that succeeded is followed by the removal of the same item. A
/// fetch that failed leaves the item in the queue, and the run goes on to the
/// next item; so it does after a removal, however that went.
pub open spec fn following(pending: Action, succeeded: bool, total: usize, opt: Opt) -> Action {
    match pending {
        Action::Fetch(index) => if succeeded {
            Action::Remove(index)
        } else {
            fetch_or_stop(index + 1, total, opt)
        },
        Action::Remove(index) => fetch_or_stop(index + 1, total, opt),
        Action::Stop => Action::Stop,
    }
}

/// An upper bound on the number of actions that are still to be performed
/// when `action` is pending: two for each item that is left, the fetch and
/// the removal.
pub open spec fn steps_left(action: Action, total: usize, opt: Opt) -> nat {
    match action {
        Action::Fetch(index) => 2 * items_left(index, total, opt),
        Action::Remove(index) => (2 * items_left(index, total, opt) - 1) as nat,
        Action::Stop => 0,
    }
}

/// Number of items from the one at `index` on that the run still attempts,
/// that one counted in any case.
pub open spec fn items_left(index: usize, total: usize, opt: Opt) -> nat {
    if index < attempts(total, opt) {
        (attempts(total, opt) - index) as nat
    } else {
        1
    }
}

/// The fetch of the item at `index`, or the end of the run if `index` is
/// beyond what the run attempts.
fn fetch_if_due(index: usize, total: usize, opt: &Opt) -> (action: Action)
    ensures
        action == fetch_or_stop(index as int, total, *opt),
{
    if index < total && index < opt.num {
        Action::Fetch(index)
    } else {
        Action::Stop
    }
}

/// The first action of a run over a queue of `total` items: the fetch of the
/// first item, unless the queue is empty or the limit is zero.
pub fn first_action(total: usize, opt: &Opt) -> (action: Action)
    ensures
        action == fetch_or_stop(0, total, *opt),
{
    fetch_if_due(0, total, opt)
}

/// The action that follows `pending`, given whether `pending` succeeded.
///
/// Each call brings the run nearer to its end: `steps_left` decreases until
/// the action is `Stop`.
pub fn next_action(pending: Action, succeeded: bool, total: usize, opt: &Opt) -> (action: Action)
    ensures
        action == following(pending, succeeded, total, *opt),
        action is Remove <==> pending is Fetch && succeeded,
        pending != Action::Stop ==> steps_left(action, total, *opt) < steps_left(
            pending,
            total,
            *opt,
        ),
{
    match pending {
        Action::Fetch(index) => {
            if succeeded {
                Action::Remove(index)
            } else {
                after_item(index, total, opt)
            }
        },
        Action::Remove(index) => after_item(index, total, opt),
        Action::Stop => Action::Stop,
    }
}

/// The action that begins the item after the one at `index`.
fn after_item(index: usize, total: usize, opt: &Opt) -> (action: Action)
    ensures
        action == fetch_or_stop(index + 1, total, *opt),
{
    if index < total {
        fetch_if_due(index + 1, total, opt)
    } else {
        Action::Stop
    }
}

/// A run passes over no item and stops at none: whether the fetch of the
/// item at `index` fails, or succeeds and the removal then succeeds or fails,
/// the run goes on with the fetch of the next item, or ends if there is none.
pub proof fn lemma_item_is_followed_by_next(
    index: usize,
    fetched: bool,
    removed: bool,
    total: usize,
    opt: Opt,
)
    ensures
        !fetched ==> following(Action::Fetch(index), false, total, opt) == fetch_or_stop(
            index + 1,
            total,
            opt,
        ),
        fetched ==> following(
            following(Action::Fetch(index), true, total, opt),
            removed,
            total,
            opt,
        ) == fetch_or_stop(index + 1, total, opt),
{
}

/// The program that fetches an item.
pub const DOWNLOADER: &'static str = "curl";

/// The arguments with which the downloader fetches `entry`: with a progress
/// bar or silent, following redirections, continuing a partial file where
/// one is there, and writing to the entry's destination.
pub open spec fn arguments_for(entry: Entry, show_progress: bool) -> Seq<Seq<char>> {
    seq![
        if show_progress {
            "--progress-bar"@
        } else {
            "--silent"@
        },
        "--location"@,
        "-C"@,
        "-"@,
        "-o"@,
        entry.path,
        entry.uri,
    ]
}

/// The arguments of the call that fetches `item`.
pub fn fetch_arguments(item: &DownloadItem, show_progress: bool) -> (arguments: Vec<String>)
    ensures
        arguments.deep_view() == arguments_for(item@, show_progress),
{
    let mut arguments: Vec<String> = Vec::new();
    if show_progress {
        arguments.push("--progress-bar".to_string());
    } else {
        arguments.push("--silent".to_string());
    }
    arguments.push("--location".to_string());
    arguments.push("-C".to_string());
    arguments.push("-".to_string());
    arguments.push("-o".to_string());
    arguments.push(item.path().to_string());
    arguments.push(item.uri().to_string());
    arguments
}

/// Why an item was not fetched.
#[derive(Debug, Clone, Copy, PartialEq, Eq, Structural)]
pub enum FetchError {
    /// The destination has no directory above it to write into.
    NoDirectory,
    /// The downloader ran and reported a failure.
    DownloaderFailed,
}

impl FetchError {
    /// The words in which the failure is reported.
    pub open spec fn text(self) -> Seq<char> {
        match self {
            FetchError::NoDirectory => "Can't create output directory."@,
            FetchError::DownloaderFailed => "Downloader returned failure"@,
        }
    }

    /// The failure in words.
    pub fn message(&self) -> (message: String)
        ensures
            message@ == self.text(),
    {
        match self {
            FetchError::NoDirectory => "Can't create output directory.".to_string(),
            FetchError::DownloaderFailed => "Downloader returned failure".to_string(),
        }
    }
}

/// What it takes to fetch one item: the directory that must be there before
/// the downloader runs, and the downloader's arguments.
#[derive(Debug)]
pub struct FetchPlan {
    /// The directory that the destination lies in.
    pub directory: String,
    /// The arguments for the downloader.
    pub arguments: Vec<String>,
}

/// `Path::parent` of the standard library: the path without its last
/// component, or nothing where the path ends in a root or is empty. What
/// counts as a component or a root depends on the platform, so of the result
/// only this is claimed: the empty path has no parent.
#[verifier::external_body]
fn parent_of(path: &str) -> (parent: Option<String>)
    ensures
        path@.len() == 0 ==> parent is None,
{
    match Path::new(path).parent() {
        Some(directory) => Some(directory.to_string_lossy().into_owned()),
        None => None,
    }
}

/// The plan for fetching `item`, where `parent` is the directory that its
/// destination lies in, if there is one. Without such a directory the item
/// cannot be fetched.
pub fn plan_fetch_into(item: &DownloadItem, parent: Option<String>, show_progress: bool) -> (plan:
    Result<FetchPlan, FetchError>)
    ensures
        match parent {
            Some(directory) => plan matches Ok(p) && p.directory@ == directory@
                && p.arguments.deep_view() == arguments_for(item@, show_progress),
            None => plan == Err::<FetchPlan, FetchError>(FetchError::NoDirectory),
        },
{
    match parent {
        Some(directory) => Ok(
            FetchPlan { directory, arguments: fetch_arguments(item, show_progress) },
        ),
        None => Err(FetchError::NoDirectory),
    }
}

/// The plan for fetching `item`.
///
/// The directory is the parent of the item's destination as the platform
/// reads the path. Where the platform finds none, as for a root or for an
/// empty destination, the result is `NoDirectory`; that is the only failure.
pub fn plan_fetch(item: &DownloadItem, show_progress: bool) -> (plan: Result<FetchPlan, FetchError>)
    ensures
        match plan {
            Ok(p) => p.arguments.deep_view() == arguments_for(item@, show_progress),
            Err(error) => error == FetchError::NoDirectory,
        },
        item@.path.len() == 0 ==> plan is Err,
{
    plan_fetch_into(item, parent_of(item.path()), show_progress)
}

} // verus!
