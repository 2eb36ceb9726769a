//! Bringing the checkout up to date: which git command a run begins with.

use crate::text::texts;
use vstd::prelude::*;

verus! {

/// The git command that brings the checkout up to date.
#[derive(Debug, PartialEq, Eq)]
pub enum SyncCommand {
    /// `git pull`, run inside the checkout at `directory`.
    Pull { directory: String },
    /// `git clone --branch <branch> <repo> <directory>`.
    Clone { branch: String, repo: String, directory: String },
}

/// What a `SyncCommand` holds.
pub enum SyncPlan {
    Pull { directory: Seq<char> },
    Clone { branch: Seq<char>, repo: Seq<char>, directory: Seq<char> },
}

impl View for SyncCommand {
    type V = SyncPlan;

    open spec fn view(&self) -> SyncPlan {
        match self {
            SyncCommand::Pull { directory } => SyncPlan::Pull { directory: directory@ },
            SyncCommand::Clone { branch, repo, directory } => SyncPlan::Clone {
                branch: branch@,
                repo: repo@,
                directory: directory@,
            },
        }
    }
}

/// A checkout that exists is pulled; one that does not is cloned, at the
/// branch asked for.
pub open spec fn sync_plan_of(
    checkout_exists: bool,
    repo: Seq<char>,
    branch: Seq<char>,
    source_root: Seq<char>,
) -> SyncPlan {
    if checkout_exists {
        SyncPlan::Pull { directory: source_root }
    } else {
        SyncPlan::Clone { branch, repo, directory: source_root }
    }
}

/// The arguments that git is started with for `plan`.
pub open spec fn arguments_of(plan: SyncPlan) -> Seq<Seq<char>> {
    match plan {
        SyncPlan::Pull { directory } => seq!["pull"@],
        SyncPlan::Clone { branch, repo, directory } => seq![
            "clone"@,
            "--branch"@,
            branch,
            repo,
            directory,
        ],
    }
}

/// The directory in which git is started for `plan`, where it matters.
pub open spec fn working_directory_of(plan: SyncPlan) -> Option<Seq<char>> {
    match plan {
        SyncPlan::Pull { directory } => Some(directory),
        SyncPlan::Clone { branch, repo, directory } => None,
    }
}

/// The command that brings the checkout of `repo` at `source_root` up to
/// date, given whether that directory exists.
pub fn sync_command(checkout_exists: bool, repo: &str, branch: &str, source_root: &str) -> (command:
    SyncCommand)
    ensures
        command@ == sync_plan_of(checkout_exists, repo@, branch@, source_root@),
{
    if checkout_exists {
        SyncCommand::Pull { directory: source_root.to_owned() }
    } else {
        SyncCommand::Clone {
            branch: branch.to_owned(),
            repo: repo.to_owned(),
            directory: source_root.to_owned(),
        }
    }
}

impl SyncCommand {
    /// The arguments to start git with.
    pub fn arguments(&self) -> (args: Vec<String>)
        ensures
            texts(args@) == arguments_of(self@),
    {
        let mut args: Vec<String> = Vec::new();
        match self {
            SyncCommand::Pull { directory } => {
                args.push("pull".to_owned());
            },
            SyncCommand::Clone { branch, repo, directory } => {
                args.push("clone".to_owned());
                args.push("--branch".to_owned());
                args.push(branch.clone());
                args.push(repo.clone());
                args.push(directory.clone());
            },
        }
        assert(texts(args@) =~= arguments_of(self@));
        args
    }

    /// The directory to start git in; `None` where it is started in the
    /// directory of the run.
    pub fn working_directory(&self) -> (dir: Option<String>)
        ensures
            match dir {
                Some(d) => working_directory_of(self@) == Some(d@),
                None => working_directory_of(self@) is None,
            },
    {
        match self {
            SyncCommand::Pull { directory } => Some(directory.clone()),
            SyncCommand::Clone { branch, repo, directory } => None,
        }
    }
}

} // verus!
