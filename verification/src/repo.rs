//! Orchestration of one operation on the shared record store: the decisions
//! of the pull/merge/commit/push cycle, computed from plain values. The
//! caller performs the file and version-control I/O around them.

use vstd::prelude::*;

use crate::de::deserialize;
use crate::de::spec_deserialize;
use crate::laws::lemma_merge_wf;
use crate::package::spec_commit_message;
use crate::package::spec_merge;
use crate::package::wf_set;
use crate::package::Packages;
use crate::roundtrip::lemma_round_trip;
use crate::ser::ser_set;

verus! {

/// The version-control steps an operation can fail in.
#[derive(Clone, Copy, Debug, PartialEq, Eq, Structural)]
pub enum VcsStep {
    CloneRepo,
    Pull,
    Stage,
    Commit,
    Push,
}

/// How the version-control tool reported one step.
#[derive(Clone, Copy, Debug, PartialEq, Eq, Structural)]
pub enum VcsOutcome {
    Success,
    NonFastForward,
    Failure,
}

/// Why an operation on the record store failed.
#[derive(Clone, Copy, Debug, PartialEq, Eq, Structural)]
pub enum Error {
    /// The record file does not exist yet: no data, not corruption.
    NotFound,
    /// The record file exists but is not the canonical text of any record
    /// set. Never downgraded to an empty set.
    CorruptData,
    /// A version-control step failed, tagged with the step.
    VersionControlFailure(VcsStep),
    /// The push was rejected because the remote advanced meanwhile;
    /// re-running the whole operation after a pull is safe.
    RemoteAdvanced,
    /// A filesystem failure unrelated to version control.
    IoFailure,
}

/// How to bring the working copy up to date before an operation.
#[derive(Clone, Copy, Debug, PartialEq, Eq, Structural)]
pub enum OpenStep {
    /// No working copy yet: create the directory and clone the remote branch.
    CloneRepo,
    /// A working copy exists: fast-forward pull.
    Pull,
}

/// The computed plan of one mirror or clean operation: what to write and,
/// if anything changed, what to commit.
#[derive(Debug)]
pub struct MirrorPlan {
    /// Commit message, derived from the candidates before merging.
    pub message: String,
    /// The full new contents of the record file.
    pub contents: String,
    /// Whether the new contents differ from what the file held. When false
    /// the caller stages, commits and pushes nothing: a no-op success.
    pub changed: bool,
}

/// The record store behind a version-controlled working copy: the configured
/// clone directory, remote, branch, and record-file name. It owns only the
/// configuration, never the records.
pub struct Repo {
    pub directory: String,
    pub url: String,
    pub branch: String,
    pub file: String,
}

impl Repo {
    /// A store handle for the given configuration.
    pub fn new(directory: String, url: String, branch: String, file: String) -> (r: Repo)
        ensures
            r.directory@ == directory@,
            r.url@ == url@,
            r.branch@ == branch@,
            r.file@ == file@,
    {
        Repo { directory, url, branch, file }
    }

    /// The opening decision: clone the remote branch when no working copy
    /// exists at the configured path, otherwise fast-forward pull.
    pub fn open_step(repo_exists: bool) -> (s: OpenStep)
        ensures
            s == (if repo_exists {
                OpenStep::Pull
            } else {
                OpenStep::CloneRepo
            }),
    {
        if repo_exists {
            OpenStep::Pull
        } else {
            OpenStep::CloneRepo
        }
    }

    /// Loads the persisted record set from the record file's contents.
    /// An absent file is `NotFound`; a file that is not canonical record
    /// text is `CorruptData`, never an empty set.
    pub fn read(&self, contents: Option<&String>) -> (res: Result<Packages, Error>)
        ensures
            match contents {
                None => res == Err::<Packages, Error>(Error::NotFound),
                Some(s) => match res {
                    Ok(p) => spec_deserialize(s@) == Some(p@) && wf_set(p@),
                    Err(e) => spec_deserialize(s@) is None && e == Error::CorruptData,
                },
            },
    {
        match contents {
            None => Err(Error::NotFound),
            Some(s) => match deserialize(s.as_str()) {
                Some(p) => Ok(p),
                None => Err(Error::CorruptData),
            },
        }
    }

    /// The plan for mirroring the confirmed candidate records `commands`
    /// into the store whose record file currently holds `persisted` (or does
    /// not exist yet). The commit message reflects the candidates alone; the
    /// new contents are the merge of the candidates into the persisted set,
    /// and `changed` is false exactly when the file would be rewritten
    /// byte for byte, so that no empty commit is made.
    pub fn mirror(&self, commands: Packages, persisted: Option<&String>) -> (res: Result<
        MirrorPlan,
        Error,
    >)
        requires
            wf_set(commands@),
        ensures
            match res {
                Ok(plan) => plan.message@ == spec_commit_message(commands@) && match persisted {
                    None => plan.contents@ == ser_set(commands@) && plan.changed
                        && spec_deserialize(plan.contents@) == Some(commands@),
                    Some(s) => spec_deserialize(s@) is Some && plan.contents@ == ser_set(
                        spec_merge(commands@, spec_deserialize(s@)->Some_0),
                    ) && plan.changed == (plan.contents@ != s@) && spec_deserialize(plan.contents@)
                        == Some(spec_merge(commands@, spec_deserialize(s@)->Some_0)),
                },
                Err(e) => e == Error::CorruptData && match persisted {
                    None => false,
                    Some(s) => spec_deserialize(s@) is None,
                },
            },
    {
        let message = commands.commit_message();
        match persisted {
            None => {
                let contents = commands.serialize();
                proof {
                    lemma_round_trip(commands@);
                }
                Ok(MirrorPlan { message, contents, changed: true })
            },
            Some(s) => match deserialize(s.as_str()) {
                None => Err(Error::CorruptData),
                Some(old) => {
                    let mut merged = commands;
                    merged.merge(&old);
                    let contents = merged.serialize();
                    let changed = !contents.eq(s);
                    proof {
                        lemma_merge_wf(commands@, old@);
                        lemma_round_trip(merged@);
                    }
                    Ok(MirrorPlan { message, contents, changed })
                },
            },
        }
    }

    /// The plan for an explicit rewrite: the given records verbatim, no
    /// merge against the persisted contents, under a fixed commit message.
    pub fn clean(&self, commands: Packages) -> (plan: MirrorPlan)
        ensures
            plan.message@ == "Emplace - clean packages"@,
            plan.contents@ == ser_set(commands@),
            plan.changed,
    {
        let message = "Emplace - clean packages".to_owned();
        let contents = commands.serialize();
        MirrorPlan { message, contents, changed: true }
    }
}

/// Maps the outcome of one version-control step to the operation's result:
/// success passes, a push rejected as non-fast-forward means the remote
/// advanced (the caller may retry the whole operation), and anything else is
/// a failure tagged with the step.
pub fn vcs_result(step: VcsStep, outcome: VcsOutcome) -> (res: Result<(), Error>)
    ensures
        match outcome {
            VcsOutcome::Success => res == Ok::<(), Error>(()),
            VcsOutcome::NonFastForward => res == Err::<(), Error>(
                if step == VcsStep::Push {
                    Error::RemoteAdvanced
                } else {
                    Error::VersionControlFailure(step)
                },
            ),
            VcsOutcome::Failure => res == Err::<(), Error>(Error::VersionControlFailure(step)),
        },
{
    match outcome {
        VcsOutcome::Success => Ok(()),
        VcsOutcome::NonFastForward => {
            if step == VcsStep::Push {
                Err(Error::RemoteAdvanced)
            } else {
                Err(Error::VersionControlFailure(step))
            }
        },
        VcsOutcome::Failure => Err(Error::VersionControlFailure(step)),
    }
}

} // verus!

