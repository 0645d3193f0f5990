//! Carrying out a plan: the releases are downloaded one after the other,
//! in the order of the plan, and the first failure ends the run.

use vstd::prelude::*;
use vstd::string::StringExecFns;
use crate::catalog::Release;
use crate::installed::InstalledMod;
use crate::resolver::machine::{plan_view, ResolveResult};
use crate::text::{append_decimal, decimal_text};

verus! {

/// What an installation achieved.
#[derive(Debug)]
pub struct InstallResult {
    /// The mod that was to be installed.
    pub mod_name: String,
    /// How many other mods were installed for its sake.
    pub dependency_count: usize,
    /// What is installed now.
    pub installed_mods: Vec<InstalledMod>,
}

/// A plan that is being carried out.
#[derive(Debug)]
pub struct InstallRun {
    pub mod_name: String,
    pub plan: Vec<(String, Release)>,
    /// How many releases of the plan are downloaded.
    pub done: usize,
}

/// What is to be done next for a plan.
#[derive(Clone, Copy, Debug, PartialEq, Eq, Structural)]
pub enum InstallAction {
    /// Download the release at this position of the plan.
    Download(usize),
    /// Everything is downloaded: read again what is installed.
    Rescan,
}

/// How many mods beside the one that was asked for a plan of `total`
/// releases installs.
pub open spec fn dependencies_in(total: nat) -> nat {
    if total > 0 {
        (total - 1) as nat
    } else {
        0
    }
}

/// How many mods beside the one that was asked for a plan of `total`
/// releases installs.
pub fn dependency_count(total: usize) -> (r: usize)
    ensures
        r == dependencies_in(total as nat),
{
    if total > 0 {
        total - 1
    } else {
        0
    }
}

/// What the user is told when the download of the mod `name` fails for
/// the reason `cause`, after `done` of `total` releases were downloaded.
pub open spec fn failure_text(name: Seq<char>, done: nat, total: nat, cause: Seq<char>) -> Seq<
    char,
> {
    "Failed to download '"@ + name + "' ("@ + decimal_text(done) + "/"@ + decimal_text(total)
        + " downloaded before failure): "@ + cause
}

/// What the user is told when the download of the mod `name` fails for
/// the reason `cause`, after `done` of `total` releases were downloaded.
pub fn download_failure_message(name: &str, done: usize, total: usize, cause: &str) -> (r: String)
    ensures
        r@ == failure_text(name@, done as nat, total as nat, cause@),
{
    let mut out = String::from_str("Failed to download '");
    out.append(name);
    out.append("' (");
    append_decimal(&mut out, done as u64);
    out.append("/");
    append_decimal(&mut out, total as u64);
    out.append(" downloaded before failure): ");
    out.append(cause);
    assert(out@ =~= failure_text(name@, done as nat, total as nat, cause@));
    out
}

impl InstallRun {
    /// Whether the run is in order: no more is downloaded than is
    /// planned.
    pub open spec fn wf(&self) -> bool {
        self.done <= self.plan@.len()
    }

    /// Begins to carry out the plan `plan` for the mod `mod_name`.
    pub fn new(mod_name: &str, plan: ResolveResult) -> (r: InstallRun)
        ensures
            r.wf(),
            r.mod_name@ == mod_name@,
            r.plan == plan.to_download,
            r.done == 0,
    {
        InstallRun { mod_name: String::from_str(mod_name), plan: plan.to_download, done: 0 }
    }

    /// What is to be done next: the first release that is not downloaded
    /// yet, or the rescan once all are.
    pub fn next_action(&self) -> (r: InstallAction)
        requires
            self.wf(),
        ensures
            r == (if self.done < self.plan@.len() {
                InstallAction::Download(self.done)
            } else {
                InstallAction::Rescan
            }),
    {
        if self.done < self.plan.len() {
            InstallAction::Download(self.done)
        } else {
            InstallAction::Rescan
        }
    }

    /// Takes note of how the download of the next release ended. After a
    /// success the release counts as downloaded. After a failure the run
    /// is over, and the error says which mod failed and how far the plan
    /// had come.
    pub fn on_download(&mut self, outcome: Result<(), String>) -> (r: Result<(), String>)
        requires
            old(self).wf(),
            old(self).done < old(self).plan@.len(),
        ensures
            final(self).wf(),
            final(self).plan == old(self).plan,
            final(self).mod_name == old(self).mod_name,
            match outcome {
                Ok(()) => r is Ok && final(self).done == old(self).done + 1,
                Err(cause) => final(self).done == old(self).done && (r matches Err(text) && text@
                    == failure_text(
                    plan_view(old(self).plan@)[old(self).done as int].name,
                    old(self).done as nat,
                    old(self).plan@.len(),
                    cause@,
                )),
            },
    {
        match outcome {
            Ok(()) => {
                let planned = self.plan.len();
                assert(self.done < planned);
                self.done = self.done + 1;
                Ok(())
            },
            Err(cause) => Err(
                download_failure_message(
                    self.plan[self.done].0.as_str(),
                    self.done,
                    self.plan.len(),
                    cause.as_str(),
                ),
            ),
        }
    }

    /// Ends a run of which everything is downloaded, with what the rescan
    /// found installed.
    pub fn finish(self, installed_mods: Vec<InstalledMod>) -> (r: InstallResult)
        requires
            self.wf(),
            self.done == self.plan@.len(),
        ensures
            r.mod_name == self.mod_name,
            r.dependency_count == dependencies_in(self.plan@.len()),
            r.installed_mods == installed_mods,
    {
        let dependency_count = dependency_count(self.plan.len());
        InstallResult { mod_name: self.mod_name, dependency_count, installed_mods }
    }
}

/// What the user is told after an installation.
pub open spec fn success_text(mod_name: Seq<char>, dependency_count: nat) -> Seq<char> {
    if dependency_count > 0 {
        "Installed "@ + mod_name + " + "@ + decimal_text(dependency_count) + " dependencies"@
    } else {
        "Installed "@ + mod_name
    }
}

impl InstallResult {
    /// What the user is told after the installation.
    pub fn message(&self) -> (r: String)
        ensures
            r@ == success_text(self.mod_name@, self.dependency_count as nat),
    {
        let mut out = String::from_str("Installed ");
        out.append(self.mod_name.as_str());
        if self.dependency_count > 0 {
            out.append(" + ");
            append_decimal(&mut out, self.dependency_count as u64);
            out.append(" dependencies");
        }
        assert(out@ =~= success_text(self.mod_name@, self.dependency_count as nat));
        out
    }
}

} // verus!
