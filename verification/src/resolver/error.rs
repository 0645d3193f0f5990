//! The ways in which a resolution fails, and what each tells the user.

use vstd::prelude::*;
use vstd::string::StringExecFns;
use crate::constraint::VersionConstraint;
use crate::resolver::model::ResolveErrorView;
use crate::version::Version;

verus! {

/// Why a resolution failed.
#[derive(Debug)]
pub enum ResolveError {
    /// The mod `name` is installed in a version that does not satisfy
    /// what another mod requires of it.
    VersionConflict { name: String, installed_version: Version, required: VersionConstraint },
    /// The mod `name` has no release for the game version that satisfies
    /// what is required of it.
    NoCompatibleRelease { name: String, platform_version: String, required: VersionConstraint },
    /// The mod `name` cannot stand beside the mod `other`, which is
    /// installed or planned.
    IncompatibleMod { name: String, other: String },
    /// The catalog could not give the details of the mod `name`, which
    /// the installation of `root` needs.
    CatalogFetchFailed { name: String, root: String, cause: String },
}

impl View for ResolveError {
    type V = ResolveErrorView;

    open spec fn view(&self) -> ResolveErrorView {
        match self {
            ResolveError::VersionConflict {
                name,
                installed_version,
                required,
            } => ResolveErrorView::VersionConflict {
                name: name@,
                installed_version: *installed_version,
                required: *required,
            },
            ResolveError::NoCompatibleRelease {
                name,
                platform_version,
                required,
            } => ResolveErrorView::NoCompatibleRelease {
                name: name@,
                platform_version: platform_version@,
                required: *required,
            },
            ResolveError::IncompatibleMod { name, other } => ResolveErrorView::IncompatibleMod {
                name: name@,
                other: other@,
            },
            ResolveError::CatalogFetchFailed {
                name,
                root,
                cause,
            } => ResolveErrorView::CatalogFetchFailed { name: name@, root: root@, cause: cause@ },
        }
    }
}

/// What the error `e` tells the user.
pub open spec fn message_of(e: ResolveErrorView) -> Seq<char> {
    match e {
        ResolveErrorView::VersionConflict { name, installed_version, required } => {
            "Installed version "@ + installed_version.spec_text() + " of mod '"@ + name
                + "' does not satisfy required "@ + required.spec_text()
                + ". Remove it first and retry."@
        },
        ResolveErrorView::NoCompatibleRelease { name, platform_version, required } => {
            "No compatible release found for mod '"@ + name + "' (need Factorio version "@
                + platform_version + ", version "@ + required.spec_text() + ")"@
        },
        ResolveErrorView::IncompatibleMod { name, other } => {
            "Cannot install '"@ + name + "': it is incompatible with mod '"@ + other + "'"@
        },
        ResolveErrorView::CatalogFetchFailed { name, root, cause } => {
            "Failed to fetch dependency '"@ + name + "' (needed by '"@ + root + "'): "@ + cause
        },
    }
}

impl ResolveError {
    /// What the error tells the user.
    pub fn message(&self) -> (r: String)
        ensures
            r@ == message_of(self@),
    {
        match self {
            ResolveError::VersionConflict { name, installed_version, required } => {
                let v = installed_version.to_text();
                let c = required.to_text();
                let mut out = String::from_str("Installed version ");
                out.append(v.as_str());
                out.append(" of mod '");
                out.append(name.as_str());
                out.append("' does not satisfy required ");
                out.append(c.as_str());
                out.append(". Remove it first and retry.");
                assert(out@ =~= message_of(self@));
                out
            },
            ResolveError::NoCompatibleRelease { name, platform_version, required } => {
                let c = required.to_text();
                let mut out = String::from_str("No compatible release found for mod '");
                out.append(name.as_str());
                out.append("' (need Factorio version ");
                out.append(platform_version.as_str());
                out.append(", version ");
                out.append(c.as_str());
                out.append(")");
                assert(out@ =~= message_of(self@));
                out
            },
            ResolveError::IncompatibleMod { name, other } => {
                let mut out = String::from_str("Cannot install '");
                out.append(name.as_str());
                out.append("': it is incompatible with mod '");
                out.append(other.as_str());
                out.append("'");
                assert(out@ =~= message_of(self@));
                out
            },
            ResolveError::CatalogFetchFailed { name, root, cause } => {
                let mut out = String::from_str("Failed to fetch dependency '");
                out.append(name.as_str());
                out.append("' (needed by '");
                out.append(root.as_str());
                out.append("'): ");
                out.append(cause.as_str());
                assert(out@ =~= message_of(self@));
                out
            },
        }
    }
}

} // verus!
