//! The queue of downloads: what is asked of it, what it shows of the
//! download that is under way, and what each download asks for in turn.

use vstd::prelude::*;
use vstd::string::{StrSliceExecFns, StringExecFns};
use crate::catalog::{best_release, Mod, Release};
use crate::constraint::VersionConstraint;
use crate::dependency::{DependencyType, DependencyView};
use crate::resolver::model::base_name;

verus! {

/// A download that is asked for.
#[derive(Debug)]
pub struct ModDownloadRequest {
    pub mod_name: String,
    pub ver_req: VersionConstraint,
    pub username: String,
    pub token: String,
    pub mod_dir: String,
}

/// A request as contracts speak of it.
pub struct RequestView {
    pub mod_name: Seq<char>,
    pub ver_req: VersionConstraint,
    pub username: Seq<char>,
    pub token: Seq<char>,
    pub mod_dir: Seq<char>,
}

impl View for ModDownloadRequest {
    type V = RequestView;

    open spec fn view(&self) -> RequestView {
        RequestView {
            mod_name: self.mod_name@,
            ver_req: self.ver_req,
            username: self.username@,
            token: self.token@,
            mod_dir: self.mod_dir@,
        }
    }
}

/// What is shown of the download that is under way.
#[derive(Debug)]
pub struct ModDownloader {
    /// How far the download has come, in hundredths.
    pub download_perc: u16,
    /// The title of the mod that is being downloaded; empty where none
    /// is.
    pub currently_downloading: String,
}

/// The views of a sequence of requests.
pub open spec fn request_views(requests: Seq<ModDownloadRequest>) -> Seq<RequestView> {
    requests.map_values(|r: ModDownloadRequest| r@)
}

/// The requests that the dependencies `deps` give rise to when they are
/// met while `request` is served: one for each required dependency, in
/// order, with the credentials and the directory of `request`.
pub open spec fn requests_for(deps: Seq<DependencyView>, request: RequestView) -> Seq<RequestView>
    decreases deps.len(),
{
    if deps.len() == 0 {
        Seq::empty()
    } else {
        let before = requests_for(deps.drop_last(), request);
        if deps.last().dep_type == DependencyType::Required {
            before.push(
                RequestView {
                    mod_name: deps.last().name,
                    ver_req: deps.last().version_req,
                    ..request
                },
            )
        } else {
            before
        }
    }
}

/// Whether a request is served at all: the game itself is asked for by
/// every mod and is never downloaded.
pub fn is_downloadable(request: &ModDownloadRequest) -> (r: bool)
    ensures
        r == (request@.mod_name != base_name()),
{
    proof {
        reveal_strlit("base");
        assert("base"@ =~= base_name());
    }
    let base = String::from_str("base");
    request.mod_name != base
}

/// The release to download for `request`: the newest release of `m`
/// whose version satisfies the request, whatever game version it is for.
pub fn release_for(m: &Mod, request: &ModDownloadRequest) -> (r: Option<Release>)
    ensures
        match best_release(m@.releases, None, request@.ver_req) {
            Some(i) => r matches Some(release) && release@ == m@.releases[i],
            None => r is None,
        },
{
    m.find_matching_release(&request.ver_req)
}

/// The requests to put on the queue once `release` is downloaded for
/// `request`: one for each mod that the release requires.
pub fn follow_up_requests(release: &Release, request: &ModDownloadRequest) -> (r: Vec<
    ModDownloadRequest,
>)
    ensures
        request_views(r@) == requests_for(release@.dependencies, request@),
{
    let ghost deps = release@.dependencies;
    let mut out: Vec<ModDownloadRequest> = Vec::new();
    let mut i: usize = 0;
    assert(deps.take(0) =~= Seq::<DependencyView>::empty());
    assert(request_views(out@) =~= Seq::<RequestView>::empty());
    while i < release.dependencies.len()
        invariant
            i <= release.dependencies.len(),
            deps == release@.dependencies,
            deps.len() == release.dependencies.len(),
            request_views(out@) == requests_for(deps.take(i as int), request@),
        decreases release.dependencies.len() - i,
    {
        let ghost before = request_views(out@);
        proof {
            assert(deps.take(i + 1).drop_last() =~= deps.take(i as int));
            assert(deps.take(i + 1).last() == release.dependencies@[i as int]@);
        }
        let dep = &release.dependencies[i];
        if dep.dep_type == DependencyType::Required {
            let next = ModDownloadRequest {
                mod_name: dep.name.clone(),
                ver_req: dep.version_req,
                username: request.username.clone(),
                token: request.token.clone(),
                mod_dir: request.mod_dir.clone(),
            };
            let ghost nv = next@;
            out.push(next);
            assert(request_views(out@) =~= before.push(nv));
        }
        i = i + 1;
    }
    assert(deps.take(i as int) =~= deps);
    out
}

impl ModDownloader {
    /// The state in which nothing is downloaded.
    pub fn new() -> (r: ModDownloader)
        ensures
            r.download_perc == 0,
            r.currently_downloading@.len() == 0,
    {
        ModDownloader { download_perc: 0, currently_downloading: String::new() }
    }

    /// Notes that the queue has been quiet for a while: nothing is shown
    /// as being downloaded any more.
    pub fn on_quiet(&mut self)
        ensures
            final(self).download_perc == 0,
            final(self).currently_downloading@.len() == 0,
    {
        self.download_perc = 0;
        self.currently_downloading = String::new();
    }

    /// Notes that the download of the mod with the title `title` begins.
    pub fn on_begin(&mut self, title: &str)
        ensures
            final(self).download_perc == 0,
            final(self).currently_downloading@ == title@,
    {
        self.download_perc = 0;
        self.currently_downloading = String::from_str(title);
    }

    /// Notes how far the download has come.
    pub fn on_progress(&mut self, percent: u16)
        ensures
            final(self).download_perc == percent,
            final(self).currently_downloading == old(self).currently_downloading,
    {
        self.download_perc = percent;
    }

    /// What the progress bar is to show: how far the download has come
    /// and the title of the mod, or `None` where nothing is downloaded.
    pub fn generate_gauge(&self) -> (r: Option<(u16, String)>)
        ensures
            self.currently_downloading@.len() == 0 ==> r is None,
            self.currently_downloading@.len() > 0 ==> (r matches Some(g) && g.0
                == self.download_perc && g.1@ == self.currently_downloading@),
    {
        if self.currently_downloading.as_str().unicode_len() == 0 {
            None
        } else {
            Some((self.download_perc, self.currently_downloading.clone()))
        }
    }
}

} // verus!
