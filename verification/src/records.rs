//! Mods as the catalog sends them, with versions and dependencies still
//! in text, and how they are taken in.

use vstd::prelude::*;
use crate::catalog::{dependency_views, release_views, Mod, ModView, Release, ReleaseView};
use crate::dependency::{parse_dependency, Dependency, DependencyView};
use crate::version::{parse_version, ParseError, Version};

verus! {

/// A release as the catalog describes it.
#[derive(Debug)]
pub struct ReleaseRecord {
    pub download_url: String,
    pub file_name: String,
    pub version: String,
    pub factorio_version: String,
    pub sha1: String,
    pub dependencies: Vec<String>,
}

/// A mod as the catalog describes it.
#[derive(Debug)]
pub struct ModRecord {
    pub name: String,
    pub title: String,
    pub summary: String,
    pub downloads_count: u64,
    pub releases: Vec<ReleaseRecord>,
}

/// The texts that a sequence of strings holds.
pub open spec fn text_views(texts: Seq<String>) -> Seq<Seq<char>> {
    texts.map_values(|t: String| t@)
}

/// The dependencies that the declarations `texts` make, in their order.
/// A declaration that does not fit the grammar makes none, and takes
/// nothing from the others.
pub open spec fn declared_dependencies(texts: Seq<Seq<char>>) -> Seq<DependencyView>
    decreases texts.len(),
{
    if texts.len() == 0 {
        Seq::empty()
    } else {
        let before = declared_dependencies(texts.drop_last());
        match parse_dependency(texts.last()) {
            Some(d) => before.push(d),
            None => before,
        }
    }
}

/// The dependencies of two lists of declarations, one behind the other,
/// are those of the first list followed by those of the second.
pub proof fn lemma_declared_dependencies_join(a: Seq<Seq<char>>, b: Seq<Seq<char>>)
    ensures
        declared_dependencies(a + b) == declared_dependencies(a) + declared_dependencies(b),
    decreases b.len(),
{
    if b.len() == 0 {
        assert(a + b =~= a);
        assert(declared_dependencies(a) + declared_dependencies(b) =~= declared_dependencies(a));
    } else {
        lemma_declared_dependencies_join(a, b.drop_last());
        assert((a + b).drop_last() =~= a + b.drop_last());
        assert((a + b).last() == b.last());
        match parse_dependency(b.last()) {
            Some(d) => {
                assert((declared_dependencies(a) + declared_dependencies(b.drop_last())).push(d)
                    =~= declared_dependencies(a) + declared_dependencies(b.drop_last()).push(d));
            },
            None => {},
        }
    }
}

/// A declaration that does not fit the grammar can be struck from a list
/// without any change to the dependencies that the list makes.
pub proof fn lemma_malformed_declaration_is_skipped(
    a: Seq<Seq<char>>,
    bad: Seq<char>,
    b: Seq<Seq<char>>,
)
    requires
        parse_dependency(bad) is None,
    ensures
        declared_dependencies(a + seq![bad] + b) == declared_dependencies(a + b),
{
    lemma_declared_dependencies_join(a + seq![bad], b);
    lemma_declared_dependencies_join(a, seq![bad]);
    lemma_declared_dependencies_join(a, b);
    assert(seq![bad].drop_last() =~= Seq::<Seq<char>>::empty());
    assert(seq![bad].last() == bad);
    assert(declared_dependencies(Seq::<Seq<char>>::empty()) =~= Seq::<DependencyView>::empty());
    assert(declared_dependencies(seq![bad]) =~= Seq::<DependencyView>::empty());
    assert(declared_dependencies(a) + Seq::<DependencyView>::empty() =~= declared_dependencies(a));
}

/// Reads a list of dependency declarations. Declarations that do not fit
/// the grammar are left out.
pub fn parse_dependencies(texts: &Vec<String>) -> (r: Vec<Dependency>)
    ensures
        dependency_views(r@) == declared_dependencies(text_views(texts@)),
{
    let ghost all = text_views(texts@);
    let mut out: Vec<Dependency> = Vec::new();
    let mut i: usize = 0;
    assert(all.take(0) =~= Seq::<Seq<char>>::empty());
    assert(dependency_views(out@) =~= Seq::<DependencyView>::empty());
    while i < texts.len()
        invariant
            i <= texts.len(),
            all == text_views(texts@),
            dependency_views(out@) == declared_dependencies(all.take(i as int)),
        decreases texts.len() - i,
    {
        let ghost before = dependency_views(out@);
        proof {
            assert(all.take(i + 1).drop_last() =~= all.take(i as int));
            assert(all.take(i + 1).last() == texts@[i as int]@);
        }
        match Dependency::parse(texts[i].as_str()) {
            Ok(d) => {
                let ghost dv = d@;
                out.push(d);
                assert(dependency_views(out@) =~= before.push(dv));
            },
            Err(_) => {},
        }
        i = i + 1;
    }
    assert(all.take(i as int) =~= all);
    out
}

/// The release that the record `r` describes, if its version can be
/// read.
pub open spec fn release_of(r: ReleaseRecord) -> Result<ReleaseView, ParseError> {
    match parse_version(r.version@) {
        Ok(version) => Ok(
            ReleaseView {
                download_url: r.download_url@,
                file_name: r.file_name@,
                version,
                factorio_version: r.factorio_version@,
                sha1: r.sha1@,
                dependencies: declared_dependencies(text_views(r.dependencies@)),
            },
        ),
        Err(e) => Err(e),
    }
}

/// The releases that the records `records` describe, in their order.
/// A record whose version cannot be read describes none.
pub open spec fn releases_of(records: Seq<ReleaseRecord>) -> Seq<ReleaseView>
    decreases records.len(),
{
    if records.len() == 0 {
        Seq::empty()
    } else {
        let before = releases_of(records.drop_last());
        match release_of(records.last()) {
            Ok(r) => before.push(r),
            Err(_) => before,
        }
    }
}

impl Release {
    /// Takes in a release as the catalog describes it. The version is
    /// read as [`Version::parse`] reads it, and the release is refused
    /// with that function's error where the version cannot be read.
    /// Dependency declarations that do not fit the grammar are left out.
    pub fn from_record(record: &ReleaseRecord) -> (r: Result<Release, ParseError>)
        ensures
            match release_of(*record) {
                Ok(view) => r matches Ok(release) && release@ == view,
                Err(e) => r == Err::<Release, ParseError>(e),
            },
    {
        match Version::parse(record.version.as_str()) {
            Ok(version) => Ok(
                Release {
                    download_url: record.download_url.clone(),
                    file_name: record.file_name.clone(),
                    version,
                    factorio_version: record.factorio_version.clone(),
                    sha1: record.sha1.clone(),
                    dependencies: parse_dependencies(&record.dependencies),
                },
            ),
            Err(e) => Err(e),
        }
    }
}

impl Mod {
    /// Takes in a mod as the catalog describes it. Releases whose version
    /// cannot be read are left out.
    pub fn from_record(record: &ModRecord) -> (r: Mod)
        ensures
            r@ == (ModView {
                name: record.name@,
                title: record.title@,
                summary: record.summary@,
                downloads_count: record.downloads_count,
                releases: releases_of(record.releases@),
            }),
    {
        let mut releases: Vec<Release> = Vec::new();
        let mut i: usize = 0;
        assert(record.releases@.take(0) =~= Seq::<ReleaseRecord>::empty());
        assert(release_views(releases@) =~= Seq::<ReleaseView>::empty());
        while i < record.releases.len()
            invariant
                i <= record.releases.len(),
                release_views(releases@) == releases_of(record.releases@.take(i as int)),
            decreases record.releases.len() - i,
        {
            let ghost before = release_views(releases@);
            proof {
                assert(record.releases@.take(i + 1).drop_last() =~= record.releases@.take(
                    i as int,
                ));
                assert(record.releases@.take(i + 1).last() == record.releases@[i as int]);
            }
            match Release::from_record(&record.releases[i]) {
                Ok(release) => {
                    let ghost rv = release@;
                    releases.push(release);
                    assert(release_views(releases@) =~= before.push(rv));
                },
                Err(_) => {},
            }
            i = i + 1;
        }
        assert(record.releases@.take(i as int) =~= record.releases@);
        Mod {
            name: record.name.clone(),
            title: record.title.clone(),
            summary: record.summary.clone(),
            downloads_count: record.downloads_count,
            releases,
        }
    }
}

} // verus!
