use fml::catalog::{Mod, Release};
use fml::constraint::{CompareOp, VersionConstraint};
use fml::dependency::Dependency;
use fml::installed::InstalledState;
use fml::registry::Registry;
use fml::resolver::{resolve, resolve_with, start, ModSource, Progress, ResolveError, ResolveResult};
use std::collections::HashMap;
use fml::version::Version;

fn make_mod(name: &str, deps: Vec<&str>, version: &str, factorio_ver: &str) -> Mod {
    let dependencies: Vec<Dependency> =
        deps.iter().filter_map(|d| d.parse::<Dependency>().ok()).collect();
    Mod {
        name: name.to_string(),
        title: name.to_string(),
        summary: String::new(),
        downloads_count: 0,
        releases: vec![Release {
            download_url: format!("/download/{}", name),
            file_name: format!("{}_{}.zip", name, version),
            version: Version::parse(version).unwrap(),
            factorio_version: factorio_ver.to_string(),
            sha1: String::new(),
            dependencies,
        }],
    }
}

fn make_registry(mods: Vec<Mod>) -> Registry {
    let mut registry = Registry::new();
    for m in mods {
        registry.add_mod(m);
    }
    registry
}

fn run_resolve(
    mod_name: &str,
    registry: &Registry,
    installed: &InstalledState,
) -> Result<ResolveResult, ResolveError> {
    resolve(mod_name, "1.1", installed, registry)
}

fn names(result: &ResolveResult) -> Vec<&str> {
    result.to_download.iter().map(|(n, _)| n.as_str()).collect()
}

#[test]
fn base_is_skipped() {
    let registry = make_registry(vec![]);
    let installed = InstalledState::new();
    let result = run_resolve("base", &registry, &installed).unwrap();
    assert!(result.to_download.is_empty());
}

#[test]
fn cycle_detection() {
    let registry = make_registry(vec![
        make_mod("mod-a", vec!["mod-b"], "1.0.0", "1.1"),
        make_mod("mod-b", vec!["mod-a"], "1.0.0", "1.1"),
    ]);
    let installed = InstalledState::new();
    let result = run_resolve("mod-a", &registry, &installed).unwrap();
    assert_eq!(result.to_download.len(), 2);
    assert_eq!(result.to_download[0].0, "mod-b");
    assert_eq!(result.to_download[1].0, "mod-a");
}

#[test]
fn incompatible_blocks_install() {
    let registry = make_registry(vec![make_mod("mod-a", vec!["! bad-mod"], "1.0.0", "1.1")]);
    let mut installed = InstalledState::new();
    installed.insert("bad-mod", Version::new(1, 0, 0));

    let result = run_resolve("mod-a", &registry, &installed);
    assert!(result.is_err());
    let err = result.unwrap_err().message();
    assert!(err.contains("incompatible"));
    assert!(err.contains("bad-mod"));
}

#[test]
fn already_installed_is_skipped() {
    let registry = make_registry(vec![make_mod("mod-a", vec!["mod-b >= 1.0.0"], "1.0.0", "1.1")]);
    let mut installed = InstalledState::new();
    installed.insert("mod-b", Version::new(1, 2, 0));

    let result = run_resolve("mod-a", &registry, &installed).unwrap();
    assert_eq!(result.to_download.len(), 1);
    assert_eq!(result.to_download[0].0, "mod-a");
}

#[test]
fn installed_version_mismatch_errors() {
    let registry = make_registry(vec![make_mod("mod-a", vec!["mod-b >= 2.0.0"], "1.0.0", "1.1")]);
    let mut installed = InstalledState::new();
    installed.insert("mod-b", Version::new(1, 0, 0));

    let result = run_resolve("mod-a", &registry, &installed);
    assert!(result.is_err());
    let err = result.unwrap_err().message();
    assert!(err.contains("does not satisfy"));
}

#[test]
fn version_constraints_respected() {
    let mut mod_b = make_mod("mod-b", vec![], "1.0.0", "1.1");
    mod_b.releases.push(Release {
        download_url: "/download/mod-b".to_string(),
        file_name: "mod-b_2.0.0.zip".to_string(),
        version: Version::new(2, 0, 0),
        factorio_version: "2.0".to_string(),
        sha1: String::new(),
        dependencies: vec![],
    });

    let registry = make_registry(vec![
        make_mod("mod-a", vec!["mod-b >= 2.0.0"], "1.0.0", "1.1"),
        mod_b,
    ]);
    let installed = InstalledState::new();

    let result = run_resolve("mod-a", &registry, &installed);
    assert!(result.is_err());
    let err = result.unwrap_err().message();
    assert!(err.contains("No compatible release"));
}

#[test]
fn optional_deps_not_downloaded() {
    let registry = make_registry(vec![make_mod(
        "mod-a",
        vec!["? optional-mod", "(?) hidden-mod"],
        "1.0.0",
        "1.1",
    )]);
    let installed = InstalledState::new();

    let result = run_resolve("mod-a", &registry, &installed).unwrap();
    assert_eq!(result.to_download.len(), 1);
    assert_eq!(result.to_download[0].0, "mod-a");
}

#[test]
fn dependency_first_order() {
    let registry = make_registry(vec![
        make_mod("mod-a", vec!["mod-b", "mod-c"], "1.0.0", "1.1"),
        make_mod("mod-b", vec!["mod-c"], "1.0.0", "1.1"),
        make_mod("mod-c", vec![], "1.0.0", "1.1"),
    ]);
    let installed = InstalledState::new();

    let result = run_resolve("mod-a", &registry, &installed).unwrap();
    assert_eq!(names(&result), vec!["mod-c", "mod-b", "mod-a"]);
    assert!(!result.has_cycle);
}

#[test]
fn cycle_is_flagged() {
    let registry = make_registry(vec![
        make_mod("mod-a", vec!["mod-b"], "1.0.0", "1.1"),
        make_mod("mod-b", vec!["mod-a"], "1.0.0", "1.1"),
    ]);
    let result = run_resolve("mod-a", &registry, &InstalledState::new()).unwrap();
    assert!(result.has_cycle);
}

#[test]
fn self_dependency_is_a_cycle() {
    let registry = make_registry(vec![make_mod("mod-a", vec!["mod-a"], "1.0.0", "1.1")]);
    let result = run_resolve("mod-a", &registry, &InstalledState::new()).unwrap();
    assert_eq!(names(&result), vec!["mod-a"]);
    assert!(result.has_cycle);
}

#[test]
fn diamond_is_planned_once_and_is_no_cycle() {
    let registry = make_registry(vec![
        make_mod("top", vec!["left", "right"], "1.0.0", "1.1"),
        make_mod("left", vec!["bottom"], "1.0.0", "1.1"),
        make_mod("right", vec!["bottom"], "1.0.0", "1.1"),
        make_mod("bottom", vec!["base >= 1.1.0"], "1.0.0", "1.1"),
    ]);
    let result = run_resolve("top", &registry, &InstalledState::new()).unwrap();
    assert_eq!(names(&result), vec!["bottom", "left", "right", "top"]);
    assert!(!result.has_cycle);
}

#[test]
fn base_never_appears_in_a_plan() {
    let registry = make_registry(vec![make_mod("mod-a", vec!["base", "~ base >= 1.0.0"], "1.0.0", "1.1")]);
    let result = run_resolve("mod-a", &registry, &InstalledState::new()).unwrap();
    assert_eq!(names(&result), vec!["mod-a"]);
}

#[test]
fn installed_target_needs_nothing() {
    let registry = make_registry(vec![make_mod("mod-a", vec!["mod-b"], "1.0.0", "1.1")]);
    let mut installed = InstalledState::new();
    installed.insert("mod-a", Version::new(0, 1, 0));
    let result = run_resolve("mod-a", &registry, &installed).unwrap();
    assert!(result.to_download.is_empty());
}

#[test]
fn version_conflict_names_mod_and_versions() {
    let registry = make_registry(vec![make_mod("mod-a", vec!["mod-b >= 2.0.0"], "1.0.0", "1.1")]);
    let mut installed = InstalledState::new();
    installed.insert("mod-b", Version::new(1, 0, 0));
    match run_resolve("mod-a", &registry, &installed) {
        Err(ResolveError::VersionConflict { name, installed_version, required }) => {
            assert_eq!(name, "mod-b");
            assert_eq!(installed_version, Version::new(1, 0, 0));
            assert_eq!(
                required,
                VersionConstraint::Bound { op: CompareOp::GreaterEq, version: Version::new(2, 0, 0) }
            );
        }
        other => panic!("unexpected outcome: {:?}", other.map(|r| r.to_download.len())),
    }
}

#[test]
fn version_conflict_message_is_exact() {
    let e = ResolveError::VersionConflict {
        name: "mod-b".to_string(),
        installed_version: Version::new(1, 0, 0),
        required: VersionConstraint::Bound { op: CompareOp::GreaterEq, version: Version::new(2, 0, 0) },
    };
    assert_eq!(
        e.message(),
        "Installed version 1.0.0 of mod 'mod-b' does not satisfy required >=2.0.0. Remove it first and retry."
    );
}

#[test]
fn missing_mod_fails_with_context() {
    let registry = make_registry(vec![make_mod("mod-a", vec!["mod-b"], "1.0.0", "1.1")]);
    match run_resolve("mod-a", &registry, &InstalledState::new()) {
        Err(ResolveError::CatalogFetchFailed { name, root, cause }) => {
            assert_eq!(name, "mod-b");
            assert_eq!(root, "mod-a");
            assert_eq!(cause, "Mod 'mod-b' not found");
        }
        other => panic!("unexpected outcome: {:?}", other.map(|r| r.to_download.len())),
    }
    let e = ResolveError::CatalogFetchFailed {
        name: "mod-b".to_string(),
        root: "mod-a".to_string(),
        cause: "timeout".to_string(),
    };
    assert_eq!(e.message(), "Failed to fetch dependency 'mod-b' (needed by 'mod-a'): timeout");
}

#[test]
fn no_release_for_platform_is_no_compatible_release() {
    let registry = make_registry(vec![make_mod("mod-a", vec![], "1.0.0", "2.0")]);
    match run_resolve("mod-a", &registry, &InstalledState::new()) {
        Err(ResolveError::NoCompatibleRelease { name, platform_version, required }) => {
            assert_eq!(name, "mod-a");
            assert_eq!(platform_version, "1.1");
            assert_eq!(required, VersionConstraint::Any);
        }
        other => panic!("unexpected outcome: {:?}", other.map(|r| r.to_download.len())),
    }
    let mut empty = make_mod("mod-e", vec![], "1.0.0", "1.1");
    empty.releases.clear();
    let registry = make_registry(vec![empty]);
    let e = run_resolve("mod-e", &registry, &InstalledState::new()).unwrap_err();
    assert_eq!(
        e.message(),
        "No compatible release found for mod 'mod-e' (need Factorio version 1.1, version *)"
    );
}

#[test]
fn incompatible_with_planned_mod_fails() {
    let registry = make_registry(vec![
        make_mod("mod-a", vec!["mod-b", "mod-c"], "1.0.0", "1.1"),
        make_mod("mod-b", vec![], "1.0.0", "1.1"),
        make_mod("mod-c", vec!["! mod-b"], "1.0.0", "1.1"),
    ]);
    match run_resolve("mod-a", &registry, &InstalledState::new()) {
        Err(ResolveError::IncompatibleMod { name, other }) => {
            assert_eq!(name, "mod-c");
            assert_eq!(other, "mod-b");
        }
        other => panic!("unexpected outcome: {:?}", other.map(|r| r.to_download.len())),
    }
    let e = ResolveError::IncompatibleMod { name: "mod-c".to_string(), other: "mod-b".to_string() };
    assert_eq!(e.message(), "Cannot install 'mod-c': it is incompatible with mod 'mod-b'");
}

#[test]
fn incompatible_stops_before_later_dependencies_are_fetched() {
    let registry = make_registry(vec![make_mod(
        "mod-a",
        vec!["! bad-mod", "never-fetched"],
        "1.0.0",
        "1.1",
    )]);
    let mut installed = InstalledState::new();
    installed.insert("bad-mod", Version::new(1, 0, 0));
    match run_resolve("mod-a", &registry, &installed) {
        Err(ResolveError::IncompatibleMod { name, other }) => {
            assert_eq!(name, "mod-a");
            assert_eq!(other, "bad-mod");
        }
        other => panic!("unexpected outcome: {:?}", other.map(|r| r.to_download.len())),
    }
}

#[test]
fn newest_matching_release_is_chosen() {
    let mut mod_a = make_mod("mod-a", vec![], "1.0.0", "1.1");
    for (version, platform) in [("1.5.0", "1.1"), ("3.0.0", "2.0"), ("1.2.0", "1.1")] {
        mod_a.releases.push(Release {
            download_url: "/download/mod-a".to_string(),
            file_name: format!("mod-a_{}.zip", version),
            version: Version::parse(version).unwrap(),
            factorio_version: platform.to_string(),
            sha1: String::new(),
            dependencies: vec![],
        });
    }
    let registry = make_registry(vec![mod_a, make_mod("top", vec!["mod-a < 1.5.0"], "1.0.0", "1.1")]);
    let result = run_resolve("mod-a", &registry, &InstalledState::new()).unwrap();
    assert_eq!(result.to_download[0].1.version, Version::new(1, 5, 0));
    let result = run_resolve("top", &registry, &InstalledState::new()).unwrap();
    assert_eq!(names(&result), vec!["mod-a", "top"]);
    assert_eq!(result.to_download[0].1.version, Version::new(1, 2, 0));
}

#[test]
fn resolving_twice_gives_the_same_plan() {
    let registry = make_registry(vec![
        make_mod("mod-a", vec!["mod-b", "mod-c"], "1.0.0", "1.1"),
        make_mod("mod-b", vec!["mod-c"], "1.0.0", "1.1"),
        make_mod("mod-c", vec![], "1.0.0", "1.1"),
    ]);
    let first = run_resolve("mod-a", &registry, &InstalledState::new()).unwrap();
    let second = run_resolve("mod-a", &registry, &InstalledState::new()).unwrap();
    assert_eq!(names(&first), names(&second));
}

#[test]
fn stepwise_resolution_asks_for_required_mods_only() {
    let mod_a = make_mod("mod-a", vec!["? opt", "mod-b", "(?) hidden"], "1.0.0", "1.1");
    let mod_b = make_mod("mod-b", vec![], "1.0.0", "1.1");
    let mut asked: Vec<String> = Vec::new();
    let mut progress = start("mod-a", "1.1", InstalledState::new());
    let result = loop {
        match progress {
            Progress::Fetch(pending) => {
                let name = pending.name().to_string();
                asked.push(name.clone());
                let answer = match name.as_str() {
                    "mod-a" => Ok(mod_a.clone()),
                    "mod-b" => Ok(mod_b.clone()),
                    _ => Err("unknown".to_string()),
                };
                progress = pending.supply(answer);
            }
            Progress::Finished(result) => break result,
            Progress::Failed(e) => panic!("failed: {}", e.message()),
        }
    };
    assert_eq!(asked, vec!["mod-a", "mod-b"]);
    assert_eq!(names(&result), vec!["mod-b", "mod-a"]);
}

#[test]
fn stepwise_resolution_reports_failed_fetch() {
    let progress = start("mod-a", "1.1", InstalledState::new());
    let pending = match progress {
        Progress::Fetch(p) => p,
        _ => panic!("a fetch was expected"),
    };
    assert_eq!(pending.name(), "mod-a");
    match pending.supply(Err("HTTP 404".to_string())) {
        Progress::Failed(ResolveError::CatalogFetchFailed { name, root, cause }) => {
            assert_eq!(name, "mod-a");
            assert_eq!(root, "mod-a");
            assert_eq!(cause, "HTTP 404");
        }
        _ => panic!("a failure was expected"),
    }
}

struct MapSource {
    mods: HashMap<String, Mod>,
    asked: Vec<String>,
}

impl MapSource {
    fn new(mods: Vec<Mod>) -> MapSource {
        MapSource { mods: mods.into_iter().map(|m| (m.name.clone(), m)).collect(), asked: Vec::new() }
    }
}

impl ModSource for MapSource {
    fn fetch(&mut self, name: &str) -> Result<Mod, String> {
        self.asked.push(name.to_string());
        self.mods.get(name).cloned().ok_or_else(|| format!("Mod '{}' not found", name))
    }
}

#[test]
fn injected_source_is_asked_once_per_mod_and_never_for_optional_ones() {
    let mut source = MapSource::new(vec![
        make_mod("mod-a", vec!["mod-b", "? opt", "mod-c", "(?) hid", "! other", "base"], "1.0.0", "1.1"),
        make_mod("mod-b", vec!["mod-c", "mod-a"], "1.0.0", "1.1"),
        make_mod("mod-c", vec!["mod-b", "installed-one >= 1.0.0"], "1.0.0", "1.1"),
        make_mod("opt", vec![], "1.0.0", "1.1"),
        make_mod("hid", vec![], "1.0.0", "1.1"),
        make_mod("other", vec![], "1.0.0", "1.1"),
        make_mod("installed-one", vec![], "9.0.0", "1.1"),
    ]);
    let mut installed = InstalledState::new();
    installed.insert("installed-one", Version::new(1, 0, 0));
    let result = resolve_with("mod-a", "1.1", &installed, &mut source).unwrap();
    assert_eq!(names(&result), vec!["mod-c", "mod-b", "mod-a"]);
    assert_eq!(source.asked, vec!["mod-a", "mod-b", "mod-c"]);
    assert!(result.has_cycle);
}

#[test]
fn injected_source_failure_names_dependency_and_root() {
    let mut source = MapSource::new(vec![
        make_mod("mod-a", vec!["mod-b"], "1.0.0", "1.1"),
        make_mod("mod-b", vec!["mod-c"], "1.0.0", "1.1"),
    ]);
    let e = resolve_with("mod-a", "1.1", &InstalledState::new(), &mut source).unwrap_err();
    assert_eq!(
        e.message(),
        "Failed to fetch dependency 'mod-c' (needed by 'mod-a'): Mod 'mod-c' not found"
    );
    assert_eq!(source.asked, vec!["mod-a", "mod-b", "mod-c"]);
}

#[test]
fn injected_source_is_not_asked_for_the_game_or_installed_mods() {
    let mut source = MapSource::new(vec![]);
    let mut installed = InstalledState::new();
    installed.insert("mod-a", Version::new(1, 0, 0));
    assert!(resolve_with("base", "1.1", &installed, &mut source).unwrap().to_download.is_empty());
    assert!(resolve_with("mod-a", "1.1", &installed, &mut source).unwrap().to_download.is_empty());
    assert!(source.asked.is_empty());
}

#[test]
fn registry_is_a_source_too() {
    let mut registry = make_registry(vec![
        make_mod("mod-a", vec!["mod-b"], "1.0.0", "1.1"),
        make_mod("mod-b", vec![], "1.0.0", "1.1"),
    ]);
    let by_source = resolve_with("mod-a", "1.1", &InstalledState::new(), &mut registry).unwrap();
    let direct = resolve("mod-a", "1.1", &InstalledState::new(), &registry).unwrap();
    assert_eq!(names(&by_source), names(&direct));
    assert_eq!(names(&direct), vec!["mod-b", "mod-a"]);
}
