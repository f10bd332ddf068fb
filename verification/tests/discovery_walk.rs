use tms::configs::{Config, ConfigError, SearchDirectory};
use tms::discovery::{DiscoveryEngine, ProbeOutcome, RepositoryKind, StepOutcome};
use tms::error::TmsError;
use tms::paths::short_name_of;
use tms::selection::sorted_names;
use tms::resolve::resolve_working_path;

fn dir(path: &str, depth: usize) -> SearchDirectory {
    SearchDirectory::new(path.to_string(), depth)
}

#[test]
fn short_name_is_last_component() {
    assert_eq!(short_name_of("/home/user/projects/alpha"), "alpha");
    assert_eq!(short_name_of("alpha"), "alpha");
    assert_eq!(short_name_of(""), "");
}

#[test]
fn repo_at_exact_depth_is_found() {
    // Root configured with depth 1; the repository sits one level below it.
    let mut e = DiscoveryEngine::new(vec![dir("/r", 1)]);
    let t = e.next_target().unwrap();
    assert_eq!(t.path, "/r");
    assert_eq!(t.depth, 1);
    e.step(ProbeOutcome::Directory(vec!["/r/repo".to_string()])).unwrap();
    let t = e.next_target().unwrap();
    assert_eq!(t.path, "/r/repo");
    assert_eq!(t.depth, 0);
    e.step(ProbeOutcome::Repository(RepositoryKind::Plain)).unwrap();
    assert!(e.next_target().is_none());
    let records = e.finish();
    assert_eq!(records.len(), 1);
    assert_eq!(records[0].short_name, "repo");
    assert_eq!(records[0].kind, RepositoryKind::Plain);
    assert_eq!(records[0].origin_path, "/r/repo");
}

#[test]
fn repo_one_level_too_deep_is_not_found() {
    // Root configured with depth 1; the repository sits two levels below, so
    // the walk stops one level short of it.
    let mut e = DiscoveryEngine::new(vec![dir("/r", 1)]);
    e.step(ProbeOutcome::Directory(vec!["/r/mid".to_string()])).unwrap();
    let t = e.next_target().unwrap();
    assert_eq!(t.depth, 0);
    // Depth is exhausted: the directory is only probed for the `.bare`
    // convention, never expanded towards /r/mid/repo.
    e.step(ProbeOutcome::BareRepository(None)).unwrap();
    assert!(e.next_target().is_none());
    assert!(e.finish().is_empty());
}

#[test]
fn bare_convention_recorded_under_parent_name() {
    // A genuine bare repository at /r/proj/.bare: recorded under "proj",
    // not under ".bare".
    let mut e = DiscoveryEngine::new(vec![dir("/r/proj", 0)]);
    e.step(ProbeOutcome::BareRepository(Some(RepositoryKind::Bare))).unwrap();
    let records = e.finish();
    assert_eq!(records.len(), 1);
    assert_eq!(records[0].short_name, "proj");
    assert_eq!(records[0].kind, RepositoryKind::Bare);
    assert_eq!(records[0].origin_path, "/r/proj/.bare");
}

#[test]
fn bare_convention_still_drops_satellites_and_submodules() {
    let mut e = DiscoveryEngine::new(vec![dir("/r/a", 0), dir("/r/b", 0)]);
    e.step(ProbeOutcome::BareRepository(Some(RepositoryKind::LinkedWorktree {
        is_linked: true,
    })))
    .unwrap();
    e.step(ProbeOutcome::BareRepository(Some(RepositoryKind::Submodule))).unwrap();
    assert!(e.finish().is_empty());
}

#[test]
fn linked_worktree_satellite_is_skipped() {
    let mut e = DiscoveryEngine::new(vec![dir("/r/sat", 0), dir("/r/prim", 0)]);
    e.step(ProbeOutcome::Repository(RepositoryKind::LinkedWorktree { is_linked: true }))
        .unwrap();
    e.step(ProbeOutcome::Repository(RepositoryKind::LinkedWorktree { is_linked: false }))
        .unwrap();
    let records = e.finish();
    assert_eq!(records.len(), 1);
    assert_eq!(records[0].short_name, "prim");
}

#[test]
fn bare_and_submodule_are_skipped() {
    let mut e = DiscoveryEngine::new(vec![dir("/r/a", 0), dir("/r/b", 0)]);
    e.step(ProbeOutcome::Repository(RepositoryKind::Bare)).unwrap();
    e.step(ProbeOutcome::Repository(RepositoryKind::Submodule)).unwrap();
    assert!(e.finish().is_empty());
}

#[test]
fn later_discovery_with_same_name_wins() {
    let mut e = DiscoveryEngine::new(vec![dir("/x/proj", 0), dir("/y/proj", 0)]);
    e.step(ProbeOutcome::Repository(RepositoryKind::Plain)).unwrap();
    e.step(ProbeOutcome::Repository(RepositoryKind::LinkedWorktree { is_linked: false }))
        .unwrap();
    let records = e.finish();
    assert_eq!(records.len(), 1);
    assert_eq!(records[0].short_name, "proj");
    assert_eq!(records[0].origin_path, "/y/proj");
    assert_eq!(
        records[0].kind,
        RepositoryKind::LinkedWorktree { is_linked: false }
    );
}

#[test]
fn permission_denied_skips_only_that_directory() {
    // roots [{"/r", depth 1}]; /r holds a plain repo /r/a, an empty directory
    // /r/b and a permission-denied directory /r/c.
    let mut e = DiscoveryEngine::new(vec![dir("/r", 1)]);
    e.step(ProbeOutcome::Directory(vec![
        "/r/a".to_string(),
        "/r/b".to_string(),
        "/r/c".to_string(),
    ]))
    .unwrap();
    assert_eq!(
        e.step(ProbeOutcome::Repository(RepositoryKind::Plain)).unwrap(),
        StepOutcome::Advanced
    );
    // /r/b is an empty directory at depth 0: only the `.bare` probe, no hit.
    assert_eq!(
        e.step(ProbeOutcome::BareRepository(None)).unwrap(),
        StepOutcome::Advanced
    );
    // /r/c at depth 0 also only gets the `.bare` probe; a denied directory
    // deeper in the walk is exercised below.
    assert_eq!(
        e.step(ProbeOutcome::BareRepository(None)).unwrap(),
        StepOutcome::Advanced
    );
    assert!(e.next_target().is_none());
    let records = e.finish();
    assert_eq!(records.len(), 1);
    assert_eq!(records[0].short_name, "a");
    assert_eq!(records[0].kind, RepositoryKind::Plain);
}

#[test]
fn permission_denied_does_not_stop_siblings() {
    let mut e = DiscoveryEngine::new(vec![dir("/r", 2)]);
    e.step(ProbeOutcome::Directory(vec![
        "/r/denied".to_string(),
        "/r/open".to_string(),
    ]))
    .unwrap();
    // Listing /r/denied is refused: a warning outcome, not an error.
    assert_eq!(
        e.step(ProbeOutcome::PermissionDenied).unwrap(),
        StepOutcome::PermissionSkipped
    );
    // The sibling is still visited and its repository found.
    e.step(ProbeOutcome::Directory(vec!["/r/open/repo".to_string()])).unwrap();
    e.step(ProbeOutcome::Repository(RepositoryKind::Plain)).unwrap();
    let records = e.finish();
    assert_eq!(records.len(), 1);
    assert_eq!(records[0].short_name, "repo");
}

#[test]
fn other_read_error_aborts_discovery() {
    let mut e = DiscoveryEngine::new(vec![dir("/r", 1)]);
    let r = e.step(ProbeOutcome::ReadError);
    assert!(matches!(r, Err(TmsError::IoError)));
}

#[test]
fn non_directory_is_silently_skipped() {
    let mut e = DiscoveryEngine::new(vec![dir("/r/file.txt", 3)]);
    assert_eq!(
        e.step(ProbeOutcome::NotDirectory).unwrap(),
        StepOutcome::Advanced
    );
    assert!(e.finish().is_empty());
}

#[test]
fn breadth_first_order_roots_before_children() {
    let mut e = DiscoveryEngine::new(vec![dir("/a", 1), dir("/b", 1)]);
    // Expanding /a queues its child behind the sibling root /b.
    e.step(ProbeOutcome::Directory(vec!["/a/x".to_string()])).unwrap();
    let t = e.next_target().unwrap();
    assert_eq!(t.path, "/b");
    e.step(ProbeOutcome::Directory(vec!["/b/y".to_string()])).unwrap();
    assert_eq!(e.next_target().unwrap().path, "/a/x");
    e.step(ProbeOutcome::Repository(RepositoryKind::Plain)).unwrap();
    assert_eq!(e.next_target().unwrap().path, "/b/y");
    e.step(ProbeOutcome::Repository(RepositoryKind::Plain)).unwrap();
    assert!(e.next_target().is_none());
}

#[test]
fn search_dirs_present_are_returned_in_order() {
    let config = Config {
        search_dirs: Some(vec![dir("~/work", 2), dir("~/play", 1)]),
    };
    let dirs = config.search_dirs().unwrap();
    assert_eq!(dirs.len(), 2);
    assert_eq!(dirs[0].path, "~/work");
    assert_eq!(dirs[0].depth, 2);
    assert_eq!(dirs[1].path, "~/play");
    assert_eq!(dirs[1].depth, 1);
}

#[test]
fn missing_search_dirs_is_a_configuration_error() {
    let none = Config { search_dirs: None };
    assert_eq!(none.search_dirs().unwrap_err(), ConfigError::NoDefaultSearchPath);
    let empty = Config { search_dirs: Some(vec![]) };
    assert_eq!(empty.search_dirs().unwrap_err(), ConfigError::NoDefaultSearchPath);
}

#[test]
fn resolve_uses_work_dir_when_head_tree_nonempty() {
    let r = resolve_working_path(false, Some("/r/proj".to_string()), &vec![]);
    assert_eq!(r.unwrap(), "/r/proj");
}

#[test]
fn resolve_picks_default_worktree_when_head_tree_empty() {
    // An empty head tree: the first worktree whose directory is named
    // `master` or `main` becomes the working path.
    let bases = vec![
        "/r/proj/wt/feature".to_string(),
        "/r/proj/wt/main".to_string(),
    ];
    let r = resolve_working_path(true, None, &bases);
    assert_eq!(r.unwrap(), "/r/proj/wt/main");
}

#[test]
fn resolve_without_default_worktree_is_an_error() {
    let bases = vec!["/r/proj/wt/feature".to_string()];
    let r = resolve_working_path(true, None, &bases);
    assert!(matches!(r, Err(TmsError::NoDefaultWorktree)));
}

#[test]
fn names_are_presented_sorted() {
    let mut e = DiscoveryEngine::new(vec![
        dir("/r/zeta", 0),
        dir("/r/alpha", 0),
        dir("/r/mu", 0),
    ]);
    e.step(ProbeOutcome::Repository(RepositoryKind::Plain)).unwrap();
    e.step(ProbeOutcome::Repository(RepositoryKind::Plain)).unwrap();
    e.step(ProbeOutcome::Repository(RepositoryKind::Plain)).unwrap();
    let records = e.finish();
    let names = sorted_names(&records);
    assert_eq!(names, vec!["alpha", "mu", "zeta"]);
}

#[test]
fn error_messages_carry_context() {
    assert_eq!(TmsError::ConfigError.message(), "Config Error");
    assert_eq!(TmsError::IoError.message(), "IO Error");
    assert_eq!(
        TmsError::TuiError("No selection made".to_string()).message(),
        "TUI error: No selection made"
    );
    assert_eq!(
        TmsError::MultiplexerUnavailable.message(),
        "Multiplexer unavailable"
    );
    assert_eq!(ConfigError::LoadError.message(), "Could not load configuration");
    assert_eq!(
        ConfigError::NoDefaultSearchPath.message(),
        "No default search path was found"
    );
    assert_eq!(
        tms::error::Suggestion("Try the config subcommand.").message(),
        "Suggestion: Try the config subcommand."
    );
}
