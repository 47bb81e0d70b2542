use malachite::config::{expand, RawConfig, ResolvedConfig};
use malachite::error::MlcError;
use malachite::invocation::Invocation;
use malachite::package::{build, build_plan, check_repo_gen};
use malachite::reconcile::{missing_repos, reconcile};

fn resolved(mode: &str, repo: &[&str]) -> ResolvedConfig {
    expand(&RawConfig {
        mode: mode.to_string(),
        name: Some("repo".to_string()),
        sign: false,
        smart_pull: false,
        urls: vec!["https://example.org/%repo%.git".to_string()],
        repo: repo.iter().map(|r| r.to_string()).collect(),
    })
    .unwrap()
}

fn strings(v: &[&str]) -> Vec<String> {
    v.iter().map(|s| s.to_string()).collect()
}

fn shape(i: &Invocation) -> (Option<&str>, &str, Vec<&str>) {
    (i.dir.as_deref(), i.program.as_str(), i.args.iter().map(|a| a.as_str()).collect())
}

#[test]
fn scenario_workspace_already_cloned() {
    let cfg = resolved("workspace", &["1::core"]);
    let entries = strings(&["core", "mlc.toml"]);
    assert!(missing_repos(&cfg, &entries).is_empty());
    assert!(reconcile(&cfg, &entries).is_empty());
}

#[test]
fn workspace_clone_is_plain() {
    let cfg = resolved("workspace", &["1::core", "1::extra!"]);
    let entries = strings(&["core"]);
    let missing = missing_repos(&cfg, &entries);
    assert_eq!(missing.len(), 1);
    assert_eq!(missing[0].name, "extra");
    let runs = reconcile(&cfg, &entries);
    assert_eq!(runs.len(), 1);
    assert_eq!(
        shape(&runs[0]),
        (None, "git", vec!["clone", "https://example.org/extra.git", "extra"])
    );
}

#[test]
fn repository_clone_is_sparse() {
    let cfg = resolved("repository", &["1::pkg"]);
    let runs = reconcile(&cfg, &Vec::new());
    assert_eq!(runs.len(), 3);
    assert_eq!(
        shape(&runs[0]),
        (None, "git", vec!["clone", "--no-checkout", "https://example.org/pkg.git", "pkg"])
    );
    assert_eq!(shape(&runs[1]), (Some("pkg"), "git", vec!["reset"]));
    assert_eq!(shape(&runs[2]), (Some("pkg"), "git", vec!["checkout", "HEAD", "PKGBUILD"]));
}

#[test]
fn reconcile_twice_clones_nothing_the_second_time() {
    let cfg = resolved("workspace", &["1::a", "1::b", "1::c"]);
    let mut entries = strings(&["b", "mlc.toml", "notes"]);
    let first = missing_repos(&cfg, &entries);
    let names: Vec<&str> = first.iter().map(|r| r.name.as_str()).collect();
    assert_eq!(names, vec!["a", "c"]);
    assert_eq!(reconcile(&cfg, &entries).len(), 2);
    for r in &first {
        entries.push(r.name.clone());
    }
    assert!(missing_repos(&cfg, &entries).is_empty());
    assert!(reconcile(&cfg, &entries).is_empty());
}

#[test]
fn partial_failure_retries_only_the_rest() {
    let cfg = resolved("workspace", &["1::a", "1::b", "1::c"]);
    let entries = strings(&["a"]);
    let names: Vec<String> = missing_repos(&cfg, &entries).into_iter().map(|r| r.name).collect();
    assert_eq!(names, vec!["b".to_string(), "c".to_string()]);
}

#[test]
fn configuration_file_is_not_a_clone() {
    let cfg = resolved("workspace", &["1::mlc.toml"]);
    let entries = strings(&["mlc.toml"]);
    assert_eq!(missing_repos(&cfg, &entries).len(), 1);
}

#[test]
fn scenario_unknown_package_stops_the_batch() {
    let cfg = resolved("repository", &["1::pkgA", "1::pkgB"]);
    let plan = build_plan(&cfg, &strings(&["pkgA", "pkgC"]), &Vec::new());
    assert_eq!(plan.packages, strings(&["pkgA"]));
    assert_eq!(plan.error, Some(MlcError::UnknownPackage));
}

#[test]
fn unknown_package_first_builds_nothing() {
    let cfg = resolved("repository", &["1::pkgA"]);
    let plan = build_plan(&cfg, &strings(&["nope", "pkgA"]), &Vec::new());
    assert!(plan.packages.is_empty());
    assert_eq!(plan.error, Some(MlcError::UnknownPackage));
}

#[test]
fn empty_request_builds_everything_not_excluded() {
    let cfg = resolved("repository", &["1::a", "1::b", "1::c"]);
    let plan = build_plan(&cfg, &Vec::new(), &strings(&["b"]));
    assert_eq!(plan.packages, strings(&["a", "c"]));
    assert_eq!(plan.error, None);
    let plan = build_plan(&cfg, &strings(&["c", "a"]), &strings(&["a"]));
    assert_eq!(plan.packages, strings(&["c"]));
    assert_eq!(plan.error, None);
}

#[test]
fn building_in_a_workspace_is_refused() {
    let cfg = resolved("workspace", &["1::a"]);
    let plan = build_plan(&cfg, &strings(&["a"]), &Vec::new());
    assert!(plan.packages.is_empty());
    assert_eq!(plan.error, Some(MlcError::BuildInWorkspace));
}

#[test]
fn scenario_repo_gen_in_workspace() {
    let cfg = resolved("workspace", &["1::a"]);
    assert_eq!(check_repo_gen(&cfg), Err(MlcError::BuildInWorkspace));
    let cfg = resolved("repository", &["1::a"]);
    assert_eq!(check_repo_gen(&cfg), Ok(()));
}

#[test]
fn package_build_runs() {
    let entries = strings(&["pkgA", "out"]);
    let runs = build("pkgA", &entries, true, true).unwrap();
    assert_eq!(runs.len(), 3);
    assert_eq!(shape(&runs[0]), (Some("pkgA"), "updpkgsums", vec![]));
    assert_eq!(
        shape(&runs[1]),
        (Some("pkgA"), "makepkg", vec!["-sf", "--skippgpcheck", "--sign", "--noconfirm"])
    );
    assert_eq!(shape(&runs[2]), (Some("pkgA"), "bash", vec!["-c", "cp *.pkg.tar.zst* ../out/"]));
    let runs = build("pkgA", &entries, false, false).unwrap();
    assert_eq!(runs.len(), 2);
    assert_eq!(shape(&runs[0]), (Some("pkgA"), "makepkg", vec!["-sf", "--skippgpcheck", "--noconfirm"]));
}

#[test]
fn package_without_directory() {
    let r = build("pkgZ", &strings(&["pkgA"]), true, true);
    assert_eq!(r.unwrap_err(), MlcError::PackageDirNotFound);
}
