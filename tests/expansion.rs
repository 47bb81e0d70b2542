use malachite::config::{expand, parse_mode, read_cfg, Mode, RawConfig};
use malachite::error::{check_user, MlcError};
use malachite::spec_string::parse_spec;
use malachite::text::{count_bang_chars, fill_placeholder, remove_bangs};

fn raw(mode: &str, urls: &[&str], repo: &[&str]) -> RawConfig {
    RawConfig {
        mode: mode.to_string(),
        name: Some("mlc-repo".to_string()),
        sign: true,
        smart_pull: false,
        urls: urls.iter().map(|u| u.to_string()).collect(),
        repo: repo.iter().map(|r| r.to_string()).collect(),
    }
}

#[test]
fn scenario_single_repo_with_two_markers() {
    let cfg = expand(&raw("repository", &["https://example.org/%repo%.git"], &["1::core!!"])).unwrap();
    assert_eq!(cfg.repo.len(), 1);
    assert_eq!(cfg.repo[0].name, "core");
    assert_eq!(cfg.repo[0].url, "https://example.org/core.git");
    assert_eq!(cfg.repo[0].priority, 2);
    assert_eq!(cfg.mode, Mode::Repository);
}

#[test]
fn markers_anywhere_count_and_vanish() {
    let cfg = expand(&raw("workspace", &["u/%repo%"], &["1::!c!o!re", "1::plain", "1::x!"])).unwrap();
    assert_eq!(cfg.repo[0].name, "core");
    assert_eq!(cfg.repo[0].priority, 3);
    assert_eq!(cfg.repo[1].name, "plain");
    assert_eq!(cfg.repo[1].priority, 0);
    assert_eq!(cfg.repo[2].name, "x");
    assert_eq!(cfg.repo[2].priority, 1);
}

#[test]
fn index_past_the_templates_is_out_of_range() {
    let r = expand(&raw("workspace", &["a/%repo%"], &["2::core"]));
    assert_eq!(r.unwrap_err(), MlcError::IndexOutOfRange);
    let r = expand(&raw("workspace", &["a/%repo%", "b/%repo%"], &["1::x", "3::core"]));
    assert_eq!(r.unwrap_err(), MlcError::IndexOutOfRange);
}

#[test]
fn index_zero_is_malformed() {
    let r = expand(&raw("workspace", &["a/%repo%"], &["0::core"]));
    assert_eq!(r.unwrap_err(), MlcError::MalformedSpec);
}

#[test]
fn second_template_is_addressed_by_index_two() {
    let cfg = expand(&raw("workspace", &["a/%repo%", "b/%repo%"], &["2::core"])).unwrap();
    assert_eq!(cfg.repo[0].url, "b/core");
}

#[test]
fn invalid_mode_wins_over_bad_specs() {
    let r = expand(&raw("library", &["a/%repo%"], &["nonsense", "9::x"]));
    assert_eq!(r.unwrap_err(), MlcError::InvalidMode);
    let r = expand(&raw("", &[], &[]));
    assert_eq!(r.unwrap_err(), MlcError::InvalidMode);
}

#[test]
fn order_follows_the_specifications() {
    let cfg = expand(&raw("workspace", &["u/%repo%"], &["1::b", "1::a", "1::c"])).unwrap();
    let names: Vec<&str> = cfg.repo.iter().map(|r| r.name.as_str()).collect();
    assert_eq!(names, vec!["b", "a", "c"]);
    let cfg = expand(&raw("workspace", &["u/%repo%"], &["1::c", "1::b", "1::a"])).unwrap();
    let names: Vec<&str> = cfg.repo.iter().map(|r| r.name.as_str()).collect();
    assert_eq!(names, vec!["c", "b", "a"]);
}

#[test]
fn first_failing_spec_decides_the_error() {
    let r = expand(&raw("workspace", &["u/%repo%"], &["1::ok", "bad", "5::far"]));
    assert_eq!(r.unwrap_err(), MlcError::MalformedSpec);
    let r = expand(&raw("workspace", &["u/%repo%"], &["5::far", "bad"]));
    assert_eq!(r.unwrap_err(), MlcError::IndexOutOfRange);
}

#[test]
fn names_must_be_usable_directories() {
    let r = expand(&raw("workspace", &["u/%repo%"], &["1::!!"]));
    assert_eq!(r.unwrap_err(), MlcError::MalformedSpec);
    let r = expand(&raw("workspace", &["u/%repo%"], &["1::a/b"]));
    assert_eq!(r.unwrap_err(), MlcError::MalformedSpec);
}

#[test]
fn other_fields_carry_over() {
    let cfg = expand(&raw("repository", &[], &[])).unwrap();
    assert!(cfg.sign);
    assert!(!cfg.smart_pull);
    assert_eq!(cfg.name, Some("mlc-repo".to_string()));
    assert!(cfg.repo.is_empty());
}

#[test]
fn missing_configuration_is_reported() {
    assert_eq!(read_cfg(None).unwrap_err(), MlcError::ConfigNotFound);
    let r = raw("workspace", &["u/%repo%"], &["1::a"]);
    assert_eq!(read_cfg(Some(&r)).unwrap().repo[0].name, "a");
}

#[test]
fn spec_splitting() {
    let s = parse_spec("12::n!ame").unwrap();
    assert_eq!(s.index, 12);
    assert_eq!(s.name, "n!ame");
    let s = parse_spec("+3::x").unwrap();
    assert_eq!(s.index, 3);
    let s = parse_spec("1:::x").unwrap();
    assert_eq!(s.name, ":x");
    assert_eq!(parse_spec("core"), Err(MlcError::MalformedSpec));
    assert_eq!(parse_spec("1::a::b"), Err(MlcError::MalformedSpec));
    assert_eq!(parse_spec("x::a"), Err(MlcError::MalformedSpec));
    assert_eq!(parse_spec("::a"), Err(MlcError::MalformedSpec));
    assert_eq!(parse_spec(""), Err(MlcError::MalformedSpec));
    assert_eq!(parse_spec("1:a"), Err(MlcError::MalformedSpec));
    assert_eq!(parse_spec("-1::a"), Err(MlcError::MalformedSpec));
    assert_eq!(parse_spec("99999999999999999999999::a"), Err(MlcError::MalformedSpec));
}

#[test]
fn spec_with_empty_name_splits() {
    let s = parse_spec("1::").unwrap();
    assert_eq!(s.index, 1);
    assert_eq!(s.name, "");
}

#[test]
fn mode_texts() {
    assert_eq!(parse_mode("workspace"), Ok(Mode::Workspace));
    assert_eq!(parse_mode("repository"), Ok(Mode::Repository));
    assert_eq!(parse_mode("Workspace"), Err(MlcError::InvalidMode));
    assert_eq!(parse_mode("repositor"), Err(MlcError::InvalidMode));
}

#[test]
fn marker_helpers() {
    assert_eq!(remove_bangs("!a!!b!"), "ab");
    assert_eq!(remove_bangs("abc"), "abc");
    assert_eq!(count_bang_chars("!a!!b!"), 4);
    assert_eq!(count_bang_chars(""), 0);
}

#[test]
fn placeholder_filling() {
    assert_eq!(fill_placeholder("https://h/%repo%.git", "core"), "https://h/core.git");
    assert_eq!(fill_placeholder("%repo%/%repo%", "x"), "x/x");
    assert_eq!(fill_placeholder("%rep%", "x"), "%rep%");
    assert_eq!(fill_placeholder("%%repo%%", "x"), "%x%");
    assert_eq!(fill_placeholder("plain", "x"), "plain");
}

#[test]
fn exit_codes_are_distinct_and_nonzero() {
    let all = [
        MlcError::ConfigNotFound,
        MlcError::InvalidMode,
        MlcError::MalformedSpec,
        MlcError::IndexOutOfRange,
        MlcError::BuildInWorkspace,
        MlcError::UnknownPackage,
        MlcError::PackageDirNotFound,
        MlcError::RunAsRoot,
    ];
    for (i, a) in all.iter().enumerate() {
        assert_ne!(a.exit_code(), 0);
        for b in all.iter().skip(i + 1) {
            assert_ne!(a.exit_code(), b.exit_code());
        }
    }
}

#[test]
fn superuser_is_refused() {
    assert_eq!(check_user(0), Err(MlcError::RunAsRoot));
    assert_eq!(check_user(1000), Ok(()));
}
