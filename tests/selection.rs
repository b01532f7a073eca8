use cargo_edit::{
    compare_versions, get_checkout_name, fetch_refspec, index_paths, latest_from_index,
    manifest_path, manifest_url_from_captures, parse_summary, read_latest_version, remote_ref,
    repo_manifest_url, simulated_dependency, versions_from_index, get_name_from_manifest,
    get_crate_name_from_path, plan_sync, FetchError, RepoHost, SyncStep, fetch_args,
    fetch_env_removed,
};

const BLOB: &str = "{\"name\":\"foo\",\"vers\":\"0.1.0\",\"yanked\":false}\n\
{\"name\":\"foo\",\"vers\":\"1.0.0-beta.2\",\"yanked\":false}\n\
{\"name\":\"foo\",\"vers\":\"0.10.3+build.7\",\"yanked\":false}\n\
{\"name\":\"foo\",\"vers\":\"2.0.0\",\"yanked\":true}\n";

#[test]
fn selection_ignores_line_order() {
    let lines: Vec<&str> = BLOB.lines().collect();
    let a = parse_summary(&lines.join("\n")).unwrap();
    let reversed: Vec<&str> = lines.iter().rev().cloned().collect();
    let b = parse_summary(&reversed.join("\n")).unwrap();
    let ra = read_latest_version(&a, false).unwrap();
    let rb = read_latest_version(&b, false).unwrap();
    assert_eq!(ra.version(), Some("0.10.3+build.7"));
    assert_eq!(ra.version(), rb.version());
    assert_eq!(read_latest_version(&a, true).unwrap().version(), Some("1.0.0-beta.2"));
}

#[test]
fn numeric_components_compare_by_value() {
    let v = parse_summary(BLOB).unwrap();
    assert_eq!(compare_versions(&v[0].version, &v[2].version), -1);
    assert_eq!(compare_versions(&v[2].version, &v[0].version), 1);
    assert_eq!(compare_versions(&v[1].version, &v[1].version), 0);
}

#[test]
fn prerelease_ordering() {
    let v = parse_summary(
        "{\"name\":\"x\",\"vers\":\"1.0.0-alpha\",\"yanked\":false}\n\
         {\"name\":\"x\",\"vers\":\"1.0.0-alpha.1\",\"yanked\":false}\n\
         {\"name\":\"x\",\"vers\":\"1.0.0-1\",\"yanked\":false}\n\
         {\"name\":\"x\",\"vers\":\"1.0.0\",\"yanked\":false}",
    )
    .unwrap();
    assert_eq!(compare_versions(&v[0].version, &v[1].version), -1);
    assert_eq!(compare_versions(&v[2].version, &v[0].version), -1);
    assert_eq!(compare_versions(&v[3].version, &v[1].version), 1);
    assert_eq!(read_latest_version(&v[..3], true).unwrap().version(), Some("1.0.0-alpha.1"));
}

#[test]
fn crlf_and_blank_lines_are_accepted() {
    let v = parse_summary("{\"name\":\"x\",\"vers\":\"0.1.0\",\"yanked\":false}\r\n\r\n").unwrap();
    assert_eq!(v.len(), 1);
    assert_eq!(v[0].name, "x");
}

#[test]
fn bad_records_are_rejected() {
    assert_eq!(parse_summary("not json").unwrap_err(), FetchError::InvalidSummaryJson);
    assert_eq!(
        parse_summary("{\"name\":\"x\",\"vers\":\"one\",\"yanked\":false}").unwrap_err(),
        FetchError::InvalidSummaryJson
    );
    assert_eq!(
        versions_from_index("x", Some(&[0xff, 0xfe][..])).unwrap_err(),
        FetchError::InvalidSummaryJson
    );
}

#[test]
fn index_lookup_errors() {
    assert_eq!(latest_from_index("", false, None).unwrap_err(), FetchError::EmptyCrateName);
    assert_eq!(
        latest_from_index("foo", false, None).unwrap_err(),
        FetchError::NoCrate("foo".to_string())
    );
    let dep = latest_from_index("Foo", false, Some(BLOB.as_bytes())).unwrap();
    assert_eq!(dep.name, "foo");
    assert_eq!(dep.version(), Some("0.10.3+build.7"));
}

#[test]
fn index_paths_follow_fuzzy_order() {
    assert_eq!(index_paths("a_bc"), vec!["a_/bc/a_bc", "a-/bc/a-bc"]);
}

#[test]
fn simulated_versions() {
    assert_eq!(simulated_dependency("test_breaking", false).version(), Some("0.2.0"));
    assert_eq!(simulated_dependency("test_nonbreaking", false).version(), Some("0.1.1"));
    assert_eq!(
        simulated_dependency("foo", false).version(),
        Some("foo--CURRENT_VERSION_TEST")
    );
    assert_eq!(
        simulated_dependency("test_breaking", true).version(),
        Some("test_breaking--PRERELEASE_VERSION_TEST")
    );
}

#[test]
fn checkout_and_refspec() {
    assert_eq!(get_checkout_name(Some(Some("master".to_string())), "d"), Ok("master".to_string()));
    assert_eq!(
        get_checkout_name(None, "d/refs"),
        Err(FetchError::MissingRegistryCheckout("d/refs".to_string()))
    );
    assert_eq!(get_checkout_name(Some(None), "d"), Err(FetchError::NonUnicodeGitPath));
    assert_eq!(fetch_refspec("master"), "refs/heads/master:refs/remotes/origin/master");
    assert_eq!(remote_ref("HEAD"), "refs/remotes/origin/HEAD");
    assert_eq!(fetch_args("u", "r"), vec!["fetch", "--tags", "--force", "--update-head-ok", "u", "r"]);
    assert_eq!(fetch_env_removed().len(), 5);
    assert_eq!(plan_sync(false), SyncStep::Initialize);
    assert_eq!(plan_sync(true).label(), "Updating");
}

#[test]
fn repository_urls() {
    assert_eq!(
        repo_manifest_url(RepoHost::GitHub, "https://github.com/killercup/cargo-edit"),
        Ok("https://raw.githubusercontent.com/killercup/cargo-edit/master/Cargo.toml".to_string())
    );
    assert_eq!(
        repo_manifest_url(RepoHost::GitLab, "https://gitlab.com/user/repo.git"),
        Ok("https://gitlab.com/user/repo/raw/master/Cargo.toml".to_string())
    );
    assert_eq!(
        repo_manifest_url(RepoHost::GitHub, "https://gitlab.com/user/repo"),
        Err(FetchError::UnableToParseRepoUrl)
    );
    assert_eq!(
        manifest_url_from_captures(RepoHost::GitHub, Some(vec![Some("x".to_string()), None])),
        Err(FetchError::RepoUrlIncomplete)
    );
}

#[test]
fn manifest_names() {
    assert_eq!(get_name_from_manifest("[package]\nname = \"demo\"\n"), Ok("demo".to_string()));
    assert_eq!(get_name_from_manifest("[dependencies]\n"), Err(FetchError::ParseCargoToml));
    assert_eq!(get_name_from_manifest("[[["), Err(FetchError::ParseCargoToml));
    assert_eq!(get_crate_name_from_path(None), Err(FetchError::UnableToOpenLocalManifest));
    assert_eq!(get_crate_name_from_path(Some("[[[")), Err(FetchError::UnableToOpenLocalManifest));
    assert_eq!(get_crate_name_from_path(Some("[workspace]\n")), Err(FetchError::ParseCargoToml));
    assert_eq!(manifest_path("a/b"), "a/b/Cargo.toml");
    assert_eq!(manifest_path("a/"), "a/Cargo.toml");
    assert_eq!(manifest_path(""), "Cargo.toml");
}
