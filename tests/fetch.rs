use cargo_edit::{
    fuzzy_names, gen_fuzzy_crate_names, parse_summary, read_latest_version, summary_raw_path,
    CrateVersion, FetchError,
};

fn records(lines: &[&str]) -> Vec<CrateVersion> {
    parse_summary(&lines.join("\n")).expect("crate version is correctly parsed")
}

#[test]
fn get_latest_stable_version_from_json() {
    let versions = records(&[
        r#"{"name": "foo", "vers": "0.6.0-alpha", "yanked": false}"#,
        r#"{"name": "foo", "vers": "0.5.0", "yanked": false}"#,
    ]);
    assert_eq!(
        read_latest_version(&versions, false)
            .unwrap()
            .version()
            .unwrap(),
        "0.5.0"
    );
}

#[test]
fn get_latest_unstable_or_stable_version_from_json() {
    let versions = records(&[
        r#"{"name": "foo", "vers": "0.6.0-alpha", "yanked": false}"#,
        r#"{"name": "foo", "vers": "0.5.0", "yanked": false}"#,
    ]);
    assert_eq!(
        read_latest_version(&versions, true)
            .unwrap()
            .version()
            .unwrap(),
        "0.6.0-alpha"
    );
}

#[test]
fn get_latest_version_from_json_test() {
    let versions = records(&[
        r#"{"name": "treexml", "vers": "0.3.1", "yanked": true}"#,
        r#"{"name": "treexml", "vers": "0.3.0", "yanked": false}"#,
    ]);
    assert_eq!(
        read_latest_version(&versions, false)
            .unwrap()
            .version()
            .unwrap(),
        "0.3.0"
    );
}

#[test]
fn get_no_latest_version_from_json_when_all_are_yanked() {
    let versions = records(&[
        r#"{"name": "treexml", "vers": "0.3.1", "yanked": true}"#,
        r#"{"name": "treexml", "vers": "0.3.0", "yanked": true}"#,
    ]);
    assert!(read_latest_version(&versions, false).is_err());
    assert_eq!(
        read_latest_version(&versions, false),
        Err(FetchError::NoVersionsAvailable)
    );
}

fn check_fuzzy(input: &str, expect: &[&str]) {
    let mut actual = gen_fuzzy_crate_names(input.to_string()).unwrap();
    actual.sort();

    let mut expect = expect.iter().map(|x| x.to_string()).collect::<Vec<_>>();
    expect.sort();

    assert_eq!(actual, expect);
}

#[test]
fn test_gen_fuzzy_crate_names() {
    check_fuzzy("", &[""]);
    check_fuzzy("-", &["_", "-"]);
    check_fuzzy("DCjanus", &["DCjanus"]);
    check_fuzzy("DC-janus", &["DC-janus", "DC_janus"]);
    check_fuzzy(
        "DC-_janus",
        &["DC__janus", "DC_-janus", "DC-_janus", "DC--janus"],
    );
}

#[test]
fn test_summary_raw_path() {
    assert_eq!(summary_raw_path("a"), "1/a");
    assert_eq!(summary_raw_path("ab"), "2/ab");
    assert_eq!(summary_raw_path("abc"), "3/a/abc");
    assert_eq!(summary_raw_path("abcd"), "ab/cd/abcd");
    assert_eq!(summary_raw_path("abcdefg"), "ab/cd/abcdefg");
    assert_eq!(summary_raw_path("Inflector"), "in/fl/inflector");
}

#[test]
fn fuzzy_names_put_the_exact_name_first() {
    let names = fuzzy_names("parking_lot-core");
    assert_eq!(names.len(), 4);
    assert_eq!(names[0], "parking_lot-core");
    let mut sorted = names.clone();
    sorted.sort();
    sorted.dedup();
    assert_eq!(sorted.len(), 4);
}

#[test]
fn fuzzy_names_without_separator_is_the_name() {
    assert_eq!(fuzzy_names("serde"), vec!["serde".to_string()]);
}

#[test]
fn fuzzy_names_are_capped_at_ten_separators() {
    let name = "a-b-c-d-e-f-g-h-i-j-k-l";
    let names = gen_fuzzy_crate_names(name.to_string()).unwrap();
    assert_eq!(names.len(), 1024);
    for n in &names {
        assert!(n.ends_with("k-l"));
    }
    assert_eq!(fuzzy_names(name)[0], name);
}

#[test]
fn gen_fuzzy_order_follows_masks() {
    let names = gen_fuzzy_crate_names("a-b_c".to_string()).unwrap();
    assert_eq!(names, vec!["a_b_c", "a-b_c", "a_b-c", "a-b-c"]);
}
