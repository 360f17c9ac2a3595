use did_i_break_it::local_crate::LocalCrate;

const MANIFEST: &str = "[package]\nname = \"did_i_break_it\"\nversion = \"2.1.0\"\nedition = \"2021\"\n\n[dependencies]\nlog = \"0.4\"\n";

#[test]
fn reads_name_and_version_from_the_manifest() {
    let local_crate = LocalCrate::from_manifest("/home/user/did_i_break_it", MANIFEST).unwrap();
    assert_eq!(local_crate.get_version(), "2.1.0");
    assert_eq!(local_crate.get_canonicalized_path(), "/home/user/did_i_break_it");
    assert_eq!(
        local_crate.get_reverse_dependencies_url("https://crates.io"),
        "https://crates.io/api/v1/crates/did_i_break_it/reverse_dependencies"
    );
}

#[test]
fn manifests_without_usable_package_are_refused() {
    assert!(LocalCrate::from_manifest("/x", "this is [not toml").is_err());
    assert!(LocalCrate::from_manifest("/x", "[workspace]\nmembers = [\"a\"]\n").is_err());
    assert!(LocalCrate::from_manifest("/x", "[package]\nname = \"a\"\nversion.workspace = true\n").is_err());
    assert!(LocalCrate::from_manifest("/x", "[package]\nversion = \"1.0.0\"\n").is_err());
}

#[test]
fn from_package_keeps_what_it_is_given() {
    let local_crate =
        LocalCrate::from_package("/p", Ok(Some(("name".to_string(), Some("0.0.1".to_string()))))).unwrap();
    assert_eq!(local_crate.get_version(), "0.0.1");
    assert_eq!(local_crate.get_canonicalized_path(), "/p");
    assert!(LocalCrate::from_package("/p", Ok(Some(("name".to_string(), None)))).is_err());
    assert!(LocalCrate::from_package("/p", Ok(None)).is_err());
    assert!(LocalCrate::from_package("/p", Err(())).is_err());
}
