use did_i_break_it::reverse_dependencies::{decimal_string, ReverseDependencies, PER_PAGE};
use did_i_break_it::reverse_dependency::ReverseDependency;

fn dependency(name: &str, req: &str) -> ReverseDependency {
    ReverseDependency::new(name.to_string(), "1.0.0".to_string(), req.to_string())
}

#[test]
fn decimal_text() {
    assert_eq!(decimal_string(0), "0");
    assert_eq!(decimal_string(7), "7");
    assert_eq!(decimal_string(100), "100");
    assert_eq!(decimal_string(1234567890), "1234567890");
    assert_eq!(decimal_string(u64::MAX), u64::MAX.to_string());
}

#[test]
fn the_local_version_must_be_semantic() {
    assert!(ReverseDependencies::new("not a version").is_err());
    assert!(ReverseDependencies::new("1.2").is_err());
    let paging = ReverseDependencies::new("1.2.3").unwrap();
    assert!(paging.wants_next_page());
    assert_eq!(paging.current_page(), 1);
}

#[test]
fn page_urls_carry_the_page() {
    let base = "https://crates.io/api/v1/crates/centerline/reverse_dependencies";
    let mut paging = ReverseDependencies::new("0.1.0").unwrap();
    assert_eq!(paging.next_page_url(base).unwrap(), format!("{}?per_page=100&page=1", base));
    paging.receive_page((0..PER_PAGE).map(|i| dependency(&format!("c{}", i), "*")).collect());
    assert_eq!(paging.current_page(), 2);
    assert!(paging.wants_next_page());
    assert_eq!(paging.next_page_url(base).unwrap(), format!("{}?per_page=100&page=2", base));
    assert!(paging.next_page_url("no url at all").is_err());
}

#[test]
fn a_page_that_is_not_full_is_the_last() {
    let mut paging = ReverseDependencies::new("0.1.0").unwrap();
    paging.receive_page(vec![dependency("a", "*")]);
    assert!(!paging.wants_next_page());
    let mut paging = ReverseDependencies::new("0.1.0").unwrap();
    paging.receive_page(vec![]);
    assert!(!paging.wants_next_page());
}

#[test]
fn only_compatible_reverse_dependencies_are_kept() {
    let mut paging = ReverseDependencies::new("1.2.0").unwrap();
    paging.receive_page(vec![dependency("a", "^1.0"), dependency("b", "^2"), dependency("c", "=1.2.0")]);
    paging.receive_page(vec![dependency("d", "<1.2"), dependency("e", ">=1.1, <1.3"), dependency("f", "*")]);
    let kept = paging.into_compatible().unwrap();
    let names: Vec<String> = kept.iter().map(|d| d.get_crate_name()).collect();
    assert_eq!(names, vec!["a-1.0.0", "c-1.0.0", "e-1.0.0", "f-1.0.0"]);
}

#[test]
fn a_requirement_that_does_not_parse_is_singled_out() {
    let mut paging = ReverseDependencies::new("1.2.0").unwrap();
    paging.receive_page(vec![dependency("a", "^1.0"), dependency("b", "not a requirement")]);
    assert!(paging.into_compatible().is_none());
}

#[test]
fn filter_keeps_order() {
    let kept = ReverseDependencies::filter_compatible(
        vec![dependency("z", "0.3"), dependency("y", "0.4"), dependency("x", "^0.3.1")],
        "0.3.5",
    );
    let names: Vec<String> = kept.iter().map(|d| d.get_crate_name()).collect();
    assert_eq!(names, vec!["z-1.0.0", "x-1.0.0"]);
}

#[test]
fn a_failed_page_ends_the_paging_and_changes_nothing() {
    let mut paging = ReverseDependencies::new("1.0.0").unwrap();
    paging.receive_page(vec![dependency("a", "*")]);
    let page_before = paging.current_page();
    assert!(paging.receive_page_result(Err(())).is_err());
    assert_eq!(paging.current_page(), page_before);
    assert!(!paging.wants_next_page());
    assert_eq!(paging.into_compatible().unwrap().len(), 1);

    let mut paging = ReverseDependencies::new("1.0.0").unwrap();
    assert!(paging.receive_page_result(Ok(vec![dependency("b", "^1")])).is_ok());
    assert_eq!(paging.current_page(), 2);
    assert!(!paging.wants_next_page());
}
