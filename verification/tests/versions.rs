use udx710_ota::version::{compare_versions, parse_version};

#[test]
fn newer_versions() {
    assert!(compare_versions("1.2.4", "1.2.3"));
    assert!(compare_versions("1.10.0", "1.9.9"));
    assert!(compare_versions("2", "1.99.99"));
    assert!(compare_versions("1.0.0.1", "1.0"));
    assert!(!compare_versions("1.2.3", "1.2.4"));
    assert!(!compare_versions("1.9.9", "1.10.0"));
}

#[test]
fn equal_versions_are_not_newer() {
    assert!(!compare_versions("1.2.3", "1.2.3"));
    assert!(!compare_versions("1.2", "1.2.0.0"));
    assert!(!compare_versions("1.2.0.0", "1.2"));
    assert!(!compare_versions("", ""));
}

#[test]
fn newer_is_transitive_here() {
    assert!(compare_versions("3.0", "2.5"));
    assert!(compare_versions("2.5", "2.4.9"));
    assert!(compare_versions("3.0", "2.4.9"));
}

#[test]
fn parts_that_are_no_numbers_are_left_out() {
    assert_eq!(parse_version("v1.2.3-rc1"), vec!["2"]);
    assert_eq!(parse_version("1.x.2"), vec!["1", "2"]);
    assert_eq!(parse_version("1..2"), vec!["1", "2"]);
    assert_eq!(parse_version("1.-2.+3.+.++4. 5"), vec!["1", "3"]);
    assert_eq!(parse_version(""), Vec::<&str>::new());
    assert!(compare_versions("1.x.2", "1.1"));
    assert!(!compare_versions("garbage", "0.0.0"));
}

#[test]
fn numbers_may_be_of_any_size() {
    assert!(compare_versions("4294967296.0", "1.0"));
    assert!(!compare_versions("1.0", "4294967296.0"));
    assert!(compare_versions("4294967296", "4294967295"));
    assert!(compare_versions("1.202512131246", "1.202512131245.9"));
    assert!(compare_versions("4294967296.7", "7"));
    assert!(compare_versions("100000000000000000000000", "99999999999999999999999"));
    assert!(!compare_versions("99999999999999999999999", "99999999999999999999999"));
    assert_eq!(
        parse_version("4294967295.4294967296.+3"),
        vec!["4294967295", "4294967296", "3"]
    );
}

#[test]
fn leading_zeros_do_not_count() {
    assert!(!compare_versions("1.007", "1.7"));
    assert!(!compare_versions("1.7", "1.007"));
    assert!(compare_versions("1.10", "1.009"));
    assert!(!compare_versions("0000000000000", "0"));
    assert_eq!(parse_version("01.0"), vec!["01", "0"]);
}

#[test]
fn versions_compare_as_their_numbers() {
    let parts = [0u32, 1, 9, 10, 11, 99, 100, 1000];
    for a in parts {
        for b in parts {
            for c in parts {
                for d in parts {
                    assert_eq!(
                        compare_versions(&format!("{}.{}", a, b), &format!("{}.{}", c, d)),
                        (a, b) > (c, d)
                    );
                }
            }
        }
    }
}
