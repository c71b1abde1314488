use route_resolver::output::has_remainder;
use route_resolver::path::{has_leading_separator, is_matchable, normalize};
use route_resolver::pattern::{is_registrable, is_single_byte, sub_path_pattern_of};
use route_resolver::{Params, Route, RouteList, SEPARATOR, SUB_PATH_WILDCARD_NAME};

fn pair(name: &str, value: &str) -> (String, String) {
    (name.to_string(), value.to_string())
}

#[test]
fn reserved_name_and_separator() {
    assert_eq!(SUB_PATH_WILDCARD_NAME, "_sub_path");
    assert_eq!(SEPARATOR, '/');
}

#[test]
fn sub_path_pattern_appends_the_reserved_wildcard() {
    assert_eq!(sub_path_pattern_of("sub"), "sub/*_sub_path");
    assert_eq!(sub_path_pattern_of(""), "/*_sub_path");
    assert_eq!(sub_path_pattern_of("users/:id"), "users/:id/*_sub_path");
}

#[test]
fn registrable_patterns() {
    assert!(is_registrable(""));
    assert!(is_registrable("/"));
    assert!(is_registrable("about"));
    assert!(is_registrable("/about"));
    assert!(is_registrable(":id/*rest"));
    assert!(is_registrable("a\u{e9}"));
    assert!(is_registrable("//\u{e9}"));
    assert!(!is_registrable("\u{e9}"));
    assert!(!is_registrable("/\u{e9}"));
    assert!(!is_registrable("a\0"));
    assert!(!is_registrable("\0"));
    assert!(!is_registrable("/\0"));
}

#[test]
fn single_byte_characters() {
    assert!(is_single_byte('a'));
    assert!(is_single_byte('/'));
    assert!(is_single_byte('\u{7f}'));
    assert!(!is_single_byte('\u{80}'));
    assert!(!is_single_byte('\u{e9}'));
}

#[test]
fn normalize_strips_one_trailing_separator() {
    assert_eq!(normalize("sub/"), "sub");
    assert_eq!(normalize("sub"), "sub");
    assert_eq!(normalize(""), "");
    assert_eq!(normalize("/"), "");
    assert_eq!(normalize("a//"), "a/");
    assert_eq!(normalize("a/b/"), "a/b");
    assert_eq!(normalize("\u{e9}/"), "\u{e9}");
    assert_eq!(normalize("a/\u{e9}"), "a/\u{e9}");
}

#[test]
fn leading_separator() {
    assert!(has_leading_separator("/"));
    assert!(has_leading_separator("/a"));
    assert!(!has_leading_separator(""));
    assert!(!has_leading_separator("a/"));
    assert!(!has_leading_separator("\u{e9}/"));
}

#[test]
fn matchable_paths() {
    assert!(is_matchable(""));
    assert!(is_matchable("a/b"));
    assert!(is_matchable("\u{e9}"));
    assert!(!is_matchable("\0"));
    assert!(!is_matchable("a/\0/b"));
}

#[test]
fn remainder_is_the_capture_under_the_reserved_name() {
    assert!(!has_remainder(&vec![]));
    assert!(!has_remainder(&vec![pair("id", "1"), pair("sub_path", "x")]));
    assert!(has_remainder(&vec![pair("_sub_path", "")]));
    assert!(has_remainder(&vec![pair("id", "1"), pair("_sub_path", "x")]));
}

#[test]
fn output_splits_the_captures() {
    let list = RouteList {
        routes: vec![
            Route {
                path: "about".to_string(),
                has_sub_routes: false,
            },
            Route {
                path: ":a/:b".to_string(),
                has_sub_routes: true,
            },
        ],
    };
    let out = list.output(1, &vec![pair("_sub_path", "x/y"), pair("a", "1"), pair("b", "2")]);
    assert!(std::ptr::eq(out.route, &list.routes[1]));
    assert_eq!(out.sub_path, "x/y");
    assert_eq!(out.params.len(), 2);
    assert_eq!(out.params.get("a"), Some(&"1".to_string()));
    assert_eq!(out.params.get("b"), Some(&"2".to_string()));
    assert_eq!(out.params.get("_sub_path"), None);

    let plain = list.output(0, &vec![]);
    assert_eq!(plain.route.path, "about");
    assert_eq!(plain.sub_path, "");
    assert!(plain.params.is_empty());
}

#[test]
fn output_lets_a_later_capture_replace_an_earlier_one() {
    let list = RouteList {
        routes: vec![Route {
            path: ":a".to_string(),
            has_sub_routes: true,
        }],
    };
    let out = list.output(
        0,
        &vec![pair("a", "1"), pair("_sub_path", "x"), pair("a", "2"), pair("_sub_path", "y")],
    );
    assert_eq!(out.sub_path, "y");
    assert_eq!(out.params.len(), 1);
    assert_eq!(out.params.get("a"), Some(&"2".to_string()));
}

#[test]
fn params_start_empty() {
    let params = Params::new();
    assert_eq!(params.len(), 0);
    assert!(params.is_empty());
    assert_eq!(params.get("id"), None);
    assert!(!params.contains_key("id"));
    assert!(params.entries().is_empty());
}

#[test]
fn params_insert_binds_and_replaces() {
    let mut params = Params::new();
    params.insert("id".to_string(), "1".to_string());
    params.insert("name".to_string(), "ann".to_string());
    assert_eq!(params.len(), 2);
    assert!(!params.is_empty());
    assert_eq!(params.get("id"), Some(&"1".to_string()));
    assert_eq!(params.get("name"), Some(&"ann".to_string()));
    assert_eq!(params.get("i"), None);
    assert!(params.contains_key("name"));

    params.insert("id".to_string(), "2".to_string());
    assert_eq!(params.len(), 2);
    assert_eq!(params.get("id"), Some(&"2".to_string()));
    assert_eq!(params.get("name"), Some(&"ann".to_string()));
    assert_eq!(params.entries(), &vec![pair("id", "2"), pair("name", "ann")]);
}

#[test]
fn params_accept_the_empty_name() {
    let mut params = Params::new();
    params.insert(String::new(), "x".to_string());
    assert_eq!(params.get(""), Some(&"x".to_string()));
    assert_eq!(params.len(), 1);
}

#[test]
fn routes_compare_by_pattern_and_flag() {
    let a = Route {
        path: "a".to_string(),
        has_sub_routes: false,
    };
    let same = a.clone();
    assert!(a == same);
    assert_eq!(same.path, "a");
    assert!(!same.has_sub_routes);
    let flagged = Route {
        path: "a".to_string(),
        has_sub_routes: true,
    };
    let other = Route {
        path: "b".to_string(),
        has_sub_routes: false,
    };
    assert!(a != flagged);
    assert!(a != other);
}

#[test]
fn levels_compare_route_by_route() {
    let make = |paths: &[&str]| RouteList {
        routes: paths
            .iter()
            .map(|p| Route {
                path: p.to_string(),
                has_sub_routes: false,
            })
            .collect(),
    };
    let ab = make(&["a", "b"]);
    assert!(ab == ab.clone());
    assert_eq!(ab.clone().routes.len(), 2);
    assert!(ab != make(&["b", "a"]));
    assert!(ab != make(&["a"]));
    assert!(ab != make(&["a", "b", "c"]));
    assert!(make(&[]) == make(&[]));
}
