use fletplus::router::{join_paths, normalize_path, normalize_path_string, parse_segment};
use fletplus::routes::{collect_matches, match_routes, RouteNode, RouteStep};

fn s(x: &str) -> String {
    x.to_string()
}

fn leaf(segment: &str, has_view: bool, children: Vec<RouteNode>) -> RouteNode {
    RouteNode { segment: s(segment), dynamic: false, parameter_name: None, has_view, children }
}

fn param(name: Option<&str>, has_view: bool, children: Vec<RouteNode>) -> RouteNode {
    RouteNode { segment: s(""), dynamic: true, parameter_name: name.map(s), has_view, children }
}

fn plain(path: &[RouteStep]) -> Vec<(Vec<usize>, Vec<(String, String)>)> {
    path.iter().map(|st| (st.node.clone(), st.params.clone())).collect()
}

#[test]
fn paths_split_into_segments() {
    assert_eq!(normalize_path(&s("  /users//42/ ")), vec![s("users"), s("42")]);
    assert_eq!(normalize_path(&s("/")), Vec::<String>::new());
    assert_eq!(normalize_path(&s("")), Vec::<String>::new());
    assert_eq!(normalize_path(&s("a/b")), vec![s("a"), s("b")]);
}

#[test]
fn paths_have_a_canonical_form() {
    assert_eq!(normalize_path_string(&s("")), "/");
    assert_eq!(normalize_path_string(&s("   ")), "/");
    assert_eq!(normalize_path_string(&s("users/42/")), "/users/42");
    assert_eq!(normalize_path_string(&s("//a///b")), "/a/b");
}

#[test]
fn parameter_segments_parse() {
    assert_eq!(parse_segment(&s("<id>")), (true, Some(s("id"))));
    assert_eq!(parse_segment(&s("<>")), (false, None));
    assert_eq!(parse_segment(&s("id")), (false, None));
    assert_eq!(parse_segment(&s("<é>")), (true, Some(s("é"))));
}

#[test]
fn joining_paths() {
    assert_eq!(join_paths(&s("/users/"), &s("42")), "/users/42");
    assert_eq!(join_paths(&s("/"), &s("home")), "/home");
    assert_eq!(join_paths(&s(""), &s("home")), "/home");
    assert_eq!(join_paths(&s("/users"), &s("/about//me/")), "/about/me");
}

#[test]
fn static_route_matches() {
    let root = leaf("", false, vec![leaf("users", true, vec![leaf("list", true, vec![])])]);
    let found = match_routes(&root, &s("/users/list"));
    assert_eq!(found.len(), 1);
    assert_eq!(
        plain(&found[0]),
        vec![(vec![0], vec![]), (vec![0, 0], vec![]), (vec![0, 0], vec![])]
    );
}

#[test]
fn empty_path_matches_root_with_view() {
    let root = leaf("", true, vec![]);
    let found = match_routes(&root, &s("/"));
    assert_eq!(found.len(), 1);
    assert_eq!(plain(&found[0]), vec![(vec![], vec![])]);
    let bare = leaf("", false, vec![]);
    assert!(match_routes(&bare, &s("")).is_empty());
}

#[test]
fn dynamic_route_binds_parameter() {
    let root = leaf(
        "",
        false,
        vec![leaf("users", false, vec![param(Some("id"), true, vec![]), leaf("new", true, vec![])])],
    );
    let found = match_routes(&root, &s("users/new"));
    assert_eq!(found.len(), 2);
    assert_eq!(plain(&found[0]).last().unwrap().0, vec![0, 1]);
    let last = plain(&found[1]);
    assert_eq!(last.last().unwrap(), &(vec![0, 0], vec![(s("id"), s("new"))]));
    assert!(match_routes(&root, &s("users")).is_empty());
}

#[test]
fn unnamed_parameter_is_param() {
    let root = leaf("", false, vec![param(None, true, vec![])]);
    let found = match_routes(&root, &s("x"));
    assert_eq!(plain(&found[0]), vec![(vec![0], vec![(s("param"), s("x"))]), (vec![0], vec![(s("param"), s("x"))])]);
}

#[test]
fn search_from_inner_level_keeps_given_params() {
    let node = leaf("", false, vec![param(Some("id"), true, vec![])]);
    let segments = vec![s("a"), s("b")];
    let (found, left) = collect_matches(&node, &segments, 1, vec![(s("lang"), s("en"))]);
    assert_eq!(found.len(), 1);
    assert_eq!(
        plain(&found[0]),
        vec![
            (vec![0], vec![(s("lang"), s("en")), (s("id"), s("b"))]),
            (vec![0], vec![(s("lang"), s("en")), (s("id"), s("b"))]),
        ]
    );
    assert_eq!(left, vec![(s("lang"), s("en"))]);
}
