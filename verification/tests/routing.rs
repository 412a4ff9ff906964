use std::convert::TryFrom;
use twinstar::routing::RoutingNode;
use twinstar::Request;

fn request(uri: &str) -> Request {
    let uri = uriparse::URIReference::try_from(uri).unwrap().into_owned();
    Request::from_uri(uri).unwrap()
}

fn segments(path: &[&str]) -> Vec<String> {
    path.iter().map(|s| s.to_string()).collect()
}

#[test]
fn longest_prefix_wins_with_trailing_segments() {
    let mut routes: RoutingNode<&'static str> = RoutingNode::new();
    routes.add_route_by_path("/", "A").unwrap();
    routes.add_route_by_path("/files", "B").unwrap();
    routes.add_route_by_path("/files/raw", "C").unwrap();
    routes.shrink();

    let (trailing, value) = routes.match_path(&segments(&["files", "raw", "x.txt"])).unwrap();
    assert_eq!(*value, "C");
    assert_eq!(trailing, segments(&["x.txt"]));

    let (trailing, value) = routes.match_path(&segments(&["other"])).unwrap();
    assert_eq!(*value, "A");
    assert_eq!(trailing, segments(&["other"]));

    let (trailing, value) = routes.match_path(&segments(&["files", "raw"])).unwrap();
    assert_eq!(*value, "C");
    assert!(trailing.is_empty());

    let (trailing, value) = routes.match_path(&segments(&["files", "deep", "er"])).unwrap();
    assert_eq!(*value, "B");
    assert_eq!(trailing, segments(&["deep", "er"]));
}

#[test]
fn requests_dispatch_like_paths() {
    let mut routes: RoutingNode<&'static str> = RoutingNode::new();
    routes.add_route_by_path("/", "A").unwrap();
    routes.add_route_by_path("/files", "B").unwrap();
    routes.add_route_by_path("/files/raw", "C").unwrap();

    let (trailing, value) = routes.match_request(&request("gemini://h/files/raw/x.txt")).unwrap();
    assert_eq!(*value, "C");
    assert_eq!(trailing, segments(&["x.txt"]));

    let (trailing, value) = routes.match_request(&request("gemini://h/other")).unwrap();
    assert_eq!(*value, "A");
    assert_eq!(trailing, segments(&["other"]));
}

#[test]
fn no_match_without_a_routed_prefix() {
    let mut routes: RoutingNode<u32> = RoutingNode::new();
    routes.add_route_by_path("/files", 1).unwrap();

    assert!(routes.match_path(&segments(&["other"])).is_none());
    assert!(routes.match_path(&segments(&[])).is_none());
}

#[test]
fn empty_segments_are_ignored() {
    let mut routes: RoutingNode<u32> = RoutingNode::new();
    routes.add_route_by_path("/a/", 1).unwrap();

    let (trailing, value) = routes.match_path(&segments(&["a"])).unwrap();
    assert_eq!(*value, 1);
    assert!(trailing.is_empty());

    let (trailing, value) = routes.match_path(&segments(&["a", "", "b"])).unwrap();
    assert_eq!(*value, 1);
    assert_eq!(trailing, segments(&["b"]));

    let mut routes: RoutingNode<u32> = RoutingNode::new();
    routes.insert_segments(&segments(&["a"]), 2).unwrap();
    let (_, value) = routes.match_path(&segments(&["a", ""])).unwrap();
    assert_eq!(*value, 2);
}

#[test]
fn conflicting_routes_are_refused() {
    let mut routes: RoutingNode<u32> = RoutingNode::new();
    assert!(routes.add_route_by_path("/a", 1).is_ok());
    assert!(routes.add_route_by_path("/a", 2).is_err());
    assert!(routes.add_route_by_path("/a/", 3).is_err());

    let (_, value) = routes.match_path(&segments(&["a"])).unwrap();
    assert_eq!(*value, 1);
}

#[test]
fn insert_segments_conflicts_on_the_normalized_path() {
    let mut routes: RoutingNode<u32> = RoutingNode::new();
    assert!(routes.insert_segments(&segments(&["a", "b"]), 1).is_ok());
    assert!(routes.insert_segments(&segments(&["a", "", "b"]), 2).is_err());
}

#[test]
fn the_root_may_be_a_catch_all() {
    let mut routes: RoutingNode<u32> = RoutingNode::new();
    routes.add_route("/", 7);

    let (trailing, value) = routes.match_path(&segments(&["anything", "at", "all"])).unwrap();
    assert_eq!(*value, 7);
    assert_eq!(trailing, segments(&["anything", "at", "all"]));
}

#[test]
fn try_add_route_reports_unparseable_paths() {
    let mut routes: RoutingNode<u32> = RoutingNode::new();
    assert!(matches!(routes.try_add_route("/ok", 1), Some(Ok(()))));
    assert!(matches!(routes.try_add_route("/ok", 2), Some(Err(_))));
    assert!(routes.try_add_route("%zz", 3).is_none());
}
