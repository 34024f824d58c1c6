use imagefall::error::Error;
use imagefall::handlers::{
    format_path, get_item, reslove_relative_path, split_request_path, Uri, UriBox,
};

fn components(parts: &[&str]) -> Vec<String> {
    parts.iter().map(|p| p.to_string()).collect()
}

#[test]
fn split_keeps_every_piece() {
    assert_eq!(split_request_path("sub/pic.png"), components(&["sub", "pic.png"]));
    assert_eq!(split_request_path(""), components(&[""]));
    assert_eq!(split_request_path("/a//b"), components(&["", "a", "", "b"]));
    assert_eq!(split_request_path("a/"), components(&["a", ""]));
}

#[test]
fn format_path_joins_lexically() {
    let base = components(&["srv", "gallery"]);
    assert_eq!(format_path(&base, &components(&["sub", "pic.png"])), components(&[
        "srv", "gallery", "sub", "pic.png",
    ]));
    assert_eq!(format_path(&base, &components(&["", ".", "a"])), components(&[
        "srv", "gallery", "a",
    ]));
    assert_eq!(format_path(&base, &components(&["..", "secret"])), components(&["srv", "secret"]));
    assert_eq!(
        format_path(&components(&[]), &components(&["..", "..", "x"])),
        components(&["x"])
    );
}

#[test]
fn resolve_accepts_paths_under_the_base() {
    let base = components(&["home", "me"]);
    let target = components(&["home", "me", "pics", "cat.png"]);
    let uri = reslove_relative_path(&base, &target).unwrap();
    assert_eq!(uri.as_str(), "/pics/cat.png");

    let root_itself = reslove_relative_path(&base, &base).unwrap();
    assert_eq!(root_itself.as_str(), "/");
}

#[test]
fn resolve_rejects_paths_outside_the_base() {
    let base = components(&["home", "me"]);
    let shorter = components(&["home"]);
    let sibling = components(&["home", "you", "pics", "cat.png"]);
    assert!(matches!(reslove_relative_path(&base, &shorter), Err(Error::PathTraversal)));
    assert!(matches!(reslove_relative_path(&base, &sibling), Err(Error::PathTraversal)));
}

#[test]
fn encoded_parent_segment_is_a_traversal() {
    let root = components(&["srv", "gallery"]);
    let request = split_request_path("../secret");
    let candidate = format_path(&root, &request);
    assert_eq!(candidate, components(&["srv", "secret"]));
    let resolved = reslove_relative_path(&root, &candidate);
    match resolved {
        Err(e) => {
            assert!(matches!(e, Error::PathTraversal));
            assert_eq!(e.status(), 500);
        },
        Ok(uri) => panic!("traversal must not resolve, got {}", uri.as_str()),
    }
}

#[test]
fn resolution_round_trips() {
    let base = components(&["home", "me"]);
    let target = components(&["home", "me", "pics", "cat.png"]);
    let uri = reslove_relative_path(&base, &target).unwrap();
    let segments = split_request_path(uri.as_str());
    let rejoined = format_path(&base, &segments);
    assert_eq!(rejoined, target);
}

#[test]
fn root_resolution_round_trips_through_the_root_marker() {
    let base = components(&["home", "me"]);
    let uri = reslove_relative_path(&base, &base).unwrap();
    assert_eq!(uri.as_str(), "/");
    let segments = split_request_path(uri.as_str());
    let rejoined = format_path(&base, &segments);
    assert_eq!(rejoined, base);
}

#[test]
fn uri_construction() {
    assert_eq!(Uri::new("/x".to_string()).as_str(), "/x");
    assert_eq!(Uri::from_iter(&components(&[])).as_str(), "/");
    assert_eq!(Uri::from_iter(&components(&["a", "b"])).as_str(), "/a/b");
    assert_eq!(Uri::frompath(&components(&["sub", "pic.png"])).as_str(), "/sub/pic.png");
    assert_eq!(Uri::frompath(&components(&[])).as_str(), "/");
    assert_eq!(Uri::frompath(&components(&["", ".", "a"])).as_str(), "/a");
    assert_eq!(Uri::frompath(&components(&["", "."])).as_str(), "/");
}

#[test]
fn uri_box_keeps_its_parts() {
    let b = UriBox::new(components(&["srv", "a.png"]), Uri::new("/a.png".to_string()));
    assert_eq!(b.path, components(&["srv", "a.png"]));
    assert_eq!(b.uri.as_str(), "/a.png");
}

#[test]
fn listing_pairs_children_with_uris() {
    let base = components(&["srv", "gallery"]);
    let children = vec![
        components(&["srv", "gallery", "a.png"]),
        components(&["srv", "gallery", "b.txt"]),
    ];
    let items = get_item(&base, &children).unwrap();
    assert_eq!(items.len(), 2);
    assert_eq!(items[0].uri.as_str(), "/a.png");
    assert_eq!(items[1].uri.as_str(), "/b.txt");
    assert_eq!(items[0].path, children[0]);
}

#[test]
fn listing_fails_on_a_child_outside_the_base() {
    let base = components(&["srv", "gallery"]);
    let children = vec![
        components(&["srv", "gallery", "a.png"]),
        components(&["srv", "elsewhere", "b.png"]),
    ];
    assert!(matches!(get_item(&base, &children), Err(Error::PathTraversal)));
}
