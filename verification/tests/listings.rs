use fetch_server::media::MediaKind;
use fetch_server::serve::locate;
use fetch_server::walk::{
    media_item, sort_files, sort_media, Entry, FileEntry, FileWalk, MediaItem, MediaWalk,
};

enum Node {
    File(&'static str, u64),
    Folder(&'static str, Vec<Node>),
}

fn tree() -> Vec<Node> {
    vec![
        Node::File("root.JPG", 1),
        Node::Folder(
            "b",
            vec![
                Node::File("z.mp4", 2),
                Node::Folder("deep", vec![Node::File("a.png", 3), Node::File("notes.txt", 4)]),
            ],
        ),
        Node::Folder("a", vec![Node::File("y.gif", 5)]),
        Node::Folder("empty", vec![]),
    ]
}

fn entry(node: &Node) -> Entry<&[Node]> {
    match node {
        Node::File(name, size) => {
            Entry { place: &[], name: name.to_string(), is_dir: false, size: *size }
        }
        Node::Folder(name, nodes) => {
            Entry { place: nodes.as_slice(), name: name.to_string(), is_dir: true, size: 0 }
        }
    }
}

fn media(nodes: &[Node], skip_root: bool) -> Vec<MediaItem> {
    let mut walk = MediaWalk::new(nodes, "id", skip_root);
    let mut folders = 0;
    while let Some((dir, prefix)) = walk.next_folder() {
        folders += 1;
        for node in dir {
            walk.visit(&prefix, entry(node));
        }
    }
    assert_eq!(folders, 5);
    let count = walk.count();
    let items = walk.into_items();
    assert_eq!(items.len(), count);
    items
}

#[test]
fn all_files_in_the_order_of_their_paths() {
    let nodes = tree();
    let mut walk = FileWalk::new(nodes.as_slice());
    while let Some((dir, prefix)) = walk.next_folder() {
        for node in dir {
            walk.visit(&prefix, entry(node));
        }
    }
    let files = walk.into_files();
    let found: Vec<(&str, u64, &str)> =
        files.iter().map(|f| (f.name.as_str(), f.size, f.path.as_str())).collect();
    assert_eq!(
        found,
        [
            ("y.gif", 5, "a/y.gif"),
            ("a.png", 3, "b/deep/a.png"),
            ("notes.txt", 4, "b/deep/notes.txt"),
            ("z.mp4", 2, "b/z.mp4"),
            ("root.JPG", 1, "root.JPG"),
        ]
    );
}

#[test]
fn media_files_with_their_groups() {
    let items = media(&tree(), false);
    let found: Vec<(&str, &str, &str, u64, MediaKind)> = items
        .iter()
        .map(|m| (m.url.as_str(), m.path.as_str(), m.group.as_str(), m.size, m.kind))
        .collect();
    assert_eq!(
        found,
        [
            ("/files/id/a/y.gif", "a/y.gif", "a", 5, MediaKind::Image),
            ("/files/id/b/deep/a.png", "b/deep/a.png", "b", 3, MediaKind::Image),
            ("/files/id/b/z.mp4", "b/z.mp4", "b", 2, MediaKind::Video),
            ("/files/id/root.JPG", "root.JPG", "", 1, MediaKind::Image),
        ]
    );
    assert_eq!(items[1].name, "a.png");
}

#[test]
fn files_at_the_root_can_be_skipped() {
    let paths: Vec<String> = media(&tree(), true).into_iter().map(|m| m.path).collect();
    assert_eq!(paths, ["a/y.gif", "b/deep/a.png", "b/z.mp4"]);
}

#[test]
fn the_folder_read_next_is_the_one_seen_last() {
    let nodes = tree();
    let mut walk = FileWalk::new(nodes.as_slice());
    let (dir, prefix) = walk.next_folder().unwrap();
    assert_eq!(prefix, "");
    for node in dir {
        walk.visit(&prefix, entry(node));
    }
    let mut prefixes = Vec::new();
    while let Some((_, prefix)) = walk.next_folder() {
        prefixes.push(prefix);
    }
    assert_eq!(prefixes, ["empty", "a", "b"]);
}

#[test]
fn items_of_one_file() {
    let item = |skip: bool, prefix: &str, kind: Option<MediaKind>| {
        media_item("j", skip, prefix, "n.jpg".to_string(), 9, kind)
    };
    assert!(item(false, "", None).is_none());
    assert!(item(true, "", Some(MediaKind::Image)).is_none());
    assert_eq!(item(false, "", Some(MediaKind::Image)).unwrap().url, "/files/j/n.jpg");
    let m = item(true, "p/q", Some(MediaKind::Image)).unwrap();
    assert_eq!((m.path.as_str(), m.group.as_str(), m.size), ("p/q/n.jpg", "p", 9));
}

fn file(path: &str, size: u64) -> FileEntry {
    FileEntry { name: String::new(), size, path: path.to_string() }
}

#[test]
fn sorting_agrees_with_std() {
    let paths = [
        "b", "a", "", "a/b", "a b", "ab", "Z", "z", "é", "e", "\u{ffff}", "\u{10000}", "a", "b", "a/", "9",
    ];
    let mut expected: Vec<(String, u64)> =
        paths.iter().enumerate().map(|(i, p)| (p.to_string(), i as u64)).collect();
    let files: Vec<FileEntry> = expected.iter().map(|(p, i)| file(p, *i)).collect();
    expected.sort_by(|a, b| a.0.cmp(&b.0));
    let sorted: Vec<(String, u64)> =
        sort_files(files).into_iter().map(|f| (f.path, f.size)).collect();
    assert_eq!(sorted, expected);
    assert!(sort_files(Vec::new()).is_empty());
}

#[test]
fn media_with_one_path_stay_in_their_order() {
    let m = |path: &str, size: u64| MediaItem {
        url: String::new(),
        path: path.to_string(),
        name: String::new(),
        group: String::new(),
        size,
        kind: MediaKind::Image,
    };
    let sorted = sort_media(vec![m("b", 1), m("a", 2), m("b", 3), m("a", 4), m("b", 5)]);
    let sizes: Vec<u64> = sorted.iter().map(|x| x.size).collect();
    assert_eq!(sizes, [2, 4, 1, 3, 5]);
}

#[test]
fn what_is_listed_can_be_served() {
    for m in media(&tree(), false) {
        assert_eq!(m.url, format!("/files/id/{}", m.path));
        assert_eq!(locate("/d", "id", &m.path), Some(format!("/d/id/{}", m.path)));
    }
}
