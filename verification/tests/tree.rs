use treeview::order::text_order;
use treeview::tree::{
    build_tree, find_parent_row, flatten_tree, is_hidden_name, load_children, ExpandedSet,
    RawEntry, Snapshot, TreeNode, VisibleRow,
};

fn entry(dir: &str, name: &str, is_directory: bool) -> RawEntry {
    RawEntry {
        name: name.to_string(),
        path: format!("{}/{}", dir, name),
        is_directory,
        is_symlink: false,
    }
}

fn names(nodes: &Vec<TreeNode>) -> Vec<String> {
    nodes.iter().map(|n| n.name.clone()).collect()
}

fn shown(rows: &Vec<VisibleRow>) -> Vec<(String, usize)> {
    rows.iter().map(|r| (r.name.clone(), r.depth)).collect()
}

fn pairs(list: &[(&str, usize)]) -> Vec<(String, usize)> {
    list.iter().map(|(n, d)| (n.to_string(), *d)).collect()
}

fn open(paths: &[&str]) -> ExpandedSet {
    let mut set = ExpandedSet::new();
    for p in paths {
        set.insert(p.to_string());
    }
    set
}

fn row(name: &str, depth: usize) -> VisibleRow {
    VisibleRow {
        name: name.to_string(),
        path: format!("/{}", name),
        is_directory: false,
        is_symlink: false,
        depth,
        is_expanded: false,
    }
}

#[test]
fn listing_is_put_in_order() {
    let raw = vec![
        entry("/r", "b.txt", false),
        entry("/r", "Zeta", true),
        entry("/r", "A.txt", false),
        entry("/r", "alpha", true),
        entry("/r", "a.txt", false),
        entry("/r", "_x", false),
        entry("/r", "Beta", true),
        entry("/r", "10", false),
        entry("/r", "9", false),
    ];
    let nodes = build_tree(&raw);
    assert_eq!(
        names(&nodes),
        vec!["alpha", "Beta", "Zeta", "10", "9", "_x", "A.txt", "a.txt", "b.txt"]
    );
    assert!(nodes.iter().all(|n| n.children.is_none()));
    assert_eq!(nodes[0].path, "/r/alpha");
    assert!(nodes[0].is_directory);
    assert!(!nodes[3].is_directory);
}

#[test]
fn order_does_not_depend_on_how_the_listing_was_read() {
    let names_in = ["b", "A", "c", "D", "e"];
    let expected = vec!["A", "b", "c", "D", "e"];
    // every rotation and the reverse
    for shift in 0..names_in.len() {
        let mut raw: Vec<RawEntry> = Vec::new();
        for i in 0..names_in.len() {
            raw.push(entry("/r", names_in[(i + shift) % names_in.len()], false));
        }
        assert_eq!(names(&build_tree(&raw)), expected);
        raw.reverse();
        assert_eq!(names(&build_tree(&raw)), expected);
    }
    assert!(build_tree(&Vec::new()).is_empty());
}

#[test]
fn entries_that_differ_in_case_only_keep_their_order() {
    let raw = vec![entry("/r", "readme", false), entry("/r", "README", false), entry("/r", "ReadMe", false)];
    assert_eq!(names(&build_tree(&raw)), vec!["readme", "README", "ReadMe"]);
    let raw = vec![entry("/r", "README", false), entry("/r", "ReadMe", false), entry("/r", "readme", false)];
    assert_eq!(names(&build_tree(&raw)), vec!["README", "ReadMe", "readme"]);
}

#[test]
fn names_are_compared_without_regard_to_case() {
    let raw = vec![entry("/r", "Éclair", false), entry("/r", "école", false), entry("/r", "Zoo", false), entry("/r", "apple", false)];
    let mut expected: Vec<String> = raw.iter().map(|e| e.name.clone()).collect();
    expected.sort_by(|a, b| a.to_lowercase().cmp(&b.to_lowercase()));
    assert_eq!(names(&build_tree(&raw)), expected);
}

#[test]
fn texts_are_ordered_as_in_the_dictionary() {
    let c = |s: &str| s.chars().collect::<Vec<char>>();
    assert_eq!(text_order(&c("a"), &c("b")), -1);
    assert_eq!(text_order(&c("b"), &c("a")), 1);
    assert_eq!(text_order(&c("a"), &c("a")), 0);
    assert_eq!(text_order(&c(""), &c("")), 0);
    assert_eq!(text_order(&c(""), &c("a")), -1);
    assert_eq!(text_order(&c("ab"), &c("a")), 1);
    assert_eq!(text_order(&c("abc"), &c("abd")), -1);
    assert_eq!(text_order(&c("Z"), &c("a")), -1);
    for (a, b) in [("é", "z"), ("日本", "日本語"), ("a\u{10000}", "a\u{FFFF}")] {
        let expected = match a.cmp(b) {
            std::cmp::Ordering::Less => -1,
            std::cmp::Ordering::Equal => 0,
            std::cmp::Ordering::Greater => 1,
        };
        assert_eq!(text_order(&c(a), &c(b)), expected);
    }
}

#[test]
fn hidden_entries_are_left_out_or_shown() {
    let raw = vec![entry("/r", "README", false), entry("/r", ".git", true)];
    let mut tree = build_tree(&raw);
    let fs = Snapshot::new();
    let rows = flatten_tree(&mut tree, &ExpandedSet::new(), false, &fs);
    assert_eq!(shown(&rows), pairs(&[("README", 0)]));
    let rows = flatten_tree(&mut tree, &ExpandedSet::new(), true, &fs);
    assert_eq!(shown(&rows), pairs(&[(".git", 0), ("README", 0)]));
    assert!(is_hidden_name(&".git".to_string()));
    assert!(is_hidden_name(&".".to_string()));
    assert!(!is_hidden_name(&"a.b".to_string()));
    assert!(!is_hidden_name(&"".to_string()));
}

#[test]
fn hidden_entries_are_left_out_at_every_depth() {
    let mut tree = build_tree(&vec![entry("/r", "a", true)]);
    let mut fs = Snapshot::new();
    fs.record("/r/a".to_string(), vec![entry("/r/a", ".secret", false), entry("/r/a", "x", false), entry("/r/a", ".d", true)]);
    fs.record("/r/a/.d".to_string(), vec![entry("/r/a/.d", "inner", false)]);
    let expanded = open(&["/r/a", "/r/a/.d"]);
    let rows = flatten_tree(&mut tree, &expanded, false, &fs);
    assert_eq!(shown(&rows), pairs(&[("a", 0), ("x", 1)]));
    let rows = flatten_tree(&mut tree, &expanded, true, &fs);
    assert_eq!(shown(&rows), pairs(&[("a", 0), (".d", 1), ("inner", 2), (".secret", 1), ("x", 1)]));
}

#[test]
fn browsing_from_the_root() {
    let roots = vec![entry("/r", "b.txt", false), entry("/r", ".hidden", false), entry("/r", "a", true)];
    let mut fs = Snapshot::new();
    fs.record("/r/a".to_string(), vec![entry("/r/a", "x.txt", false)]);

    let mut tree = build_tree(&roots);
    let rows = flatten_tree(&mut tree, &ExpandedSet::new(), false, &fs);
    assert_eq!(shown(&rows), pairs(&[("a", 0), ("b.txt", 0)]));
    assert!(rows[0].is_directory && !rows[0].is_expanded);
    assert!(!rows[1].is_directory && !rows[1].is_expanded);

    let expanded = open(&["/r/a"]);
    let mut tree = build_tree(&roots);
    let rows = flatten_tree(&mut tree, &expanded, false, &fs);
    assert_eq!(shown(&rows), pairs(&[("a", 0), ("x.txt", 1), ("b.txt", 0)]));
    assert!(rows[0].is_expanded);
    assert_eq!(rows[1].path, "/r/a/x.txt");
    assert_eq!(names(tree[0].children.as_ref().unwrap()), vec!["x.txt"]);
    assert!(tree[1].children.is_none());

    let mut tree = build_tree(&roots);
    let rows = flatten_tree(&mut tree, &expanded, true, &fs);
    assert_eq!(shown(&rows), pairs(&[("a", 0), ("x.txt", 1), (".hidden", 0), ("b.txt", 0)]));
}

#[test]
fn open_directory_without_listing_has_no_entries() {
    let mut tree = build_tree(&vec![entry("/r", "gone", true), entry("/r", "f", false)]);
    let expanded = open(&["/r/gone", "/r/f"]);
    let rows = flatten_tree(&mut tree, &expanded, false, &Snapshot::new());
    assert_eq!(shown(&rows), pairs(&[("gone", 0), ("f", 0)]));
    assert!(rows[0].is_expanded);
    // A file is never shown open, whatever the set holds.
    assert!(!rows[1].is_expanded);
    assert_eq!(tree[0].children.as_ref().map(|c| c.len()), Some(0));
}

#[test]
fn children_are_read_again_each_time() {
    let roots = vec![entry("/r", "a", true)];
    let expanded = open(&["/r/a"]);
    let mut tree = build_tree(&roots);
    let mut fs = Snapshot::new();
    fs.record("/r/a".to_string(), vec![entry("/r/a", "old", false)]);
    assert_eq!(shown(&flatten_tree(&mut tree, &expanded, false, &fs)), pairs(&[("a", 0), ("old", 1)]));
    let mut fs = Snapshot::new();
    fs.record("/r/a".to_string(), vec![entry("/r/a", "new", false), entry("/r/a", "more", false)]);
    assert_eq!(
        shown(&flatten_tree(&mut tree, &expanded, false, &fs)),
        pairs(&[("a", 0), ("more", 1), ("new", 1)])
    );
    assert_eq!(names(tree[0].children.as_ref().unwrap()), vec!["more", "new"]);
}

#[test]
fn nesting_stops_below_the_deepest_level() {
    // A directory that lists itself, as a cycle of links would.
    let roots = vec![RawEntry { name: "loop".to_string(), path: "/loop".to_string(), is_directory: true, is_symlink: true }];
    let mut fs = Snapshot::new();
    fs.record("/loop".to_string(), vec![RawEntry { name: "loop".to_string(), path: "/loop".to_string(), is_directory: true, is_symlink: true }]);
    let mut tree = build_tree(&roots);
    let rows = flatten_tree(&mut tree, &open(&["/loop"]), false, &fs);
    assert_eq!(rows.len(), 51);
    for (i, r) in rows.iter().enumerate() {
        assert_eq!(r.depth, i);
        assert!(r.is_symlink && r.is_expanded);
    }
}

#[test]
fn loading_children() {
    let mut fs = Snapshot::new();
    fs.record("/r/d".to_string(), vec![entry("/r/d", "z", false), entry("/r/d", "sub", true)]);
    let mut tree = build_tree(&vec![entry("/r", "d", true), entry("/r", "f", false), entry("/r", "e", true)]);
    load_children(&mut tree[0], &fs);
    assert_eq!(names(tree[0].children.as_ref().unwrap()), vec!["sub", "z"]);
    assert_eq!(tree[0].name, "d");
    load_children(&mut tree[1], &fs);
    assert_eq!(names(tree[1].children.as_ref().unwrap()), Vec::<String>::new());
    load_children(&mut tree[2], &fs);
    assert!(tree[2].children.is_none());
    assert_eq!(tree[2].name, "f");
}

#[test]
fn snapshot_keeps_the_last_listing_of_a_path() {
    let mut fs = Snapshot::new();
    assert!(fs.listing(&"/a".to_string()).is_none());
    fs.record("/a".to_string(), vec![entry("/a", "one", false)]);
    fs.record("/b".to_string(), vec![]);
    fs.record("/a".to_string(), vec![entry("/a", "two", false), entry("/a", "three", false)]);
    assert_eq!(fs.listing(&"/a".to_string()).map(|l| l.len()), Some(2));
    assert_eq!(fs.listing(&"/a".to_string()).unwrap()[0].name, "two");
    assert_eq!(fs.listing(&"/b".to_string()).map(|l| l.len()), Some(0));
    assert!(fs.listing(&"/c".to_string()).is_none());
}

#[test]
fn set_of_open_directories() {
    let mut set = ExpandedSet::new();
    let a = "/a".to_string();
    let b = "/b".to_string();
    assert!(!set.contains(&a));
    set.insert(a.clone());
    set.insert(a.clone());
    set.insert(b.clone());
    assert!(set.contains(&a) && set.contains(&b));
    // A path that is put in twice is held once.
    assert_eq!(set.to_vec().len(), 2);
    set.remove(&a);
    assert!(!set.contains(&a) && set.contains(&b));
    set.remove(&a);
    set.remove(&b);
    assert!(!set.contains(&b));
}

#[test]
fn parent_of_a_row_at_depth_zero_is_the_row() {
    let rows = vec![row("a", 0), row("b", 1), row("c", 0)];
    assert_eq!(find_parent_row(&rows, 0), 0);
    assert_eq!(find_parent_row(&rows, 2), 2);
    assert_eq!(find_parent_row(&rows, 3), 3);
    assert_eq!(find_parent_row(&rows, 99), 99);
    assert_eq!(find_parent_row(&[], 0), 0);
}

#[test]
fn parent_is_the_nearest_row_that_is_less_deep() {
    let rows = vec![row("a", 0), row("b", 1), row("c", 2), row("d", 2), row("e", 1), row("f", 2), row("g", 0), row("h", 1)];
    assert_eq!(find_parent_row(&rows, 1), 0);
    assert_eq!(find_parent_row(&rows, 2), 1);
    assert_eq!(find_parent_row(&rows, 3), 1);
    assert_eq!(find_parent_row(&rows, 4), 0);
    assert_eq!(find_parent_row(&rows, 5), 4);
    assert_eq!(find_parent_row(&rows, 7), 6);
    // Rows that no tree gives: no row before is less deep.
    let odd = vec![row("a", 2), row("b", 2), row("c", 3), row("d", 1)];
    assert_eq!(find_parent_row(&odd, 1), 1);
    assert_eq!(find_parent_row(&odd, 2), 1);
    assert_eq!(find_parent_row(&odd, 3), 3);
}

#[test]
fn parent_in_a_flattened_tree_is_one_level_up() {
    let roots = vec![entry("/r", "a", true), entry("/r", "z", false)];
    let mut fs = Snapshot::new();
    fs.record("/r/a".to_string(), vec![entry("/r/a", "b", true), entry("/r/a", "y", false)]);
    fs.record("/r/a/b".to_string(), vec![entry("/r/a/b", "c", true), entry("/r/a/b", "x", false)]);
    fs.record("/r/a/b/c".to_string(), vec![entry("/r/a/b/c", "w", false)]);
    let mut tree = build_tree(&roots);
    let rows = flatten_tree(&mut tree, &open(&["/r/a", "/r/a/b", "/r/a/b/c"]), false, &fs);
    assert_eq!(
        shown(&rows),
        pairs(&[("a", 0), ("b", 1), ("c", 2), ("w", 3), ("x", 2), ("y", 1), ("z", 0)])
    );
    for i in 0..rows.len() {
        let p = find_parent_row(&rows, i);
        if rows[i].depth == 0 {
            assert_eq!(p, i);
        } else {
            assert!(p < i);
            assert_eq!(rows[p].depth + 1, rows[i].depth);
            assert!(rows[i].path.starts_with(&format!("{}/", rows[p].path)));
            for k in p + 1..i {
                assert!(rows[k].depth >= rows[i].depth);
            }
        }
    }
}

fn deep_tree() -> (Vec<RawEntry>, Snapshot) {
    let roots = vec![entry("/r", "a", true), entry("/r", ".h", true), entry("/r", "z", false), entry("/r", ".f", false)];
    let mut fs = Snapshot::new();
    fs.record("/r/a".to_string(), vec![entry("/r/a", "b", true), entry("/r/a", ".c", false), entry("/r/a", "y", false)]);
    fs.record("/r/a/b".to_string(), vec![entry("/r/a/b", ".d", true), entry("/r/a/b", "x", false)]);
    fs.record("/r/a/b/.d".to_string(), vec![entry("/r/a/b/.d", "w", false), entry("/r/a/b/.d", ".v", false)]);
    fs.record("/r/.h".to_string(), vec![entry("/r/.h", "inside", false), entry("/r/.h", "more", true)]);
    fs.record("/r/.h/more".to_string(), vec![entry("/r/.h/more", "last", false)]);
    (roots, fs)
}

#[test]
fn deeper_row_follows_the_open_directory_that_lists_it() {
    let (roots, fs) = deep_tree();
    let expanded = open(&["/r/a", "/r/a/b", "/r/a/b/.d", "/r/.h", "/r/.h/more", "/r/z"]);
    for show_hidden in [false, true] {
        let mut tree = build_tree(&roots);
        let rows = flatten_tree(&mut tree, &expanded, show_hidden, &fs);
        assert_eq!(rows[0].depth, 0);
        for i in 1..rows.len() {
            assert!(rows[i].depth <= rows[i - 1].depth + 1);
            if rows[i].depth == rows[i - 1].depth + 1 {
                assert!(rows[i - 1].is_directory && rows[i - 1].is_expanded);
                let listed = fs.listing(&rows[i - 1].path).unwrap();
                assert!(listed.iter().any(|e| e.path == rows[i].path && e.name == rows[i].name));
            }
        }
    }
}

#[test]
fn hiding_takes_out_hidden_rows_and_what_lies_below_them() {
    let (roots, fs) = deep_tree();
    let expanded = open(&["/r/a", "/r/a/b", "/r/a/b/.d", "/r/.h", "/r/.h/more"]);
    let mut tree = build_tree(&roots);
    let all = flatten_tree(&mut tree, &expanded, true, &fs);
    let kept = flatten_tree(&mut tree, &expanded, false, &fs);
    assert_eq!(
        shown(&all),
        pairs(&[
            (".h", 0), ("more", 1), ("last", 2), ("inside", 1), ("a", 0), ("b", 1), (".d", 2),
            (".v", 3), ("w", 3), ("x", 2), (".c", 1), ("y", 1), (".f", 0), ("z", 0),
        ])
    );
    let mut expected: Vec<(String, usize)> = Vec::new();
    let mut i = 0;
    while i < all.len() {
        if all[i].name.starts_with('.') {
            let depth = all[i].depth;
            i += 1;
            while i < all.len() && all[i].depth > depth {
                i += 1;
            }
        } else {
            expected.push((all[i].name.clone(), all[i].depth));
            i += 1;
        }
    }
    assert_eq!(shown(&kept), expected);
    assert_eq!(shown(&kept), pairs(&[("a", 0), ("b", 1), ("x", 2), ("y", 1), ("z", 0)]));
}
