use ft_fastpath::hash::FileContent;
use ft_fastpath::tree::{DirTree, TreeChild, TreeNode};
use ft_fastpath::{hash_files_parallel, scan_repo_parallel, FileEntry, HashResult};

#[test]
fn scan_and_hash_are_reached_from_the_crate_root() {
    let repo = DirTree {
        rule_text: None,
        listing: Some(vec![TreeChild {
            name: "a.txt".to_string(),
            node: TreeNode::File { stat: None },
        }]),
    };
    let entries: Vec<FileEntry> = scan_repo_parallel("/repo", 0, &repo);
    assert_eq!(entries.len(), 1);
    assert_eq!(entries[0].path, "/repo/a.txt");

    let items: Vec<FileContent> = entries
        .iter()
        .map(|e| FileContent { path: e.path.clone(), bytes: Some(b"abc".to_vec()) })
        .collect();
    let results: Vec<HashResult> = hash_files_parallel(&items);
    assert_eq!(results.len(), 1);
    assert_eq!(results[0].path, "/repo/a.txt");
    assert_eq!(
        results[0].digest_hex,
        "6437b3ac38465133ffb63b75273a8db548c558465d79db03fd359c6cd5bd9d85"
    );
}

#[test]
fn file_entry_can_be_cloned() {
    let entry = FileEntry { path: "p".to_string(), size: 3, mtime_s: 4 };
    let copy = entry.clone();
    assert_eq!(copy.path, "p");
    assert_eq!(copy.size, 3);
    assert_eq!(copy.mtime_s, 4);
}
