use ft_fastpath::aggregate::ResultAggregator;
use ft_fastpath::entry::EntryKind;
use ft_fastpath::rules::Verdict;
use ft_fastpath::walk::{
    is_control_dir, worker_count, Action, OpenDir, PendingDir, WalkQueue, DEFAULT_MAX_WORKERS,
};

fn open(path: &str, rule_text: Option<&str>) -> OpenDir {
    PendingDir::root(path.to_string()).open(rule_text)
}

fn emitted(action: Action) -> Option<String> {
    match action {
        Action::Emit { path } => Some(path),
        _ => None,
    }
}

fn descended(action: Action) -> Option<PendingDir> {
    match action {
        Action::Descend { dir } => Some(dir),
        _ => None,
    }
}

#[test]
fn control_directories_are_known_by_name() {
    assert!(is_control_dir(".git"));
    assert!(is_control_dir(".hg"));
    assert!(is_control_dir(".svn"));
    assert!(!is_control_dir(".gitignore"));
    assert!(!is_control_dir("git"));
    assert!(!is_control_dir(".github"));
    assert!(!is_control_dir(""));
}

#[test]
fn included_file_is_emitted_with_its_path() {
    let dir = open("/repo", None);
    assert_eq!(emitted(dir.classify("a.txt", EntryKind::File)), Some("/repo/a.txt".to_string()));
}

#[test]
fn excluded_file_is_skipped() {
    let dir = open("/repo", Some("*.log\n"));
    assert!(matches!(dir.classify("b.log", EntryKind::File), Action::Skip));
    assert_eq!(emitted(dir.classify("a.txt", EntryKind::File)), Some("/repo/a.txt".to_string()));
}

#[test]
fn included_directory_is_queued_with_the_rules_in_force() {
    let dir = open("/repo", Some("*.log\n"));
    let below = descended(dir.classify("src", EntryKind::Dir)).unwrap();
    assert_eq!(below.path, "/repo/src");
    assert_eq!(below.rules.len(), 1);
    assert_eq!(below.rules.evaluate("/repo/src/x.log", false), Verdict::Exclude);
}

#[test]
fn excluded_directory_is_skipped() {
    let dir = open("/repo", Some("target/\n"));
    assert!(matches!(dir.classify("target", EntryKind::Dir), Action::Skip));
    assert_eq!(emitted(dir.classify("target", EntryKind::File)), Some("/repo/target".to_string()));
}

#[test]
fn control_directory_is_skipped_whatever_the_rules_say() {
    let plain = open("/repo", None);
    assert!(matches!(plain.classify(".git", EntryKind::Dir), Action::Skip));
    assert!(matches!(plain.classify(".hg", EntryKind::Dir), Action::Skip));
    assert!(matches!(plain.classify(".svn", EntryKind::Dir), Action::Skip));
    let forced = open("/repo", Some("!.git\n!.git/\n!/.git/\n"));
    assert!(matches!(forced.classify(".git", EntryKind::Dir), Action::Skip));
}

#[test]
fn regular_file_named_like_a_control_directory_is_emitted() {
    let dir = open("/repo/sub", None);
    assert_eq!(emitted(dir.classify(".git", EntryKind::File)), Some("/repo/sub/.git".to_string()));
}

#[test]
fn links_and_other_entries_are_skipped() {
    let dir = open("/repo", None);
    assert!(matches!(dir.classify("link", EntryKind::Symlink), Action::Skip));
    assert!(matches!(dir.classify("socket", EntryKind::Other), Action::Skip));
}

#[test]
fn opening_keeps_the_path_and_appends_the_rules() {
    let root = PendingDir::root("/repo".to_string());
    assert_eq!(root.path, "/repo");
    assert_eq!(root.rules.len(), 0);
    let opened = root.open(Some("a\nb\nc"));
    assert_eq!(opened.path, "/repo");
    assert_eq!(opened.rules.len(), 3);
    let below = descended(opened.classify("sub", EntryKind::Dir)).unwrap().open(Some("d\n"));
    assert_eq!(below.path, "/repo/sub");
    assert_eq!(below.rules.len(), 4);
}

#[test]
fn worker_count_follows_the_hint() {
    assert_eq!(worker_count(1, 8), 1);
    assert_eq!(worker_count(3, 8), 3);
    assert_eq!(worker_count(64, 8), 64);
    assert_eq!(worker_count(usize::MAX, 0), usize::MAX);
}

#[test]
fn worker_count_without_hint_follows_the_host() {
    assert_eq!(DEFAULT_MAX_WORKERS, 12);
    assert_eq!(worker_count(0, 0), 1);
    assert_eq!(worker_count(0, 1), 1);
    assert_eq!(worker_count(0, 8), 8);
    assert_eq!(worker_count(0, 12), 12);
    assert_eq!(worker_count(0, 13), 12);
    assert_eq!(worker_count(0, usize::MAX), 12);
}

#[test]
fn queue_starts_with_the_root_waiting() {
    let mut queue = WalkQueue::new(PendingDir::root("/repo".to_string()));
    assert!(!queue.is_finished());
    let claimed = queue.claim().unwrap();
    assert_eq!(claimed.path, "/repo");
    assert!(!queue.is_finished());
    assert!(queue.claim().is_none());
    queue.release();
    assert!(queue.is_finished());
    assert!(queue.claim().is_none());
}

#[test]
fn queue_hands_out_the_directory_queued_last() {
    let mut queue = WalkQueue::new(PendingDir::root("/repo".to_string()));
    let _root = queue.claim().unwrap();
    queue.push(PendingDir::root("/repo/a".to_string()));
    queue.push(PendingDir::root("/repo/b".to_string()));
    queue.release();
    assert!(!queue.is_finished());
    assert_eq!(queue.claim().unwrap().path, "/repo/b");
    assert_eq!(queue.claim().unwrap().path, "/repo/a");
    assert!(queue.claim().is_none());
    queue.release();
    assert!(!queue.is_finished());
    queue.release();
    assert!(queue.is_finished());
}

#[test]
fn release_without_work_changes_nothing() {
    let mut queue = WalkQueue::new(PendingDir::root("/repo".to_string()));
    queue.release();
    assert!(!queue.is_finished());
    let _root = queue.claim().unwrap();
    queue.release();
    queue.release();
    assert!(queue.is_finished());
}

#[test]
fn aggregator_keeps_everything_in_order_of_arrival() {
    let mut aggregator: ResultAggregator<u32> = ResultAggregator::new();
    assert_eq!(aggregator.len(), 0);
    aggregator.accept(3);
    aggregator.accept(1);
    aggregator.accept(3);
    assert_eq!(aggregator.len(), 3);
    assert_eq!(aggregator.finish(), vec![3, 1, 3]);
}

#[test]
fn aggregator_without_items_hands_over_nothing() {
    let aggregator: ResultAggregator<String> = ResultAggregator::new();
    assert!(aggregator.finish().is_empty());
}
