//! A directory tree held in memory, and what a scan of it reports.

use vstd::prelude::*;
use crate::entry::entry_for;
use crate::entry::EntryKind;
use crate::entry::FileEntryView;
use crate::entry::FileStat;
use crate::rules::answer_of;
use crate::rules::is_negation;
use crate::rules::lemma_excluded_without_later_negation;
use crate::text::join_path;
use crate::walk::action_for;
use crate::walk::is_control_dir_name;
use crate::walk::opened;
use crate::walk::passes;
use crate::walk::ActionView;
use crate::walk::DirView;

verus! {

/// What stands at one name of a directory.
pub enum TreeNode {
    /// A regular file, with its metadata where it could be read.
    File { stat: Option<FileStat> },
    /// A directory, with what it holds.
    Dir { tree: DirTree },
    /// A symbolic link, whatever it points to.
    Symlink,
    /// Anything else: a socket, a device, a pipe.
    Other,
}

/// One entry of a directory.
pub struct TreeChild {
    pub name: String,
    pub node: TreeNode,
}

/// A directory: the text of its rule file, where it has a readable one, and
/// its entries in the order of their listing, or `None` where it could not
/// be listed.
pub struct DirTree {
    pub rule_text: Option<String>,
    pub listing: Option<Vec<TreeChild>>,
}

/// The entries of a directory; one that could not be listed has none.
pub open spec fn children_of(tree: DirTree) -> Seq<TreeChild> {
    match tree.listing {
        Some(children) => children@,
        None => Seq::empty(),
    }
}

/// The kind that a listing reports for a node.
pub open spec fn kind_of(node: TreeNode) -> EntryKind {
    match node {
        TreeNode::File { .. } => EntryKind::File,
        TreeNode::Dir { .. } => EntryKind::Dir,
        TreeNode::Symlink => EntryKind::Symlink,
        TreeNode::Other => EntryKind::Other,
    }
}

/// The text of a directory's rule file, by its view.
pub open spec fn rule_text_of(tree: DirTree) -> Option<Seq<char>> {
    match tree.rule_text {
        Some(text) => Some(text@),
        None => None,
    }
}

/// What the first `n` entries of `tree` add to a scan, where `tree` is the
/// directory `dir` with the rules that `dir` inherits: an included regular
/// file adds its entry, an included directory that is no control directory
/// adds what a scan of it reports, anything else adds nothing.
pub open spec fn scan_prefix(dir: DirView, tree: DirTree, n: nat) -> Seq<FileEntryView>
    decreases tree, n,
{
    if n == 0 || n > children_of(tree).len() {
        Seq::empty()
    } else {
        let here = opened(dir, rule_text_of(tree));
        let child = children_of(tree)[n - 1];
        let added = match child.node {
            TreeNode::File { stat } => match action_for(here, child.name@, EntryKind::File) {
                ActionView::Emit { path } => seq![entry_for(path, stat)],
                _ => Seq::empty(),
            },
            TreeNode::Dir { tree: sub } => match action_for(here, child.name@, EntryKind::Dir) {
                ActionView::Descend { dir: below } => scan_prefix(below, sub, children_of(sub).len()),
                _ => Seq::empty(),
            },
            _ => Seq::empty(),
        };
        scan_prefix(dir, tree, (n - 1) as nat) + added
    }
}

/// What a scan of `tree` reports, where `tree` is the directory `dir` with
/// the rules that `dir` inherits. The order is that of a walk that finishes
/// each directory before it goes on; a scan by several walkers reports the
/// same entries in another order.
pub open spec fn scan_tree(dir: DirView, tree: DirTree) -> Seq<FileEntryView> {
    scan_prefix(dir, tree, children_of(tree).len())
}

/// Whether `entries` is what a scan of `tree` at `root_path` reports, in
/// any order: every entry as often as the scan gives it.
pub open spec fn is_scan_of(entries: Seq<FileEntryView>, root_path: Seq<char>, tree: DirTree)
    -> bool {
    entries.to_multiset() == scan_tree(
        DirView { path: root_path, rules: Seq::empty() },
        tree,
    ).to_multiset()
}

/// The paths of a sequence of entries.
pub open spec fn paths_of(entries: Seq<FileEntryView>) -> Seq<Seq<char>> {
    Seq::new(entries.len(), |i: int| entries[i].path)
}

/// What entry `i` of `tree` adds to a scan.
pub open spec fn contribution(dir: DirView, tree: DirTree, i: int) -> Seq<FileEntryView>
    recommends
        0 <= i < children_of(tree).len(),
{
    let here = opened(dir, rule_text_of(tree));
    let child = children_of(tree)[i];
    match child.node {
        TreeNode::File { stat } => if passes(here, child.name@, false) {
            seq![entry_for(join_path(dir.path, child.name@), stat)]
        } else {
            Seq::empty()
        },
        TreeNode::Dir { tree: sub } => if !is_control_dir_name(child.name@) && passes(
            here,
            child.name@,
            true,
        ) {
            scan_tree(DirView { path: join_path(dir.path, child.name@), rules: here.rules }, sub)
        } else {
            Seq::empty()
        },
        _ => Seq::empty(),
    }
}

/// A scan reports what its entries add, one after the other.
pub proof fn lemma_scan_prefix_step(dir: DirView, tree: DirTree, n: nat)
    requires
        0 < n <= children_of(tree).len(),
    ensures
        scan_prefix(dir, tree, n) == scan_prefix(dir, tree, (n - 1) as nat) + contribution(
            dir,
            tree,
            n - 1,
        ),
{
}

/// Whether `route` leads to a regular file of `tree` whose entry is `entry`
/// and which a scan reports. A route names the entries to follow, each by
/// its place in the listing of its directory. Its last step is a regular
/// file that the rules in force include; every step before is a directory
/// that the rules in force include and that is no control directory.
pub open spec fn reported_via(dir: DirView, tree: DirTree, route: Seq<int>, entry: FileEntryView)
    -> bool
    decreases route.len(),
{
    if route.len() == 0 || !(0 <= route[0] < children_of(tree).len()) {
        false
    } else {
        let here = opened(dir, rule_text_of(tree));
        let child = children_of(tree)[route[0]];
        let path = join_path(dir.path, child.name@);
        match child.node {
            TreeNode::File { stat } => route.len() == 1 && passes(here, child.name@, false)
                && entry == entry_for(path, stat),
            TreeNode::Dir { tree: sub } => !is_control_dir_name(child.name@) && passes(
                here,
                child.name@,
                true,
            ) && reported_via(DirView { path, rules: here.rules }, sub, route.drop_first(), entry),
            _ => false,
        }
    }
}

/// Whether some route leads to a reported regular file with this entry.
pub open spec fn reported(dir: DirView, tree: DirTree, entry: FileEntryView) -> bool {
    exists|route: Seq<int>| reported_via(dir, tree, route, entry)
}

/// A scan reports exactly the regular files that the rules include and that
/// are reached through included directories other than control directories:
/// never a directory, a symbolic link or anything below a control directory.
pub proof fn lemma_scan_reports_exactly(dir: DirView, tree: DirTree, entry: FileEntryView)
    ensures
        scan_tree(dir, tree).contains(entry) <==> reported(dir, tree, entry),
{
    if scan_tree(dir, tree).contains(entry) {
        lemma_find_route(dir, tree, children_of(tree).len(), entry);
    }
    if reported(dir, tree, entry) {
        let route = choose|route: Seq<int>| reported_via(dir, tree, route, entry);
        lemma_route_is_scanned(dir, tree, route, entry);
    }
}

/// The route to a reported entry.
proof fn lemma_find_route(dir: DirView, tree: DirTree, n: nat, entry: FileEntryView) -> (route:
    Seq<int>)
    requires
        n <= children_of(tree).len(),
        scan_prefix(dir, tree, n).contains(entry),
    ensures
        reported_via(dir, tree, route, entry),
    decreases tree, n,
{
    let front = scan_prefix(dir, tree, (n - 1) as nat);
    let added = contribution(dir, tree, n - 1);
    lemma_scan_prefix_step(dir, tree, n);
    vstd::seq_lib::lemma_seq_concat_contains_all_elements(front, added, entry);
    if front.contains(entry) {
        lemma_find_route(dir, tree, (n - 1) as nat, entry)
    } else {
        let here = opened(dir, rule_text_of(tree));
        let child = children_of(tree)[n - 1];
        let path = join_path(dir.path, child.name@);
        match child.node {
            TreeNode::File { .. } => seq![n - 1],
            TreeNode::Dir { tree: sub } => {
                let below = DirView { path, rules: here.rules };
                let rest = lemma_find_route(below, sub, children_of(sub).len(), entry);
                let route = seq![n - 1] + rest;
                assert(route.drop_first() =~= rest);
                route
            },
            _ => Seq::empty(),
        }
    }
}

/// What a route leads to is part of the scan.
proof fn lemma_route_is_scanned(dir: DirView, tree: DirTree, route: Seq<int>, entry: FileEntryView)
    requires
        reported_via(dir, tree, route, entry),
    ensures
        scan_tree(dir, tree).contains(entry),
    decreases route.len(),
{
    let i = route[0];
    let here = opened(dir, rule_text_of(tree));
    let child = children_of(tree)[i];
    let path = join_path(dir.path, child.name@);
    match child.node {
        TreeNode::File { stat } => {
            assert(contribution(dir, tree, i)[0] == entry);
        },
        TreeNode::Dir { tree: sub } => {
            lemma_route_is_scanned(DirView { path, rules: here.rules }, sub, route.drop_first(), entry);
        },
        _ => {},
    }
    lemma_contribution_is_scanned(dir, tree, i, children_of(tree).len(), entry);
}

/// What one entry adds is part of the scan of every longer prefix.
proof fn lemma_contribution_is_scanned(
    dir: DirView,
    tree: DirTree,
    i: int,
    n: nat,
    entry: FileEntryView,
)
    requires
        0 <= i < n <= children_of(tree).len(),
        contribution(dir, tree, i).contains(entry),
    ensures
        scan_prefix(dir, tree, n).contains(entry),
    decreases n,
{
    let front = scan_prefix(dir, tree, (n - 1) as nat);
    let added = contribution(dir, tree, n - 1);
    lemma_scan_prefix_step(dir, tree, n);
    vstd::seq_lib::lemma_seq_concat_contains_all_elements(front, added, entry);
    if i < n - 1 {
        lemma_contribution_is_scanned(dir, tree, i, (n - 1) as nat, entry);
    }
}

/// A symbolic link adds nothing to a scan, and neither does an entry that
/// is neither file nor directory.
pub proof fn lemma_link_adds_nothing(dir: DirView, tree: DirTree, i: int)
    requires
        0 <= i < children_of(tree).len(),
        kind_of(children_of(tree)[i].node) == EntryKind::Symlink || kind_of(children_of(tree)[i].node)
            == EntryKind::Other,
    ensures
        contribution(dir, tree, i) == Seq::<FileEntryView>::empty(),
{
}

/// A control directory adds nothing to a scan, whatever it holds and
/// whatever the rules say.
pub proof fn lemma_control_dir_adds_nothing(dir: DirView, tree: DirTree, i: int)
    requires
        0 <= i < children_of(tree).len(),
        kind_of(children_of(tree)[i].node) == EntryKind::Dir,
        is_control_dir_name(children_of(tree)[i].name@),
    ensures
        contribution(dir, tree, i) == Seq::<FileEntryView>::empty(),
{
}

/// An entry that the rules in force exclude adds nothing to a scan: neither
/// itself nor, where it is a directory, anything below it.
pub proof fn lemma_excluded_entry_adds_nothing(dir: DirView, tree: DirTree, i: int)
    requires
        0 <= i < children_of(tree).len(),
        !passes(
            opened(dir, rule_text_of(tree)),
            children_of(tree)[i].name@,
            kind_of(children_of(tree)[i].node) == EntryKind::Dir,
        ),
    ensures
        contribution(dir, tree, i) == Seq::<FileEntryView>::empty(),
{
}

/// An entry that one of the rules in force excludes adds nothing to a scan
/// unless a later rule is a negation.
pub proof fn lemma_excluded_by_rule_adds_nothing(dir: DirView, tree: DirTree, i: int, k: int)
    requires
        0 <= i < children_of(tree).len(),
        0 <= k < opened(dir, rule_text_of(tree)).rules.len(),
        answer_of(
            opened(dir, rule_text_of(tree)).rules[k],
            join_path(dir.path, children_of(tree)[i].name@),
            kind_of(children_of(tree)[i].node) == EntryKind::Dir,
        ) == Some(true),
        forall|j: int|
            k < j < opened(dir, rule_text_of(tree)).rules.len() ==> !is_negation(
                #[trigger] opened(dir, rule_text_of(tree)).rules[j].line,
            ),
    ensures
        contribution(dir, tree, i) == Seq::<FileEntryView>::empty(),
{
    let here = opened(dir, rule_text_of(tree));
    let child = children_of(tree)[i];
    lemma_excluded_without_later_negation(
        here.rules,
        join_path(dir.path, child.name@),
        kind_of(child.node) == EntryKind::Dir,
        k,
    );
}

/// An included regular file adds exactly its own entry, whose size and time
/// are zero where its metadata could not be read.
pub proof fn lemma_included_file_adds_its_entry(dir: DirView, tree: DirTree, i: int)
    requires
        0 <= i < children_of(tree).len(),
        children_of(tree)[i].node is File,
        passes(opened(dir, rule_text_of(tree)), children_of(tree)[i].name@, false),
    ensures
        contribution(dir, tree, i) == seq![
            entry_for(
                join_path(dir.path, children_of(tree)[i].name@),
                children_of(tree)[i].node->stat,
            ),
        ],
{
}

/// Two scans of the same tree report the same entries, whatever the number
/// of walkers and whatever the order in which they came upon the files: the
/// same paths, each with the same size and time.
pub proof fn lemma_scans_agree(
    first: Seq<FileEntryView>,
    second: Seq<FileEntryView>,
    root_path: Seq<char>,
    tree: DirTree,
)
    requires
        is_scan_of(first, root_path, tree),
        is_scan_of(second, root_path, tree),
    ensures
        first.to_multiset() == second.to_multiset(),
        first.len() == second.len(),
        first.to_set() == second.to_set(),
        paths_of(first).to_set() == paths_of(second).to_set(),
{
    first.to_multiset_ensures();
    second.to_multiset_ensures();
    assert forall|entry: FileEntryView| first.contains(entry) <==> second.contains(entry) by {
        assert(first.to_multiset().count(entry) == second.to_multiset().count(entry));
    }
    assert forall|path: Seq<char>| paths_of(first).contains(path) <==> paths_of(second).contains(
        path,
    ) by {
        if paths_of(first).contains(path) {
            lemma_paths_follow(first, second, path);
        }
        if paths_of(second).contains(path) {
            lemma_paths_follow(second, first, path);
        }
    }
}

proof fn lemma_paths_follow(from: Seq<FileEntryView>, to: Seq<FileEntryView>, path: Seq<char>)
    requires
        forall|entry: FileEntryView| from.contains(entry) ==> to.contains(entry),
        paths_of(from).contains(path),
    ensures
        paths_of(to).contains(path),
{
    let i = choose|i: int| 0 <= i < paths_of(from).len() && paths_of(from)[i] == path;
    assert(from.contains(from[i]));
    let j = choose|j: int| 0 <= j < to.len() && to[j] == from[i];
    assert(paths_of(to)[j] == path);
}

/// What a scan hands over are exactly the regular files that the rules
/// include and that are reached through included directories other than
/// control directories.
pub proof fn lemma_scan_result_reports_exactly(
    entries: Seq<FileEntryView>,
    root_path: Seq<char>,
    tree: DirTree,
    entry: FileEntryView,
)
    requires
        is_scan_of(entries, root_path, tree),
    ensures
        entries.contains(entry) <==> reported(
            DirView { path: root_path, rules: Seq::empty() },
            tree,
            entry,
        ),
{
    let root = DirView { path: root_path, rules: Seq::empty() };
    entries.to_multiset_ensures();
    scan_tree(root, tree).to_multiset_ensures();
    lemma_scan_reports_exactly(root, tree, entry);
    assert(entries.to_multiset().count(entry) == scan_tree(root, tree).to_multiset().count(entry));
}

} // verus!
