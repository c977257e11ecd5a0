//! A scan of a directory tree held in memory, by walkers that take turns.

use vstd::multiset::Multiset;
use vstd::prelude::*;
use vstd::string::StringExecFns;
use crate::aggregate::ResultAggregator;
use crate::entry::file_entry;
use crate::entry::EntryKind;
use crate::entry::FileEntry;
use crate::entry::FileEntryView;
use crate::text::lemma_views_push;
use crate::text::views;
use crate::tree::children_of;
use crate::tree::is_scan_of;
use crate::tree::lemma_scan_prefix_step;
use crate::tree::rule_text_of;
use crate::tree::scan_prefix;
use crate::tree::scan_tree;
use crate::tree::DirTree;
use crate::tree::TreeChild;
use crate::tree::TreeNode;
use crate::walk::opened;
use crate::walk::worker_count;
use crate::walk::Action;
use crate::walk::DirView;
use crate::walk::PendingDir;
use crate::walk::WalkQueue;

verus! {

/// A directory that waits to be listed, together with what it holds.
struct Job<'a> {
    dir: PendingDir,
    tree: &'a DirTree,
}

/// A job by its view.
struct Work {
    dir: DirView,
    tree: DirTree,
}

/// The number of directories below `tree` among its first `n` entries, each
/// counted with all directories below it.
spec fn dirs_below(tree: DirTree, n: nat) -> nat
    decreases tree, n,
{
    if n == 0 || n > children_of(tree).len() {
        0
    } else {
        let rest = dirs_below(tree, (n - 1) as nat);
        match children_of(tree)[n - 1].node {
            TreeNode::Dir { tree: sub } => rest + 1 + dirs_below(sub, children_of(sub).len()),
            _ => rest,
        }
    }
}

/// The number of directories of `tree`, itself included.
spec fn tree_size(tree: DirTree) -> nat {
    1 + dirs_below(tree, children_of(tree).len())
}

/// The entries that the scans of all `work` report together.
spec fn entries_of(work: Seq<Work>) -> Multiset<FileEntryView>
    decreases work.len(),
{
    if work.len() == 0 {
        Multiset::empty()
    } else {
        entries_of(work.drop_last()).add(scan_tree(work.last().dir, work.last().tree).to_multiset())
    }
}

/// The number of directories that all `work` holds together.
spec fn weight_of(work: Seq<Work>) -> nat
    decreases work.len(),
{
    if work.len() == 0 {
        0
    } else {
        weight_of(work.drop_last()) + tree_size(work.last().tree)
    }
}

/// The waiting directories paired with what they hold.
spec fn zipped(dirs: Seq<DirView>, trees: Seq<&DirTree>) -> Seq<Work> {
    Seq::new(dirs.len(), |i: int| Work { dir: dirs[i], tree: *trees[i] })
}

/// The claimed jobs by their views.
spec fn jobs(claimed: Seq<Job>) -> Seq<Work> {
    Seq::new(claimed.len(), |i: int| Work { dir: claimed[i].dir@, tree: *claimed[i].tree })
}

/// The entries reported so far together with those that the waiting
/// directories will still give.
spec fn gathered(out: ResultAggregator<FileEntry>, queue: WalkQueue, trees: Seq<&DirTree>)
    -> Multiset<FileEntryView> {
    views(out.collected()).to_multiset().add(entries_of(zipped(queue.pending(), trees)))
}

proof fn lemma_nothing_reported()
    ensures
        Seq::<FileEntryView>::empty().to_multiset() == Multiset::<FileEntryView>::empty(),
{
    Seq::<FileEntryView>::empty().to_multiset_ensures();
}

proof fn lemma_work_push(work: Seq<Work>, item: Work)
    ensures
        entries_of(work.push(item)) == entries_of(work).add(
            scan_tree(item.dir, item.tree).to_multiset(),
        ),
        weight_of(work.push(item)) == weight_of(work) + tree_size(item.tree),
{
    assert(work.push(item).drop_last() =~= work);
}

proof fn lemma_work_pop(work: Seq<Work>)
    requires
        work.len() > 0,
    ensures
        entries_of(work) == entries_of(work.drop_last()).add(
            scan_tree(work.last().dir, work.last().tree).to_multiset(),
        ),
        weight_of(work) == weight_of(work.drop_last()) + tree_size(work.last().tree),
{
}

/// Lists one claimed directory: its included files are reported, its
/// included directories queued.
fn expand<'a>(
    job: Job<'a>,
    queue: &mut WalkQueue,
    trees: &mut Vec<&'a DirTree>,
    out: &mut ResultAggregator<FileEntry>,
)
    requires
        old(queue).pending().len() == old(trees)@.len(),
    ensures
        final(queue).pending().len() == final(trees)@.len(),
        final(queue).active() == old(queue).active(),
        gathered(*final(out), *final(queue), final(trees)@) == gathered(
            *old(out),
            *old(queue),
            old(trees)@,
        ).add(scan_tree(job.dir@, *job.tree).to_multiset()),
        weight_of(zipped(final(queue).pending(), final(trees)@)) + 1 <= weight_of(
            zipped(old(queue).pending(), old(trees)@),
        ) + tree_size(*job.tree),
{
    let Job { dir, tree } = job;
    let ghost start = dir@;
    let ghost base = gathered(*out, *queue, trees@);
    let ghost weight = weight_of(zipped(queue.pending(), trees@));
    let ghost active = queue.active();
    let text: Option<&str> = match &tree.rule_text {
        Some(t) => Some(t.as_str()),
        None => None,
    };
    let here = dir.open(text);
    match &tree.listing {
        None => {
            proof {
                lemma_nothing_reported();
            }
        },
        Some(children) => {
            let mut k: usize = 0;
            proof {
                lemma_nothing_reported();
            }
            while k < children.len()
                invariant
                    children@ == children_of(*tree),
                    k <= children@.len(),
                    here@ == opened(start, rule_text_of(*tree)),
                    queue.pending().len() == trees@.len(),
                    queue.active() == active,
                    gathered(*out, *queue, trees@) == base.add(
                        scan_prefix(start, *tree, k as nat).to_multiset(),
                    ),
                    weight_of(zipped(queue.pending(), trees@)) <= weight + dirs_below(*tree, k as nat),
                decreases children@.len() - k,
            {
                let child = &children[k];
                let ghost before = scan_prefix(start, *tree, k as nat);
                let ghost work = zipped(queue.pending(), trees@);
                let ghost reported = views(out.collected());
                proof {
                    lemma_scan_prefix_step(start, *tree, (k + 1) as nat);
                    assert(before + Seq::<FileEntryView>::empty() =~= before);
                }
                match &child.node {
                    TreeNode::File { stat } => {
                        match here.classify(child.name.as_str(), EntryKind::File) {
                            Action::Emit { path } => {
                                let entry = file_entry(path, *stat);
                                proof {
                                    lemma_views_push(out.collected(), entry);
                                    vstd::seq_lib::to_multiset_build(reported, entry@);
                                    vstd::seq_lib::to_multiset_build(before, entry@);
                                    let sum = reported.to_multiset().add(entries_of(work));
                                    assert(reported.to_multiset().insert(entry@).add(entries_of(work))
                                        =~= sum.insert(entry@));
                                }
                                out.accept(entry);
                            },
                            _ => {},
                        }
                    },
                    TreeNode::Dir { tree: sub } => {
                        match here.classify(child.name.as_str(), EntryKind::Dir) {
                            Action::Descend { dir: below } => {
                                let ghost item = Work { dir: below@, tree: *sub };
                                proof {
                                    let found = scan_tree(item.dir, item.tree);
                                    lemma_work_push(work, item);
                                    vstd::seq_lib::lemma_multiset_commutative(before, found);
                                    assert(zipped(queue.pending().push(below@), trees@.push(sub))
                                        =~= work.push(item));
                                    let sum = reported.to_multiset().add(entries_of(work));
                                    assert(reported.to_multiset().add(
                                        entries_of(work).add(found.to_multiset()),
                                    ) =~= sum.add(found.to_multiset()));
                                }
                                queue.push(below);
                                trees.push(sub);
                            },
                            _ => {},
                        }
                    },
                    _ => {},
                }
                k = k + 1;
            }
        },
    }
}

/// Scans a directory tree held in memory and reports its regular files, as
/// `threads` walkers would that take turns: in each round every walker
/// claims a waiting directory, then each lists the one it claimed. With
/// `threads` zero a single walker does all the work.
///
/// Whatever the number of walkers, the same entries are reported, each as
/// often as a scan of the tree gives it; only their order differs. An empty
/// tree gives an empty result.
pub fn scan_repo_parallel(root_path: &str, threads: usize, tree: &DirTree) -> (entries: Vec<
    FileEntry,
>)
    ensures
        is_scan_of(views(entries@), root_path@, *tree),
{
    let workers = worker_count(threads, 1);
    let root = PendingDir::root(String::from_str(root_path));
    let ghost total = scan_tree(root@, *tree).to_multiset();
    let mut queue = WalkQueue::new(root);
    let mut trees: Vec<&DirTree> = Vec::new();
    trees.push(tree);
    let mut out: ResultAggregator<FileEntry> = ResultAggregator::new();
    proof {
        let first = Work { dir: root@, tree: *tree };
        assert(zipped(queue.pending(), trees@) =~= Seq::<Work>::empty().push(first));
        lemma_work_push(Seq::<Work>::empty(), first);
        lemma_nothing_reported();
        assert(views(out.collected()) =~= Seq::<FileEntryView>::empty());
    }
    while !queue.is_finished()
        invariant
            workers > 0,
            queue.active() == 0,
            queue.pending().len() == trees@.len(),
            total == gathered(out, queue, trees@),
        decreases weight_of(zipped(queue.pending(), trees@)),
    {
        let ghost weight = weight_of(zipped(queue.pending(), trees@));
        let mut claimed: Vec<Job> = Vec::new();
        let mut more = true;
        while more && claimed.len() < workers
            invariant
                queue.active() == claimed@.len(),
                claimed@.len() <= workers,
                queue.pending().len() == trees@.len(),
                claimed@.len() == 0 ==> more && queue.pending().len() > 0,
                total == gathered(out, queue, trees@).add(entries_of(jobs(claimed@))),
                weight == weight_of(zipped(queue.pending(), trees@)) + weight_of(jobs(claimed@)),
            decreases (if more { 1nat } else { 0nat }) + workers - claimed@.len(),
        {
            let ghost waiting = zipped(queue.pending(), trees@);
            let ghost taken = jobs(claimed@);
            match queue.claim() {
                Some(dir) => {
                    let tree = trees.pop().unwrap();
                    let job = Job { dir, tree };
                    proof {
                        let item = Work { dir: job.dir@, tree: *job.tree };
                        lemma_work_pop(waiting);
                        lemma_work_push(taken, item);
                        assert(zipped(queue.pending(), trees@) =~= waiting.drop_last());
                        assert(jobs(claimed@.push(job)) =~= taken.push(item));
                    }
                    claimed.push(job);
                },
                None => {
                    more = false;
                },
            }
        }
        let ghost count = claimed@.len();
        while claimed.len() > 0
            invariant
                queue.active() == claimed@.len(),
                claimed@.len() <= count,
                queue.pending().len() == trees@.len(),
                total == gathered(out, queue, trees@).add(entries_of(jobs(claimed@))),
                weight_of(zipped(queue.pending(), trees@)) + weight_of(jobs(claimed@)) + count
                    <= weight + claimed@.len(),
            decreases claimed@.len(),
        {
            let ghost taken = jobs(claimed@);
            let job = claimed.pop().unwrap();
            proof {
                lemma_work_pop(taken);
                assert(jobs(claimed@) =~= taken.drop_last());
            }
            expand(job, &mut queue, &mut trees, &mut out);
            queue.release();
        }
    }
    proof {
        assert(views(out.collected()).to_multiset().add(Multiset::<FileEntryView>::empty())
            =~= views(out.collected()).to_multiset());
    }
    out.finish()
}

} // verus!
