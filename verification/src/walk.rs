//! The decisions of a directory walk: what to do with each entry of a
//! listing, and when a pool of walkers has finished.

use vstd::prelude::*;
use crate::entry::EntryKind;
use crate::rules::effective;
use crate::rules::text_view;
use crate::rules::verdict;
use crate::rules::RuleSet;
use crate::rules::RuleView;
use crate::rules::Verdict;
use crate::text::join;
use crate::text::join_path;
use crate::text::same_text;
use crate::text::views;

verus! {

/// A directory and a rule set, by their views.
pub struct DirView {
    pub path: Seq<char>,
    pub rules: Seq<RuleView>,
}

/// A directory waiting to be listed, with the rules inherited from its
/// ancestors.
pub struct PendingDir {
    pub path: String,
    pub rules: RuleSet,
}

impl View for PendingDir {
    type V = DirView;

    open spec fn view(&self) -> DirView {
        DirView { path: self.path@, rules: self.rules@ }
    }
}

/// A directory that is being listed, with the rules in force inside it.
pub struct OpenDir {
    pub path: String,
    pub rules: RuleSet,
}

impl View for OpenDir {
    type V = DirView;

    open spec fn view(&self) -> DirView {
        DirView { path: self.path@, rules: self.rules@ }
    }
}

/// What a walker does with one entry of a listing.
pub enum Action {
    /// Drop the entry.
    Skip,
    /// Report the regular file at `path`.
    Emit { path: String },
    /// Queue the directory for listing.
    Descend { dir: PendingDir },
}

/// An action by its view.
pub enum ActionView {
    Skip,
    Emit { path: Seq<char> },
    Descend { dir: DirView },
}

impl View for Action {
    type V = ActionView;

    open spec fn view(&self) -> ActionView {
        match self {
            Action::Skip => ActionView::Skip,
            Action::Emit { path } => ActionView::Emit { path: path@ },
            Action::Descend { dir } => ActionView::Descend { dir: dir@ },
        }
    }
}

/// The names of the directories in which version-control systems keep their
/// own data. A directory of such a name is never entered, whatever the rule
/// files say.
pub open spec fn is_control_dir_name(name: Seq<char>) -> bool {
    name == ".git"@ || name == ".hg"@ || name == ".svn"@
}

/// The directory in which `dir` is listed once its own rule file was read.
pub open spec fn opened(dir: DirView, rule_text: Option<Seq<char>>) -> DirView {
    DirView { path: dir.path, rules: effective(dir.rules, dir.path, rule_text) }
}

/// Whether the rules in force inside `dir` let the entry `name` through.
pub open spec fn passes(dir: DirView, name: Seq<char>, is_dir: bool) -> bool {
    verdict(dir.rules, join_path(dir.path, name), is_dir) == Verdict::Include
}

/// What becomes of the entry `name` of kind `kind` listed in `dir`: an
/// included regular file is reported; an included directory that is no
/// control directory is queued with the rules in force here; everything
/// else, symbolic links among it, is dropped.
pub open spec fn action_for(dir: DirView, name: Seq<char>, kind: EntryKind) -> ActionView {
    let path = join_path(dir.path, name);
    match kind {
        EntryKind::File => if passes(dir, name, false) {
            ActionView::Emit { path }
        } else {
            ActionView::Skip
        },
        EntryKind::Dir => if !is_control_dir_name(name) && passes(dir, name, true) {
            ActionView::Descend { dir: DirView { path, rules: dir.rules } }
        } else {
            ActionView::Skip
        },
        EntryKind::Symlink => ActionView::Skip,
        EntryKind::Other => ActionView::Skip,
    }
}

/// Whether `name` is the name of a control directory.
pub fn is_control_dir(name: &str) -> (yes: bool)
    ensures
        yes == is_control_dir_name(name@),
{
    same_text(name, ".git") || same_text(name, ".hg") || same_text(name, ".svn")
}

impl PendingDir {
    /// The root of a scan, which inherits no rules.
    pub fn root(path: String) -> (dir: PendingDir)
        ensures
            dir@ == (DirView { path: path@, rules: Seq::empty() }),
    {
        PendingDir { path, rules: RuleSet::empty() }
    }

    /// Opens the directory for listing: the rules of its own rule file, where
    /// one could be read, follow the inherited ones.
    pub fn open(self, rule_text: Option<&str>) -> (dir: OpenDir)
        ensures
            dir@ == opened(self@, text_view(rule_text)),
    {
        let rules = self.rules.extend(self.path.as_str(), rule_text);
        OpenDir { path: self.path, rules }
    }
}

impl OpenDir {
    /// Decides what to do with one entry of this directory's listing.
    pub fn classify(&self, name: &str, kind: EntryKind) -> (action: Action)
        ensures
            action@ == action_for(self@, name@, kind),
    {
        match kind {
            EntryKind::File => {
                let path = join(self.path.as_str(), name);
                match self.rules.evaluate(path.as_str(), false) {
                    Verdict::Include => Action::Emit { path },
                    Verdict::Exclude => Action::Skip,
                }
            },
            EntryKind::Dir => {
                if is_control_dir(name) {
                    return Action::Skip;
                }
                let path = join(self.path.as_str(), name);
                match self.rules.evaluate(path.as_str(), true) {
                    Verdict::Include => Action::Descend {
                        dir: PendingDir { path, rules: self.rules.share() },
                    },
                    Verdict::Exclude => Action::Skip,
                }
            },
            EntryKind::Symlink => Action::Skip,
            EntryKind::Other => Action::Skip,
        }
    }
}

/// The largest number of walkers that is chosen where the caller names none.
pub const DEFAULT_MAX_WORKERS: usize = 12;

/// The number of walkers for a hint and the number of processors that the
/// host reports (zero where it reports none): a positive hint is taken as it
/// is; without one the processors decide, at least one walker and at most
/// `DEFAULT_MAX_WORKERS`.
pub open spec fn workers_for(hint: usize, available: usize) -> usize {
    if hint > 0 {
        hint
    } else if available == 0 {
        1
    } else if available > DEFAULT_MAX_WORKERS {
        DEFAULT_MAX_WORKERS
    } else {
        available
    }
}

/// Chooses the number of walkers.
pub fn worker_count(hint: usize, available: usize) -> (n: usize)
    ensures
        n == workers_for(hint, available),
        n > 0,
{
    if hint > 0 {
        hint
    } else if available == 0 {
        1
    } else if available > DEFAULT_MAX_WORKERS {
        DEFAULT_MAX_WORKERS
    } else {
        available
    }
}

/// The work of one scan that is shared by its walkers: the directories that
/// wait to be listed, and the number of walkers that are listing one. The
/// scan has finished when nothing waits and nobody works.
pub struct WalkQueue {
    pending: Vec<PendingDir>,
    active: usize,
}

impl WalkQueue {
    /// The waiting directories; the one claimed next is the last.
    pub closed spec fn pending(&self) -> Seq<DirView> {
        views(self.pending@)
    }

    /// The number of walkers at work.
    pub closed spec fn active(&self) -> nat {
        self.active as nat
    }

    /// Whether nothing waits and nobody works.
    pub open spec fn finished(&self) -> bool {
        self.pending().len() == 0 && self.active() == 0
    }

    /// The queue of a scan that starts at `root`.
    pub fn new(root: PendingDir) -> (queue: WalkQueue)
        ensures
            queue.pending() == seq![root@],
            queue.active() == 0,
    {
        let mut pending: Vec<PendingDir> = Vec::new();
        pending.push(root);
        WalkQueue { pending, active: 0 }
    }

    /// Hands the directory that was queued last to a walker, who then counts
    /// as working. Nothing is handed out where nothing waits, nor where the
    /// count of working walkers has reached the limit of its type.
    pub fn claim(&mut self) -> (claimed: Option<PendingDir>)
        ensures
            match claimed {
                Some(dir) => {
                    &&& old(self).pending().len() > 0
                    &&& old(self).active() < usize::MAX
                    &&& dir@ == old(self).pending().last()
                    &&& final(self).pending() == old(self).pending().drop_last()
                    &&& final(self).active() == old(self).active() + 1
                },
                None => {
                    &&& old(self).pending().len() == 0 || old(self).active() == usize::MAX
                    &&& final(self).pending() == old(self).pending()
                    &&& final(self).active() == old(self).active()
                },
            },
    {
        if self.active == usize::MAX {
            return None;
        }
        match self.pending.pop() {
            Some(dir) => {
                self.active = self.active + 1;
                Some(dir)
            },
            None => None,
        }
    }

    /// Queues a directory that a walker came upon.
    pub fn push(&mut self, dir: PendingDir)
        ensures
            final(self).pending() == old(self).pending().push(dir@),
            final(self).active() == old(self).active(),
    {
        proof {
            crate::text::lemma_views_push(self.pending@, dir);
        }
        self.pending.push(dir);
    }

    /// Records that a walker is done with the directory it had claimed.
    /// Where no walker was at work the count stays at zero.
    pub fn release(&mut self)
        ensures
            final(self).pending() == old(self).pending(),
            final(self).active() == if old(self).active() > 0 {
                old(self).active() - 1
            } else {
                0
            },
    {
        if self.active > 0 {
            self.active = self.active - 1;
        }
    }

    /// Whether the scan has finished.
    pub fn is_finished(&self) -> (done: bool)
        ensures
            done == self.finished(),
    {
        self.pending.len() == 0 && self.active == 0
    }
}

} // verus!
