//! Layered ignore rules: compiled patterns, their order of precedence and
//! the verdict they give on a candidate entry.

use std::sync::Arc;
use vstd::prelude::*;
use crate::text::lemma_views_push;
use crate::text::rule_lines;
use crate::text::split_lines;
use crate::text::views;

verus! {

/// `ignore::gitignore::Gitignore`, a compiled matcher. Nothing inside it is
/// visible to the verifier; what is known of a matcher is what the functions
/// below say.
#[verifier::external_type_specification]
#[verifier::external_body]
pub struct ExGitignore(ignore::gitignore::Gitignore);

/// The directory that a matcher was compiled for.
pub uninterp spec fn compiled_root(matcher: ignore::gitignore::Gitignore) -> Seq<char>;

/// The rule-file line that a matcher was compiled from.
pub uninterp spec fn compiled_line(matcher: ignore::gitignore::Gitignore) -> Seq<char>;

/// Whether the pattern written as `line` in the rule file of directory
/// `root` matches the entry at `path`, which is a directory where `is_dir`
/// holds. The pattern language is that of `gitignore`: wildcards, anchoring
/// by a leading slash, a trailing slash for patterns that match directories
/// only. A line that is no valid pattern matches nothing.
pub uninterp spec fn pattern_matches(
    root: Seq<char>,
    line: Seq<char>,
    path: Seq<char>,
    is_dir: bool,
) -> bool;

/// Whether a line is a comment.
pub open spec fn is_comment(line: Seq<char>) -> bool {
    line.len() > 0 && line[0] == '#'
}

/// Whether a line re-includes what it matches.
pub open spec fn is_negation(line: Seq<char>) -> bool {
    line.len() > 0 && line[0] == '!'
}

/// What a line says of an entry, given whether its pattern matches the
/// entry: an empty line and a comment say nothing, and neither does a line
/// that does not match; a negation that matches says `Some(false)`, to
/// re-include the entry; any other line that matches says `Some(true)`, to
/// exclude it.
pub open spec fn answer_for(line: Seq<char>, matched: bool) -> Option<bool> {
    if line.len() == 0 || is_comment(line) || !matched {
        None
    } else {
        Some(!is_negation(line))
    }
}

/// Compiles one line with `ignore::gitignore::GitignoreBuilder` (`new`,
/// `add_line`, `build`). The result is labelled with the directory and the
/// line it was made from. A line that the builder rejects leaves a matcher
/// without patterns.
#[verifier::external_body]
fn compile_matcher(root: &str, line: &str) -> (matcher: ignore::gitignore::Gitignore)
    ensures
        compiled_root(matcher) == root@,
        compiled_line(matcher) == line@,
{
    let mut builder = ignore::gitignore::GitignoreBuilder::new(root);
    let _ = builder.add_line(None, line);
    match builder.build() {
        Ok(matcher) => matcher,
        Err(_) => ignore::gitignore::Gitignore::empty(),
    }
}

/// Asks `ignore::gitignore::Gitignore::matched`. Whether it reports a match
/// depends on nothing but what the matcher was compiled from, the path and
/// the flag: the call reads no file and keeps no state. An empty line and a
/// comment leave a matcher without patterns, which reports no match; a match
/// is reported as a re-inclusion exactly where the line starts with `!`.
#[verifier::external_body]
fn ask_matcher(matcher: &ignore::gitignore::Gitignore, path: &str, is_dir: bool) -> (answer:
    Option<bool>)
    ensures
        answer == answer_for(
            compiled_line(*matcher),
            pattern_matches(compiled_root(*matcher), compiled_line(*matcher), path@, is_dir),
        ),
{
    match matcher.matched(path, is_dir) {
        ignore::Match::None => None,
        ignore::Match::Ignore(_) => Some(true),
        ignore::Match::Whitelist(_) => Some(false),
    }
}

/// `Arc::clone` hands out another handle to the same value.
#[verifier::external_body]
fn share<T>(handle: &Arc<T>) -> (shared: Arc<T>)
    ensures
        shared == *handle,
{
    Arc::clone(handle)
}

/// The name under which a directory keeps its rule file.
pub const RULE_FILE_NAME: &'static str = ".gitignore";

/// Whether an entry is reported or dropped.
#[derive(Clone, Copy, Debug, PartialEq, Eq, Structural)]
pub enum Verdict {
    Include,
    Exclude,
}

/// One rule of a rule file, compiled for matching.
pub struct Rule {
    matcher: ignore::gitignore::Gitignore,
}

/// A rule as written: the directory whose rule file holds it, and its line.
pub struct RuleView {
    pub dir: Seq<char>,
    pub line: Seq<char>,
}

impl View for Rule {
    type V = RuleView;

    closed spec fn view(&self) -> RuleView {
        RuleView { dir: compiled_root(self.matcher), line: compiled_line(self.matcher) }
    }
}

impl Rule {
    /// Compiles the rule written as `line` in the rule file of `dir`.
    pub fn compile(dir: &str, line: &str) -> (rule: Rule)
        ensures
            rule@ == (RuleView { dir: dir@, line: line@ }),
    {
        Rule { matcher: compile_matcher(dir, line) }
    }

    /// What this rule says of the entry at `path`: `Some(true)` to exclude
    /// it, `Some(false)` to re-include it, `None` where the rule does not
    /// apply to it.
    pub fn applies(&self, path: &str, is_dir: bool) -> (answer: Option<bool>)
        ensures
            answer == answer_of(self@, path@, is_dir),
    {
        ask_matcher(&self.matcher, path, is_dir)
    }
}

/// What `rule` says of the entry at `path`.
pub open spec fn answer_of(rule: RuleView, path: Seq<char>, is_dir: bool) -> Option<bool> {
    answer_for(rule.line, pattern_matches(rule.dir, rule.line, path, is_dir))
}

/// The answer of the last rule of `rules` that applies to the entry, or
/// `None` where no rule applies.
pub open spec fn last_match(rules: Seq<RuleView>, path: Seq<char>, is_dir: bool) -> Option<bool>
    decreases rules.len(),
{
    if rules.len() == 0 {
        None
    } else {
        match answer_of(rules.last(), path, is_dir) {
            Some(excluded) => Some(excluded),
            None => last_match(rules.drop_last(), path, is_dir),
        }
    }
}

/// The verdict of an ordered rule set on an entry: the last rule that
/// applies decides, and an entry that no rule applies to is included.
pub open spec fn verdict(rules: Seq<RuleView>, path: Seq<char>, is_dir: bool) -> Verdict {
    if last_match(rules, path, is_dir) == Some(true) {
        Verdict::Exclude
    } else {
        Verdict::Include
    }
}

/// The rules that the lines of one rule file, found in `dir`, stand for.
pub open spec fn local_rules(dir: Seq<char>, lines: Seq<Seq<char>>) -> Seq<RuleView> {
    Seq::new(lines.len(), |i: int| RuleView { dir, line: lines[i] })
}

/// The rule set in force inside `dir`: the inherited rules, root-most first,
/// followed by the rules of the directory's own rule file in the order of
/// its lines. A rule file that could not be read (`None`) adds nothing.
pub open spec fn effective(inherited: Seq<RuleView>, dir: Seq<char>, rule_text: Option<Seq<char>>)
    -> Seq<RuleView> {
    match rule_text {
        Some(text) => inherited + local_rules(dir, rule_lines(text)),
        None => inherited,
    }
}

/// The view of an optional text.
pub open spec fn text_view(text: Option<&str>) -> Option<Seq<char>> {
    match text {
        Some(t) => Some(t@),
        None => None,
    }
}

/// An ordered rule set: the rules in force inside one directory, root-most
/// first, those of one rule file in the order of its lines.
pub struct RuleSet {
    rules: Arc<Vec<Arc<Rule>>>,
}

impl View for RuleSet {
    type V = Seq<RuleView>;

    closed spec fn view(&self) -> Seq<RuleView> {
        views(self.rules@)
    }
}

impl RuleSet {
    /// The rule set without rules, which includes every entry.
    pub fn empty() -> (set: RuleSet)
        ensures
            set@ == Seq::<RuleView>::empty(),
    {
        let rules: Vec<Arc<Rule>> = Vec::new();
        RuleSet { rules: Arc::new(rules) }
    }

    /// Another handle to the same rules.
    pub fn share(&self) -> (set: RuleSet)
        ensures
            set@ == self@,
    {
        RuleSet { rules: share(&self.rules) }
    }

    /// The number of rules.
    pub fn len(&self) -> (n: usize)
        ensures
            n == self@.len(),
    {
        self.rules.len()
    }

    /// The verdict on the entry at `path`: the last rule that applies
    /// decides, and where none applies the entry is included.
    pub fn evaluate(&self, path: &str, is_dir: bool) -> (v: Verdict)
        ensures
            v == verdict(self@, path@, is_dir),
    {
        let ghost all = self@;
        let mut i: usize = self.rules.len();
        proof {
            assert(all.take(i as int) =~= all);
        }
        while i > 0
            invariant
                i <= self.rules@.len(),
                all == views(self.rules@),
                last_match(all, path@, is_dir) == last_match(all.take(i as int), path@, is_dir),
            decreases i,
        {
            i = i - 1;
            proof {
                assert(all.take(i + 1).drop_last() =~= all.take(i as int));
            }
            match self.rules[i].applies(path, is_dir) {
                Some(true) => {
                    return Verdict::Exclude;
                },
                Some(false) => {
                    return Verdict::Include;
                },
                None => {},
            }
        }
        Verdict::Include
    }

    /// The rule set in force inside `dir`, given the one inherited from its
    /// ancestors (`self`) and the text of the directory's own rule file.
    /// Without a readable rule file the inherited rules stay as they are.
    pub fn extend(&self, dir: &str, rule_text: Option<&str>) -> (set: RuleSet)
        ensures
            set@ == effective(self@, dir@, text_view(rule_text)),
    {
        match rule_text {
            None => self.share(),
            Some(text) => {
                let mut rules: Vec<Arc<Rule>> = Vec::new();
                let mut i: usize = 0;
                while i < self.rules.len()
                    invariant
                        i <= self.rules@.len(),
                        views(rules@) == self@.take(i as int),
                    decreases self.rules@.len() - i,
                {
                    let shared = share(&self.rules[i]);
                    proof {
                        lemma_views_push(rules@, shared);
                    }
                    rules.push(shared);
                    i = i + 1;
                }
                let lines = split_lines(text);
                let ghost wanted = local_rules(dir@, rule_lines(text@));
                let mut j: usize = 0;
                while j < lines.len()
                    invariant
                        j <= lines.len(),
                        views(lines@) == rule_lines(text@),
                        wanted == local_rules(dir@, rule_lines(text@)),
                        views(rules@) == self@ + wanted.take(j as int),
                    decreases lines.len() - j,
                {
                    let rule = Arc::new(Rule::compile(dir, lines[j].as_str()));
                    proof {
                        lemma_views_push(rules@, rule);
                    }
                    rules.push(rule);
                    j = j + 1;
                }
                RuleSet { rules: Arc::new(rules) }
            },
        }
    }
}

/// The last rule that applies decides: `last_match` gives an answer exactly
/// where some rule gives it and no later rule applies.
pub proof fn lemma_last_match_decides(
    rules: Seq<RuleView>,
    path: Seq<char>,
    is_dir: bool,
    answer: bool,
)
    ensures
        last_match(rules, path, is_dir) == Some(answer) <==> exists|i: int|
            0 <= i < rules.len() && #[trigger] answer_of(rules[i], path, is_dir) == Some(answer)
                && forall|j: int|
                i < j < rules.len() ==> (#[trigger] answer_of(rules[j], path, is_dir)) is None,
    decreases rules.len(),
{
    if rules.len() > 0 {
        let front = rules.drop_last();
        lemma_last_match_decides(front, path, is_dir, answer);
        if answer_of(rules.last(), path, is_dir) is None {
            if last_match(rules, path, is_dir) == Some(answer) {
                let i = choose|i: int|
                    0 <= i < front.len() && #[trigger] answer_of(front[i], path, is_dir) == Some(
                        answer,
                    ) && forall|j: int|
                        i < j < front.len() ==> (#[trigger] answer_of(front[j], path, is_dir)) is None;
                assert forall|j: int| i < j < rules.len() implies (#[trigger] answer_of(
                    rules[j],
                    path,
                    is_dir,
                )) is None by {
                    if j < front.len() {
                        assert(front[j] == rules[j]);
                    }
                }
            }
            if exists|i: int|
                0 <= i < rules.len() && #[trigger] answer_of(rules[i], path, is_dir) == Some(answer)
                    && forall|j: int|
                    i < j < rules.len() ==> (#[trigger] answer_of(rules[j], path, is_dir)) is None {
                let i = choose|i: int|
                    0 <= i < rules.len() && #[trigger] answer_of(rules[i], path, is_dir) == Some(
                        answer,
                    ) && forall|j: int|
                        i < j < rules.len() ==> (#[trigger] answer_of(rules[j], path, is_dir)) is None;
                assert(answer_of(front[i], path, is_dir) == Some(answer));
            }
        }
    }
}

/// An entry that some rule excludes, and that no later rule re-includes, is
/// excluded.
pub proof fn lemma_excluded_unless_reincluded(
    rules: Seq<RuleView>,
    path: Seq<char>,
    is_dir: bool,
    i: int,
)
    requires
        0 <= i < rules.len(),
        answer_of(rules[i], path, is_dir) == Some(true),
        forall|j: int| i < j < rules.len() ==> answer_of(rules[j], path, is_dir) != Some(false),
    ensures
        verdict(rules, path, is_dir) == Verdict::Exclude,
    decreases rules.len(),
{
    if i < rules.len() - 1 {
        lemma_excluded_unless_reincluded(rules.drop_last(), path, is_dir, i);
    }
}

/// An entry that some rule excludes is excluded unless a later line is a
/// negation.
pub proof fn lemma_excluded_without_later_negation(
    rules: Seq<RuleView>,
    path: Seq<char>,
    is_dir: bool,
    i: int,
)
    requires
        0 <= i < rules.len(),
        answer_of(rules[i], path, is_dir) == Some(true),
        forall|j: int| i < j < rules.len() ==> !is_negation(#[trigger] rules[j].line),
    ensures
        verdict(rules, path, is_dir) == Verdict::Exclude,
{
    lemma_excluded_unless_reincluded(rules, path, is_dir, i);
}

/// An empty line and a comment say nothing of any entry. Only a negation
/// re-includes, and a negation never excludes.
pub proof fn lemma_polarity_of_lines(rule: RuleView, path: Seq<char>, is_dir: bool)
    ensures
        rule.line.len() == 0 || is_comment(rule.line) ==> answer_of(rule, path, is_dir) is None,
        answer_of(rule, path, is_dir) == Some(false) ==> is_negation(rule.line),
        answer_of(rule, path, is_dir) == Some(true) ==> !is_negation(rule.line),
{
}

/// An entry that a rule re-includes, and that no later rule excludes, is
/// included.
pub proof fn lemma_reincluded_unless_excluded(
    rules: Seq<RuleView>,
    path: Seq<char>,
    is_dir: bool,
    i: int,
)
    requires
        0 <= i < rules.len(),
        answer_of(rules[i], path, is_dir) == Some(false),
        forall|j: int| i < j < rules.len() ==> answer_of(rules[j], path, is_dir) != Some(true),
    ensures
        verdict(rules, path, is_dir) == Verdict::Include,
    decreases rules.len(),
{
    if i < rules.len() - 1 {
        lemma_reincluded_unless_excluded(rules.drop_last(), path, is_dir, i);
    }
}

/// An entry that no rule applies to is included.
pub proof fn lemma_no_match_includes(rules: Seq<RuleView>, path: Seq<char>, is_dir: bool)
    requires
        forall|i: int| 0 <= i < rules.len() ==> answer_of(rules[i], path, is_dir) is None,
    ensures
        verdict(rules, path, is_dir) == Verdict::Include,
    decreases rules.len(),
{
    if rules.len() > 0 {
        lemma_no_match_includes(rules.drop_last(), path, is_dir);
    }
}

/// Deeper rules override shallower ones: where a rule of `deeper` applies,
/// the rules of `shallower` before it have no say.
pub proof fn lemma_deeper_rules_override(
    shallower: Seq<RuleView>,
    deeper: Seq<RuleView>,
    path: Seq<char>,
    is_dir: bool,
)
    ensures
        last_match(shallower + deeper, path, is_dir) == (match last_match(deeper, path, is_dir) {
            Some(answer) => Some(answer),
            None => last_match(shallower, path, is_dir),
        }),
    decreases deeper.len(),
{
    if deeper.len() > 0 {
        assert((shallower + deeper).drop_last() =~= shallower + deeper.drop_last());
        lemma_deeper_rules_override(shallower, deeper.drop_last(), path, is_dir);
    }
}

} // verus!
