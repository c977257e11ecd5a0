use ft_fastpath::rules::{Rule, RuleSet, Verdict, RULE_FILE_NAME};

#[test]
fn rule_file_is_gitignore() {
    assert_eq!(RULE_FILE_NAME, ".gitignore");
}

#[test]
fn empty_rule_set_includes_everything() {
    let rules = RuleSet::empty();
    assert_eq!(rules.len(), 0);
    assert_eq!(rules.evaluate("/repo/a.log", false), Verdict::Include);
    assert_eq!(rules.evaluate("/repo/target", true), Verdict::Include);
}

#[test]
fn later_negation_reincludes() {
    let rules = RuleSet::empty().extend("/repo", Some("*.log\n!keep.log\n"));
    assert_eq!(rules.len(), 2);
    assert_eq!(rules.evaluate("/repo/a.log", false), Verdict::Exclude);
    assert_eq!(rules.evaluate("/repo/keep.log", false), Verdict::Include);
    assert_eq!(rules.evaluate("/repo/a.txt", false), Verdict::Include);
}

#[test]
fn later_exclusion_overrides_negation() {
    let rules = RuleSet::empty().extend("/repo", Some("!keep.log\n*.log\n"));
    assert_eq!(rules.evaluate("/repo/keep.log", false), Verdict::Exclude);
}

#[test]
fn unreadable_rule_file_adds_nothing() {
    let inherited = RuleSet::empty().extend("/repo", Some("*.log"));
    let below = inherited.extend("/repo/sub", None);
    assert_eq!(below.len(), 1);
    assert_eq!(below.evaluate("/repo/sub/a.log", false), Verdict::Exclude);
    assert_eq!(below.evaluate("/repo/sub/a.txt", false), Verdict::Include);
}

#[test]
fn deeper_rules_override_shallower_ones() {
    let top = RuleSet::empty().extend("/repo", Some("*.log\n"));
    let below = top.extend("/repo/sub", Some("!*.log\n"));
    assert_eq!(below.len(), 2);
    assert_eq!(top.evaluate("/repo/sub/a.log", false), Verdict::Exclude);
    assert_eq!(below.evaluate("/repo/sub/a.log", false), Verdict::Include);
}

#[test]
fn shallower_rules_hold_where_deeper_ones_are_silent() {
    let top = RuleSet::empty().extend("/repo", Some("*.tmp\n"));
    let below = top.extend("/repo/sub", Some("*.log\n"));
    assert_eq!(below.evaluate("/repo/sub/a.tmp", false), Verdict::Exclude);
    assert_eq!(below.evaluate("/repo/sub/a.log", false), Verdict::Exclude);
    assert_eq!(below.evaluate("/repo/sub/a.txt", false), Verdict::Include);
}

#[test]
fn comments_and_blank_lines_are_no_rules() {
    let rules = RuleSet::empty().extend("/repo", Some("# build output\n\n*.o\n   \n"));
    assert_eq!(rules.len(), 4);
    assert_eq!(rules.evaluate("/repo/main.o", false), Verdict::Exclude);
    assert_eq!(rules.evaluate("/repo/# build output", false), Verdict::Include);
    assert_eq!(rules.evaluate("/repo/main.c", false), Verdict::Include);
}

#[test]
fn directory_only_rule_spares_files() {
    let rules = RuleSet::empty().extend("/repo", Some("build/\n"));
    assert_eq!(rules.evaluate("/repo/build", true), Verdict::Exclude);
    assert_eq!(rules.evaluate("/repo/build", false), Verdict::Include);
    assert_eq!(rules.evaluate("/repo/src/build", true), Verdict::Exclude);
}

#[test]
fn anchored_rule_matches_only_beside_its_rule_file() {
    let rules = RuleSet::empty().extend("/repo", Some("/out\n"));
    assert_eq!(rules.evaluate("/repo/out", true), Verdict::Exclude);
    assert_eq!(rules.evaluate("/repo/src/out", true), Verdict::Include);
}

#[test]
fn rule_of_a_subdirectory_is_matched_from_there() {
    let rules = RuleSet::empty().extend("/repo/sub", Some("/out\n"));
    assert_eq!(rules.evaluate("/repo/sub/out", false), Verdict::Exclude);
    assert_eq!(rules.evaluate("/repo/sub/deeper/out", false), Verdict::Include);
}

#[test]
fn carriage_returns_do_not_spoil_a_rule() {
    let rules = RuleSet::empty().extend("/repo", Some("*.log\r\n*.tmp\r\n"));
    assert_eq!(rules.len(), 2);
    assert_eq!(rules.evaluate("/repo/a.log", false), Verdict::Exclude);
    assert_eq!(rules.evaluate("/repo/a.tmp", false), Verdict::Exclude);
}

#[test]
fn byte_order_mark_is_no_part_of_the_first_rule() {
    let rules = RuleSet::empty().extend("/repo", Some("\u{feff}*.log\n"));
    assert_eq!(rules.len(), 1);
    assert_eq!(rules.evaluate("/repo/a.log", false), Verdict::Exclude);
}

#[test]
fn invalid_pattern_applies_to_nothing() {
    let rules = RuleSet::empty().extend("/repo", Some("a{b\n*.log\n"));
    assert_eq!(rules.len(), 2);
    assert_eq!(rules.evaluate("/repo/a{b", false), Verdict::Include);
    assert_eq!(rules.evaluate("/repo/x.log", false), Verdict::Exclude);
}

#[test]
fn single_rule_answers() {
    let exclude = Rule::compile("/repo", "*.log");
    assert_eq!(exclude.applies("/repo/a.log", false), Some(true));
    assert_eq!(exclude.applies("/repo/a.txt", false), None);
    let reinclude = Rule::compile("/repo", "!keep.log");
    assert_eq!(reinclude.applies("/repo/keep.log", false), Some(false));
    assert_eq!(reinclude.applies("/repo/a.log", false), None);
    let comment = Rule::compile("/repo", "# *.log");
    assert_eq!(comment.applies("/repo/a.log", false), None);
}

#[test]
fn shared_rule_set_gives_the_same_verdicts() {
    let rules = RuleSet::empty().extend("/repo", Some("*.log\n!keep.log\n"));
    let other = rules.share();
    assert_eq!(other.len(), 2);
    assert_eq!(other.evaluate("/repo/a.log", false), Verdict::Exclude);
    assert_eq!(other.evaluate("/repo/keep.log", false), Verdict::Include);
}
