//! The configuration of a run, as it is read: what the configuration files
//! gave, and the substitution rules.
//!
//! A rule is written as a trigger, `=` and a replacement. The substitutions
//! of a run have distinct triggers: a rule with the trigger of an earlier one
//! takes its place.
use vstd::prelude::*;
use vstd::string::*;
use crate::markdown::{rule_views, Replacement};
use crate::text::{chars_of, find_from, index_from, push_range, split_lines};
use crate::utils::OptionsView;

verus! {

/// What every trigger of a substitution begins with.
pub const TRIGGER_PREFIX: &'static str = "REP=";

/// The detail of the error for a run without a key for the remote site.
pub const MISSING_API_KEY: &'static str = "missing api key config";

/// The detail of the error for a run without the first half of the page
/// template.
pub const MISSING_PREFIX: &'static str = "missing markdown prefix config";

/// The detail of the error for a run without the second half of the page
/// template.
pub const MISSING_POSTFIX: &'static str = "missing markdown postfix config";

/// What the detail of the error for a substitution rule without `=` begins
/// with; the rule follows.
pub const MALFORMED_RULE: &'static str = "malformed replacement ";

/// What reading one configuration file gave.
#[derive(Debug, PartialEq, Eq)]
pub enum Source {
    /// The text of the file.
    Text(String),
    /// There is no such file.
    Missing,
    /// The file is there and could not be read; holds the cause.
    Unreadable(String),
}

/// The mathematical value of a `Source`.
pub enum SourceView {
    Text(Seq<char>),
    Missing,
    Unreadable(Seq<char>),
}

impl View for Source {
    type V = SourceView;

    open spec fn view(&self) -> SourceView {
        match self {
            Source::Text(text) => SourceView::Text(text@),
            Source::Missing => SourceView::Missing,
            Source::Unreadable(cause) => SourceView::Unreadable(cause@),
        }
    }
}

/// What reading the configuration files gave.
pub struct ConfigSources {
    /// The key for the remote site.
    pub api_key: Source,
    /// The first half of the page template.
    pub md_prefix: Source,
    /// The second half of the page template.
    pub md_postfix: Source,
    /// Markdown files to publish as they are, one path on each line.
    pub md_ignore: Source,
    /// Substitution rules, one on each line.
    pub md_replace: Source,
}

/// The mathematical value of `ConfigSources`.
pub struct ConfigSourcesView {
    pub api_key: SourceView,
    pub md_prefix: SourceView,
    pub md_postfix: SourceView,
    pub md_ignore: SourceView,
    pub md_replace: SourceView,
}

impl View for ConfigSources {
    type V = ConfigSourcesView;

    open spec fn view(&self) -> ConfigSourcesView {
        ConfigSourcesView {
            api_key: self.api_key@,
            md_prefix: self.md_prefix@,
            md_postfix: self.md_postfix@,
            md_ignore: self.md_ignore@,
            md_replace: self.md_replace@,
        }
    }
}

/// The lines of a configuration file; none where there is no text.
pub open spec fn file_lines(source: SourceView) -> Seq<Seq<char>> {
    match source {
        SourceView::Text(t) => split_lines(t),
        _ => Seq::empty(),
    }
}

/// The trigger of a rule: `REP=` and what stands before the first `=` of the
/// rule.
pub open spec fn trigger_of(rule: Seq<char>) -> Seq<char> {
    TRIGGER_PREFIX@ + rule.take(index_from(rule, '=', 0))
}

/// The substitution that a rule stands for: the trigger is `REP=` and what
/// stands before the first `=` of the rule, the replacement is what follows
/// that `=`. A rule without `=` stands for none.
pub open spec fn parse_rule(rule: Seq<char>) -> Option<(Seq<char>, Seq<char>)> {
    let eq = index_from(rule, '=', 0);
    if eq >= rule.len() {
        None
    } else {
        Some((trigger_of(rule), rule.skip(eq + 1)))
    }
}

/// The index of the substitution of `rules` with the trigger `trigger`, or
/// the length of `rules` where there is none.
pub open spec fn trigger_index(rules: Seq<(Seq<char>, Seq<char>)>, trigger: Seq<char>) -> int
    decreases rules.len(),
{
    if rules.len() == 0 {
        0
    } else if rules.first().0 == trigger {
        0
    } else {
        1 + trigger_index(rules.drop_first(), trigger)
    }
}

/// `rules` with the substitution `rule` set: it takes the place of the one
/// with its trigger, or goes to the end where there is none.
pub open spec fn with_rule(rules: Seq<(Seq<char>, Seq<char>)>, rule: (Seq<char>, Seq<char>)) -> Seq<
    (Seq<char>, Seq<char>),
> {
    let at = trigger_index(rules, rule.0);
    if at < rules.len() {
        rules.update(at, rule)
    } else {
        rules.push(rule)
    }
}

/// The substitutions that the rules stand for, each set in turn. A later
/// rule with the trigger of an earlier one takes its place.
pub open spec fn rules_of(lines: Seq<Seq<char>>) -> Seq<(Seq<char>, Seq<char>)>
    decreases lines.len(),
{
    if lines.len() == 0 {
        Seq::empty()
    } else {
        match parse_rule(lines.last()) {
            Some(rule) => with_rule(rules_of(lines.drop_last()), rule),
            None => rules_of(lines.drop_last()),
        }
    }
}

/// The index of the first rule without `=`, or the number of rules where
/// each has one.
pub open spec fn first_malformed(lines: Seq<Seq<char>>) -> int
    decreases lines.len(),
{
    if lines.len() == 0 {
        0
    } else if parse_rule(lines.first()) is None {
        0
    } else {
        1 + first_malformed(lines.drop_first())
    }
}

/// No two substitutions have the same trigger.
pub open spec fn distinct_triggers(rules: Seq<(Seq<char>, Seq<char>)>) -> bool {
    forall|i: int, j: int|
        0 <= i < j < rules.len() ==> (#[trigger] rules[i]).0 != (#[trigger] rules[j]).0
}

/// The lines of the rules of a run: those of the command line, then those
/// of the configuration file.
pub open spec fn rule_lines(options: OptionsView, sources: ConfigSourcesView) -> Seq<Seq<char>> {
    options.md_replace + file_lines(sources.md_replace)
}

/// `trigger_index` is the first index with the trigger, or the length where
/// no substitution has it.
pub proof fn lemma_trigger_index(rules: Seq<(Seq<char>, Seq<char>)>, trigger: Seq<char>)
    ensures
        0 <= trigger_index(rules, trigger) <= rules.len(),
        trigger_index(rules, trigger) < rules.len() ==> rules[trigger_index(rules, trigger)].0
            == trigger,
        forall|k: int| 0 <= k < trigger_index(rules, trigger) ==> (#[trigger] rules[k]).0 != trigger,
    decreases rules.len(),
{
    if rules.len() > 0 && rules.first().0 != trigger {
        lemma_trigger_index(rules.drop_first(), trigger);
        let at = trigger_index(rules.drop_first(), trigger);
        assert forall|k: int| 0 <= k < at + 1 implies (#[trigger] rules[k]).0 != trigger by {
            if k > 0 {
                assert(rules.drop_first()[k - 1].0 != trigger);
            }
        }
    }
}

/// Setting a substitution keeps the triggers distinct.
pub proof fn lemma_with_rule_keeps_distinct(
    rules: Seq<(Seq<char>, Seq<char>)>,
    rule: (Seq<char>, Seq<char>),
)
    requires
        distinct_triggers(rules),
    ensures
        distinct_triggers(with_rule(rules, rule)),
        with_rule(rules, rule).contains(rule),
{
    lemma_trigger_index(rules, rule.0);
    let at = trigger_index(rules, rule.0);
    let next = with_rule(rules, rule);
    if at < rules.len() {
        assert(next[at] == rule);
    } else {
        assert(next[rules.len() as int] == rule);
    }
}

/// The substitutions that rules stand for have distinct triggers.
pub proof fn lemma_rules_of_distinct(lines: Seq<Seq<char>>)
    ensures
        distinct_triggers(rules_of(lines)),
    decreases lines.len(),
{
    if lines.len() > 0 {
        lemma_rules_of_distinct(lines.drop_last());
        match parse_rule(lines.last()) {
            Some(rule) => {
                lemma_with_rule_keeps_distinct(rules_of(lines.drop_last()), rule);
            },
            None => {},
        }
    }
}

/// Setting a substitution keeps those with other triggers.
pub proof fn lemma_with_rule_keeps_others(
    rules: Seq<(Seq<char>, Seq<char>)>,
    rule: (Seq<char>, Seq<char>),
    other: (Seq<char>, Seq<char>),
)
    requires
        rules.contains(other),
        other.0 != rule.0,
    ensures
        with_rule(rules, rule).contains(other),
{
    lemma_trigger_index(rules, rule.0);
    let k = choose|k: int| 0 <= k < rules.len() && rules[k] == other;
    assert(with_rule(rules, rule)[k] == other);
}

/// The last rule for a trigger decides: the substitution of a rule stands
/// among those of the run where no later rule has its trigger.
pub proof fn lemma_last_rule_decides(lines: Seq<Seq<char>>, i: int)
    requires
        0 <= i < lines.len(),
        parse_rule(lines[i]) is Some,
        forall|j: int|
            i < j < lines.len() && parse_rule(#[trigger] lines[j]) is Some ==> trigger_of(lines[j])
                != trigger_of(lines[i]),
    ensures
        rules_of(lines).contains(parse_rule(lines[i])->0),
    decreases lines.len(),
{
    let before = lines.drop_last();
    let wanted = parse_rule(lines[i])->0;
    if i == lines.len() - 1 {
        lemma_rules_of_distinct(before);
        lemma_with_rule_keeps_distinct(rules_of(before), wanted);
    } else {
        lemma_last_rule_decides(before, i);
        match parse_rule(lines.last()) {
            Some(rule) => {
                lemma_with_rule_keeps_others(rules_of(before), rule, wanted);
            },
            None => {},
        }
    }
}

/// The substitution that a rule stands for, if it has a `=`.
pub fn parse_replacement(rule: &str) -> (r: Option<Replacement>)
    ensures
        match parse_rule(rule@) {
            Some(parsed) => r is Some && r->0@ == parsed,
            None => r is None,
        },
{
    let chars = chars_of(rule);
    let eq = find_from(&chars, '=', 0);
    if eq >= chars.len() {
        None
    } else {
        let mut trigger = TRIGGER_PREFIX.to_owned();
        push_range(&mut trigger, &chars, 0, eq);
        let mut replacement = String::new();
        push_range(&mut replacement, &chars, eq + 1, chars.len());
        Some(Replacement { trigger, replacement })
    }
}

/// Sets a substitution: it takes the place of the one with its trigger, or
/// goes to the end where there is none.
pub fn set_rule(rules: &mut Vec<Replacement>, rule: Replacement)
    ensures
        rule_views(final(rules)@) == with_rule(rule_views(old(rules)@), rule@),
{
    let ghost before = rule_views(rules@);
    let mut i: usize = 0;
    assert(before.skip(0) == before);
    while i < rules.len()
        invariant
            i <= rules.len(),
            rules@ == old(rules)@,
            before == rule_views(rules@),
            trigger_index(before, rule@.0) == i + trigger_index(before.skip(i as int), rule@.0),
        decreases rules.len() - i,
    {
        assert(before.skip(i as int).drop_first() == before.skip(i + 1));
        if rules[i].trigger == rule.trigger {
            rules[i] = rule;
            return ;
        }
        i = i + 1;
    }
    rules.push(rule);
}

} // verus!
