use vstd::prelude::*;

use crate::finding::{Category, Severity};
use crate::keyed::{lookup, KeyedMap};
use crate::seqs::{first_index, lemma_filter_push, lemma_first_index_spec, lemma_map_push, lemma_take_push};
use crate::text::str_equal;

verus! {

/// A rule with metadata and runtime override configuration.
#[derive(Debug, Clone, PartialEq, Eq)]
pub struct Rule {
    pub id: String,
    pub name: String,
    pub category: Category,
    pub default_severity: Severity,
    pub description: String,
    pub applicability: String,
    pub enabled: bool,
}

impl Rule {
    /// A rule that starts out enabled.
    pub fn new(
        id: &str,
        name: &str,
        category: Category,
        default_severity: Severity,
        description: &str,
        applicability: &str,
    ) -> (r: Self)
        ensures
            r.id@ == id@,
            r.name@ == name@,
            r.category == category,
            r.default_severity == default_severity,
            r.description@ == description@,
            r.applicability@ == applicability@,
            r.enabled,
    {
        Rule {
            id: id.to_owned(),
            name: name.to_owned(),
            category,
            default_severity,
            description: description.to_owned(),
            applicability: applicability.to_owned(),
            enabled: true,
        }
    }

    /// A field-by-field copy.
    pub fn duplicate(&self) -> (r: Self)
        ensures
            r == *self,
    {
        Rule {
            id: self.id.clone(),
            name: self.name.clone(),
            category: self.category,
            default_severity: self.default_severity,
            description: self.description.clone(),
            applicability: self.applicability.clone(),
            enabled: self.enabled,
        }
    }
}

/// Per-rule override applied from configuration before analysis.
#[derive(Debug, Clone, Copy, PartialEq, Eq, Structural)]
pub struct RuleOverride {
    pub enabled: Option<bool>,
    pub severity: Option<Severity>,
}

impl Default for RuleOverride {
    fn default() -> (r: Self)
        ensures
            r.enabled is None,
            r.severity is None,
    {
        RuleOverride { enabled: None, severity: None }
    }
}

/// A rule after the override given for it, if any: each field the override
/// sets replaces the rule's own, the others stay.
pub open spec fn overridden(rule: Rule, over: Option<RuleOverride>) -> Rule {
    match over {
        None => rule,
        Some(o) => Rule {
            enabled: match o.enabled {
                Some(e) => e,
                None => rule.enabled,
            },
            default_severity: match o.severity {
                Some(s) => s,
                None => rule.default_severity,
            },
            ..rule
        },
    }
}

/// A rule after the override stored under its own id.
pub open spec fn resolve_rule(rule: Rule, overrides: Seq<(String, RuleOverride)>) -> Rule {
    overridden(rule, lookup(overrides, rule.id@))
}

pub open spec fn resolve_with(overrides: Seq<(String, RuleOverride)>) -> spec_fn(Rule) -> Rule {
    |rule: Rule| resolve_rule(rule, overrides)
}

pub open spec fn is_enabled() -> spec_fn(Rule) -> bool {
    |rule: Rule| rule.enabled
}

/// The rules left enabled once each takes its override, in registry order.
pub open spec fn enabled_after(rules: Seq<Rule>, overrides: Seq<(String, RuleOverride)>) -> Seq<Rule> {
    rules.map_values(resolve_with(overrides)).filter(is_enabled())
}

/// The first registered rule with the given id, by position, or -1.
pub open spec fn rule_position(rules: Seq<Rule>, id: Seq<char>) -> int {
    first_index(|i: int| rules[i].id@ == id, rules.len() as int)
}

/// Registry of available rules with deterministic resolution.
///
/// Rules are independent units: enablement and severity overrides never
/// couple one rule's evaluation to another.
#[derive(Debug, Clone)]
pub struct RuleRegistry {
    rules: Vec<Rule>,
}

impl View for RuleRegistry {
    type V = Seq<Rule>;

    closed spec fn view(&self) -> Seq<Rule> {
        self.rules@
    }
}

impl Default for RuleRegistry {
    fn default() -> (r: Self)
        ensures
            r@ == Seq::<Rule>::empty(),
    {
        RuleRegistry { rules: Vec::new() }
    }
}

impl RuleRegistry {
    pub fn new() -> (r: Self)
        ensures
            r@ == Seq::<Rule>::empty(),
    {
        RuleRegistry { rules: Vec::new() }
    }

    /// Adds a rule after those already registered.
    pub fn register(&mut self, rule: Rule) -> (r: &mut Self)
        ensures
            r@ == old(self)@.push(rule),
            final(self)@ == final(r)@,
    {
        self.rules.push(rule);
        self
    }

    /// Adds the rules, in order, after those already registered.
    pub fn register_all(&mut self, rules: Vec<Rule>) -> (r: &mut Self)
        ensures
            r@ == old(self)@ + rules@,
            final(self)@ == final(r)@,
    {
        let mut more = rules;
        self.rules.append(&mut more);
        self
    }

    /// All registered rules, in registration order.
    pub fn all(&self) -> (r: &[Rule])
        ensures
            r@ == self@,
    {
        self.rules.as_slice()
    }

    /// The first registered rule with the given id.
    pub fn get(&self, id: &str) -> (r: Option<&Rule>)
        ensures
            rule_position(self@, id@) >= 0 ==> r == Some(&self@[rule_position(self@, id@)]),
            rule_position(self@, id@) < 0 ==> r is None,
            r is None <==> forall|i: int| 0 <= i < self@.len() ==> (#[trigger] self@[i]).id@ != id@,
    {
        let ghost pred = |i: int| self.rules@[i].id@ == id@;
        proof {
            lemma_first_index_spec(pred, self.rules@.len() as int);
        }
        let mut i: usize = 0;
        while i < self.rules.len()
            invariant
                i <= self.rules@.len(),
                pred == (|i: int| self.rules@[i].id@ == id@),
                forall|j: int| 0 <= j < i ==> !#[trigger] pred(j),
                first_index(pred, self.rules@.len() as int) >= 0 ==> {
                    &&& first_index(pred, self.rules@.len() as int) < self.rules@.len()
                    &&& pred(first_index(pred, self.rules@.len() as int))
                    &&& forall|j: int| 0 <= j < first_index(pred, self.rules@.len() as int) ==> !#[trigger] pred(j)
                },
                first_index(pred, self.rules@.len() as int) < 0 ==> forall|j: int|
                    0 <= j < self.rules@.len() ==> !#[trigger] pred(j),
            decreases self.rules@.len() - i,
        {
            if str_equal(self.rules[i].id.as_str(), id) {
                assert(pred(i as int));
                let ghost k = first_index(pred, self.rules@.len() as int);
                assert(k == i) by {
                    if k < i as int {
                        assert(!pred(k));
                    } else if k > i as int {
                        assert(!pred(i as int));
                    }
                }
                return Some(&self.rules[i]);
            }
            assert(!pred(i as int));
            i = i + 1;
        }
        assert forall|j: int| 0 <= j < self@.len() implies (#[trigger] self@[j]).id@ != id@ by {
            assert(!pred(j));
        }
        None
    }

    /// The rules enabled after applying the given overrides.
    ///
    /// Deterministic: registry order is preserved.
    pub fn enabled_rules(&self, overrides: &KeyedMap<RuleOverride>) -> (r: Vec<Rule>)
        ensures
            r@ == enabled_after(self@, overrides.spec_entries()),
    {
        let ghost o = overrides.spec_entries();
        let mut out: Vec<Rule> = Vec::new();
        let mut i: usize = 0;
        while i < self.rules.len()
            invariant
                i <= self.rules@.len(),
                o == overrides.spec_entries(),
                out@ == enabled_after(self.rules@.take(i as int), o),
            decreases self.rules@.len() - i,
        {
            let rule = &self.rules[i];
            let mut resolved = rule.duplicate();
            match overrides.get(rule.id.as_str()) {
                Some(over) => {
                    match over.enabled {
                        Some(enabled) => {
                            resolved.enabled = enabled;
                        },
                        None => {},
                    }
                    match over.severity {
                        Some(severity) => {
                            resolved.default_severity = severity;
                        },
                        None => {},
                    }
                },
                None => {},
            }
            proof {
                assert(resolved == resolve_rule(self.rules@[i as int], o));
                lemma_take_push(self.rules@, i as int);
                lemma_map_push(self.rules@.take(i as int), self.rules@[i as int], resolve_with(o));
                lemma_filter_push(
                    self.rules@.take(i as int).map_values(resolve_with(o)),
                    resolved,
                    is_enabled(),
                );
            }
            if resolved.enabled {
                out.push(resolved);
            }
            i = i + 1;
        }
        assert(self.rules@.take(self.rules@.len() as int) =~= self.rules@);
        out
    }
}

/// A reusable collection of rules selected as a unit.
#[derive(Debug, Clone)]
pub struct RulePack {
    pub id: String,
    pub rule_ids: Vec<String>,
}

impl Default for RulePack {
    fn default() -> (r: Self)
        ensures
            r.id@ == Seq::<char>::empty(),
            r.rule_ids@ == Seq::<String>::empty(),
    {
        RulePack { id: String::new(), rule_ids: Vec::new() }
    }
}

/// Rules are independent: how one rule resolves depends on that rule and the
/// override stored under its own id, not on any other rule or override.
pub proof fn lemma_rule_independence(
    rule: Rule,
    first: Seq<(String, RuleOverride)>,
    second: Seq<(String, RuleOverride)>,
)
    requires
        lookup(first, rule.id@) == lookup(second, rule.id@),
    ensures
        resolve_rule(rule, first) == resolve_rule(rule, second),
{
}

/// Without overrides the enabled rules are the rules registered enabled, in
/// registry order.
pub proof fn lemma_no_overrides_keeps_enabled(rules: Seq<Rule>)
    ensures
        enabled_after(rules, Seq::<(String, RuleOverride)>::empty()) == rules.filter(is_enabled()),
{
    let e = Seq::<(String, RuleOverride)>::empty();
    assert forall|r: Rule| resolve_rule(r, e) == r by {
        crate::keyed::lemma_key_index(e, r.id@);
    }
    assert(rules.map_values(resolve_with(e)) =~= rules);
}

/// Resolution keeps each enabled rule's identity and metadata; only the
/// enablement and the severity can change.
pub proof fn lemma_resolution_keeps_identity(rule: Rule, overrides: Seq<(String, RuleOverride)>)
    ensures
        resolve_rule(rule, overrides).id == rule.id,
        resolve_rule(rule, overrides).name == rule.name,
        resolve_rule(rule, overrides).category == rule.category,
        resolve_rule(rule, overrides).description == rule.description,
        resolve_rule(rule, overrides).applicability == rule.applicability,
{
}

/// Each field an override sets applies on its own: a severity override sets
/// the rule's severity whether or not the override also sets enablement, an
/// enablement override sets whether it is enabled whatever its severity, and
/// what the override leaves unset (or a rule without an override) keeps the
/// rule's own value.
pub proof fn lemma_override_fields_apply(rule: Rule, overrides: Seq<(String, RuleOverride)>)
    ensures
        match lookup(overrides, rule.id@) {
            Some(o) => {
                &&& o.severity matches Some(s) ==> resolve_rule(rule, overrides).default_severity == s
                &&& o.severity is None ==> resolve_rule(rule, overrides).default_severity == rule.default_severity
                &&& o.enabled matches Some(e) ==> resolve_rule(rule, overrides).enabled == e
                &&& o.enabled is None ==> resolve_rule(rule, overrides).enabled == rule.enabled
            },
            None => resolve_rule(rule, overrides) == rule,
        },
{
}

/// The enabled rules are exactly the registered rules, each taking its own
/// override, that end up enabled, in registry order: the `k`-th registered
/// rule, if enabled once resolved, is listed with its override's severity.
pub proof fn lemma_enabled_rules_take_their_overrides(
    rules: Seq<Rule>,
    overrides: Seq<(String, RuleOverride)>,
    k: int,
)
    requires
        0 <= k < rules.len(),
        resolve_rule(rules[k], overrides).enabled,
    ensures
        enabled_after(rules, overrides).contains(resolve_rule(rules[k], overrides)),
        lookup(overrides, rules[k].id@) matches Some(o) ==> (o.severity matches Some(s) ==> exists|m: int|
            0 <= m < enabled_after(rules, overrides).len() && (#[trigger] enabled_after(rules, overrides)[m]).id
                == rules[k].id && enabled_after(rules, overrides)[m].default_severity == s),
{
    let mapped = rules.map_values(resolve_with(overrides));
    assert(mapped[k] == resolve_rule(rules[k], overrides));
    assert(mapped.contains(mapped[k]));
    assert(mapped.filter(is_enabled()).contains(mapped[k])) by {
        mapped.lemma_filter_contains(is_enabled(), k);
    }
    let out = enabled_after(rules, overrides);
    let m = choose|m: int| 0 <= m < out.len() && out[m] == mapped[k];
    assert(out[m].id == rules[k].id);
}

} // verus!
