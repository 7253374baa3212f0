use vstd::prelude::*;

use crate::analysis::Analysis;
use crate::finding::{category_label, Category, Finding, Severity};
use crate::keyed::{lookup, KeyedMap};
use crate::seqs::{lemma_filter_push, lemma_map_push, lemma_take_push};
use crate::text::push_str;

verus! {

/// Per-category thresholds, each category at most once, in insertion order.
#[derive(Debug, PartialEq, Eq)]
pub struct CategoryLimits {
    entries: Vec<(Category, u64)>,
}

/// The first position of a category among the entries, or -1.
pub open spec fn category_index(e: Seq<(Category, u64)>, c: Category) -> int {
    if exists|i: int| 0 <= i < e.len() && (#[trigger] e[i]).0 == c && forall|j: int| 0 <= j < i ==> (#[trigger] e[j]).0 != c {
        choose|i: int| 0 <= i < e.len() && (#[trigger] e[i]).0 == c && forall|j: int| 0 <= j < i ==> (#[trigger] e[j]).0 != c
    } else {
        -1
    }
}

impl Clone for CategoryLimits {
    fn clone(&self) -> (r: Self)
        ensures
            r.spec_entries() == self.spec_entries(),
    {
        proof {
            use_type_invariant(self);
        }
        let mut entries: Vec<(Category, u64)> = Vec::new();
        let mut i: usize = 0;
        while i < self.entries.len()
            invariant
                i <= self.entries@.len(),
                entries@ == self.entries@.take(i as int),
            decreases self.entries@.len() - i,
        {
            let (c, l) = self.entries[i];
            entries.push((c, l));
            proof {
                lemma_take_push(self.entries@, i as int);
            }
            i = i + 1;
        }
        assert(entries@ =~= self.entries@);
        CategoryLimits { entries }
    }
}

/// No category appears twice.
pub open spec fn categories_distinct(e: Seq<(Category, u64)>) -> bool {
    forall|i: int, j: int| 0 <= i < j < e.len() ==> (#[trigger] e[i]).0 != (#[trigger] e[j]).0
}

impl CategoryLimits {
    pub closed spec fn spec_entries(&self) -> Seq<(Category, u64)> {
        self.entries@
    }

    /// The limits name each category once.
    #[verifier::type_invariant]
    spec fn each_category_once(&self) -> bool {
        categories_distinct(self.entries@)
    }

    pub fn new() -> (r: Self)
        ensures
            r.spec_entries() == Seq::<(Category, u64)>::empty(),
    {
        CategoryLimits { entries: Vec::new() }
    }

    pub fn len(&self) -> (r: usize)
        ensures
            r == self.spec_entries().len(),
    {
        self.entries.len()
    }

    /// All limits in order; each category appears once.
    pub fn entries(&self) -> (r: &[(Category, u64)])
        ensures
            r@ == self.spec_entries(),
            categories_distinct(r@),
    {
        proof {
            use_type_invariant(self);
        }
        self.entries.as_slice()
    }

    /// Sets the limit of a category: an existing entry keeps its place.
    pub fn insert(&mut self, category: Category, limit: u64)
        ensures
            (exists|i: int|
                0 <= i < old(self).spec_entries().len() && (#[trigger] old(self).spec_entries()[i]).0 == category)
                ==> final(self).spec_entries() == old(self).spec_entries().update(
                category_index(old(self).spec_entries(), category),
                (category, limit),
            ),
            (forall|i: int|
                0 <= i < old(self).spec_entries().len() ==> (#[trigger] old(self).spec_entries()[i]).0 != category)
                ==> final(self).spec_entries() == old(self).spec_entries().push((category, limit)),
    {
        proof {
            use_type_invariant(&*self);
        }
        let mut entries: Vec<(Category, u64)> = Vec::new();
        std::mem::swap(&mut entries, &mut self.entries);
        let mut i: usize = 0;
        while i < entries.len()
            invariant
                i <= entries@.len(),
                entries@ == old(self).spec_entries(),
                categories_distinct(entries@),
                forall|j: int| 0 <= j < i ==> (#[trigger] entries@[j]).0 != category,
            decreases entries@.len() - i,
        {
            if entries[i].0 == category {
                assert(category_index(entries@, category) == i as int);
                entries.set(i, (category, limit));
                assert(categories_distinct(entries@));
                self.entries = entries;
                return;
            }
            i = i + 1;
        }
        entries.push((category, limit));
        assert(categories_distinct(entries@));
        self.entries = entries;
    }
}

/// A quality policy composed of severity and category thresholds.
#[derive(Debug, Clone, PartialEq, Eq)]
pub struct Policy {
    pub name: String,
    pub max_blockers: u64,
    pub max_critical: u64,
    pub max_major: u64,
    pub max_minor: u64,
    pub categories: CategoryLimits,
}

impl Policy {
    /// The built-in policy: no blockers, no critical findings, at most ten
    /// major and a hundred minor findings, no category limits.
    pub fn default_named(name: &str) -> (r: Self)
        ensures
            r.name@ == name@,
            r.max_blockers == 0,
            r.max_critical == 0,
            r.max_major == 10,
            r.max_minor == 100,
            r.categories.spec_entries().len() == 0,
    {
        Policy {
            name: name.to_owned(),
            max_blockers: 0,
            max_critical: 0,
            max_major: 10,
            max_minor: 100,
            categories: CategoryLimits::new(),
        }
    }

    /// A copy of the policy.
    pub fn duplicate(&self) -> (r: Self)
        ensures
            r.name == self.name,
            r.max_blockers == self.max_blockers,
            r.max_critical == self.max_critical,
            r.max_major == self.max_major,
            r.max_minor == self.max_minor,
            r.categories.spec_entries() == self.categories.spec_entries(),
    {
        proof {
            use_type_invariant(&self.categories);
        }
        let mut entries: Vec<(Category, u64)> = Vec::new();
        let mut i: usize = 0;
        while i < self.categories.entries.len()
            invariant
                i <= self.categories.entries@.len(),
                entries@ == self.categories.entries@.take(i as int),
            decreases self.categories.entries@.len() - i,
        {
            let (c, l) = self.categories.entries[i];
            entries.push((c, l));
            proof {
                lemma_take_push(self.categories.entries@, i as int);
            }
            i = i + 1;
        }
        assert(entries@ =~= self.categories.entries@);
        Policy {
            name: self.name.clone(),
            max_blockers: self.max_blockers,
            max_critical: self.max_critical,
            max_major: self.max_major,
            max_minor: self.max_minor,
            categories: CategoryLimits { entries },
        }
    }
}

/// One violated condition within a gate decision.
#[derive(Debug, Clone, PartialEq, Eq)]
pub struct ConditionViolation {
    pub condition: String,
    pub limit: u64,
    pub actual: u64,
    pub responsible_findings: Vec<String>,
}

/// Result of evaluating an analysis against a policy.
#[derive(Debug, Clone, PartialEq, Eq)]
pub enum GateDecision {
    Pass,
    Fail { policy: String, violations: Vec<ConditionViolation> },
}

impl GateDecision {
    pub fn passed(&self) -> (r: bool)
        ensures
            r == (*self is Pass),
    {
        match self {
            GateDecision::Pass => true,
            GateDecision::Fail { .. } => false,
        }
    }
}

// ---------------------------------------------------------------------------
// What the quality gate decides, stated over the findings.
// ---------------------------------------------------------------------------

pub open spec fn has_severity(s: Severity) -> spec_fn(Finding) -> bool {
    |f: Finding| f.severity == s
}

pub open spec fn has_category(c: Category) -> spec_fn(Finding) -> bool {
    |f: Finding| f.category == c
}

pub open spec fn finding_id_string() -> spec_fn(Finding) -> String {
    |f: Finding| f.id
}

/// The ids of the findings of one severity, in finding order.
pub open spec fn ids_with_severity(findings: Seq<Finding>, s: Severity) -> Seq<String> {
    findings.filter(has_severity(s)).map_values(finding_id_string())
}

/// The ids of the findings of one category, in finding order.
pub open spec fn ids_with_category(findings: Seq<Finding>, c: Category) -> Seq<String> {
    findings.filter(has_category(c)).map_values(finding_id_string())
}

/// A violated condition as the quality gate reports it: the condition's name, its
/// limit, and the responsible findings (whose number is the actual count).
pub type ExpectedViolation = (Seq<char>, u64, Seq<String>);

/// The condition, if the responsible findings exceed the limit.
pub open spec fn over_limit(condition: Seq<char>, limit: u64, ids: Seq<String>) -> Seq<ExpectedViolation> {
    if ids.len() > limit {
        seq![(condition, limit, ids)]
    } else {
        Seq::empty()
    }
}

/// Severity conditions, checked in the order blockers, critical, major, minor.
pub open spec fn severity_part(findings: Seq<Finding>, policy: Policy) -> Seq<ExpectedViolation> {
    over_limit("blockers"@, policy.max_blockers, ids_with_severity(findings, Severity::Blocker))
        + over_limit("critical"@, policy.max_critical, ids_with_severity(findings, Severity::Critical))
        + over_limit("major"@, policy.max_major, ids_with_severity(findings, Severity::Major))
        + over_limit("minor"@, policy.max_minor, ids_with_severity(findings, Severity::Minor))
}

/// The condition name of a category threshold.
pub open spec fn category_condition(c: Category) -> Seq<char> {
    "category:"@ + category_label(c)
}

/// Category conditions, in the order the policy lists its categories.
pub open spec fn category_part(findings: Seq<Finding>, limits: Seq<(Category, u64)>) -> Seq<ExpectedViolation>
    decreases limits.len(),
{
    if limits.len() == 0 {
        Seq::empty()
    } else {
        category_part(findings, limits.drop_last()) + over_limit(
            category_condition(limits.last().0),
            limits.last().1,
            ids_with_category(findings, limits.last().0),
        )
    }
}

/// Every violated condition of `policy` for the given findings.
pub open spec fn expected_violations(findings: Seq<Finding>, policy: Policy) -> Seq<ExpectedViolation> {
    severity_part(findings, policy) + category_part(findings, policy.categories.spec_entries())
}

/// A reported violation says exactly what the expected one says.
pub open spec fn violation_matches(v: ConditionViolation, e: ExpectedViolation) -> bool {
    &&& v.condition@ == e.0
    &&& v.limit == e.1
    &&& v.actual == e.2.len()
    &&& v.responsible_findings@ == e.2
}

pub open spec fn violations_match(vs: Seq<ConditionViolation>, es: Seq<ExpectedViolation>) -> bool {
    &&& vs.len() == es.len()
    &&& forall|i: int| 0 <= i < vs.len() ==> violation_matches(#[trigger] vs[i], es[i])
}

/// The decision the quality gate owes for the findings and the policy.
pub open spec fn decision_matches(d: GateDecision, findings: Seq<Finding>, policy: Policy) -> bool {
    let expected = expected_violations(findings, policy);
    match d {
        GateDecision::Pass => expected.len() == 0,
        GateDecision::Fail { policy: name, violations } => {
            &&& expected.len() > 0
            &&& name@ == policy.name@
            &&& violations_match(violations@, expected)
        },
    }
}

fn ids_matching_severity(findings: &Vec<Finding>, severity: Severity) -> (r: Vec<String>)
    ensures
        r@ == ids_with_severity(findings@, severity),
{
    let mut ids: Vec<String> = Vec::new();
    let mut i: usize = 0;
    while i < findings.len()
        invariant
            i <= findings@.len(),
            ids@ == findings@.take(i as int).filter(has_severity(severity)).map_values(finding_id_string()),
        decreases findings@.len() - i,
    {
        proof {
            lemma_take_push(findings@, i as int);
            lemma_filter_push(findings@.take(i as int), findings@[i as int], has_severity(severity));
            lemma_map_push(
                findings@.take(i as int).filter(has_severity(severity)),
                findings@[i as int],
                finding_id_string(),
            );
        }
        if findings[i].severity == severity {
            ids.push(findings[i].id.clone());
        }
        i = i + 1;
    }
    assert(findings@.take(findings@.len() as int) =~= findings@);
    ids
}

fn ids_matching_category(findings: &Vec<Finding>, category: Category) -> (r: Vec<String>)
    ensures
        r@ == ids_with_category(findings@, category),
{
    let mut ids: Vec<String> = Vec::new();
    let mut i: usize = 0;
    while i < findings.len()
        invariant
            i <= findings@.len(),
            ids@ == findings@.take(i as int).filter(has_category(category)).map_values(finding_id_string()),
        decreases findings@.len() - i,
    {
        proof {
            lemma_take_push(findings@, i as int);
            lemma_filter_push(findings@.take(i as int), findings@[i as int], has_category(category));
            lemma_map_push(
                findings@.take(i as int).filter(has_category(category)),
                findings@[i as int],
                finding_id_string(),
            );
        }
        if findings[i].category == category {
            ids.push(findings[i].id.clone());
        }
        i = i + 1;
    }
    assert(findings@.take(findings@.len() as int) =~= findings@);
    ids
}

/// Counts the findings of one severity and lists their ids.
fn count_by_severity(analysis: &Analysis, severity: Severity) -> (r: (u64, Vec<String>))
    ensures
        r.1@ == ids_with_severity(analysis.findings@, severity),
        r.0 == r.1@.len(),
{
    let ids = ids_matching_severity(&analysis.findings, severity);
    let n = ids.len() as u64;
    (n, ids)
}

/// Counts the findings of one category and lists their ids.
fn count_by_category(analysis: &Analysis, category: Category) -> (r: (u64, Vec<String>))
    ensures
        r.1@ == ids_with_category(analysis.findings@, category),
        r.0 == r.1@.len(),
{
    let ids = ids_matching_category(&analysis.findings, category);
    let n = ids.len() as u64;
    (n, ids)
}

/// `new` is `old` followed by violations that say what `es` says.
pub open spec fn extends_matching(old: Seq<ConditionViolation>, new: Seq<ConditionViolation>, es: Seq<ExpectedViolation>) -> bool {
    &&& new.len() == old.len() + es.len()
    &&& forall|i: int| 0 <= i < old.len() ==> #[trigger] new[i] == old[i]
    &&& forall|i: int| 0 <= i < es.len() ==> violation_matches(#[trigger] new[old.len() + i], es[i])
}

proof fn lemma_extends_matching(
    old: Seq<ConditionViolation>,
    new: Seq<ConditionViolation>,
    e1: Seq<ExpectedViolation>,
    e2: Seq<ExpectedViolation>,
)
    requires
        violations_match(old, e1),
        extends_matching(old, new, e2),
    ensures
        violations_match(new, e1 + e2),
{
    assert forall|i: int| 0 <= i < new.len() implies violation_matches(#[trigger] new[i], (e1 + e2)[i]) by {
        if i < old.len() {
            assert(new[i] == old[i]);
        } else {
            let k = i - old.len();
            assert(new[old.len() + k] == new[i]);
        }
    }
}

/// Pushes the violation when the count exceeds the limit.
fn push_if_over(violations: &mut Vec<ConditionViolation>, condition: &str, limit: u64, counted: (u64, Vec<String>))
    requires
        counted.0 == counted.1@.len(),
    ensures
        extends_matching(old(violations)@, final(violations)@, over_limit(condition@, limit, counted.1@)),
{
    let (actual, responsible) = counted;
    if actual > limit {
        let mut name = String::new();
        push_str(&mut name, condition);
        violations.push(ConditionViolation { condition: name, limit, actual, responsible_findings: responsible });
    }
}

/// The severity conditions that `analysis` violates under `policy`.
fn severity_violations(analysis: &Analysis, policy: &Policy) -> (r: Vec<ConditionViolation>)
    ensures
        violations_match(r@, severity_part(analysis.findings@, *policy)),
{
    let ghost f = analysis.findings@;
    let ghost e1 = over_limit("blockers"@, policy.max_blockers, ids_with_severity(f, Severity::Blocker));
    let ghost e2 = over_limit("critical"@, policy.max_critical, ids_with_severity(f, Severity::Critical));
    let ghost e3 = over_limit("major"@, policy.max_major, ids_with_severity(f, Severity::Major));
    let ghost e4 = over_limit("minor"@, policy.max_minor, ids_with_severity(f, Severity::Minor));
    let mut violations: Vec<ConditionViolation> = Vec::new();
    let ghost v0 = violations@;
    push_if_over(&mut violations, "blockers", policy.max_blockers, count_by_severity(analysis, Severity::Blocker));
    proof {
        assert(violations_match(v0, Seq::<ExpectedViolation>::empty()));
        lemma_extends_matching(v0, violations@, Seq::empty(), e1);
        assert(Seq::<ExpectedViolation>::empty() + e1 =~= e1);
    }
    let ghost v1 = violations@;
    push_if_over(&mut violations, "critical", policy.max_critical, count_by_severity(analysis, Severity::Critical));
    proof {
        lemma_extends_matching(v1, violations@, e1, e2);
    }
    let ghost v2 = violations@;
    push_if_over(&mut violations, "major", policy.max_major, count_by_severity(analysis, Severity::Major));
    proof {
        lemma_extends_matching(v2, violations@, e1 + e2, e3);
    }
    let ghost v3 = violations@;
    push_if_over(&mut violations, "minor", policy.max_minor, count_by_severity(analysis, Severity::Minor));
    proof {
        lemma_extends_matching(v3, violations@, e1 + e2 + e3, e4);
    }
    violations
}

/// Deterministic, explainable evaluation of findings against a policy.
pub struct GateEvaluator;

impl GateEvaluator {
    /// Evaluate `analysis` against `policy`.
    ///
    /// Until baselines exist, every finding counts as new. The decision is
    /// deterministic for identical inputs and names the policy and findings
    /// responsible for any failure.
    pub fn evaluate(analysis: &Analysis, policy: &Policy) -> (r: GateDecision)
        ensures
            decision_matches(r, analysis.findings@, *policy),
            r matches GateDecision::Fail { violations, .. } ==> conditions_distinct(violations@),
    {
        proof {
            use_type_invariant(&policy.categories);
            lemma_expected_distinct(analysis.findings@, *policy);
        }
        let mut violations = severity_violations(analysis, policy);
        let ghost base = violations@;
        let limits = policy.categories.entries();
        let mut i: usize = 0;
        while i < limits.len()
            invariant
                i <= limits@.len(),
                limits@ == policy.categories.spec_entries(),
                violations_match(
                    violations@,
                    severity_part(analysis.findings@, *policy) + category_part(analysis.findings@, limits@.take(i as int)),
                ),
            decreases limits@.len() - i,
        {
            let (category, limit) = limits[i];
            let mut condition = String::new();
            push_str(&mut condition, "category:");
            push_str(&mut condition, category.label());
            let ghost before = violations@;
            push_if_over(&mut violations, condition.as_str(), limit, count_by_category(analysis, category));
            proof {
                let f = analysis.findings@;
                let t = limits@.take(i as int + 1);
                assert(t.drop_last() =~= limits@.take(i as int));
                let added = over_limit(category_condition(category), limit, ids_with_category(f, category));
                let prev = severity_part(f, *policy) + category_part(f, limits@.take(i as int));
                assert(severity_part(f, *policy) + category_part(f, t) =~= prev + added);
                lemma_extends_matching(before, violations@, prev, added);
            }
            i = i + 1;
        }
        assert(limits@.take(limits@.len() as int) =~= limits@);
        proof {
            lemma_matching_distinct(violations@, expected_violations(analysis.findings@, *policy));
        }
        if violations.len() == 0 {
            GateDecision::Pass
        } else {
            GateDecision::Fail { policy: policy.name.clone(), violations }
        }
    }
}

/// Resolves the active policy from a named set.
#[derive(Debug, Clone)]
pub struct PolicyResolver;

impl PolicyResolver {
    /// Select the named policy, falling back to the built-in default.
    pub fn resolve(policies: &KeyedMap<Policy>, name: Option<&str>) -> (r: Policy)
        ensures
            match name {
                None => r.name@ == "default"@ && is_builtin(r),
                Some(n) => match lookup(policies.spec_entries(), n@) {
                    Some(p) => same_policy(r, p),
                    None => r.name@ == n@ && is_builtin(r),
                },
            },
    {
        match name {
            None => Policy::default_named("default"),
            Some(n) => match policies.get(n) {
                Some(p) => p.duplicate(),
                None => Policy::default_named(n),
            },
        }
    }
}

/// The thresholds of the built-in policy.
pub open spec fn is_builtin(p: Policy) -> bool {
    &&& p.max_blockers == 0
    &&& p.max_critical == 0
    &&& p.max_major == 10
    &&& p.max_minor == 100
    &&& p.categories.spec_entries().len() == 0
}

/// Two policies with the same name and thresholds.
pub open spec fn same_policy(a: Policy, b: Policy) -> bool {
    &&& a.name == b.name
    &&& a.max_blockers == b.max_blockers
    &&& a.max_critical == b.max_critical
    &&& a.max_major == b.max_major
    &&& a.max_minor == b.max_minor
    &&& a.categories.spec_entries() == b.categories.spec_entries()
}

} // verus!

verus! {

/// Every threshold of the policy holds for the findings.
pub open spec fn within_limits(findings: Seq<Finding>, policy: Policy) -> bool {
    &&& ids_with_severity(findings, Severity::Blocker).len() <= policy.max_blockers
    &&& ids_with_severity(findings, Severity::Critical).len() <= policy.max_critical
    &&& ids_with_severity(findings, Severity::Major).len() <= policy.max_major
    &&& ids_with_severity(findings, Severity::Minor).len() <= policy.max_minor
    &&& forall|i: int|
        0 <= i < policy.categories.spec_entries().len() ==> ids_with_category(
            findings,
            (#[trigger] policy.categories.spec_entries()[i]).0,
        ).len() <= policy.categories.spec_entries()[i].1
}

proof fn lemma_category_part_empty(findings: Seq<Finding>, limits: Seq<(Category, u64)>)
    ensures
        category_part(findings, limits).len() == 0 <==> forall|i: int|
            0 <= i < limits.len() ==> ids_with_category(findings, (#[trigger] limits[i]).0).len() <= limits[i].1,
    decreases limits.len(),
{
    if limits.len() > 0 {
        lemma_category_part_empty(findings, limits.drop_last());
        if category_part(findings, limits).len() == 0 {
            assert forall|i: int| 0 <= i < limits.len() implies ids_with_category(findings, (#[trigger] limits[i]).0).len() <= limits[i].1 by {
                if i < limits.len() - 1 {
                    assert(limits.drop_last()[i] == limits[i]);
                }
            }
        } else {
            if forall|i: int| 0 <= i < limits.len() ==> ids_with_category(findings, (#[trigger] limits[i]).0).len() <= limits[i].1 {
                assert forall|i: int| 0 <= i < limits.drop_last().len() implies ids_with_category(findings, (#[trigger] limits.drop_last()[i]).0).len() <= limits.drop_last()[i].1 by {
                    assert(limits.drop_last()[i] == limits[i]);
                }
                assert(ids_with_category(findings, limits[limits.len() - 1].0).len() <= limits[limits.len() - 1].1);
            }
        }
    }
}

/// The quality gate passes exactly when every threshold of the policy holds: at most
/// `max_blockers` blockers, `max_critical` critical, `max_major` major and
/// `max_minor` minor findings, and no category over its limit.
pub proof fn lemma_gate_passes_iff_within_limits(d: GateDecision, findings: Seq<Finding>, policy: Policy)
    requires
        decision_matches(d, findings, policy),
    ensures
        d is Pass <==> within_limits(findings, policy),
{
    lemma_category_part_empty(findings, policy.categories.spec_entries());
}

/// The decision is determined by the findings and the policy: two decisions
/// for the same findings and policy agree on passing, and when they fail they
/// name the same policy and report the same violations in the same order,
/// with the same limits, counts and responsible findings.
pub proof fn lemma_gate_decision_determined(d1: GateDecision, d2: GateDecision, findings: Seq<Finding>, policy: Policy)
    requires
        decision_matches(d1, findings, policy),
        decision_matches(d2, findings, policy),
    ensures
        d1 is Pass <==> d2 is Pass,
        d1 matches GateDecision::Fail { policy: p1, violations: v1 } ==> d2 matches GateDecision::Fail {
            policy: p2,
            violations: v2,
        } && p1@ == p2@ && v1@.len() == v2@.len() && forall|i: int|
            0 <= i < v1@.len() ==> {
                &&& (#[trigger] v1@[i]).condition@ == v2@[i].condition@
                &&& v1@[i].limit == v2@[i].limit
                &&& v1@[i].actual == v2@[i].actual
                &&& v1@[i].responsible_findings@ == v2@[i].responsible_findings@
            },
{
    let expected = expected_violations(findings, policy);
    match (d1, d2) {
        (GateDecision::Fail { policy: p1, violations: v1 }, GateDecision::Fail { policy: p2, violations: v2 }) => {
            assert forall|i: int| 0 <= i < v1@.len() implies {
                &&& (#[trigger] v1@[i]).condition@ == v2@[i].condition@
                &&& v1@[i].limit == v2@[i].limit
                &&& v1@[i].actual == v2@[i].actual
                &&& v1@[i].responsible_findings@ == v2@[i].responsible_findings@
            } by {
                assert(violation_matches(v1@[i], expected[i]));
                assert(violation_matches(v2@[i], expected[i]));
            }
        },
        _ => {},
    }
}

/// No two violations name the same condition.
pub open spec fn conditions_distinct(vs: Seq<ConditionViolation>) -> bool {
    forall|i: int, j: int| 0 <= i < j < vs.len() ==> (#[trigger] vs[i]).condition@ != (#[trigger] vs[j]).condition@
}

/// No two expected violations name the same condition.
pub open spec fn expected_distinct(es: Seq<ExpectedViolation>) -> bool {
    forall|i: int, j: int| 0 <= i < j < es.len() ==> (#[trigger] es[i]).0 != (#[trigger] es[j]).0
}

/// Different categories have different labels.
proof fn lemma_category_label_injective(a: Category, b: Category)
    requires
        category_label(a) == category_label(b),
    ensures
        a == b,
{
    reveal_strlit("security");
    reveal_strlit("reliability");
    reveal_strlit("maintainability");
    reveal_strlit("architecture");
    reveal_strlit("performance");
    reveal_strlit("supply chain");
    let la = category_label(a);
    let lb = category_label(b);
    assert(la.len() == lb.len());
    if la.len() > 0 {
        assert(la[0] == lb[0]);
    }
}

/// Category conditions are `category:` and the label.
proof fn lemma_category_condition_injective(a: Category, b: Category)
    requires
        category_condition(a) == category_condition(b),
    ensures
        a == b,
{
    let p = "category:"@;
    assert(category_label(a) =~= category_condition(a).skip(p.len() as int));
    assert(category_label(b) =~= category_condition(b).skip(p.len() as int));
    lemma_category_label_injective(a, b);
}

/// Every category condition of the policy names one of its categories, and
/// none is named twice.
proof fn lemma_category_part_distinct(findings: Seq<Finding>, limits: Seq<(Category, u64)>)
    requires
        categories_distinct(limits),
    ensures
        expected_distinct(category_part(findings, limits)),
        forall|i: int|
            0 <= i < category_part(findings, limits).len() ==> exists|k: int|
                0 <= k < limits.len() && (#[trigger] category_part(findings, limits)[i]).0 == category_condition(
                    limits[k].0,
                ),
    decreases limits.len(),
{
    if limits.len() > 0 {
        let init = limits.drop_last();
        let last = limits.last();
        assert(categories_distinct(init)) by {
            assert forall|i: int, j: int| 0 <= i < j < init.len() implies (#[trigger] init[i]).0 != (#[trigger] init[j]).0 by {
                assert(init[i] == limits[i] && init[j] == limits[j]);
            }
        }
        lemma_category_part_distinct(findings, init);
        let before = category_part(findings, init);
        let added = over_limit(category_condition(last.0), last.1, ids_with_category(findings, last.0));
        let cp = category_part(findings, limits);
        assert(cp == before + added);
        assert forall|i: int| 0 <= i < cp.len() implies exists|k: int|
            0 <= k < limits.len() && (#[trigger] cp[i]).0 == category_condition(limits[k].0) by {
            if i < before.len() {
                assert(cp[i] == before[i]);
                let k = choose|k: int| 0 <= k < init.len() && before[i].0 == category_condition(init[k].0);
                assert(init[k] == limits[k]);
            } else {
                assert(cp[i].0 == category_condition(limits[limits.len() - 1].0));
            }
        }
        assert forall|i: int, j: int| 0 <= i < j < cp.len() implies (#[trigger] cp[i]).0 != (#[trigger] cp[j]).0 by {
            if j < before.len() {
                assert(cp[i] == before[i] && cp[j] == before[j]);
            } else {
                assert(cp[i] == before[i]);
                let k = choose|k: int| 0 <= k < init.len() && before[i].0 == category_condition(init[k].0);
                assert(init[k] == limits[k]);
                assert(limits[k].0 != limits[limits.len() - 1].0);
                if cp[i].0 == cp[j].0 {
                    lemma_category_condition_injective(limits[k].0, last.0);
                }
            }
        }
    }
}

/// The severity conditions are `blockers`, `critical`, `major` and `minor`,
/// each at most once.
proof fn lemma_severity_part_distinct(findings: Seq<Finding>, policy: Policy)
    ensures
        expected_distinct(severity_part(findings, policy)),
        forall|i: int|
            0 <= i < severity_part(findings, policy).len() ==> {
                let c = (#[trigger] severity_part(findings, policy)[i]).0;
                c == "blockers"@ || c == "critical"@ || c == "major"@ || c == "minor"@
            },
{
    reveal_strlit("blockers");
    reveal_strlit("critical");
    reveal_strlit("major");
    reveal_strlit("minor");
    let f = findings;
    let e1 = over_limit("blockers"@, policy.max_blockers, ids_with_severity(f, Severity::Blocker));
    let e2 = over_limit("critical"@, policy.max_critical, ids_with_severity(f, Severity::Critical));
    let e3 = over_limit("major"@, policy.max_major, ids_with_severity(f, Severity::Major));
    let e4 = over_limit("minor"@, policy.max_minor, ids_with_severity(f, Severity::Minor));
    let sp = severity_part(f, policy);
    assert(sp == e1 + e2 + e3 + e4);
    assert("blockers"@ != "critical"@) by {
        assert("blockers"@[0] != "critical"@[0]);
    }
    assert("blockers"@ != "major"@) by {
        assert("blockers"@[0] != "major"@[0]);
    }
    assert("blockers"@ != "minor"@) by {
        assert("blockers"@[0] != "minor"@[0]);
    }
    assert("critical"@ != "major"@) by {
        assert("critical"@[0] != "major"@[0]);
    }
    assert("critical"@ != "minor"@) by {
        assert("critical"@[0] != "minor"@[0]);
    }
    assert("major"@ != "minor"@) by {
        assert("major"@[1] != "minor"@[1]);
    }
    let n1 = e1.len() as int;
    let n2 = n1 + e2.len();
    let n3 = n2 + e3.len();
    assert forall|i: int| 0 <= i < sp.len() implies (if i < n1 {
        (#[trigger] sp[i]).0 == "blockers"@
    } else if i < n2 {
        sp[i].0 == "critical"@
    } else if i < n3 {
        sp[i].0 == "major"@
    } else {
        sp[i].0 == "minor"@
    }) by {
        if i < n1 {
            assert(sp[i] == e1[i]);
        } else if i < n2 {
            assert(sp[i] == e2[i - n1]);
        } else if i < n3 {
            assert(sp[i] == e3[i - n2]);
        } else {
            assert(sp[i] == e4[i - n3]);
        }
    }
}

/// Each condition appears at most once among the violations a policy can
/// report.
proof fn lemma_expected_distinct(findings: Seq<Finding>, policy: Policy)
    requires
        categories_distinct(policy.categories.spec_entries()),
    ensures
        expected_distinct(expected_violations(findings, policy)),
{
    reveal_strlit("blockers");
    reveal_strlit("critical");
    reveal_strlit("major");
    reveal_strlit("minor");
    reveal_strlit("category:");
    let limits = policy.categories.spec_entries();
    lemma_severity_part_distinct(findings, policy);
    lemma_category_part_distinct(findings, limits);
    let sp = severity_part(findings, policy);
    let cp = category_part(findings, limits);
    let ev = expected_violations(findings, policy);
    assert(ev == sp + cp);
    assert forall|i: int, j: int| 0 <= i < j < ev.len() implies (#[trigger] ev[i]).0 != (#[trigger] ev[j]).0 by {
        if j < sp.len() {
            assert(ev[i] == sp[i] && ev[j] == sp[j]);
        } else if i >= sp.len() {
            assert(ev[i] == cp[i - sp.len()] && ev[j] == cp[j - sp.len()]);
        } else {
            assert(ev[i] == sp[i] && ev[j] == cp[j - sp.len()]);
            let c = sp[i].0;
            let k = choose|k: int| 0 <= k < limits.len() && cp[j - sp.len()].0 == category_condition(limits[k].0);
            let d = category_condition(limits[k].0);
            assert(d[0] == 'c' && d[1] == 'a');
            assert(c[0] != 'c' || c[1] != 'a');
        }
    }
}

/// Conditions reported as the expected ones are distinct when those are.
proof fn lemma_matching_distinct(vs: Seq<ConditionViolation>, es: Seq<ExpectedViolation>)
    requires
        violations_match(vs, es),
        expected_distinct(es),
    ensures
        conditions_distinct(vs),
{
    assert forall|i: int, j: int| 0 <= i < j < vs.len() implies (#[trigger] vs[i]).condition@ != (#[trigger] vs[j]).condition@ by {
        assert(violation_matches(vs[i], es[i]));
        assert(violation_matches(vs[j], es[j]));
    }
}

} // verus!

verus! {

/// How many of the findings have the category, whatever their severity.
pub open spec fn count_in_category(findings: Seq<Finding>, c: Category) -> nat
    decreases findings.len(),
{
    if findings.len() == 0 {
        0
    } else {
        count_in_category(findings.drop_last(), c) + if findings.last().category == c {
            1nat
        } else {
            0nat
        }
    }
}

/// A category condition counts every finding of the category, of any
/// severity, and lists each of them as responsible.
pub proof fn lemma_category_ids_count_every_finding(findings: Seq<Finding>, c: Category)
    ensures
        ids_with_category(findings, c).len() == count_in_category(findings, c),
        forall|i: int|
            0 <= i < findings.len() && (#[trigger] findings[i]).category == c ==> ids_with_category(
                findings,
                c,
            ).contains(findings[i].id),
    decreases findings.len(),
{
    if findings.len() > 0 {
        let init = findings.drop_last();
        let x = findings.last();
        lemma_category_ids_count_every_finding(init, c);
        assert(findings =~= init.push(x));
        lemma_filter_push(init, x, has_category(c));
        lemma_map_push(init.filter(has_category(c)), x, finding_id_string());
        let before = ids_with_category(init, c);
        let after = ids_with_category(findings, c);
        assert forall|i: int| 0 <= i < findings.len() && (#[trigger] findings[i]).category == c implies after.contains(
            findings[i].id,
        ) by {
            if i < init.len() {
                assert(init[i] == findings[i]);
                let k = choose|k: int| 0 <= k < before.len() && before[k] == init[i].id;
                assert(after[k] == before[k]);
            } else {
                assert(after[after.len() - 1] == x.id);
            }
        }
    } else {
        assert(ids_with_category(findings, c) =~= Seq::<String>::empty()) by {
            reveal(Seq::filter);
        }
    }
}

/// The category conditions list, in the policy's order, each limited
/// category whose findings exceed its limit.
proof fn lemma_category_part_has(findings: Seq<Finding>, limits: Seq<(Category, u64)>, k: int)
    requires
        0 <= k < limits.len(),
        ids_with_category(findings, limits[k].0).len() > limits[k].1,
    ensures
        exists|m: int|
            0 <= m < category_part(findings, limits).len() && #[trigger] category_part(findings, limits)[m] == (
                category_condition(limits[k].0),
                limits[k].1,
                ids_with_category(findings, limits[k].0),
            ),
    decreases limits.len(),
{
    let init = limits.drop_last();
    let cp = category_part(findings, limits);
    let before = category_part(findings, init);
    let last = limits.last();
    let added = over_limit(category_condition(last.0), last.1, ids_with_category(findings, last.0));
    assert(cp == before + added);
    if k < limits.len() - 1 {
        assert(init[k] == limits[k]);
        lemma_category_part_has(findings, init, k);
        let m = choose|m: int|
            0 <= m < before.len() && #[trigger] before[m] == (
                category_condition(init[k].0),
                init[k].1,
                ids_with_category(findings, init[k].0),
            );
        assert(cp[m] == before[m]);
    } else {
        assert(cp[before.len() as int] == added[0]);
    }
}

/// A category limit is enforced on every finding of the category: when more
/// findings of a limited category exist than its limit allows, whatever
/// their severities, the quality gate fails with a violation of that category that
/// counts all of them and names each of them as responsible.
pub proof fn lemma_category_limit_enforced(d: GateDecision, findings: Seq<Finding>, policy: Policy, k: int)
    requires
        decision_matches(d, findings, policy),
        0 <= k < policy.categories.spec_entries().len(),
        count_in_category(findings, policy.categories.spec_entries()[k].0)
            > policy.categories.spec_entries()[k].1,
    ensures
        d matches GateDecision::Fail { violations, .. } && exists|m: int|
            0 <= m < violations@.len() && {
                let v = #[trigger] violations@[m];
                let c = policy.categories.spec_entries()[k].0;
                &&& v.condition@ == category_condition(c)
                &&& v.limit == policy.categories.spec_entries()[k].1
                &&& v.actual == count_in_category(findings, c)
                &&& forall|i: int|
                    0 <= i < findings.len() && (#[trigger] findings[i]).category == c
                        ==> v.responsible_findings@.contains(findings[i].id)
            },
{
    let limits = policy.categories.spec_entries();
    let c = limits[k].0;
    lemma_category_ids_count_every_finding(findings, c);
    lemma_category_part_has(findings, limits, k);
    let sp = severity_part(findings, policy);
    let cp = category_part(findings, limits);
    let ev = expected_violations(findings, policy);
    let m = choose|m: int|
        0 <= m < cp.len() && #[trigger] cp[m] == (category_condition(c), limits[k].1, ids_with_category(findings, c));
    assert(ev == sp + cp);
    assert(ev[sp.len() + m] == cp[m]);
    match d {
        GateDecision::Pass => {
            assert(ev.len() > 0);
        },
        GateDecision::Fail { violations, .. } => {
            let idx = sp.len() + m;
            assert(violation_matches(violations@[idx], ev[idx]));
        },
    }
}

} // verus!

verus! {

/// How many of the findings have the severity, whatever their category.
pub open spec fn count_with_severity(findings: Seq<Finding>, s: Severity) -> nat
    decreases findings.len(),
{
    if findings.len() == 0 {
        0
    } else {
        count_with_severity(findings.drop_last(), s) + if findings.last().severity == s {
            1nat
        } else {
            0nat
        }
    }
}

/// A severity condition counts every finding of the severity, of any
/// category, and lists each of them as responsible.
pub proof fn lemma_severity_ids_count_every_finding(findings: Seq<Finding>, s: Severity)
    ensures
        ids_with_severity(findings, s).len() == count_with_severity(findings, s),
        forall|i: int|
            0 <= i < findings.len() && (#[trigger] findings[i]).severity == s ==> ids_with_severity(
                findings,
                s,
            ).contains(findings[i].id),
    decreases findings.len(),
{
    if findings.len() > 0 {
        let init = findings.drop_last();
        let x = findings.last();
        lemma_severity_ids_count_every_finding(init, s);
        assert(findings =~= init.push(x));
        lemma_filter_push(init, x, has_severity(s));
        lemma_map_push(init.filter(has_severity(s)), x, finding_id_string());
        let before = ids_with_severity(init, s);
        let after = ids_with_severity(findings, s);
        assert forall|i: int| 0 <= i < findings.len() && (#[trigger] findings[i]).severity == s implies after.contains(
            findings[i].id,
        ) by {
            if i < init.len() {
                assert(init[i] == findings[i]);
                let k = choose|k: int| 0 <= k < before.len() && before[k] == init[i].id;
                assert(after[k] == before[k]);
            } else {
                assert(after[after.len() - 1] == x.id);
            }
        }
    } else {
        assert(ids_with_severity(findings, s) =~= Seq::<String>::empty()) by {
            reveal(Seq::filter);
        }
    }
}

/// The quality gate passes exactly when no more blockers, critical, major and minor
/// findings are present than the policy allows (counting each finding of the
/// severity whatever its category) and no limited category has more
/// findings (of any severity) than its limit.
pub proof fn lemma_gate_passes_iff_counts_within_limits(d: GateDecision, findings: Seq<Finding>, policy: Policy)
    requires
        decision_matches(d, findings, policy),
    ensures
        d is Pass <==> {
            &&& count_with_severity(findings, Severity::Blocker) <= policy.max_blockers
            &&& count_with_severity(findings, Severity::Critical) <= policy.max_critical
            &&& count_with_severity(findings, Severity::Major) <= policy.max_major
            &&& count_with_severity(findings, Severity::Minor) <= policy.max_minor
            &&& forall|k: int|
                0 <= k < policy.categories.spec_entries().len() ==> count_in_category(
                    findings,
                    (#[trigger] policy.categories.spec_entries()[k]).0,
                ) <= policy.categories.spec_entries()[k].1
        },
{
    lemma_gate_passes_iff_within_limits(d, findings, policy);
    lemma_severity_ids_count_every_finding(findings, Severity::Blocker);
    lemma_severity_ids_count_every_finding(findings, Severity::Critical);
    lemma_severity_ids_count_every_finding(findings, Severity::Major);
    lemma_severity_ids_count_every_finding(findings, Severity::Minor);
    assert forall|k: int| 0 <= k < policy.categories.spec_entries().len() implies ids_with_category(
        findings,
        (#[trigger] policy.categories.spec_entries()[k]).0,
    ).len() == count_in_category(findings, policy.categories.spec_entries()[k].0) by {
        lemma_category_ids_count_every_finding(findings, policy.categories.spec_entries()[k].0);
    }
}

} // verus!
