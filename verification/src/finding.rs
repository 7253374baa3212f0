use vstd::prelude::*;

use crate::text::{decimal, is_digit, lemma_decimal_injective, lemma_decimal_value, push_char, push_decimal, push_str};

verus! {

/// Normalized finding severity, independent of the source analyzer.
#[derive(Debug, Clone, Copy, PartialEq, Eq, PartialOrd, Ord, Hash, Structural)]
pub enum Severity {
    Blocker,
    Critical,
    Major,
    Minor,
    Info,
}

/// The rank used for severity comparisons: lower is more severe.
pub open spec fn severity_rank(s: Severity) -> u8 {
    match s {
        Severity::Blocker => 0,
        Severity::Critical => 1,
        Severity::Major => 2,
        Severity::Minor => 3,
        Severity::Info => 4,
    }
}

impl Severity {
    /// Rank used for severity comparisons; lower rank is more severe.
    pub fn rank(self) -> (r: u8)
        ensures
            r == severity_rank(self),
    {
        match self {
            Severity::Blocker => 0,
            Severity::Critical => 1,
            Severity::Major => 2,
            Severity::Minor => 3,
            Severity::Info => 4,
        }
    }
}

/// Normalized finding category shared across analyzers.
#[derive(Debug, Clone, Copy, PartialEq, Eq, Hash, Structural)]
pub enum Category {
    Security,
    Reliability,
    Maintainability,
    Architecture,
    Performance,
    SupplyChain,
}

/// The human-readable label of each category.
pub open spec fn category_label(c: Category) -> Seq<char> {
    match c {
        Category::Security => "security"@,
        Category::Reliability => "reliability"@,
        Category::Maintainability => "maintainability"@,
        Category::Architecture => "architecture"@,
        Category::Performance => "performance"@,
        Category::SupplyChain => "supply chain"@,
    }
}

impl Category {
    pub fn label(self) -> (r: &'static str)
        ensures
            r@ == category_label(self),
    {
        match self {
            Category::Security => "security",
            Category::Reliability => "reliability",
            Category::Maintainability => "maintainability",
            Category::Architecture => "architecture",
            Category::Performance => "performance",
            Category::SupplyChain => "supply chain",
        }
    }
}

/// Source location of a finding.
#[derive(Debug, Clone, PartialEq, Eq, Hash)]
pub struct Location {
    /// Path relative to the workspace root.
    pub file: String,
    pub start_line: Option<u32>,
    pub start_column: Option<u32>,
    pub end_line: Option<u32>,
    pub end_column: Option<u32>,
}

/// A normalized finding produced by any analyzer.
///
/// `id` is a stable fingerprint derived from the analyzer, rule, location and
/// message, so that the same logical finding keeps its identity across runs.
#[derive(Debug, Clone, PartialEq, Eq, Hash)]
pub struct Finding {
    pub id: String,
    pub analyzer_id: String,
    pub rule_id: String,
    pub severity: Severity,
    pub category: Category,
    pub location: Location,
    pub message: String,
    pub remediation: Option<String>,
}

/// A missing line or column counts as zero in the fingerprint.
pub open spec fn position_number(p: Option<u32>) -> nat {
    match p {
        Some(n) => n as nat,
        None => 0,
    }
}

/// The fingerprint `analyzer:rule:file:line:column:message`.
pub open spec fn finding_id(
    analyzer: Seq<char>,
    rule: Seq<char>,
    file: Seq<char>,
    line: nat,
    column: nat,
    message: Seq<char>,
) -> Seq<char> {
    analyzer + seq![':'] + rule + seq![':'] + file + seq![':'] + decimal(line) + seq![':']
        + decimal(column) + seq![':'] + message
}

/// The fingerprint of a finding built from the given parts.
pub open spec fn finding_id_of(
    analyzer: Seq<char>,
    rule: Seq<char>,
    location: Location,
    message: Seq<char>,
) -> Seq<char> {
    finding_id(
        analyzer,
        rule,
        location.file@,
        position_number(location.start_line),
        position_number(location.start_column),
        message,
    )
}

fn position_value(p: Option<u32>) -> (r: u64)
    ensures
        r == position_number(p),
{
    match p {
        Some(n) => n as u64,
        None => 0,
    }
}

impl Finding {
    pub fn new(
        analyzer_id: &str,
        rule_id: &str,
        severity: Severity,
        category: Category,
        location: Location,
        message: &str,
        remediation: Option<&str>,
    ) -> (r: Self)
        ensures
            r.id@ == finding_id_of(analyzer_id@, rule_id@, location, message@),
            r.analyzer_id@ == analyzer_id@,
            r.rule_id@ == rule_id@,
            r.severity == severity,
            r.category == category,
            r.location == location,
            r.message@ == message@,
            r.remediation is Some <==> remediation is Some,
            remediation is Some ==> r.remediation->0@ == remediation->0@,
    {
        let mut id = String::new();
        push_str(&mut id, analyzer_id);
        push_char(&mut id, ':');
        push_str(&mut id, rule_id);
        push_char(&mut id, ':');
        push_str(&mut id, location.file.as_str());
        push_char(&mut id, ':');
        push_decimal(&mut id, position_value(location.start_line));
        push_char(&mut id, ':');
        push_decimal(&mut id, position_value(location.start_column));
        push_char(&mut id, ':');
        push_str(&mut id, message);
        assert(id@ =~= finding_id_of(analyzer_id@, rule_id@, location, message@));
        let remediation = match remediation {
            Some(text) => Some(text.to_owned()),
            None => None,
        };
        Finding {
            id,
            analyzer_id: analyzer_id.to_owned(),
            rule_id: rule_id.to_owned(),
            severity,
            category,
            location,
            message: message.to_owned(),
            remediation,
        }
    }
}

proof fn lemma_digits_then_colon(d1: Seq<char>, r1: Seq<char>, d2: Seq<char>, r2: Seq<char>)
    requires
        forall|i: int| 0 <= i < d1.len() ==> is_digit(#[trigger] d1[i]),
        forall|i: int| 0 <= i < d2.len() ==> is_digit(#[trigger] d2[i]),
        d1 + seq![':'] + r1 == d2 + seq![':'] + r2,
    ensures
        d1 == d2,
        r1 == r2,
{
    let s1 = d1 + seq![':'] + r1;
    let s2 = d2 + seq![':'] + r2;
    if d1.len() < d2.len() {
        assert(s1[d1.len() as int] == ':');
        assert(s2[d1.len() as int] == d2[d1.len() as int]);
    } else if d2.len() < d1.len() {
        assert(s2[d2.len() as int] == ':');
        assert(s1[d2.len() as int] == d1[d2.len() as int]);
    }
    assert(d1 =~= s1.subrange(0, d1.len() as int));
    assert(d2 =~= s2.subrange(0, d2.len() as int));
    assert(r1 =~= s1.subrange(d1.len() as int + 1, s1.len() as int));
    assert(r2 =~= s2.subrange(d2.len() as int + 1, s2.len() as int));
}

/// Finding ids are location-sensitive: two findings that agree in analyzer,
/// rule, file and message but differ in their (effective) start line or
/// start column receive different ids.
pub proof fn lemma_finding_id_separates_positions(
    analyzer: Seq<char>,
    rule: Seq<char>,
    file: Seq<char>,
    line1: nat,
    column1: nat,
    line2: nat,
    column2: nat,
    message: Seq<char>,
)
    requires
        line1 != line2 || column1 != column2,
    ensures
        finding_id(analyzer, rule, file, line1, column1, message) != finding_id(
            analyzer,
            rule,
            file,
            line2,
            column2,
            message,
        ),
{
    let prefix = analyzer + seq![':'] + rule + seq![':'] + file + seq![':'];
    let rest1 = decimal(line1) + seq![':'] + (decimal(column1) + seq![':'] + message);
    let rest2 = decimal(line2) + seq![':'] + (decimal(column2) + seq![':'] + message);
    let id1 = finding_id(analyzer, rule, file, line1, column1, message);
    let id2 = finding_id(analyzer, rule, file, line2, column2, message);
    assert(id1 =~= prefix + rest1);
    assert(id2 =~= prefix + rest2);
    if id1 == id2 {
        assert(rest1 =~= id1.subrange(prefix.len() as int, id1.len() as int));
        assert(rest2 =~= id2.subrange(prefix.len() as int, id2.len() as int));
        lemma_decimal_value(line1);
        lemma_decimal_value(line2);
        lemma_decimal_value(column1);
        lemma_decimal_value(column2);
        lemma_digits_then_colon(
            decimal(line1),
            decimal(column1) + seq![':'] + message,
            decimal(line2),
            decimal(column2) + seq![':'] + message,
        );
        lemma_decimal_injective(line1, line2);
        lemma_digits_then_colon(decimal(column1), message, decimal(column2), message);
        lemma_decimal_injective(column1, column2);
    }
}

/// Finding ids are stable: the id depends only on the analyzer, the rule,
/// the file, the start line and column, and the message, so the same logical
/// finding keeps its id whatever its severity, category, end position or
/// remediation.
pub proof fn lemma_finding_id_stable(
    analyzer: Seq<char>,
    rule: Seq<char>,
    a: Location,
    b: Location,
    message: Seq<char>,
)
    requires
        a.file@ == b.file@,
        a.start_line == b.start_line,
        a.start_column == b.start_column,
    ensures
        finding_id_of(analyzer, rule, a, message) == finding_id_of(analyzer, rule, b, message),
{
}

} // verus!
