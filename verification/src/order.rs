use vstd::prelude::*;

use crate::analyzer::{ExecutionOutcome, FailedReason};
use crate::finding::Finding;
use crate::text::{
    lemma_seq_less_asymmetric, lemma_seq_less_irreflexive, lemma_seq_less_total, lemma_seq_less_transitive, seq_less,
    str_equal, str_less,
};

verus! {

// ---------------------------------------------------------------------------
// The order in which merged findings are listed: by rule, file, start line
// and start column, a missing line or column before any present one.
// ---------------------------------------------------------------------------

pub open spec fn opt_less(a: Option<u32>, b: Option<u32>) -> bool {
    match (a, b) {
        (None, Some(_)) => true,
        (Some(x), Some(y)) => x < y,
        _ => false,
    }
}

/// `a` sorts strictly before `b`.
pub open spec fn finding_less(a: Finding, b: Finding) -> bool {
    ||| seq_less(a.rule_id@, b.rule_id@)
    ||| (a.rule_id@ == b.rule_id@ && seq_less(a.location.file@, b.location.file@))
    ||| (a.rule_id@ == b.rule_id@ && a.location.file@ == b.location.file@ && opt_less(
        a.location.start_line,
        b.location.start_line,
    ))
    ||| (a.rule_id@ == b.rule_id@ && a.location.file@ == b.location.file@ && a.location.start_line
        == b.location.start_line && opt_less(a.location.start_column, b.location.start_column))
}

/// `a` and `b` have the same sort key.
pub open spec fn finding_same_key(a: Finding, b: Finding) -> bool {
    &&& a.rule_id@ == b.rule_id@
    &&& a.location.file@ == b.location.file@
    &&& a.location.start_line == b.location.start_line
    &&& a.location.start_column == b.location.start_column
}

pub open spec fn finding_key_class(f: Finding) -> spec_fn(Finding) -> bool {
    |x: Finding| finding_same_key(x, f)
}

/// Listed in key order.
pub open spec fn findings_sorted(s: Seq<Finding>) -> bool {
    forall|i: int, j: int| 0 <= i < j < s.len() ==> !finding_less(#[trigger] s[j], #[trigger] s[i])
}

/// The same findings, and those with equal keys in the same relative order.
pub open spec fn findings_stably_permuted(out: Seq<Finding>, inp: Seq<Finding>) -> bool {
    forall|f: Finding| #[trigger] out.filter(finding_key_class(f)) == inp.filter(finding_key_class(f))
}

proof fn lemma_finding_less_facts(a: Finding, b: Finding, c: Finding)
    ensures
        finding_less(a, b) ==> !finding_same_key(a, b),
        finding_less(a, b) ==> !finding_less(b, a),
        finding_less(a, b) && finding_less(b, c) ==> finding_less(a, c),
        !finding_same_key(a, b) ==> finding_less(a, b) || finding_less(b, a),
        finding_same_key(a, b) && finding_less(b, c) ==> finding_less(a, c),
        finding_same_key(b, c) && finding_less(a, b) ==> finding_less(a, c),
{
    lemma_seq_less_irreflexive(a.rule_id@);
    lemma_seq_less_irreflexive(a.location.file@);
    lemma_seq_less_total(a.rule_id@, b.rule_id@);
    lemma_seq_less_total(a.location.file@, b.location.file@);
    if seq_less(a.rule_id@, b.rule_id@) {
        lemma_seq_less_asymmetric(a.rule_id@, b.rule_id@);
    }
    if seq_less(a.location.file@, b.location.file@) {
        lemma_seq_less_asymmetric(a.location.file@, b.location.file@);
    }
    if seq_less(a.rule_id@, b.rule_id@) && seq_less(b.rule_id@, c.rule_id@) {
        lemma_seq_less_transitive(a.rule_id@, b.rule_id@, c.rule_id@);
    }
    if seq_less(a.location.file@, b.location.file@) && seq_less(b.location.file@, c.location.file@) {
        lemma_seq_less_transitive(a.location.file@, b.location.file@, c.location.file@);
    }
}

/// `x < y` and `y <= z` give `x < z`.
proof fn lemma_finding_less_le(x: Finding, y: Finding, z: Finding)
    requires
        finding_less(x, y),
        !finding_less(z, y),
    ensures
        finding_less(x, z),
{
    lemma_finding_less_facts(x, y, z);
    lemma_finding_less_facts(y, z, x);
    lemma_finding_less_facts(z, y, x);
    if !finding_same_key(y, z) {
        lemma_finding_less_facts(y, z, z);
    }
}

/// Equal prefixes cancel.
proof fn lemma_cancel_prefix<A>(p: Seq<A>, t1: Seq<A>, t2: Seq<A>)
    requires
        p + t1 == p + t2,
    ensures
        t1 == t2,
{
    assert(t1 =~= (p + t1).skip(p.len() as int));
    assert(t2 =~= (p + t2).skip(p.len() as int));
}

/// A list sorted by key is determined by what it holds per key: two sorted
/// lists that hold, for every key, the same findings in the same order are
/// the same list.
pub proof fn lemma_sorted_findings_unique(a: Seq<Finding>, b: Seq<Finding>)
    requires
        findings_sorted(a),
        findings_sorted(b),
        forall|f: Finding| #[trigger] a.filter(finding_key_class(f)) == b.filter(finding_key_class(f)),
    ensures
        a == b,
    decreases a.len(),
{
    if a.len() == 0 && b.len() == 0 {
        assert(a =~= b);
        return;
    }
    if a.len() == 0 || b.len() == 0 {
        let (s, t) = if a.len() == 0 { (b, a) } else { (a, b) };
        let x = s[0];
        assert(s =~= seq![x] + s.skip(1));
        s.skip(1).lemma_filter_prepend(x, finding_key_class(x));
        lemma_finding_less_facts(x, x, x);
        assert(t.filter(finding_key_class(x)).len() == 0) by {
            reveal(Seq::filter);
        }
        assert(a.filter(finding_key_class(x)) == b.filter(finding_key_class(x)));
        assert(false);
    }
    let x = a[0];
    let y = b[0];
    let ra = a.skip(1);
    let rb = b.skip(1);
    assert(a =~= seq![x] + ra);
    assert(b =~= seq![y] + rb);
    lemma_finding_less_facts(x, x, x);
    lemma_finding_less_facts(y, y, y);
    assert(finding_same_key(x, y)) by {
        if !finding_same_key(x, y) {
            lemma_finding_less_facts(x, y, y);
            if finding_less(x, y) {
                ra.lemma_filter_prepend(x, finding_key_class(x));
                assert(a.filter(finding_key_class(x)) == b.filter(finding_key_class(x)));
                assert(b.filter(finding_key_class(x))[0] == x);
                assert(b.filter(finding_key_class(x)).contains(x));
                b.lemma_filter_contains_rev(finding_key_class(x), x);
                let k = choose|k: int| 0 <= k < b.len() && b[k] == x;
                assert(k != 0);
                assert(!finding_less(b[k], b[0]));
            } else {
                rb.lemma_filter_prepend(y, finding_key_class(y));
                assert(a.filter(finding_key_class(y)) == b.filter(finding_key_class(y)));
                assert(a.filter(finding_key_class(y))[0] == y);
                assert(a.filter(finding_key_class(y)).contains(y));
                a.lemma_filter_contains_rev(finding_key_class(y), y);
                let k = choose|k: int| 0 <= k < a.len() && a[k] == y;
                assert(k != 0);
                assert(!finding_less(a[k], a[0]));
            }
        }
    }
    ra.lemma_filter_prepend(x, finding_key_class(x));
    rb.lemma_filter_prepend(y, finding_key_class(x));
    assert(a.filter(finding_key_class(x)) == b.filter(finding_key_class(x)));
    assert(a.filter(finding_key_class(x))[0] == x);
    assert(b.filter(finding_key_class(x))[0] == y);
    assert(x == y);
    assert forall|f: Finding| #[trigger] ra.filter(finding_key_class(f)) == rb.filter(finding_key_class(f)) by {
        ra.lemma_filter_prepend(x, finding_key_class(f));
        rb.lemma_filter_prepend(y, finding_key_class(f));
        assert(a.filter(finding_key_class(f)) == b.filter(finding_key_class(f)));
        let p = if finding_key_class(f)(x) { seq![x] } else { Seq::<Finding>::empty() };
        lemma_cancel_prefix(p, ra.filter(finding_key_class(f)), rb.filter(finding_key_class(f)));
    }
    assert forall|i: int, j: int| 0 <= i < j < ra.len() implies !finding_less(#[trigger] ra[j], #[trigger] ra[i]) by {
        assert(ra[j] == a[j + 1] && ra[i] == a[i + 1]);
    }
    assert forall|i: int, j: int| 0 <= i < j < rb.len() implies !finding_less(#[trigger] rb[j], #[trigger] rb[i]) by {
        assert(rb[j] == b[j + 1] && rb[i] == b[i + 1]);
    }
    lemma_sorted_findings_unique(ra, rb);
}

/// Merging is deterministic: the merged findings are the only sorted list
/// that keeps, for every key, the findings of the input in input order.
pub proof fn lemma_merged_findings_determined(out1: Seq<Finding>, out2: Seq<Finding>, input: Seq<Finding>)
    requires
        findings_sorted(out1),
        findings_stably_permuted(out1, input),
        findings_sorted(out2),
        findings_stably_permuted(out2, input),
    ensures
        out1 == out2,
{
    assert forall|f: Finding| #[trigger] out1.filter(finding_key_class(f)) == out2.filter(finding_key_class(f)) by {
        assert(out1.filter(finding_key_class(f)) == input.filter(finding_key_class(f)));
        assert(out2.filter(finding_key_class(f)) == input.filter(finding_key_class(f)));
    }
    lemma_sorted_findings_unique(out1, out2);
}

fn opt_less_exec(a: Option<u32>, b: Option<u32>) -> (r: bool)
    ensures
        r == opt_less(a, b),
{
    match (a, b) {
        (None, Some(_)) => true,
        (Some(x), Some(y)) => x < y,
        _ => false,
    }
}

fn finding_precedes(a: &Finding, b: &Finding) -> (r: bool)
    ensures
        r == finding_less(*a, *b),
{
    if str_less(a.rule_id.as_str(), b.rule_id.as_str()) {
        return true;
    }
    if !str_equal(a.rule_id.as_str(), b.rule_id.as_str()) {
        return false;
    }
    if str_less(a.location.file.as_str(), b.location.file.as_str()) {
        return true;
    }
    if !str_equal(a.location.file.as_str(), b.location.file.as_str()) {
        return false;
    }
    if opt_less_exec(a.location.start_line, b.location.start_line) {
        return true;
    }
    if a.location.start_line != b.location.start_line {
        return false;
    }
    opt_less_exec(a.location.start_column, b.location.start_column)
}

proof fn lemma_filter_insert<A>(s: Seq<A>, p: int, x: A, pred: spec_fn(A) -> bool)
    requires
        0 <= p <= s.len(),
    ensures
        s.insert(p, x).filter(pred) == s.take(p).filter(pred) + seq![x].filter(pred) + s.skip(p).filter(pred),
        s.filter(pred) == s.take(p).filter(pred) + s.skip(p).filter(pred),
{
    assert(s.insert(p, x) =~= s.take(p) + seq![x] + s.skip(p));
    assert(s =~= s.take(p) + s.skip(p));
    Seq::filter_distributes_over_add(s.take(p), seq![x], pred);
    Seq::filter_distributes_over_add(s.take(p) + seq![x], s.skip(p), pred);
    Seq::filter_distributes_over_add(s.take(p), s.skip(p), pred);
}

proof fn lemma_filter_none<A>(s: Seq<A>, pred: spec_fn(A) -> bool)
    requires
        forall|i: int| 0 <= i < s.len() ==> !pred(#[trigger] s[i]),
    ensures
        s.filter(pred) == Seq::<A>::empty(),
    decreases s.len(),
{
    reveal(Seq::filter);
    if s.len() > 0 {
        lemma_filter_none(s.drop_last(), pred);
    }
}

proof fn lemma_filter_single<A>(x: A, pred: spec_fn(A) -> bool)
    ensures
        seq![x].filter(pred) == (if pred(x) { seq![x] } else { Seq::<A>::empty() }),
{
    reveal(Seq::filter);
    assert(seq![x].drop_last() =~= Seq::<A>::empty());
    lemma_filter_none(Seq::<A>::empty(), pred);
}

/// Inserts `x` after every finding that does not sort after it.
fn insert_finding(out: &mut Vec<Finding>, x: Finding)
    requires
        findings_sorted(old(out)@),
    ensures
        findings_sorted(final(out)@),
        forall|f: Finding|
            #[trigger] final(out)@.filter(finding_key_class(f)) == old(out)@.filter(finding_key_class(f)) + seq![x].filter(
                finding_key_class(f),
            ),
{
    let mut p = out.len();
    while p > 0 && finding_precedes(&x, &out[p - 1])
        invariant
            p <= out@.len(),
            out@ == old(out)@,
            forall|q: int| p <= q < out@.len() ==> finding_less(x, #[trigger] out@[q]),
        decreases p,
    {
        p = p - 1;
    }
    let ghost s = out@;
    out.insert(p, x);
    proof {
        let t = out@;
        assert(t =~= s.insert(p as int, x));
        assert forall|i: int, j: int| 0 <= i < j < t.len() implies !finding_less(#[trigger] t[j], #[trigger] t[i]) by {
            if j < p {
                assert(t[i] == s[i] && t[j] == s[j]);
            } else if j == p {
                assert(t[i] == s[i]);
                if i < p - 1 {
                    assert(!finding_less(s[p - 1], s[i]));
                    assert(!finding_less(x, s[p - 1]));
                    if finding_less(x, s[i]) {
                        lemma_finding_less_le(x, s[i], s[p - 1]);
                    }
                }
            } else if i == p {
                assert(t[j] == s[j - 1]);
                lemma_finding_less_facts(x, s[j - 1], x);
            } else if i < p {
                assert(t[i] == s[i] && t[j] == s[j - 1]);
            } else {
                assert(t[i] == s[i - 1] && t[j] == s[j - 1]);
            }
        }
        assert forall|f: Finding| #[trigger] t.filter(finding_key_class(f)) == s.filter(finding_key_class(f)) + seq![x].filter(
            finding_key_class(f),
        ) by {
            let pred = finding_key_class(f);
            lemma_filter_insert(s, p as int, x, pred);
            lemma_filter_single(x, pred);
            if pred(x) {
                assert forall|i: int| 0 <= i < s.skip(p as int).len() implies !pred(#[trigger] s.skip(p as int)[i]) by {
                    let e = s.skip(p as int)[i];
                    assert(e == s[p + i]);
                    lemma_finding_less_facts(x, e, f);
                    lemma_finding_less_facts(e, f, x);
                }
                lemma_filter_none(s.skip(p as int), pred);
                assert(t.filter(pred) =~= s.filter(pred) + seq![x].filter(pred));
            } else {
                assert(t.filter(pred) =~= s.filter(pred) + seq![x].filter(pred));
            }
        }
    }
}

/// Sorts findings by key, stably.
pub fn sort_findings(v: Vec<Finding>) -> (r: Vec<Finding>)
    ensures
        findings_sorted(r@),
        findings_stably_permuted(r@, v@),
{
    let ghost given = v@;
    let n = v.len();
    let mut rest = v;
    let mut out: Vec<Finding> = Vec::new();
    let mut i: usize = 0;
    while rest.len() > 0
        invariant
            rest@ == given.skip(i as int),
            i <= given.len(),
            given.len() == n,
            findings_sorted(out@),
            forall|f: Finding| #[trigger] out@.filter(finding_key_class(f)) == given.take(i as int).filter(finding_key_class(f)),
        decreases rest@.len(),
    {
        assert(given.skip(i as int).len() > 0);
        let x = rest.remove(0);
        let ghost before = out@;
        insert_finding(&mut out, x);
        proof {
            assert(given.take(i as int + 1) =~= given.take(i as int) + seq![x]);
            assert(rest@ =~= given.skip(i as int + 1));
            assert forall|f: Finding| #[trigger] out@.filter(finding_key_class(f)) == given.take(i as int + 1).filter(finding_key_class(f)) by {
                Seq::filter_distributes_over_add(given.take(i as int), seq![x], finding_key_class(f));
                assert(before.filter(finding_key_class(f)) == given.take(i as int).filter(finding_key_class(f)));
            }
        }
        i = i + 1;
    }
    proof {
        assert(given.skip(i as int).len() == 0);
        assert(given.take(i as int) =~= given);
    }
    out
}

} // verus!

verus! {

// ---------------------------------------------------------------------------
// The order in which merged outcomes are listed: by their labels.
// ---------------------------------------------------------------------------

/// The name of a failure reason as `Debug` prints it.
pub open spec fn reason_name(r: FailedReason) -> Seq<char> {
    match r {
        FailedReason::MissingTool => "MissingTool"@,
        FailedReason::ExitStatus => "ExitStatus"@,
        FailedReason::Timeout => "Timeout"@,
        FailedReason::Internal => "Internal"@,
    }
}

/// The label an outcome sorts by: `succeeded`, or `failed-` and the reason.
pub open spec fn outcome_label(o: ExecutionOutcome) -> Seq<char> {
    match o {
        ExecutionOutcome::Succeeded { .. } => "succeeded"@,
        ExecutionOutcome::Failed { reason, .. } => "failed-"@ + reason_name(reason),
    }
}

fn reason_text(r: FailedReason) -> (s: &'static str)
    ensures
        s@ == reason_name(r),
{
    match r {
        FailedReason::MissingTool => "MissingTool",
        FailedReason::ExitStatus => "ExitStatus",
        FailedReason::Timeout => "Timeout",
        FailedReason::Internal => "Internal",
    }
}

/// The label an outcome sorts by.
pub fn label(outcome: &ExecutionOutcome) -> (r: String)
    ensures
        r@ == outcome_label(*outcome),
{
    match outcome {
        ExecutionOutcome::Succeeded { .. } => "succeeded".to_owned(),
        ExecutionOutcome::Failed { reason, .. } => {
            let mut text = String::new();
            crate::text::push_str(&mut text, "failed-");
            crate::text::push_str(&mut text, reason_text(*reason));
            text
        },
    }
}

pub open spec fn outcome_less(a: ExecutionOutcome, b: ExecutionOutcome) -> bool {
    seq_less(outcome_label(a), outcome_label(b))
}

pub open spec fn outcome_label_class(o: ExecutionOutcome) -> spec_fn(ExecutionOutcome) -> bool {
    |x: ExecutionOutcome| outcome_label(x) == outcome_label(o)
}

pub open spec fn outcomes_sorted(s: Seq<ExecutionOutcome>) -> bool {
    forall|i: int, j: int| 0 <= i < j < s.len() ==> !outcome_less(#[trigger] s[j], #[trigger] s[i])
}

pub open spec fn outcomes_stably_permuted(out: Seq<ExecutionOutcome>, inp: Seq<ExecutionOutcome>) -> bool {
    forall|o: ExecutionOutcome| #[trigger] out.filter(outcome_label_class(o)) == inp.filter(outcome_label_class(o))
}

proof fn lemma_label_less_le(x: Seq<char>, y: Seq<char>, z: Seq<char>)
    requires
        seq_less(x, y),
        !seq_less(z, y),
    ensures
        seq_less(x, z),
{
    lemma_seq_less_total(y, z);
    if y != z {
        if seq_less(y, z) {
            lemma_seq_less_transitive(x, y, z);
        }
    }
}

fn insert_outcome(out: &mut Vec<ExecutionOutcome>, x: ExecutionOutcome)
    requires
        outcomes_sorted(old(out)@),
    ensures
        outcomes_sorted(final(out)@),
        forall|o: ExecutionOutcome|
            #[trigger] final(out)@.filter(outcome_label_class(o)) == old(out)@.filter(outcome_label_class(o)) + seq![x].filter(
                outcome_label_class(o),
            ),
{
    let x_label = label(&x);
    let mut p = out.len();
    while p > 0 && str_less(x_label.as_str(), label(&out[p - 1]).as_str())
        invariant
            p <= out@.len(),
            out@ == old(out)@,
            x_label@ == outcome_label(x),
            forall|q: int| p <= q < out@.len() ==> outcome_less(x, #[trigger] out@[q]),
        decreases p,
    {
        p = p - 1;
    }
    let ghost s = out@;
    out.insert(p, x);
    proof {
        let t = out@;
        assert(t =~= s.insert(p as int, x));
        assert forall|i: int, j: int| 0 <= i < j < t.len() implies !outcome_less(#[trigger] t[j], #[trigger] t[i]) by {
            if j < p {
                assert(t[i] == s[i] && t[j] == s[j]);
            } else if j == p {
                assert(t[i] == s[i]);
                if i < p - 1 {
                    assert(!outcome_less(s[p - 1], s[i]));
                    assert(!outcome_less(x, s[p - 1]));
                    if outcome_less(x, s[i]) {
                        lemma_label_less_le(outcome_label(x), outcome_label(s[i]), outcome_label(s[p - 1]));
                    }
                }
            } else if i == p {
                assert(t[j] == s[j - 1]);
                lemma_seq_less_asymmetric(outcome_label(x), outcome_label(s[j - 1]));
            } else if i < p {
                assert(t[i] == s[i] && t[j] == s[j - 1]);
            } else {
                assert(t[i] == s[i - 1] && t[j] == s[j - 1]);
            }
        }
        assert forall|o: ExecutionOutcome| #[trigger] t.filter(outcome_label_class(o)) == s.filter(outcome_label_class(o)) + seq![x].filter(
            outcome_label_class(o),
        ) by {
            let pred = outcome_label_class(o);
            lemma_filter_insert(s, p as int, x, pred);
            lemma_filter_single(x, pred);
            if pred(x) {
                assert forall|i: int| 0 <= i < s.skip(p as int).len() implies !pred(#[trigger] s.skip(p as int)[i]) by {
                    let e = s.skip(p as int)[i];
                    assert(e == s[p + i]);
                    lemma_seq_less_irreflexive(outcome_label(x));
                }
                lemma_filter_none(s.skip(p as int), pred);
                assert(t.filter(pred) =~= s.filter(pred) + seq![x].filter(pred));
            } else {
                assert(t.filter(pred) =~= s.filter(pred) + seq![x].filter(pred));
            }
        }
    }
}

/// Sorts outcomes by label, stably.
pub fn sort_outcomes(v: Vec<ExecutionOutcome>) -> (r: Vec<ExecutionOutcome>)
    ensures
        outcomes_sorted(r@),
        outcomes_stably_permuted(r@, v@),
{
    let ghost given = v@;
    let n = v.len();
    let mut rest = v;
    let mut out: Vec<ExecutionOutcome> = Vec::new();
    let mut i: usize = 0;
    while rest.len() > 0
        invariant
            rest@ == given.skip(i as int),
            i <= given.len(),
            given.len() == n,
            outcomes_sorted(out@),
            forall|o: ExecutionOutcome| #[trigger] out@.filter(outcome_label_class(o)) == given.take(i as int).filter(outcome_label_class(o)),
        decreases rest@.len(),
    {
        assert(given.skip(i as int).len() > 0);
        let x = rest.remove(0);
        let ghost before = out@;
        insert_outcome(&mut out, x);
        proof {
            assert(given.take(i as int + 1) =~= given.take(i as int) + seq![x]);
            assert(rest@ =~= given.skip(i as int + 1));
            assert forall|o: ExecutionOutcome| #[trigger] out@.filter(outcome_label_class(o)) == given.take(i as int + 1).filter(outcome_label_class(o)) by {
                Seq::filter_distributes_over_add(given.take(i as int), seq![x], outcome_label_class(o));
                assert(before.filter(outcome_label_class(o)) == given.take(i as int).filter(outcome_label_class(o)));
            }
        }
        i = i + 1;
    }
    proof {
        assert(given.take(i as int) =~= given);
    }
    out
}

} // verus!

verus! {

/// A list sorted by label is determined by what it holds per label: two
/// sorted lists that hold, for every label, the same outcomes in the same
/// order are the same list.
pub proof fn lemma_sorted_outcomes_unique(a: Seq<ExecutionOutcome>, b: Seq<ExecutionOutcome>)
    requires
        outcomes_sorted(a),
        outcomes_sorted(b),
        forall|o: ExecutionOutcome| #[trigger] a.filter(outcome_label_class(o)) == b.filter(outcome_label_class(o)),
    ensures
        a == b,
    decreases a.len(),
{
    if a.len() == 0 && b.len() == 0 {
        assert(a =~= b);
        return;
    }
    if a.len() == 0 || b.len() == 0 {
        let (s, t) = if a.len() == 0 { (b, a) } else { (a, b) };
        let x = s[0];
        assert(s =~= seq![x] + s.skip(1));
        s.skip(1).lemma_filter_prepend(x, outcome_label_class(x));
        assert(t.filter(outcome_label_class(x)).len() == 0) by {
            reveal(Seq::filter);
        }
        assert(a.filter(outcome_label_class(x)) == b.filter(outcome_label_class(x)));
        assert(false);
    }
    let x = a[0];
    let y = b[0];
    let ra = a.skip(1);
    let rb = b.skip(1);
    assert(a =~= seq![x] + ra);
    assert(b =~= seq![y] + rb);
    assert(outcome_label(x) == outcome_label(y)) by {
        lemma_seq_less_total(outcome_label(x), outcome_label(y));
        if outcome_less(x, y) {
            lemma_seq_less_asymmetric(outcome_label(x), outcome_label(y));
            ra.lemma_filter_prepend(x, outcome_label_class(x));
            assert(a.filter(outcome_label_class(x)) == b.filter(outcome_label_class(x)));
            assert(b.filter(outcome_label_class(x))[0] == x);
            assert(b.filter(outcome_label_class(x)).contains(x));
            b.lemma_filter_contains_rev(outcome_label_class(x), x);
            let k = choose|k: int| 0 <= k < b.len() && b[k] == x;
            assert(k != 0) by {
                lemma_seq_less_irreflexive(outcome_label(x));
            }
            assert(!outcome_less(b[k], b[0]));
        } else if outcome_less(y, x) {
            lemma_seq_less_asymmetric(outcome_label(y), outcome_label(x));
            rb.lemma_filter_prepend(y, outcome_label_class(y));
            assert(a.filter(outcome_label_class(y)) == b.filter(outcome_label_class(y)));
            assert(a.filter(outcome_label_class(y))[0] == y);
            assert(a.filter(outcome_label_class(y)).contains(y));
            a.lemma_filter_contains_rev(outcome_label_class(y), y);
            let k = choose|k: int| 0 <= k < a.len() && a[k] == y;
            assert(k != 0) by {
                lemma_seq_less_irreflexive(outcome_label(y));
            }
            assert(!outcome_less(a[k], a[0]));
        }
    }
    ra.lemma_filter_prepend(x, outcome_label_class(x));
    rb.lemma_filter_prepend(y, outcome_label_class(x));
    assert(a.filter(outcome_label_class(x)) == b.filter(outcome_label_class(x)));
    assert(a.filter(outcome_label_class(x))[0] == x);
    assert(b.filter(outcome_label_class(x))[0] == y);
    assert(x == y);
    assert forall|o: ExecutionOutcome| #[trigger] ra.filter(outcome_label_class(o)) == rb.filter(outcome_label_class(o)) by {
        ra.lemma_filter_prepend(x, outcome_label_class(o));
        rb.lemma_filter_prepend(y, outcome_label_class(o));
        assert(a.filter(outcome_label_class(o)) == b.filter(outcome_label_class(o)));
        let p = if outcome_label_class(o)(x) { seq![x] } else { Seq::<ExecutionOutcome>::empty() };
        lemma_cancel_prefix(p, ra.filter(outcome_label_class(o)), rb.filter(outcome_label_class(o)));
    }
    assert forall|i: int, j: int| 0 <= i < j < ra.len() implies !outcome_less(#[trigger] ra[j], #[trigger] ra[i]) by {
        assert(ra[j] == a[j + 1] && ra[i] == a[i + 1]);
    }
    assert forall|i: int, j: int| 0 <= i < j < rb.len() implies !outcome_less(#[trigger] rb[j], #[trigger] rb[i]) by {
        assert(rb[j] == b[j + 1] && rb[i] == b[i + 1]);
    }
    lemma_sorted_outcomes_unique(ra, rb);
}

/// The merged outcomes are the only sorted list that keeps, for every label,
/// the outcomes of the input in input order.
pub proof fn lemma_merged_outcomes_determined(
    out1: Seq<ExecutionOutcome>,
    out2: Seq<ExecutionOutcome>,
    input: Seq<ExecutionOutcome>,
)
    requires
        outcomes_sorted(out1),
        outcomes_stably_permuted(out1, input),
        outcomes_sorted(out2),
        outcomes_stably_permuted(out2, input),
    ensures
        out1 == out2,
{
    assert forall|o: ExecutionOutcome| #[trigger] out1.filter(outcome_label_class(o)) == out2.filter(outcome_label_class(o)) by {
        assert(out1.filter(outcome_label_class(o)) == input.filter(outcome_label_class(o)));
        assert(out2.filter(outcome_label_class(o)) == input.filter(outcome_label_class(o)));
    }
    lemma_sorted_outcomes_unique(out1, out2);
}

} // verus!

verus! {

/// Sorted findings are listed by rule id first: a finding whose rule id is
/// smaller comes earlier whatever the files; among equal rule ids by file;
/// then by start line and start column, a missing one first.
pub proof fn lemma_sorted_findings_rule_first(s: Seq<Finding>)
    requires
        findings_sorted(s),
    ensures
        forall|i: int, j: int|
            0 <= i < j < s.len() ==> {
                &&& !seq_less((#[trigger] s[j]).rule_id@, (#[trigger] s[i]).rule_id@)
                &&& s[i].rule_id@ == s[j].rule_id@ ==> !seq_less(s[j].location.file@, s[i].location.file@)
                &&& s[i].rule_id@ == s[j].rule_id@ && s[i].location.file@ == s[j].location.file@ ==> !(
                match (s[j].location.start_line, s[i].location.start_line) {
                    (None, Some(_)) => true,
                    (Some(x), Some(y)) => x < y,
                    _ => false,
                })
                &&& s[i].rule_id@ == s[j].rule_id@ && s[i].location.file@ == s[j].location.file@
                    && s[i].location.start_line == s[j].location.start_line ==> !(
                match (s[j].location.start_column, s[i].location.start_column) {
                    (None, Some(_)) => true,
                    (Some(x), Some(y)) => x < y,
                    _ => false,
                })
            },
{
    assert forall|i: int, j: int| 0 <= i < j < s.len() implies {
        &&& !seq_less((#[trigger] s[j]).rule_id@, (#[trigger] s[i]).rule_id@)
        &&& s[i].rule_id@ == s[j].rule_id@ ==> !seq_less(s[j].location.file@, s[i].location.file@)
        &&& s[i].rule_id@ == s[j].rule_id@ && s[i].location.file@ == s[j].location.file@ ==> !(
        match (s[j].location.start_line, s[i].location.start_line) {
            (None, Some(_)) => true,
            (Some(x), Some(y)) => x < y,
            _ => false,
        })
        &&& s[i].rule_id@ == s[j].rule_id@ && s[i].location.file@ == s[j].location.file@
            && s[i].location.start_line == s[j].location.start_line ==> !(
        match (s[j].location.start_column, s[i].location.start_column) {
            (None, Some(_)) => true,
            (Some(x), Some(y)) => x < y,
            _ => false,
        })
    } by {
        assert(!finding_less(s[j], s[i]));
    }
}

} // verus!

verus! {

/// Sorted outcomes list every failed execution before every successful one.
pub proof fn lemma_sorted_outcomes_failures_first(s: Seq<ExecutionOutcome>)
    requires
        outcomes_sorted(s),
    ensures
        forall|i: int, j: int|
            0 <= i < j < s.len() ==> !((#[trigger] s[i]) is Succeeded && (#[trigger] s[j]) is Failed),
{
    reveal_strlit("succeeded");
    reveal_strlit("failed-");
    assert forall|i: int, j: int| 0 <= i < j < s.len() implies !((#[trigger] s[i]) is Succeeded && (
    #[trigger] s[j]) is Failed) by {
        assert(!outcome_less(s[j], s[i]));
        if s[i] is Succeeded && s[j] is Failed {
            let a = outcome_label(s[j]);
            let b = outcome_label(s[i]);
            assert(a[0] == 'f' && b[0] == 's');
            assert(a.len() > 0 && b.len() > 0);
            assert(seq_less(a, b));
        }
    }
}

} // verus!
