use vstd::prelude::*;

use crate::seqs::{first_index, lemma_first_index, lemma_first_index_none, lemma_first_index_spec};
use crate::text::{
    chars_of, digit_value, digits_value, is_digit, join_path, joined_path, lemma_split_nonempty, split_char,
};

verus! {

/// Availability and compatibility of an external tool.
#[derive(Debug, Clone, PartialEq, Eq)]
pub enum ToolStatus {
    Available { version: Option<String> },
    Missing,
    Incompatible { expected: String, found: Option<String> },
}

pub enum ToolStatusView {
    Available { version: Option<Seq<char>> },
    Missing,
    Incompatible { expected: Seq<char>, found: Option<Seq<char>> },
}

pub open spec fn opt_view(s: Option<String>) -> Option<Seq<char>> {
    match s {
        Some(t) => Some(t@),
        None => None,
    }
}

pub open spec fn opt_str_view(s: Option<&str>) -> Option<Seq<char>> {
    match s {
        Some(t) => Some(t@),
        None => None,
    }
}

impl View for ToolStatus {
    type V = ToolStatusView;

    open spec fn view(&self) -> ToolStatusView {
        match self {
            ToolStatus::Available { version } => ToolStatusView::Available { version: opt_view(*version) },
            ToolStatus::Missing => ToolStatusView::Missing,
            ToolStatus::Incompatible { expected, found } => ToolStatusView::Incompatible {
                expected: expected@,
                found: opt_view(*found),
            },
        }
    }
}

/// A configured external tool and its resolved state.
#[derive(Debug, Clone, PartialEq, Eq)]
pub struct Tool {
    pub name: String,
    pub executable: String,
    pub supported_version_range: Option<String>,
    pub status: ToolStatus,
}

// ---------------------------------------------------------------------------
// Version strings: dot-separated parts, each read by its leading digits.
// ---------------------------------------------------------------------------

pub open spec fn not_digit_at(p: Seq<char>) -> spec_fn(int) -> bool {
    |j: int| !is_digit(p[j])
}

/// The number of leading ASCII digits of a part.
pub open spec fn leading_len(p: Seq<char>) -> int {
    let k = first_index(not_digit_at(p), p.len() as int);
    if k < 0 {
        p.len() as int
    } else {
        k
    }
}

/// `k` leading characters are digits and the next one, if any, is not.
pub open spec fn is_leading_count(p: Seq<char>, k: int) -> bool {
    &&& 0 <= k <= p.len()
    &&& forall|j: int| 0 <= j < k ==> is_digit(#[trigger] p[j])
    &&& k < p.len() ==> !is_digit(p[k])
}

proof fn lemma_leading_len(p: Seq<char>, k: int)
    requires
        is_leading_count(p, k),
    ensures
        leading_len(p) == k,
{
    if k < p.len() {
        lemma_first_index(not_digit_at(p), p.len() as int, k);
    } else {
        lemma_first_index_none(not_digit_at(p), p.len() as int);
    }
}

/// The number a version part contributes: its leading digits, if there are
/// some and they fit in `u64` (`parse::<u64>` of the digit prefix).
pub open spec fn part_number(p: Seq<char>) -> Option<u64> {
    let d = p.take(leading_len(p));
    if d.len() == 0 || digits_value(d) > u64::MAX {
        None
    } else {
        Some(digits_value(d) as u64)
    }
}

pub open spec fn part_number_fn() -> spec_fn(Seq<char>) -> Option<u64> {
    |p: Seq<char>| part_number(p)
}

/// The numbers of a version string, parts without a number skipped.
pub open spec fn version_numbers(s: Seq<char>) -> Seq<u64> {
    split_char(s, '.').filter_map(part_number_fn())
}

proof fn lemma_filter_map_push(s: Seq<Seq<char>>, x: Seq<char>)
    ensures
        s.push(x).filter_map(part_number_fn()) == (match part_number(x) {
            Some(n) => s.filter_map(part_number_fn()) + seq![n],
            None => s.filter_map(part_number_fn()),
        }),
{
    assert(s.push(x).drop_last() =~= s);
}

/// The parse state of the current part: its length, its leading digit count,
/// and the value of those digits unless it overflowed.
pub open spec fn part_state(cur: Seq<char>, len: usize, digits: usize, value: u64, overflow: bool) -> bool {
    &&& len == cur.len()
    &&& is_leading_count(cur, digits as int)
    &&& overflow <==> digits_value(cur.take(digits as int)) > u64::MAX
    &&& !overflow ==> value == digits_value(cur.take(digits as int))
}

fn finish_part(numbers: &mut Vec<u64>, digits: usize, value: u64, overflow: bool, cur: Ghost<Seq<char>>, len: usize)
    requires
        part_state(cur@, len, digits, value, overflow),
    ensures
        final(numbers)@ == (match part_number(cur@) {
            Some(n) => old(numbers)@ + seq![n],
            None => old(numbers)@,
        }),
{
    proof {
        lemma_leading_len(cur@, digits as int);
    }
    if digits > 0 && !overflow {
        numbers.push(value);
        assert(numbers@ =~= old(numbers)@ + seq![value]);
    }
}

/// The numbers of the version string `cs[from..]`.
fn parse_version(cs: &Vec<char>, from: usize) -> (r: Vec<u64>)
    requires
        from <= cs@.len(),
    ensures
        r@ == version_numbers(cs@.skip(from as int)),
{
    let ghost s = cs@.skip(from as int);
    let mut numbers: Vec<u64> = Vec::new();
    let mut len: usize = 0;
    let mut digits: usize = 0;
    let mut value: u64 = 0;
    let mut overflow = false;
    let mut i: usize = from;
    proof {
        assert(s.take(0) =~= Seq::<char>::empty());
        assert(Seq::<char>::empty().take(0) =~= Seq::<char>::empty());
        assert(digits_value(Seq::<char>::empty()) == 0);
        assert(Seq::<Seq<char>>::empty().filter_map(part_number_fn()) =~= Seq::<u64>::empty());
        assert(split_char(s.take(0), '.').drop_last() =~= Seq::<Seq<char>>::empty());
    }
    while i < cs.len()
        invariant
            from <= i <= cs@.len(),
            s == cs@.skip(from as int),
            split_char(s.take(i - from), '.').len() >= 1,
            len <= i - from,
            numbers@ == split_char(s.take(i - from), '.').drop_last().filter_map(part_number_fn()),
            part_state(split_char(s.take(i - from), '.').last(), len, digits, value, overflow),
        decreases cs@.len() - i,
    {
        let c = cs[i];
        let ghost k = (i - from) as int;
        let ghost parts = split_char(s.take(k), '.');
        let ghost cur = parts.last();
        proof {
            assert(s.take(k + 1).drop_last() =~= s.take(k));
            assert(s.take(k + 1).last() == c);
            lemma_split_nonempty(s.take(k + 1), '.');
        }
        if c == '.' {
            finish_part(&mut numbers, digits, value, overflow, Ghost(cur), len);
            proof {
                let next = split_char(s.take(k + 1), '.');
                assert(next == parts.push(Seq::<char>::empty()));
                assert(next.drop_last() =~= parts);
                assert(parts =~= parts.drop_last().push(cur));
                lemma_filter_map_push(parts.drop_last(), cur);
                assert(Seq::<char>::empty().take(0) =~= Seq::<char>::empty());
            }
            len = 0;
            digits = 0;
            value = 0;
            overflow = false;
        } else {
            let ghost next_cur = cur.push(c);
            proof {
                let next = split_char(s.take(k + 1), '.');
                assert(next == parts.update(parts.len() - 1, next_cur));
                assert(next.drop_last() =~= parts.drop_last());
                assert(next.last() == next_cur);
            }
            if digits == len && '0' <= c && c <= '9' {
                let d: u64 = if c == '0' {
                    0
                } else if c == '1' {
                    1
                } else if c == '2' {
                    2
                } else if c == '3' {
                    3
                } else if c == '4' {
                    4
                } else if c == '5' {
                    5
                } else if c == '6' {
                    6
                } else if c == '7' {
                    7
                } else if c == '8' {
                    8
                } else {
                    9
                };
                proof {
                    assert(next_cur.take(digits as int + 1) =~= cur.take(digits as int).push(c));
                    assert(cur.take(digits as int) =~= cur);
                    assert(cur.take(digits as int).push(c).drop_last() =~= cur.take(digits as int));
                    assert(digit_value(c) == d as nat);
                    assert(digits_value(cur.take(digits as int).push(c)) == digits_value(cur.take(digits as int)) * 10 + d);
                }
                if !overflow {
                    if value > (u64::MAX - d) / 10 {
                        overflow = true;
                    } else {
                        value = value * 10 + d;
                    }
                }
                digits = digits + 1;
            } else {
                proof {
                    assert(next_cur.take(digits as int) =~= cur.take(digits as int));
                }
            }
            len = len + 1;
        }
        i = i + 1;
    }
    proof {
        let k = (i - from) as int;
        assert(s.take(k) =~= s);
        let parts = split_char(s, '.');
        assert(parts =~= parts.drop_last().push(parts.last()));
        lemma_filter_map_push(parts.drop_last(), parts.last());
    }
    finish_part(&mut numbers, digits, value, overflow, Ghost(split_char(s, '.').last()), len);
    numbers
}

} // verus!

verus! {

pub open spec fn differs_at(a: Seq<u64>, b: Seq<u64>) -> spec_fn(int) -> bool {
    |i: int| a[i] != b[i]
}

pub open spec fn min_len(a: Seq<u64>, b: Seq<u64>) -> int {
    if a.len() <= b.len() {
        a.len() as int
    } else {
        b.len() as int
    }
}

/// The comparison of two number lists: at the first position where they
/// differ, the difference of the numbers (each narrowed to `i32`); if one is
/// a prefix of the other, the difference of the lengths (narrowed likewise).
pub open spec fn compare_numbers(a: Seq<u64>, b: Seq<u64>) -> int {
    let k = first_index(differs_at(a, b), min_len(a, b));
    if k >= 0 {
        (a[k] as i32) as int - (b[k] as i32) as int
    } else {
        (a.len() as i32) as int - (b.len() as i32) as int
    }
}

/// The comparison of two version strings by their numbers.
pub open spec fn compare_spec(a: Seq<char>, b: Seq<char>) -> int {
    compare_numbers(version_numbers(a), version_numbers(b))
}

/// The comparison fits in an `i32` (the subtraction does not overflow).
pub open spec fn versions_comparable(a: Seq<char>, b: Seq<char>) -> bool {
    i32::MIN <= compare_spec(a, b) <= i32::MAX
}

fn compare_parsed(a: &Vec<u64>, b: &Vec<u64>) -> (r: i32)
    requires
        i32::MIN <= compare_numbers(a@, b@) <= i32::MAX,
    ensures
        r == compare_numbers(a@, b@),
{
    let n = if a.len() <= b.len() {
        a.len()
    } else {
        b.len()
    };
    let mut i: usize = 0;
    while i < n
        invariant
            n == min_len(a@, b@),
            i <= n,
            i32::MIN <= compare_numbers(a@, b@) <= i32::MAX,
            forall|j: int| 0 <= j < i ==> !#[trigger] differs_at(a@, b@)(j),
        decreases n - i,
    {
        if a[i] != b[i] {
            proof {
                lemma_first_index(differs_at(a@, b@), n as int, i as int);
            }
            return (a[i] as i32) - (b[i] as i32);
        }
        i = i + 1;
    }
    proof {
        lemma_first_index_none(differs_at(a@, b@), n as int);
    }
    (a.len() as i32) - (b.len() as i32)
}

/// Orders two version strings: negative, zero or positive as `a` is below,
/// equal to or above `b`.
pub fn compare_versions(a: &str, b: &str) -> (r: i32)
    requires
        versions_comparable(a@, b@),
    ensures
        r == compare_spec(a@, b@),
{
    let ac = chars_of(a);
    let bc = chars_of(b);
    let a_parts = parse_version(&ac, 0);
    let b_parts = parse_version(&bc, 0);
    assert(ac@.skip(0) =~= a@);
    assert(bc@.skip(0) =~= b@);
    compare_parsed(&a_parts, &b_parts)
}

/// Whether a range is a plain `>=` minimum.
pub open spec fn has_minimum(range: Seq<char>) -> bool {
    range.len() >= 2 && range[0] == '>' && range[1] == '='
}

/// Whether a version lies in a range: only a plain `>=X` range constrains;
/// any other range admits every version.
pub open spec fn range_admits(range: Seq<char>, version: Seq<char>) -> bool {
    if has_minimum(range) {
        compare_spec(version, range.skip(2)) >= 0
    } else {
        true
    }
}

/// What comparing the version against the range requires.
pub open spec fn range_comparable(range: Seq<char>, version: Seq<char>) -> bool {
    has_minimum(range) ==> versions_comparable(version, range.skip(2))
}

pub fn range_matches(range: &str, version: &str) -> (r: bool)
    requires
        range_comparable(range@, version@),
    ensures
        r == range_admits(range@, version@),
{
    let rc = chars_of(range);
    if rc.len() >= 2 && rc[0] == '>' && rc[1] == '=' {
        let vc = chars_of(version);
        let v_parts = parse_version(&vc, 0);
        let min_parts = parse_version(&rc, 2);
        assert(vc@.skip(0) =~= version@);
        compare_parsed(&v_parts, &min_parts) >= 0
    } else {
        true
    }
}

/// The status a tool has: missing when its executable was not found; else
/// available unless a plain `>=X` range constrains it, and under such a
/// range incompatible when no version is known, and otherwise as the range
/// admits the version. Any other range leaves the tool available.
pub open spec fn tool_status(found: bool, range: Option<Seq<char>>, version: Option<Seq<char>>) -> ToolStatusView {
    if !found {
        ToolStatusView::Missing
    } else {
        match range {
            None => ToolStatusView::Available { version },
            Some(r) => if !has_minimum(r) {
                ToolStatusView::Available { version }
            } else {
                match version {
                None => ToolStatusView::Incompatible { expected: r, found: None },
                    Some(v) => if range_admits(r, v) {
                        ToolStatusView::Available { version: Some(v) }
                    } else {
                        ToolStatusView::Incompatible { expected: r, found: Some(v) }
                    },
                }
            },
        }
    }
}

pub open spec fn status_label_of(s: ToolStatus) -> Seq<char> {
    match s {
        ToolStatus::Available { .. } => "available"@,
        ToolStatus::Missing => "missing"@,
        ToolStatus::Incompatible { .. } => "incompatible"@,
    }
}

/// Discovers whether configured tools are available and compatible.
#[derive(Debug, Clone)]
pub struct ToolResolver;

impl ToolResolver {
    /// Where an executable is looked for, in order: an absolute path names
    /// itself; any other name is looked up in each search directory.
    pub fn candidate_paths(executable: &str, absolute: bool, dirs: &Vec<String>) -> (r: Vec<String>)
        ensures
            absolute ==> r@.len() == 1 && r@[0]@ == executable@,
            !absolute ==> r@.len() == dirs@.len() && forall|i: int|
                0 <= i < dirs@.len() ==> (#[trigger] r@[i])@ == joined_path(dirs@[i]@, executable@),
    {
        let mut out: Vec<String> = Vec::new();
        if absolute {
            out.push(executable.to_owned());
            return out;
        }
        let mut i: usize = 0;
        while i < dirs.len()
            invariant
                i <= dirs@.len(),
                out@.len() == i,
                forall|j: int| 0 <= j < i ==> (#[trigger] out@[j])@ == joined_path(dirs@[j]@, executable@),
            decreases dirs@.len() - i,
        {
            out.push(join_path(dirs[i].as_str(), executable));
            i = i + 1;
        }
        out
    }

    /// Determine whether an executable is available and within the supported
    /// version range, given where the executable was found (if anywhere).
    /// Version comparison is coarse: only a plain ">=X" range prefix is
    /// honored; anything else treats the tool as available.
    pub fn check(resolved: Option<String>, supported_range: Option<&str>, version: Option<&str>) -> (r: ToolStatus)
        requires
            supported_range is Some && version is Some ==> range_comparable(supported_range->0@, version->0@),
        ensures
            r@ == tool_status(resolved is Some, opt_str_view(supported_range), opt_str_view(version)),
    {
        if resolved.is_none() {
            return ToolStatus::Missing;
        }
        let constraining = match supported_range {
            None => None,
            Some(range) => {
                let rc = chars_of(range);
                if rc.len() >= 2 && rc[0] == '>' && rc[1] == '=' {
                    Some(range)
                } else {
                    None
                }
            },
        };
        let range = match constraining {
            None => {
                return ToolStatus::Available {
                    version: match version {
                        Some(v) => Some(v.to_owned()),
                        None => None,
                    },
                };
            },
            Some(range) => range,
        };
        let found = match version {
            None => {
                return ToolStatus::Incompatible { expected: range.to_owned(), found: None };
            },
            Some(found) => found,
        };
        if range_matches(range, found) {
            ToolStatus::Available { version: Some(found.to_owned()) }
        } else {
            ToolStatus::Incompatible { expected: range.to_owned(), found: Some(found.to_owned()) }
        }
    }

    pub fn status_label(status: &ToolStatus) -> (r: &'static str)
        ensures
            r@ == status_label_of(*status),
    {
        match status {
            ToolStatus::Available { .. } => "available",
            ToolStatus::Missing => "missing",
            ToolStatus::Incompatible { .. } => "incompatible",
        }
    }
}

/// A version compares equal to itself.
pub proof fn lemma_compare_reflexive(a: Seq<char>)
    ensures
        compare_spec(a, a) == 0,
{
    let n = version_numbers(a);
    lemma_first_index_none(differs_at(n, n), min_len(n, n));
}

/// Swapping the versions negates the comparison.
pub proof fn lemma_compare_antisymmetric(a: Seq<char>, b: Seq<char>)
    ensures
        compare_spec(a, b) == -compare_spec(b, a),
{
    let x = version_numbers(a);
    let y = version_numbers(b);
    let n = min_len(x, y);
    assert(min_len(y, x) == n);
    let k = first_index(differs_at(x, y), n);
    if k >= 0 {
        lemma_first_index_spec(differs_at(x, y), n);
        assert forall|j: int| 0 <= j < k implies !#[trigger] differs_at(y, x)(j) by {
            assert(!differs_at(x, y)(j));
        }
        lemma_first_index(differs_at(y, x), n, k);
    } else {
        lemma_first_index_spec(differs_at(x, y), n);
        assert forall|j: int| 0 <= j < n implies !#[trigger] differs_at(y, x)(j) by {
            if differs_at(y, x)(j) {
                assert(differs_at(x, y)(j));
            }
        }
        lemma_first_index_none(differs_at(y, x), n);
    }
}

/// A `>=X` range admits the version `X` itself.
pub proof fn lemma_minimum_admits_itself(range: Seq<char>)
    requires
        has_minimum(range),
    ensures
        range_admits(range, range.skip(2)),
{
    lemma_compare_reflexive(range.skip(2));
}

/// What a tool's status is: missing exactly when its executable was not
/// found; a found tool with no range, or with a range that does not start
/// with `>=`, is available with whatever version is known; under a `>=X`
/// range it is available exactly when a version is known and compares at
/// least `X`, and otherwise incompatible, reporting the range and the
/// version.
pub proof fn lemma_tool_status_cases(found: bool, range: Option<Seq<char>>, version: Option<Seq<char>>)
    ensures
        !found <==> tool_status(found, range, version) is Missing,
        found && (range is None || !(range->0.len() >= 2 && range->0[0] == '>' && range->0[1] == '='))
            ==> tool_status(found, range, version) == (ToolStatusView::Available { version }),
        found && range is Some && range->0.len() >= 2 && range->0[0] == '>' && range->0[1] == '=' ==> (if version
            is Some && compare_spec(version->0, range->0.skip(2)) >= 0 {
            tool_status(found, range, version) == (ToolStatusView::Available { version })
        } else {
            tool_status(found, range, version) == (ToolStatusView::Incompatible { expected: range->0, found: version })
        }),
{
}

} // verus!
