use std::time::Duration;

use vstd::prelude::*;

use crate::finding::Finding;
use crate::text::{
    chars_of, decimal, lemma_split_nonempty, push_char, push_decimal, push_str, split_char, string_of_chars, trim,
    trim_chars,
};

verus! {

/// What `Duration::as_millis` reports for a duration, narrowed to `u64`.
pub uninterp spec fn duration_millis(d: Duration) -> u64;

/// `Duration::as_millis`, narrowed to `u64` the way an `as` cast narrows.
/// Its result is named by `duration_millis`; nothing more is stated of it.
#[verifier::external_body]
fn millis_of(d: Duration) -> (r: u64)
    ensures
        r == duration_millis(d),
{
    d.as_millis() as u64
}

/// `Clone` for `Duration`: a duration is `Copy`, so its clone is the same
/// duration.
pub assume_specification[ <core::time::Duration as core::clone::Clone>::clone ](
    d: &Duration,
) -> (r: Duration)
    ensures
        r == *d,
;

/// Identity and capabilities an analyzer exposes to the engine.
#[derive(Debug, Clone, PartialEq, Eq)]
pub struct AnalyzerInfo {
    pub id: String,
    pub name: String,
    pub description: String,
    pub capabilities: Vec<String>,
    pub supported_project_types: Vec<String>,
}

/// Requirements for the external tool an analyzer needs.
#[derive(Debug, Clone, PartialEq, Eq)]
pub struct ToolRequirement {
    /// Name of the executable on PATH or an absolute path.
    pub executable: String,
    /// Optional supported version range (e.g. ">=1.60").
    pub supported_version_range: Option<String>,
}

/// Context passed to an analyzer for a single run.
#[derive(Debug, Clone)]
pub struct RunContext {
    pub workspace_root: String,
    pub executable: String,
    pub args: Vec<String>,
    pub timeout: Duration,
    pub version_command: Option<Vec<String>>,
}

/// Normalized output of one analyzer execution.
#[derive(Debug, Clone)]
pub struct RunOutput {
    pub findings: Vec<Finding>,
    pub tool_version: Option<String>,
    pub duration: Duration,
}

/// Why an analyzer execution failed.
#[derive(Debug, Clone, Copy, PartialEq, Eq, Structural)]
pub enum FailedReason {
    MissingTool,
    ExitStatus,
    Timeout,
    Internal,
}

/// Outcome of one analyzer execution, distinct from any findings produced.
#[derive(Debug, Clone, PartialEq, Eq)]
pub enum ExecutionOutcome {
    Succeeded { tool_version: Option<String>, duration_ms: u64 },
    Failed { reason: FailedReason, message: String, duration_ms: u64 },
}

/// Whether an outcome records a failed execution.
pub open spec fn outcome_failed(o: ExecutionOutcome) -> bool {
    o is Failed
}

impl ExecutionOutcome {
    pub fn succeeded(version: Option<String>, duration: Duration) -> (r: Self)
        ensures
            r == (ExecutionOutcome::Succeeded {
                tool_version: version,
                duration_ms: duration_millis(duration),
            }),
    {
        ExecutionOutcome::Succeeded { tool_version: version, duration_ms: millis_of(duration) }
    }

    pub fn failed(reason: FailedReason, message: String, duration: Duration) -> (r: Self)
        ensures
            r == (ExecutionOutcome::Failed {
                reason,
                message,
                duration_ms: duration_millis(duration),
            }),
    {
        ExecutionOutcome::Failed { reason, message, duration_ms: millis_of(duration) }
    }

    pub fn is_failed(&self) -> (r: bool)
        ensures
            r == outcome_failed(*self),
    {
        match self {
            ExecutionOutcome::Failed { .. } => true,
            ExecutionOutcome::Succeeded { .. } => false,
        }
    }
}

/// How an analyzer interprets the tool's stdout.
#[derive(Debug, Clone, Copy, PartialEq, Eq, Structural)]
pub enum OutputFormat {
    /// Each stdout line is a JSON-serialized `Finding`.
    JsonLines,
    /// Findings come from exit code alone; stdout is ignored.
    ExitCode,
}

} // verus!

verus! {

/// Whether `Duration::is_zero` holds of a duration.
pub uninterp spec fn duration_zero(d: Duration) -> bool;

/// The duration `Duration::from_secs` makes of a number of seconds.
pub uninterp spec fn duration_of_secs(secs: u64) -> Duration;

/// `Duration::is_zero`. Its result is named by `duration_zero`.
#[verifier::external_body]
pub(crate) fn is_zero_duration(d: Duration) -> (r: bool)
    ensures
        r == duration_zero(d),
{
    d.is_zero()
}

/// `Duration::from_secs`: a duration of whole seconds. Its result is named
/// by `duration_of_secs`; it spans no time exactly when there are no seconds,
/// and it holds a thousand milliseconds per second.
#[verifier::external_body]
pub(crate) fn duration_from_secs(secs: u64) -> (r: Duration)
    ensures
        r == duration_of_secs(secs),
        duration_zero(r) <==> secs == 0,
        secs * 1000 <= u64::MAX ==> duration_millis(r) == secs * 1000,
{
    Duration::from_secs(secs)
}

/// `Duration::ZERO`: the empty duration, which lasts zero milliseconds.
#[verifier::external_body]
pub(crate) fn zero_duration() -> (r: Duration)
    ensures
        duration_millis(r) == 0,
        duration_zero(r),
{
    Duration::ZERO
}

} // verus!

verus! {

/// Owned texts that read, one for one, as the borrowed ones.
pub open spec fn same_texts(owned: Seq<String>, borrowed: Seq<&str>) -> bool {
    &&& owned.len() == borrowed.len()
    &&& forall|i: int| 0 <= i < owned.len() ==> #[trigger] owned[i]@ == borrowed[i]@
}

pub open spec fn string_view() -> spec_fn(String) -> Seq<char> {
    |s: String| s@
}

fn strings_of(items: &Vec<&str>) -> (r: Vec<String>)
    ensures
        same_texts(r@, items@),
{
    let mut out: Vec<String> = Vec::new();
    let mut i: usize = 0;
    while i < items.len()
        invariant
            i <= items@.len(),
            same_texts(out@, items@.take(i as int)),
        decreases items@.len() - i,
    {
        out.push(items[i].to_owned());
        i = i + 1;
    }
    assert(items@.take(items@.len() as int) =~= items@);
    out
}

/// Generic process-based analyzer driven by configuration: it runs the
/// configured executable with the configured arguments and reads findings
/// from its output in the configured format.
pub struct CommandAnalyzer {
    info: AnalyzerInfo,
    requirement: ToolRequirement,
    format: OutputFormat,
}

impl CommandAnalyzer {
    pub closed spec fn spec_info(&self) -> AnalyzerInfo {
        self.info
    }

    pub closed spec fn spec_requirement(&self) -> ToolRequirement {
        self.requirement
    }

    pub closed spec fn spec_format(&self) -> OutputFormat {
        self.format
    }

    pub fn new(id: &str, name: &str, description: &str, executable: &str, format: OutputFormat) -> (r: Self)
        ensures
            r.spec_info().id@ == id@,
            r.spec_info().name@ == name@,
            r.spec_info().description@ == description@,
            r.spec_info().capabilities@.len() == 0,
            r.spec_info().supported_project_types@.len() == 0,
            r.spec_requirement().executable@ == executable@,
            r.spec_requirement().supported_version_range is None,
            r.spec_format() == format,
    {
        CommandAnalyzer {
            info: AnalyzerInfo {
                id: id.to_owned(),
                name: name.to_owned(),
                description: description.to_owned(),
                capabilities: Vec::new(),
                supported_project_types: Vec::new(),
            },
            requirement: ToolRequirement { executable: executable.to_owned(), supported_version_range: None },
            format,
        }
    }

    pub fn with_capabilities(self, capabilities: Vec<&str>) -> (r: Self)
        ensures
            same_texts(r.spec_info().capabilities@, capabilities@),
            r.spec_info().id == self.spec_info().id,
            r.spec_info().name == self.spec_info().name,
            r.spec_info().description == self.spec_info().description,
            r.spec_info().supported_project_types == self.spec_info().supported_project_types,
            r.spec_requirement() == self.spec_requirement(),
            r.spec_format() == self.spec_format(),
    {
        let mut analyzer = self;
        analyzer.info.capabilities = strings_of(&capabilities);
        analyzer
    }

    pub fn with_project_types(self, project_types: Vec<&str>) -> (r: Self)
        ensures
            same_texts(r.spec_info().supported_project_types@, project_types@),
            r.spec_info().id == self.spec_info().id,
            r.spec_info().name == self.spec_info().name,
            r.spec_info().description == self.spec_info().description,
            r.spec_info().capabilities == self.spec_info().capabilities,
            r.spec_requirement() == self.spec_requirement(),
            r.spec_format() == self.spec_format(),
    {
        let mut analyzer = self;
        analyzer.info.supported_project_types = strings_of(&project_types);
        analyzer
    }

    pub fn with_version_range(self, range: &str) -> (r: Self)
        ensures
            r.spec_requirement().supported_version_range matches Some(v) && v@ == range@,
            r.spec_requirement().executable == self.spec_requirement().executable,
            r.spec_info() == self.spec_info(),
            r.spec_format() == self.spec_format(),
    {
        let mut analyzer = self;
        analyzer.requirement.supported_version_range = Some(range.to_owned());
        analyzer
    }

    /// The analyzer's identity and capabilities.
    pub fn info(&self) -> (r: AnalyzerInfo)
        ensures
            r.id == self.spec_info().id,
            r.name == self.spec_info().name,
            r.description == self.spec_info().description,
            r.capabilities@ == self.spec_info().capabilities@,
            r.supported_project_types@ == self.spec_info().supported_project_types@,
    {
        let capabilities = self.info.capabilities.clone();
        let project_types = self.info.supported_project_types.clone();
        assert(capabilities@ =~= self.info.capabilities@);
        assert(project_types@ =~= self.info.supported_project_types@);
        AnalyzerInfo {
            id: self.info.id.clone(),
            name: self.info.name.clone(),
            description: self.info.description.clone(),
            capabilities,
            supported_project_types: project_types,
        }
    }

    /// The tool the analyzer needs.
    pub fn tool_requirement(&self) -> (r: ToolRequirement)
        ensures
            r.executable == self.spec_requirement().executable,
            r.supported_version_range == self.spec_requirement().supported_version_range,
    {
        ToolRequirement {
            executable: self.requirement.executable.clone(),
            supported_version_range: match &self.requirement.supported_version_range {
                Some(v) => Some(v.clone()),
                None => None,
            },
        }
    }

    /// How the analyzer reads the tool's output.
    pub fn format(&self) -> (r: OutputFormat)
        ensures
            r == self.spec_format(),
    {
        self.format
    }
}

// ---------------------------------------------------------------------------
// Reading a tool's output.
// ---------------------------------------------------------------------------

pub open spec fn trim_fn() -> spec_fn(Seq<char>) -> Seq<char> {
    |p: Seq<char>| trim(p)
}

pub open spec fn non_empty() -> spec_fn(Seq<char>) -> bool {
    |p: Seq<char>| p.len() > 0
}

/// The lines of a text, each trimmed, blank ones left out.
pub open spec fn text_lines(s: Seq<char>) -> Seq<Seq<char>> {
    split_char(s, '\n').map_values(trim_fn()).filter(non_empty())
}

/// The candidate finding records of a tool's output: for JSON-lines output
/// each non-blank line, trimmed; for exit-code output none.
pub open spec fn finding_records(format: OutputFormat, stdout: Seq<char>) -> Seq<Seq<char>> {
    match format {
        OutputFormat::ExitCode => Seq::empty(),
        OutputFormat::JsonLines => text_lines(stdout),
    }
}

proof fn lemma_lines_push(parts: Seq<Seq<char>>, x: Seq<char>)
    ensures
        parts.push(x).map_values(trim_fn()).filter(non_empty()) == (if trim(x).len() > 0 {
            parts.map_values(trim_fn()).filter(non_empty()).push(trim(x))
        } else {
            parts.map_values(trim_fn()).filter(non_empty())
        }),
{
    reveal(Seq::filter);
    assert(parts.push(x).map_values(trim_fn()) =~= parts.map_values(trim_fn()).push(trim(x)));
    assert(parts.map_values(trim_fn()).push(trim(x)).drop_last() =~= parts.map_values(trim_fn()));
}

/// Pushes the trimmed part when it is not blank.
fn finish_line(out: &mut Vec<String>, cur: &Vec<char>)
    ensures
        final(out)@.map_values(string_view()) == (if trim(cur@).len() > 0 {
            old(out)@.map_values(string_view()).push(trim(cur@))
        } else {
            old(out)@.map_values(string_view())
        }),
{
    let t = trim_chars(cur);
    if t.len() > 0 {
        out.push(string_of_chars(t.as_slice()));
        assert(out@.map_values(string_view()) =~= old(out)@.map_values(string_view()).push(trim(cur@)));
    }
}

/// Splits a tool's output into the records that should each hold one
/// JSON-serialized finding.
pub fn finding_lines(format: OutputFormat, stdout: &str) -> (r: Vec<String>)
    ensures
        r@.map_values(string_view()) == finding_records(format, stdout@),
{
    let mut out: Vec<String> = Vec::new();
    match format {
        OutputFormat::ExitCode => {
            assert(out@.map_values(string_view()) =~= Seq::<Seq<char>>::empty());
            return out;
        },
        OutputFormat::JsonLines => {},
    }
    let cs = chars_of(stdout);
    let mut cur: Vec<char> = Vec::new();
    let mut i: usize = 0;
    proof {
        assert(cs@.take(0) =~= Seq::<char>::empty());
        assert(split_char(Seq::<char>::empty(), '\n').drop_last() =~= Seq::<Seq<char>>::empty());
        reveal(Seq::filter);
        assert(Seq::<Seq<char>>::empty().map_values(trim_fn()) =~= Seq::<Seq<char>>::empty());
        assert(out@.map_values(string_view()) =~= Seq::<Seq<char>>::empty());
    }
    while i < cs.len()
        invariant
            i <= cs@.len(),
            cs@ == stdout@,
            split_char(cs@.take(i as int), '\n').len() >= 1,
            out@.map_values(string_view()) == split_char(cs@.take(i as int), '\n').drop_last().map_values(
                trim_fn(),
            ).filter(non_empty()),
            cur@ == split_char(cs@.take(i as int), '\n').last(),
        decreases cs@.len() - i,
    {
        let c = cs[i];
        let ghost parts = split_char(cs@.take(i as int), '\n');
        proof {
            assert(cs@.take(i as int + 1).drop_last() =~= cs@.take(i as int));
            lemma_split_nonempty(cs@.take(i as int + 1), '\n');
        }
        if c == '\n' {
            finish_line(&mut out, &cur);
            proof {
                let next = split_char(cs@.take(i as int + 1), '\n');
                assert(next.drop_last() =~= parts);
                assert(parts =~= parts.drop_last().push(parts.last()));
                lemma_lines_push(parts.drop_last(), parts.last());
            }
            cur = Vec::new();
        } else {
            cur.push(c);
            proof {
                let next = split_char(cs@.take(i as int + 1), '\n');
                assert(next.drop_last() =~= parts.drop_last());
            }
        }
        i = i + 1;
    }
    proof {
        assert(cs@.take(i as int) =~= stdout@);
        let parts = split_char(stdout@, '\n');
        assert(parts =~= parts.drop_last().push(parts.last()));
        lemma_lines_push(parts.drop_last(), parts.last());
    }
    finish_line(&mut out, &cur);
    out
}

/// The version a version command reports: nothing when it failed, else its
/// trimmed output unless that is blank.
pub open spec fn reported_version(success: bool, stdout: Seq<char>) -> Option<Seq<char>> {
    if !success || trim(stdout).len() == 0 {
        None
    } else {
        Some(trim(stdout))
    }
}

/// Reads the tool version from a version command's exit status and output.
pub fn version_from_output(success: bool, stdout: &str) -> (r: Option<String>)
    ensures
        match r {
            Some(v) => reported_version(success, stdout@) == Some(v@),
            None => reported_version(success, stdout@) is None,
        },
{
    if !success {
        return None;
    }
    let t = trim_chars(&chars_of(stdout));
    if t.len() == 0 {
        None
    } else {
        Some(string_of_chars(t.as_slice()))
    }
}

// ---------------------------------------------------------------------------
// Shortening text for messages.
// ---------------------------------------------------------------------------

/// The number of bytes UTF-8 takes for a character (`char::len_utf8`).
pub open spec fn utf8_width(c: char) -> nat {
    if (c as u32) < 0x80 {
        1
    } else if (c as u32) < 0x800 {
        2
    } else if (c as u32) < 0x10000 {
        3
    } else {
        4
    }
}

/// The number of bytes UTF-8 takes for a text (`str::len`).
pub open spec fn utf8_len(s: Seq<char>) -> nat
    decreases s.len(),
{
    if s.len() == 0 {
        0
    } else {
        utf8_len(s.drop_last()) + utf8_width(s.last())
    }
}

fn width(c: char) -> (r: usize)
    ensures
        r == utf8_width(c),
{
    let v = c as u32;
    if v < 0x80 {
        1
    } else if v < 0x800 {
        2
    } else if v < 0x10000 {
        3
    } else {
        4
    }
}

/// Shortens a text to at most `max` bytes of whole characters, marked with an
/// ellipsis when something was cut.
pub open spec fn truncated(text: Seq<char>, max: nat, r: Seq<char>) -> bool {
    if utf8_len(text) <= max {
        r == text
    } else {
        exists|k: int|
            0 <= k < text.len() && utf8_len(#[trigger] text.take(k)) <= max && utf8_len(text.take(k + 1)) > max
                && r == text.take(k).push('\u{2026}')
    }
}

pub fn truncate(text: &str, max: usize) -> (r: String)
    ensures
        truncated(text@, max as nat, r@),
{
    let cs = chars_of(text);
    let mut k: usize = 0;
    let mut total: usize = 0;
    while k < cs.len()
        invariant
            k <= cs@.len(),
            cs@ == text@,
            total == utf8_len(cs@.take(k as int)),
            total <= max,
        decreases cs@.len() - k,
    {
        let w = width(cs[k]);
        assert(cs@.take(k as int + 1).drop_last() =~= cs@.take(k as int));
        if w > max - total {
            let mut prefix: Vec<char> = Vec::new();
            let mut j: usize = 0;
            while j < k
                invariant
                    j <= k,
                    k < cs@.len(),
                    prefix@ == cs@.take(j as int),
                decreases k - j,
            {
                prefix.push(cs[j]);
                assert(cs@.take(j as int + 1) =~= cs@.take(j as int).push(cs@[j as int]));
                j = j + 1;
            }
            let mut short = string_of_chars(prefix.as_slice());
            push_char(&mut short, '\u{2026}');
            proof {
                lemma_utf8_len_prefix(cs@, k as int + 1);
                assert(cs@.take(k as int + 1).last() == cs@[k as int]);
                assert(utf8_len(cs@.take(k as int + 1)) > max);
                assert(utf8_len(cs@) > max);
                assert(short@ == cs@.take(k as int).push('\u{2026}'));
                assert(utf8_len(cs@.take(k as int)) <= max);
            }
            assert(truncated(text@, max as nat, short@));
            return short;
        }
        total = total + w;
        k = k + 1;
    }
    assert(cs@.take(k as int) =~= text@);
    text.to_owned()
}

/// A longer prefix takes at least as many bytes.
proof fn lemma_utf8_len_prefix(s: Seq<char>, k: int)
    requires
        0 <= k <= s.len(),
    ensures
        utf8_len(s.take(k)) <= utf8_len(s),
    decreases s.len() - k,
{
    if k < s.len() {
        lemma_utf8_len_prefix(s, k + 1);
        assert(s.take(k + 1).drop_last() =~= s.take(k));
    } else {
        assert(s.take(k) =~= s);
    }
}

// ---------------------------------------------------------------------------
// What a finished tool process yields.
// ---------------------------------------------------------------------------

/// The decimal text of a signed number.
pub open spec fn signed_decimal(n: int) -> Seq<char> {
    if n < 0 {
        seq!['-'] + decimal((-n) as nat)
    } else {
        decimal(n as nat)
    }
}

/// The message of a process that exited unsuccessfully; a process stopped
/// by a signal has no code and is reported as status -1.
pub open spec fn exit_failure_text(executable: Seq<char>, code: Option<i32>) -> Seq<char> {
    "'"@ + executable + "' exited with status "@ + signed_decimal(
        match code {
            Some(c) => c as int,
            None => -1,
        },
    )
}

/// What a finished run of the tool yields: the records that should each hold
/// one finding when the tool exited successfully, else the failure.
pub open spec fn process_yield(
    format: OutputFormat,
    executable: Seq<char>,
    success: bool,
    code: Option<i32>,
    stdout: Seq<char>,
) -> Result<Seq<Seq<char>>, Seq<char>> {
    if success {
        Ok(finding_records(format, stdout))
    } else {
        Err(exit_failure_text(executable, code))
    }
}

/// Reads what a finished run of the tool yields from its exit status and
/// output.
pub fn process_result(format: OutputFormat, executable: &str, success: bool, code: Option<i32>, stdout: &str) -> (r:
    Result<Vec<String>, String>)
    ensures
        match process_yield(format, executable@, success, code, stdout@) {
            Ok(records) => r matches Ok(v) && v@.map_values(string_view()) == records,
            Err(message) => r matches Err(m) && m@ == message,
        },
{
    if success {
        return Ok(finding_lines(format, stdout));
    }
    let mut message = String::new();
    push_str(&mut message, "'");
    push_str(&mut message, executable);
    push_str(&mut message, "' exited with status ");
    let status: i32 = match code {
        Some(c) => c,
        None => -1,
    };
    if status < 0 {
        push_char(&mut message, '-');
        let magnitude: u64 = (0i64 - status as i64) as u64;
        push_decimal(&mut message, magnitude);
    } else {
        push_decimal(&mut message, status as u64);
    }
    assert(message@ =~= exit_failure_text(executable@, code));
    Err(message)
}

/// The message of a tool that could not be started.
pub fn start_failure(executable: &str, error: &str) -> (r: String)
    ensures
        r@ == "could not start '"@ + executable@ + "': "@ + error@,
{
    let mut message = String::new();
    push_str(&mut message, "could not start '");
    push_str(&mut message, executable);
    push_str(&mut message, "': ");
    push_str(&mut message, error);
    assert(message@ =~= "could not start '"@ + executable@ + "': "@ + error@);
    message
}

/// The message of an output record that holds no finding: the record,
/// shortened to eighty bytes, and the parser's complaint.
pub fn invalid_record(record: &str, error: &str) -> (r: String)
    ensures
        exists|short: Seq<char>|
            truncated(record@, 80, short) && r@ == "invalid finding line '"@ + short + "': "@ + error@,
{
    let short = truncate(record, 80);
    let mut message = String::new();
    push_str(&mut message, "invalid finding line '");
    push_str(&mut message, short.as_str());
    push_str(&mut message, "': ");
    push_str(&mut message, error);
    assert(message@ =~= "invalid finding line '"@ + short@ + "': "@ + error@);
    message
}

/// A text is shortened in exactly one way: the cut falls after the longest
/// prefix of whole characters that fits.
pub proof fn lemma_truncated_unique(text: Seq<char>, max: nat, r1: Seq<char>, r2: Seq<char>)
    requires
        truncated(text, max, r1),
        truncated(text, max, r2),
    ensures
        r1 == r2,
{
    if utf8_len(text) > max {
        let k1 = choose|k: int|
            0 <= k < text.len() && utf8_len(#[trigger] text.take(k)) <= max && utf8_len(text.take(k + 1)) > max
                && r1 == text.take(k).push('\u{2026}');
        let k2 = choose|k: int|
            0 <= k < text.len() && utf8_len(#[trigger] text.take(k)) <= max && utf8_len(text.take(k + 1)) > max
                && r2 == text.take(k).push('\u{2026}');
        if k1 < k2 {
            lemma_utf8_len_prefix(text.take(k2), k1 + 1);
            assert(text.take(k2).take(k1 + 1) =~= text.take(k1 + 1));
        } else if k2 < k1 {
            lemma_utf8_len_prefix(text.take(k1), k2 + 1);
            assert(text.take(k1).take(k2 + 1) =~= text.take(k2 + 1));
        }
    }
}

// ---------------------------------------------------------------------------
// Waiting for a tool process within its timeout.
// ---------------------------------------------------------------------------

/// The exact length of a duration in nanoseconds (`Duration::as_nanos`).
pub uninterp spec fn duration_nanos(d: Duration) -> u128;

/// `Duration::as_nanos`: the whole length of a duration, exactly. Its
/// result is named by `duration_nanos`. `Duration`'s order is the order of
/// these lengths.
#[verifier::external_body]
fn nanos_of(d: Duration) -> (r: u128)
    ensures
        r == duration_nanos(d),
{
    d.as_nanos()
}

/// How `Duration`'s `Debug` writes a duration (such as `5s` or `1.5s`).
pub uninterp spec fn duration_debug(d: Duration) -> Seq<char>;

/// `Duration`'s `Debug` formatting. Its result is named by `duration_debug`;
/// nothing more is stated of it.
#[verifier::external_body]
fn debug_of_duration(d: Duration) -> (r: String)
    ensures
        r@ == duration_debug(d),
{
    format!("{:?}", d)
}

/// What polling a running tool process found.
#[derive(Debug, Clone)]
pub enum PollEvent {
    /// The process has exited.
    Exited,
    /// The process is still running, this long after it was started.
    Running { elapsed: Duration },
    /// Waiting on the process failed.
    WaitFailed { error: String },
}

/// What to do next about a running tool process.
#[derive(Debug, Clone, PartialEq, Eq)]
pub enum PollAction {
    /// Collect the exited process's output.
    CollectOutput,
    /// Kill the process: it ran past its timeout.
    Kill { message: String },
    /// Wait this many milliseconds, then poll again.
    Sleep { millis: u64 },
    /// Give up with this failure.
    Fail { message: String },
}

/// The decision after one poll of a tool process that must finish within
/// `timeout`: collect the output of an exited process, kill one that has
/// reached its deadline, otherwise poll again after fifty milliseconds; a
/// failed wait ends the run.
pub fn poll_step(executable: &str, timeout: Duration, event: PollEvent) -> (r: PollAction)
    ensures
        event is Exited ==> r is CollectOutput,
        event matches PollEvent::Running { elapsed } ==> if duration_nanos(elapsed) >= duration_nanos(timeout) {
            r matches PollAction::Kill { message } && message@ == "'"@ + executable@ + "' exceeded timeout of "@
                + duration_debug(timeout)
        } else {
            r == PollAction::Sleep { millis: 50 }
        },
        event matches PollEvent::WaitFailed { error } ==> r matches PollAction::Fail { message } && message@
            == "could not wait for '"@ + executable@ + "': "@ + error@,
{
    match event {
        PollEvent::Exited => PollAction::CollectOutput,
        PollEvent::Running { elapsed } => {
            if nanos_of(elapsed) >= nanos_of(timeout) {
                let mut message = String::new();
                push_str(&mut message, "'");
                push_str(&mut message, executable);
                push_str(&mut message, "' exceeded timeout of ");
                let text = debug_of_duration(timeout);
                push_str(&mut message, text.as_str());
                assert(message@ =~= "'"@ + executable@ + "' exceeded timeout of "@ + duration_debug(timeout));
                PollAction::Kill { message }
            } else {
                PollAction::Sleep { millis: 50 }
            }
        },
        PollEvent::WaitFailed { error } => {
            let mut message = String::new();
            push_str(&mut message, "could not wait for '");
            push_str(&mut message, executable);
            push_str(&mut message, "': ");
            push_str(&mut message, error.as_str());
            assert(message@ =~= "could not wait for '"@ + executable@ + "': "@ + error@);
            PollAction::Fail { message }
        },
    }
}

} // verus!
