//! The on-disk job protocol: the job-configuration document read by the
//! runner, and the analysis-result document it writes.
//!
//! Positions are 0-based inside the engine and 1-based on the wire; the
//! conversion happens exactly once, when an [`Occurrence`] becomes an
//! [`Issue`]. File paths are reported relative to the configured code
//! root, which is stripped from each path.

use vstd::prelude::*;
use vstd::utf8::{encode_utf8, valid_utf8};

use crate::lint::Occurrence;
use crate::range::Range;
use crate::text::{string_from_utf8, push_range};

verus! {

/// Loading a value at the job boundary: the runner implements this for
/// the configuration document it reads at startup.
pub trait Load where Self: core::marker::Sized {
    /// Load the value from its configured source.
    fn load() -> Result<Self, crate::err::LoadErr>;
}

/// Storing a value at the job boundary: the runner implements this for
/// the result document it writes on completion.
pub trait Store {
    /// Store the value at its configured sink.
    fn store(&self) -> Result<(), crate::err::StoreErr>;
}

/// The process-wide path configuration, populated once at startup from
/// the environment and immutable afterwards.
#[derive(Debug)]
pub struct RunnerConfig {
    /// The root directory of the analyzed code; stripped from each
    /// reported path.
    pub code_path: String,
    /// Where the job configuration is read from.
    pub analysis_config_path: String,
    /// Where the result document is written.
    pub analysis_result_path: String,
    /// Reserved for the autofix configuration.
    pub autofix_config_path: String,
    /// Reserved for the autofix result.
    pub autofix_result_path: String,
}

impl Default for RunnerConfig {
    /// The documented defaults, used when the environment sets nothing.
    fn default() -> (r: RunnerConfig)
        ensures
            r.code_path@ == "/code"@,
            r.analysis_config_path@ == "/toolbox/analysis_config.json"@,
            r.analysis_result_path@ == "/toolbox/analysis_results.json"@,
            r.autofix_config_path@ == "/toolbox/autofix_config.json"@,
            r.autofix_result_path@ == "/toolbox/autofix_results.json"@,
    {
        RunnerConfig {
            code_path: "/code".to_owned(),
            analysis_config_path: "/toolbox/analysis_config.json".to_owned(),
            analysis_result_path: "/toolbox/analysis_results.json".to_owned(),
            autofix_config_path: "/toolbox/autofix_config.json".to_owned(),
            autofix_result_path: "/toolbox/autofix_results.json".to_owned(),
        }
    }
}

/// The job configuration read at startup: the files to analyze plus
/// auxiliary lists that this runner accepts but does not act on.
#[derive(Debug)]
pub struct AnalyzerConfig {
    /// Absolute paths of the files to analyze.
    pub files: Vec<String>,
    /// Glob patterns of files to exclude; not acted on here.
    pub exclude_patterns: Option<Vec<String>>,
    /// Paths of files to exclude; not acted on here.
    pub exclude_files: Vec<String>,
    /// Glob patterns of test files; not acted on here.
    pub test_patterns: Option<Vec<String>>,
    /// Paths of test files; not acted on here.
    pub test_files: Vec<String>,
    /// Metadata about the analyzer issuing this job.
    pub analyzer_meta: AnalyzerMeta,
}

/// Metadata about the analyzer a job is for.
#[derive(Debug)]
pub struct AnalyzerMeta {
    /// The analyzer's name.
    pub name: String,
    /// Whether the analyzer is enabled.
    pub enabled: bool,
    /// Free-form key-value metadata.
    pub meta: Vec<(String, String)>,
}

impl Default for AnalyzerMeta {
    /// An empty, disabled analyzer description.
    fn default() -> (r: AnalyzerMeta)
        ensures
            r.name@ == Seq::<char>::empty(),
            !r.enabled,
            r.meta@ == Seq::<(String, String)>::empty(),
    {
        AnalyzerMeta { name: String::new(), enabled: false, meta: Vec::new() }
    }
}

/// A 1-based line/column position on the wire.
#[derive(Debug, Clone, Copy, PartialEq, Eq, Structural)]
pub struct Position {
    /// 1-based line number.
    pub line: usize,
    /// 1-based column number.
    pub column: usize,
}

/// The extent of an issue on the wire, as 1-based positions.
#[derive(Debug, Clone, Copy, PartialEq, Eq, Structural)]
pub struct Span {
    /// Where the issue begins.
    pub begin: Position,
    /// Where the issue ends.
    pub end: Position,
}

/// Where an issue was found: a code-root-relative path and a span.
#[derive(Debug)]
pub struct Location {
    /// The file's path, relative to the configured code root.
    pub path: String,
    /// The extent of the issue within the file.
    pub position: Span,
}

/// The externally serialized form of an occurrence.
#[derive(Debug)]
pub struct Issue {
    /// The stable code of the lint raised.
    pub code: &'static str,
    /// The occurrence's message.
    pub message: String,
    /// Where the occurrence was found.
    pub location: Location,
}

/// A metric reported alongside issues.
#[derive(Debug)]
pub struct Metric {
    /// The stable code of the metric.
    pub code: String,
    /// The metric's value per namespace.
    pub namespaces: Vec<Namespace>,
}

/// One namespaced value of a metric.
#[derive(Debug)]
pub struct Namespace {
    /// The namespace key.
    pub key: String,
    /// The value in that namespace.
    pub value: u64,
}

/// An error reported in the result envelope.
#[derive(Debug)]
pub struct Error {
    /// A human-readable message.
    pub hmessage: String,
    /// The error's severity level.
    pub level: u64,
}

/// The result envelope written when a run completes.
#[derive(Debug)]
pub struct AnalysisResult {
    /// Every issue found, in per-file order.
    pub issues: Vec<Issue>,
    /// Metrics, omitted from the wire when empty.
    pub metrics: Vec<Metric>,
    /// Whether the run passed.
    pub is_passed: bool,
    /// Errors encountered during the run.
    pub errors: Vec<Error>,
}

impl Default for AnalysisResult {
    /// An empty result: no issues, no metrics, not passed, no errors.
    fn default() -> (r: AnalysisResult)
        ensures
            r.issues@ == Seq::<Issue>::empty(),
            r.metrics@ == Seq::<Metric>::empty(),
            !r.is_passed,
            r.errors@ == Seq::<Error>::empty(),
    {
        AnalysisResult {
            issues: Vec::new(),
            metrics: Vec::new(),
            is_passed: false,
            errors: Vec::new(),
        }
    }
}

/// The result envelope holding exactly `issues` and nothing else.
pub fn analysis_result_from_issues(issues: Vec<Issue>) -> (r: AnalysisResult)
    ensures
        r.issues@ == issues@,
        r.metrics@ == Seq::<Metric>::empty(),
        !r.is_passed,
        r.errors@ == Seq::<Error>::empty(),
{
    AnalysisResult { issues, metrics: Vec::new(), is_passed: false, errors: Vec::new() }
}

/// `p` with the path prefix `pre` stripped, at a component boundary: the
/// whole of `p` when the two are equal; otherwise the remainder after
/// `pre` and one separating slash. `None` when `pre` is not a prefix of
/// `p` at a component boundary.
pub open spec fn strip_path_spec(p: Seq<u8>, pre: Seq<u8>) -> Option<Seq<u8>> {
    if p == pre {
        Some(Seq::empty())
    } else if p.len() > pre.len() && p.subrange(0, pre.len() as int) == pre && (pre.len() == 0
        || p[pre.len() as int] == 47 || pre[pre.len() - 1] == 47) {
        let rest = p.subrange(pre.len() as int, p.len() as int);
        if rest.len() > 0 && rest[0] == 47 {
            Some(rest.drop_first())
        } else {
            Some(rest)
        }
    } else {
        None
    }
}

/// Strip the code-root prefix `code_path` from the path `p`, at a
/// component boundary. Succeeds if and only if `code_path` is such a
/// prefix of `p`.
pub fn strip_path(p: &str, code_path: &str) -> (r: Option<String>)
    ensures
        ({
            let sp = strip_path_spec(encode_utf8(p@), encode_utf8(code_path@));
            match r {
                Some(s) => sp matches Some(b) && encode_utf8(s@) == b,
                None => sp is None || !valid_utf8(sp->0),
            }
        }),
{
    let pb = p.as_bytes();
    let cb = code_path.as_bytes();
    let n = cb.len();
    if pb.len() < n {
        assert(strip_path_spec(pb@, cb@) is None) by {
            assert(pb@ != cb@);
        }
        return None;
    }
    let head = &pb[0..n];
    if !crate::text::bytes_eq(head, cb) {
        assert(head@ =~= pb@.subrange(0, n as int));
        assert(strip_path_spec(pb@, cb@) is None) by {
            if pb@ == cb@ {
                assert(pb@.subrange(0, n as int) =~= cb@);
            }
        }
        return None;
    }
    assert(head@ =~= pb@.subrange(0, n as int));
    if pb.len() == n {
        proof {
            assert(pb@ =~= cb@);
        }
        let empty: Vec<u8> = Vec::new();
        proof {
            assert(empty@ =~= Seq::<u8>::empty());
        }
        let r = string_from_utf8(empty);
        return match r {
            Some(s) => Some(s),
            None => None,
        };
    }
    // pb is strictly longer than cb and starts with it
    let boundary = n == 0 || pb[n] == 47u8 || cb[n - 1] == 47u8;
    if !boundary {
        assert(strip_path_spec(pb@, cb@) is None) by {
            assert(pb@ != cb@) by {
                assert(pb@.len() != cb@.len());
            }
        }
        return None;
    }
    let ghost rest = pb@.subrange(n as int, pb@.len() as int);
    let ghost expected = if rest.len() > 0 && rest[0] == 47 {
        rest.drop_first()
    } else {
        rest
    };
    let mut out: Vec<u8> = Vec::new();
    if pb[n] == 47u8 {
        push_range(&mut out, pb, n + 1, pb.len());
        assert(out@ =~= expected);
    } else {
        push_range(&mut out, pb, n, pb.len());
        assert(out@ =~= expected);
    }
    proof {
        assert(pb@ != cb@) by {
            assert(pb@.len() != cb@.len());
        }
        assert(strip_path_spec(pb@, cb@) == Some(expected));
    }
    match string_from_utf8(out) {
        Some(s) => Some(s),
        None => None,
    }
}

/// Convert an occurrence into its wire form: the path is taken as
/// already stripped, and the 0-based points become 1-based.
pub fn issue_from_occurrence(o: &Occurrence, path: String) -> (i: Issue)
    requires
        o.at.wire_safe(),
    ensures
        i.code == o.lint.code,
        i.message == o.message,
        i.location.path == path,
        i.location.position.begin.line == o.at.start_point.row + 1,
        i.location.position.begin.column == o.at.start_point.column + 1,
        i.location.position.end.line == o.at.end_point.row + 1,
        i.location.position.end.column == o.at.end_point.column + 1,
        i.location.position.begin.line >= 1 && i.location.position.begin.column >= 1,
        i.location.position.end.line >= 1 && i.location.position.end.column >= 1,
{
    Issue {
        code: o.lint.code,
        message: o.message.clone(),
        location: Location {
            path,
            position: Span {
                begin: Position {
                    line: o.at.start_point.row + 1,
                    column: o.at.start_point.column + 1,
                },
                end: Position { line: o.at.end_point.row + 1, column: o.at.end_point.column + 1 },
            },
        },
    }
}

} // verus!