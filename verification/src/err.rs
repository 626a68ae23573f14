//! The error taxonomy: what can go wrong when loading a job, analyzing a
//! file, or storing the result.

use vstd::prelude::*;

use crate::injection::InjectionErr;

verus! {

#[verifier::external_type_specification]
#[verifier::external_body]
pub struct ExIoError(std::io::Error);

#[verifier::external_type_specification]
#[verifier::external_body]
pub struct ExStripPrefixError(std::path::StripPrefixError);

/// Errors of one file's analysis; they skip the file, not the run.
#[derive(Debug)]
pub enum AnalysisErr {
    /// The file could not be read.
    Read(std::io::Error),
    /// The file's path does not lie under the configured code root.
    Path(std::path::StripPrefixError),
    /// The outer grammar could not parse the file.
    Parse,
    /// The scope query does not compile under the outer grammar.
    Query(tree_sitter::QueryError),
}

/// Errors of the runner.
#[non_exhaustive]
#[derive(Debug)]
pub enum RunnerErr {
    /// An analysis error severe enough to surface.
    Analysis(AnalysisErr),
}

/// Errors of loading the job configuration.
#[derive(Debug)]
pub enum LoadErr {
    /// The configuration file could not be read.
    Read(std::io::Error),
    /// The configuration file is not valid JSON against the schema;
    /// the deserializer's message.
    Deserialize(String),
}

/// Errors of storing the result document.
#[derive(Debug)]
pub enum StoreErr {
    /// The result file could not be written.
    Write(std::io::Error),
    /// The result could not be serialized; the serializer's message.
    Serialize(String),
}

/// Errors at the job boundary: loading the configuration or storing the
/// result. Either is fatal for the run.
#[derive(Debug)]
pub enum MarvinErr {
    /// Loading the job configuration failed.
    Load(LoadErr),
    /// Storing the result failed.
    Store(StoreErr),
}

/// Every error a run of the linter can end with.
#[non_exhaustive]
#[derive(Debug)]
pub enum GlobstarErr {
    /// A job-boundary error.
    Marvin(MarvinErr),
    /// A runner error.
    Runner(RunnerErr),
    /// A query failed to compile.
    Query(tree_sitter::QueryError),
    /// The ignore pattern set does not compile; the regex library's
    /// message.
    Ignore(String),
    /// An injection was misconfigured.
    Injection(InjectionErr),
}

} // verus!
