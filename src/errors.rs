use vstd::prelude::*;

verus! {

/// What can go wrong while looking up a crate or a crate's name.
#[derive(Debug, Clone, PartialEq, Eq)]
pub enum FetchError {
    /// The requested crate name is empty.
    EmptyCrateName,
    /// No index entry exists under any spelling of the name.
    NoCrate(String),
    /// An index entry is not UTF-8 or holds a line that is not a version record.
    InvalidSummaryJson,
    /// Every version was filtered out (yanked, or a prerelease when those are not allowed).
    NoVersionsAvailable,
    /// The local mirror has no branch under `refs/remotes/origin/`.
    MissingRegistryCheckout(String),
    /// A reference or file name is not valid text.
    NonUnicodeGitPath,
    /// The repository layer failed; the text describes it.
    Git(String),
    /// The outside fetch or a file access failed; the text describes it.
    Io(String),
    /// A manifest could not be parsed, or has no `package.name`.
    ParseCargoToml,
    /// A local manifest could not be opened or read.
    UnableToOpenLocalManifest,
    /// The repository URL does not match the host's pattern.
    UnableToParseRepoUrl,
    /// The repository URL matched without a user and a repository part.
    RepoUrlIncomplete,
    /// The manifest could not be fetched; the text describes it.
    HttpRequestFailed(String),
}

} // verus!
