use vstd::prelude::*;
use vstd::string::*;

use crate::errors::FetchError;

verus! {

/// What `regex` captures when a pattern matches a text: one entry per group,
/// group 0 being the whole match; none when the pattern is not valid or does
/// not match.
pub uninterp spec fn regex_captures_of(pattern: Seq<char>, text: Seq<char>) -> Option<
    Seq<Option<Seq<char>>>,
>;

pub open spec fn captures_view(c: Option<Vec<Option<String>>>) -> Option<Seq<Option<Seq<char>>>> {
    match c {
        Some(v) => Some(
            v@.map_values(
                |g: Option<String>|
                    match g {
                        Some(s) => Some(s@),
                        None => None,
                    },
            ),
        ),
        None => None,
    }
}

/// Relies on `regex::Regex::new` and `regex::Regex::captures`: the groups of
/// the first match of the pattern in the text.
#[verifier::external_body]
fn regex_captures(pattern: &str, text: &str) -> (r: Option<Vec<Option<String>>>)
    ensures
        captures_view(r) == regex_captures_of(pattern@, text@),
{
    let re = regex::Regex::new(pattern).ok()?;
    re.captures(text).map(|c| c.iter().map(|m| m.map(|m| m.as_str().to_string())).collect())
}

/// The source-hosting services whose repositories can name a crate.
#[derive(Debug, Clone, Copy, PartialEq, Eq)]
pub enum RepoHost {
    GitHub,
    GitLab,
}

pub open spec fn host_pattern(host: RepoHost) -> Seq<char> {
    match host {
        RepoHost::GitHub => "^https://github.com/([-_0-9a-zA-Z]+)/([-_0-9a-zA-Z]+)(/|.git)?$"@,
        RepoHost::GitLab => "^https://gitlab.com/([-_0-9a-zA-Z]+)/([-_0-9a-zA-Z]+)(/|.git)?$"@,
    }
}

/// Where the manifest of a repository's `master` branch can be read raw.
pub open spec fn raw_manifest_url(host: RepoHost, user: Seq<char>, repo: Seq<char>) -> Seq<char> {
    match host {
        RepoHost::GitHub => "https://raw.githubusercontent.com/"@ + user + "/"@ + repo
            + "/master/Cargo.toml"@,
        RepoHost::GitLab => "https://gitlab.com/"@ + user + "/"@ + repo + "/raw/master/Cargo.toml"@,
    }
}

impl RepoHost {
    /// The pattern a repository URL of the host matches, with the user and
    /// the repository as groups 1 and 2.
    pub fn pattern(&self) -> (r: &'static str)
        ensures
            r@ == host_pattern(*self),
    {
        match self {
            RepoHost::GitHub => "^https://github.com/([-_0-9a-zA-Z]+)/([-_0-9a-zA-Z]+)(/|.git)?$",
            RepoHost::GitLab => "^https://gitlab.com/([-_0-9a-zA-Z]+)/([-_0-9a-zA-Z]+)(/|.git)?$",
        }
    }

    /// The raw manifest URL for a user's repository on the host.
    pub fn manifest_url(&self, user: &str, repo: &str) -> (r: String)
        ensures
            r@ == raw_manifest_url(*self, user@, repo@),
    {
        match self {
            RepoHost::GitHub => "https://raw.githubusercontent.com/".to_owned().concat(user).concat(
                "/",
            ).concat(repo).concat("/master/Cargo.toml"),
            RepoHost::GitLab => "https://gitlab.com/".to_owned().concat(user).concat("/").concat(
                repo,
            ).concat("/raw/master/Cargo.toml"),
        }
    }
}

/// What the groups of a repository URL's match give: the raw manifest URL
/// when the user and the repository were captured.
pub open spec fn manifest_url_of_captures(host: RepoHost, caps: Option<Seq<Option<Seq<char>>>>) -> Result<
    Seq<char>,
    FetchError,
> {
    match caps {
        None => Err(FetchError::UnableToParseRepoUrl),
        Some(c) => if c.len() > 2 && c[1] is Some && c[2] is Some {
            Ok(raw_manifest_url(host, c[1]->Some_0, c[2]->Some_0))
        } else {
            Err(FetchError::RepoUrlIncomplete)
        },
    }
}

pub open spec fn result_text_view(r: Result<String, FetchError>) -> Result<Seq<char>, FetchError> {
    match r {
        Ok(s) => Ok(s@),
        Err(e) => Err(e),
    }
}

/// The raw manifest URL from the groups that matching a repository URL gave.
pub fn manifest_url_from_captures(host: RepoHost, caps: Option<Vec<Option<String>>>) -> (r: Result<
    String,
    FetchError,
>)
    ensures
        result_text_view(r) == manifest_url_of_captures(host, captures_view(caps)),
{
    match caps {
        None => Err(FetchError::UnableToParseRepoUrl),
        Some(c) => {
            let ghost cv = captures_view(Some(c))->Some_0;
            if c.len() > 2 {
                assert(cv[1] == match c@[1] {
                    Some(s) => Some(s@),
                    None => None::<Seq<char>>,
                });
                assert(cv[2] == match c@[2] {
                    Some(s) => Some(s@),
                    None => None::<Seq<char>>,
                });
                match (&c[1], &c[2]) {
                    (Some(user), Some(repo)) => Ok(host.manifest_url(user.as_str(), repo.as_str())),
                    _ => Err(FetchError::RepoUrlIncomplete),
                }
            } else {
                Err(FetchError::RepoUrlIncomplete)
            }
        },
    }
}

/// The raw manifest URL of a repository on the host, read from its URL.
pub fn repo_manifest_url(host: RepoHost, repo: &str) -> (r: Result<String, FetchError>)
    ensures
        result_text_view(r) == manifest_url_of_captures(
            host,
            regex_captures_of(host_pattern(host), repo@),
        ),
{
    let caps = regex_captures(host.pattern(), repo);
    manifest_url_from_captures(host, caps)
}

/// How long fetching a manifest may take, in seconds.
pub const DEFAULT_TIMEOUT_SECS: u64 = 10;

/// The time limit of a manifest fetch, in seconds.
pub fn get_default_timeout() -> (r: u64)
    ensures
        r == 10,
{
    DEFAULT_TIMEOUT_SECS
}

/// What `toml_edit` reads from a manifest: none when it is not valid TOML,
/// else the `package.name` string if there is one.
pub uninterp spec fn toml_package_name(text: Seq<char>) -> Option<Option<Seq<char>>>;

pub open spec fn nested_text_view(o: Option<Option<String>>) -> Option<Option<Seq<char>>> {
    match o {
        Some(Some(s)) => Some(Some(s@)),
        Some(None) => Some(None),
        None => None,
    }
}

/// Relies on parsing a `toml_edit::DocumentMut` and on `Item::get` and
/// `Item::as_str`: whether the text is TOML, and its `package.name`.
#[verifier::external_body]
fn manifest_package_name(text: &str) -> (r: Option<Option<String>>)
    ensures
        nested_text_view(r) == toml_package_name(text@),
{
    let doc = text.parse::<toml_edit::DocumentMut>().ok()?;
    Some(doc.get("package").and_then(|p| p.get("name")).and_then(|n| n.as_str()).map(|n| n.to_string()))
}

/// The package name that a fetched manifest declares.
pub fn get_name_from_manifest(text: &str) -> (r: Result<String, FetchError>)
    ensures
        match toml_package_name(text@) {
            Some(Some(n)) => r is Ok && r->Ok_0@ == n,
            _ => r == Err::<String, FetchError>(FetchError::ParseCargoToml),
        },
{
    match manifest_package_name(text) {
        Some(Some(n)) => Ok(n),
        _ => Err(FetchError::ParseCargoToml),
    }
}

/// The package name that the manifest of a local project declares, given the
/// manifest's text, or `None` when it could not be read.
pub fn get_crate_name_from_path(manifest_text: Option<&str>) -> (r: Result<String, FetchError>)
    ensures
        match manifest_text {
            None => r == Err::<String, FetchError>(FetchError::UnableToOpenLocalManifest),
            Some(t) => match toml_package_name(t@) {
                None => r == Err::<String, FetchError>(FetchError::UnableToOpenLocalManifest),
                Some(None) => r == Err::<String, FetchError>(FetchError::ParseCargoToml),
                Some(Some(n)) => r is Ok && r->Ok_0@ == n,
            },
        },
{
    match manifest_text {
        None => Err(FetchError::UnableToOpenLocalManifest),
        Some(t) => match manifest_package_name(t) {
            None => Err(FetchError::UnableToOpenLocalManifest),
            Some(None) => Err(FetchError::ParseCargoToml),
            Some(Some(n)) => Ok(n),
        },
    }
}

/// Where a directory's manifest stands: `Cargo.toml` joined to the directory
/// as a path is joined, with one `/` between them.
pub open spec fn manifest_path_spec(dir: Seq<char>) -> Seq<char> {
    if dir.len() == 0 {
        "Cargo.toml"@
    } else if dir.last() == '/' {
        dir + "Cargo.toml"@
    } else {
        dir + "/Cargo.toml"@
    }
}

/// The path of the manifest in a project directory.
pub fn manifest_path(dir: &str) -> (r: String)
    ensures
        r@ == manifest_path_spec(dir@),
{
    let n = dir.unicode_len();
    if n == 0 {
        "Cargo.toml".to_owned()
    } else if dir.get_char(n - 1) == '/' {
        dir.to_owned().concat("Cargo.toml")
    } else {
        dir.to_owned().concat("/Cargo.toml")
    }
}

} // verus!
