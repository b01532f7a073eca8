use vstd::prelude::*;
use vstd::string::*;

use crate::errors::FetchError;

verus! {

/// The branch a local index mirror tracks, from the first entry under its
/// `refs/remotes/origin/` directory: `None` when that directory is empty,
/// `Some(None)` when the entry's name is not valid text.
pub fn get_checkout_name(first_entry: Option<Option<String>>, checkout_dir: &str) -> (r: Result<
    String,
    FetchError,
>)
    ensures
        match first_entry {
            None => r matches Err(FetchError::MissingRegistryCheckout(d)) && d@ == checkout_dir@,
            Some(None) => r == Err::<String, FetchError>(FetchError::NonUnicodeGitPath),
            Some(Some(name)) => r is Ok && r->Ok_0@ == name@,
        },
{
    match first_entry {
        None => Err(FetchError::MissingRegistryCheckout(checkout_dir.to_owned())),
        Some(None) => Err(FetchError::NonUnicodeGitPath),
        Some(Some(name)) => Ok(name),
    }
}

/// The reference that holds the fetched tip of `branch`.
pub fn remote_ref(branch: &str) -> (r: String)
    ensures
        r@ == "refs/remotes/origin/"@ + branch@,
{
    let r = "refs/remotes/origin/".to_owned().concat(branch);
    proof {
        reveal_strlit("refs/remotes/origin/");
    }
    r
}

/// The refspec that fetches `branch` into its remote-tracking reference.
pub fn fetch_refspec(branch: &str) -> (r: String)
    ensures
        r@ == "refs/heads/"@ + branch@ + ":refs/remotes/origin/"@ + branch@,
{
    let r = "refs/heads/".to_owned().concat(branch).concat(":refs/remotes/origin/").concat(branch);
    proof {
        reveal_strlit("refs/heads/");
        reveal_strlit(":refs/remotes/origin/");
    }
    r
}

pub open spec fn fetch_args_spec(url: Seq<char>, refspec: Seq<char>) -> Seq<Seq<char>> {
    seq!["fetch"@, "--tags"@, "--force"@, "--update-head-ok"@, url, refspec]
}

/// The arguments of the `git` command that updates a mirror: all tags,
/// forced updates, and updating the checked-out branch allowed.
pub fn fetch_args(url: &str, refspec: &str) -> (r: Vec<String>)
    ensures
        r@.len() == 6,
        forall|i: int| 0 <= i < 6 ==> #[trigger] r@[i]@ == fetch_args_spec(url@, refspec@)[i],
{
    let mut v: Vec<String> = Vec::new();
    v.push("fetch".to_owned());
    v.push("--tags".to_owned());
    v.push("--force".to_owned());
    v.push("--update-head-ok".to_owned());
    v.push(url.to_owned());
    v.push(refspec.to_owned());
    v
}

pub open spec fn fetch_env_removed_spec() -> Seq<Seq<char>> {
    seq![
        "GIT_DIR"@,
        "GIT_WORK_TREE"@,
        "GIT_INDEX_FILE"@,
        "GIT_OBJECT_DIRECTORY"@,
        "GIT_ALTERNATE_OBJECT_DIRECTORIES"@,
    ]
}

/// The environment variables removed before the fetch, so that it acts on
/// the mirror and not on a repository that a parent process points at.
pub fn fetch_env_removed() -> (r: Vec<String>)
    ensures
        r@.len() == 5,
        forall|i: int| 0 <= i < 5 ==> #[trigger] r@[i]@ == fetch_env_removed_spec()[i],
{
    let mut v: Vec<String> = Vec::new();
    v.push("GIT_DIR".to_owned());
    v.push("GIT_WORK_TREE".to_owned());
    v.push("GIT_INDEX_FILE".to_owned());
    v.push("GIT_OBJECT_DIRECTORY".to_owned());
    v.push("GIT_ALTERNATE_OBJECT_DIRECTORIES".to_owned());
    v
}

/// What bringing a mirror up to date takes.
#[derive(Debug, Clone, Copy, PartialEq, Eq)]
pub enum SyncStep {
    /// No mirror yet: create an empty bare repository.
    Initialize,
    /// A mirror exists: fetch into it.
    Update,
}

/// Initialize when no mirror exists, else update it.
pub fn plan_sync(mirror_exists: bool) -> (r: SyncStep)
    ensures
        r == (if mirror_exists {
            SyncStep::Update
        } else {
            SyncStep::Initialize
        }),
{
    if mirror_exists {
        SyncStep::Update
    } else {
        SyncStep::Initialize
    }
}

impl SyncStep {
    /// The word reported for the step.
    pub fn label(&self) -> (r: String)
        ensures
            r@ == (match self {
                SyncStep::Initialize => "Initializing"@,
                SyncStep::Update => "Updating"@,
            }),
    {
        match self {
            SyncStep::Initialize => "Initializing".to_owned(),
            SyncStep::Update => "Updating".to_owned(),
        }
    }
}

} // verus!
