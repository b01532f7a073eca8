//! Registry index lookup and version selection for adding the latest
//! version of a dependency, and recovery of a crate's name from a manifest.
pub mod errors;
pub mod index_path;
pub mod lookup;
pub mod registry_git;
pub mod repo_name;
pub mod summary;
pub mod text;
pub mod version;

pub use errors::FetchError;
pub use index_path::{fuzzy_names, gen_fuzzy_crate_names, summary_raw_path};
pub use lookup::{index_paths, latest_from_index, simulated_dependency, versions_from_index};
pub use registry_git::{
    fetch_args, fetch_env_removed, fetch_refspec, get_checkout_name, plan_sync, remote_ref, SyncStep,
};
pub use repo_name::{
    get_crate_name_from_path, get_default_timeout, get_name_from_manifest, manifest_path,
    manifest_url_from_captures,
    repo_manifest_url, RepoHost,
};
pub use summary::{parse_summary, read_latest_version, version_is_stable, CrateVersion, Dependency};
pub use version::{compare_versions, Identifier, Version};
