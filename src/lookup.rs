use vstd::prelude::*;
use vstd::string::*;
use vstd::utf8::*;

use crate::errors::FetchError;
use crate::index_path::{fuzzy_names, fuzzy_order, lemma_fuzzy_order_lengths, path_for, summary_raw_path};
use crate::summary::{
    any_eligible, lines_from, parse_summary, read_latest_version, records_of_lines, records_view,
    selected_at, CrateVersion, Dependency,
};
use crate::version::{version_text, VersionModel};

verus! {

/// The paths inside the index tree to try for a crate, in order: one for each
/// spelling of its name, the exact one first.
pub fn index_paths(crate_name: &str) -> (r: Vec<String>)
    requires
        crate_name@.len() > 0,
    ensures
        r@.len() == fuzzy_order(crate_name@).len(),
        forall|i: int|
            0 <= i < r@.len() ==> #[trigger] r@[i]@ == path_for(fuzzy_order(crate_name@)[i]),
{
    let names = fuzzy_names(crate_name);
    proof {
        lemma_fuzzy_order_lengths(crate_name@);
    }
    let mut out: Vec<String> = Vec::new();
    let mut i: usize = 0;
    while i < names.len()
        invariant
            i <= names@.len(),
            crate_name@.len() > 0,
            names@.len() == fuzzy_order(crate_name@).len(),
            forall|j: int| 0 <= j < names@.len() ==> #[trigger] names@[j]@ == fuzzy_order(crate_name@)[j],
            forall|j: int|
                0 <= j < fuzzy_order(crate_name@).len() ==> (#[trigger] fuzzy_order(crate_name@)[j]).len()
                    == crate_name@.len(),
            out@.len() == i,
            forall|j: int| 0 <= j < i ==> #[trigger] out@[j]@ == path_for(fuzzy_order(crate_name@)[j]),
        decreases names.len() - i,
    {
        assert(names@[i as int]@ == fuzzy_order(crate_name@)[i as int]);
        out.push(summary_raw_path(names[i].as_str()));
        i = i + 1;
    }
    out
}

/// The records that an index entry holds: none when it is not UTF-8 or a
/// non-empty line is not a version record.
pub open spec fn entry_records(entry: Seq<u8>) -> Option<Seq<(Seq<char>, VersionModel, bool)>> {
    if valid_utf8(entry) {
        records_of_lines(lines_from(decode_utf8(entry), 0))
    } else {
        None
    }
}

/// Relies on `String::from_utf8`: it succeeds exactly on valid UTF-8 and then
/// holds the decoded characters.
#[verifier::external_body]
fn decode_utf8_text(bytes: &[u8]) -> (r: Option<String>)
    ensures
        match r {
            Some(s) => valid_utf8(bytes@) && s@ == decode_utf8(bytes@),
            None => !valid_utf8(bytes@),
        },
{
    String::from_utf8(bytes.to_vec()).ok()
}

/// The version records of a crate from the index entry found for it, if one was.
pub fn versions_from_index(crate_name: &str, entry: Option<&[u8]>) -> (r: Result<
    Vec<CrateVersion>,
    FetchError,
>)
    ensures
        match entry {
            None => r matches Err(FetchError::NoCrate(n)) && n@ == crate_name@,
            Some(b) => match entry_records(b@) {
                Some(rs) => r is Ok && records_view(r->Ok_0@) == rs,
                None => r == Err::<Vec<CrateVersion>, FetchError>(FetchError::InvalidSummaryJson),
            },
        },
{
    match entry {
        None => Err(FetchError::NoCrate(crate_name.to_owned())),
        Some(bytes) => match decode_utf8_text(bytes) {
            None => Err(FetchError::InvalidSummaryJson),
            Some(text) => parse_summary(text.as_str()),
        },
    }
}

/// The latest acceptable version of a crate from the index entry found for
/// it: the name must not be empty, the entry must be there and well formed,
/// and some version must be neither yanked nor an unwanted prerelease.
pub fn latest_from_index(crate_name: &str, flag_allow_prerelease: bool, entry: Option<&[u8]>) -> (r:
    Result<Dependency, FetchError>)
    ensures
        crate_name@.len() == 0 ==> r == Err::<Dependency, FetchError>(FetchError::EmptyCrateName),
        crate_name@.len() > 0 && entry is None ==> (r matches Err(FetchError::NoCrate(n)) && n@
            == crate_name@),
        crate_name@.len() > 0 && entry is Some ==> match entry_records(entry->Some_0@) {
            None => r == Err::<Dependency, FetchError>(FetchError::InvalidSummaryJson),
            Some(rs) => {
                &&& r is Err <==> !any_eligible(rs, flag_allow_prerelease)
                &&& r is Err ==> r == Err::<Dependency, FetchError>(FetchError::NoVersionsAvailable)
                &&& r is Ok ==> exists|i: int|
                    selected_at(rs, flag_allow_prerelease, i) && r->Ok_0@ == (
                        rs[i].0,
                        Some(version_text(rs[i].1)),
                    )
            },
        },
{
    if crate_name.unicode_len() == 0 {
        return Err(FetchError::EmptyCrateName);
    }
    let versions = versions_from_index(crate_name, entry)?;
    let r = read_latest_version(versions.as_slice(), flag_allow_prerelease);
    proof {
        let rs = records_view(versions@);
        if r is Ok {
            let i = choose|i: int|
                selected_at(rs, flag_allow_prerelease, i) && r->Ok_0@ == (
                    versions@[i].name@,
                    Some(version_text(versions@[i].version@)),
                );
            assert(rs[i] == versions@[i]@);
        }
    }
    r
}

/// The text a simulated registry gives as the version of a crate: fixed
/// versions for two special names, a marker built from the name otherwise.
pub open spec fn simulated_version(crate_name: Seq<char>, flag_allow_prerelease: bool) -> Seq<char> {
    if flag_allow_prerelease {
        crate_name + "--PRERELEASE_VERSION_TEST"@
    } else if crate_name == "test_breaking"@ {
        "0.2.0"@
    } else if crate_name == "test_nonbreaking"@ {
        "0.1.1"@
    } else {
        crate_name + "--CURRENT_VERSION_TEST"@
    }
}

/// The dependency a simulated registry resolves, without touching any index.
pub fn simulated_dependency(crate_name: &str, flag_allow_prerelease: bool) -> (r: Dependency)
    ensures
        r@ == (crate_name@, Some(simulated_version(crate_name@, flag_allow_prerelease))),
{
    let name = crate_name.to_owned();
    let version = if flag_allow_prerelease {
        name.clone().concat("--PRERELEASE_VERSION_TEST")
    } else if name == "test_breaking".to_owned() {
        "0.2.0".to_owned()
    } else if name == "test_nonbreaking".to_owned() {
        "0.1.1".to_owned()
    } else {
        name.clone().concat("--CURRENT_VERSION_TEST")
    };
    proof {
        reveal_strlit("--PRERELEASE_VERSION_TEST");
        reveal_strlit("test_breaking");
        reveal_strlit("test_nonbreaking");
        reveal_strlit("0.2.0");
        reveal_strlit("0.1.1");
        reveal_strlit("--CURRENT_VERSION_TEST");
    }
    Dependency::new(crate_name).set_version(version.as_str())
}

} // verus!
