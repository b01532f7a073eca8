use vstd::prelude::*;
use vstd::string::*;

use crate::errors::FetchError;
use crate::version::{
    cmp_version, compare_versions, is_prerelease, lemma_cmp_version, parse_version, semver_parse,
    version_text, Version, VersionModel,
};

verus! {

/// One published version of a crate, as one line of its index file states it.
#[derive(Debug, Clone)]
pub struct CrateVersion {
    pub name: String,
    pub version: Version,
    pub yanked: bool,
}

impl View for CrateVersion {
    type V = (Seq<char>, VersionModel, bool);

    open spec fn view(&self) -> (Seq<char>, VersionModel, bool) {
        (self.name@, self.version@, self.yanked)
    }
}

/// A dependency on a crate, with the version requirement once it is known.
#[derive(Debug, Clone, PartialEq, Eq)]
pub struct Dependency {
    pub name: String,
    pub version: Option<String>,
}

pub open spec fn text_option_view(o: Option<String>) -> Option<Seq<char>> {
    match o {
        Some(s) => Some(s@),
        None => None,
    }
}

impl View for Dependency {
    type V = (Seq<char>, Option<Seq<char>>);

    open spec fn view(&self) -> (Seq<char>, Option<Seq<char>>) {
        (self.name@, text_option_view(self.version))
    }
}

impl Dependency {
    /// A dependency on `name` with no version yet.
    pub fn new(name: &str) -> (r: Dependency)
        ensures
            r@ == (name@, None::<Seq<char>>),
    {
        Dependency { name: name.to_owned(), version: None }
    }

    /// The same dependency, requiring `version`.
    pub fn set_version(self, version: &str) -> (r: Dependency)
        ensures
            r@ == (self@.0, Some(version@)),
    {
        Dependency { name: self.name, version: Some(version.to_owned()) }
    }

    /// The version requirement, if one is set.
    pub fn version(&self) -> (r: Option<&str>)
        ensures
            match r {
                Some(v) => self@.1 == Some(v@),
                None => self@.1 is None,
            },
    {
        match &self.version {
            Some(v) => Some(v.as_str()),
            None => None,
        }
    }
}

/// Whether a record may be selected: never when yanked, and a prerelease only
/// when prereleases are allowed.
pub open spec fn eligible(r: (Seq<char>, VersionModel, bool), allow_prerelease: bool) -> bool {
    !r.2 && (allow_prerelease || !is_prerelease(r.1))
}

pub open spec fn any_eligible(recs: Seq<(Seq<char>, VersionModel, bool)>, allow_prerelease: bool) -> bool {
    exists|i: int| 0 <= i < recs.len() && eligible(#[trigger] recs[i], allow_prerelease)
}

/// Record `i` is eligible and no eligible record has a higher version.
pub open spec fn selected_at(
    recs: Seq<(Seq<char>, VersionModel, bool)>,
    allow_prerelease: bool,
    i: int,
) -> bool {
    &&& 0 <= i < recs.len()
    &&& eligible(recs[i], allow_prerelease)
    &&& forall|j: int|
        0 <= j < recs.len() && eligible(#[trigger] recs[j], allow_prerelease) ==> cmp_version(
            recs[j].1,
            recs[i].1,
        ) <= 0
}

pub open spec fn records_view(v: Seq<CrateVersion>) -> Seq<(Seq<char>, VersionModel, bool)> {
    v.map_values(|c: CrateVersion| c@)
}

/// Whether a version is a stable release.
pub fn version_is_stable(version: &CrateVersion) -> (r: bool)
    ensures
        r == !is_prerelease(version.version@),
{
    !version.version.is_prerelease()
}

/// The highest eligible version among the records, named as its record names
/// it; among equal versions the last one wins.
pub fn read_latest_version(versions: &[CrateVersion], flag_allow_prerelease: bool) -> (r: Result<
    Dependency,
    FetchError,
>)
    ensures
        r is Err <==> !any_eligible(records_view(versions@), flag_allow_prerelease),
        r is Err ==> r == Err::<Dependency, FetchError>(FetchError::NoVersionsAvailable),
        r is Ok ==> exists|i: int|
            selected_at(records_view(versions@), flag_allow_prerelease, i) && r->Ok_0@ == (
                versions@[i].name@,
                Some(version_text(versions@[i].version@)),
            ),
{
    let ghost recs = records_view(versions@);
    let mut best: Option<usize> = None;
    let mut i: usize = 0;
    while i < versions.len()
        invariant
            recs == records_view(versions@),
            i <= versions@.len(),
            best is None ==> forall|j: int|
                0 <= j < i ==> !eligible(#[trigger] recs[j], flag_allow_prerelease),
            best is Some ==> best->Some_0 < i && eligible(recs[best->Some_0 as int], flag_allow_prerelease),
            best is Some ==> forall|j: int|
                0 <= j < i && eligible(#[trigger] recs[j], flag_allow_prerelease) ==> cmp_version(
                    recs[j].1,
                    recs[best->Some_0 as int].1,
                ) <= 0,
        decreases versions.len() - i,
    {
        let v = &versions[i];
        assert(recs[i as int] == v@);
        let take = (flag_allow_prerelease || version_is_stable(v)) && !v.yanked;
        assert(take == eligible(recs[i as int], flag_allow_prerelease));
        if take {
            match best {
                None => {
                    proof {
                        lemma_cmp_version(recs[i as int].1, recs[i as int].1, recs[i as int].1);
                    }
                    best = Some(i);
                },
                Some(b) => {
                    let c = compare_versions(&v.version, &versions[b].version);
                    if c >= 0 {
                        proof {
                            assert forall|j: int|
                                0 <= j < i + 1 && eligible(#[trigger] recs[j], flag_allow_prerelease)
                                implies cmp_version(recs[j].1, recs[i as int].1) <= 0 by {
                                lemma_cmp_version(recs[j].1, recs[b as int].1, recs[i as int].1);
                                lemma_cmp_version(recs[i as int].1, recs[b as int].1, recs[j].1);
                                lemma_cmp_version(recs[i as int].1, recs[i as int].1, recs[j].1);
                            }
                        }
                        best = Some(i);
                    } else {
                        proof {
                            lemma_cmp_version(recs[i as int].1, recs[b as int].1, recs[b as int].1);
                        }
                    }
                },
            }
        }
        i = i + 1;
    }
    match best {
        None => Err(FetchError::NoVersionsAvailable),
        Some(b) => {
            let latest = &versions[b];
            let text = latest.version.to_text();
            assert(recs[b as int] == latest@);
            assert(selected_at(recs, flag_allow_prerelease, b as int));
            let dep = Dependency::new(latest.name.as_str()).set_version(text.as_str());
            assert(dep@ == (versions@[b as int].name@, Some(version_text(versions@[b as int].version@))));
            Ok(dep)
        },
    }
}

/// Shuffling the records changes neither whether a version is selected nor
/// which version is: two selections among the same records agree on
/// `major.minor.patch` and the prerelease tag.
pub proof fn lemma_selection_order_independent(
    a: Seq<(Seq<char>, VersionModel, bool)>,
    b: Seq<(Seq<char>, VersionModel, bool)>,
    allow_prerelease: bool,
    i: int,
    j: int,
)
    requires
        forall|x: (Seq<char>, VersionModel, bool)| a.contains(x) <==> b.contains(x),
    ensures
        any_eligible(a, allow_prerelease) <==> any_eligible(b, allow_prerelease),
        selected_at(a, allow_prerelease, i) && selected_at(b, allow_prerelease, j) ==> {
            &&& cmp_version(a[i].1, b[j].1) == 0
            &&& a[i].1.major == b[j].1.major
            &&& a[i].1.minor == b[j].1.minor
            &&& a[i].1.patch == b[j].1.patch
            &&& a[i].1.pre == b[j].1.pre
        },
{
    if any_eligible(a, allow_prerelease) {
        let k = choose|k: int| 0 <= k < a.len() && eligible(#[trigger] a[k], allow_prerelease);
        assert(a.contains(a[k]));
        assert(b.contains(a[k]));
    }
    if any_eligible(b, allow_prerelease) {
        let k = choose|k: int| 0 <= k < b.len() && eligible(#[trigger] b[k], allow_prerelease);
        assert(b.contains(b[k]));
        assert(a.contains(b[k]));
    }
    if selected_at(a, allow_prerelease, i) && selected_at(b, allow_prerelease, j) {
        assert(a.contains(a[i]));
        assert(b.contains(b[j]));
        let ib = choose|x: int| 0 <= x < b.len() && b[x] == a[i];
        let ja = choose|x: int| 0 <= x < a.len() && a[x] == b[j];
        assert(eligible(b[ib], allow_prerelease));
        assert(eligible(a[ja], allow_prerelease));
        lemma_cmp_version(a[i].1, b[j].1, b[j].1);
    }
}

/// The `name`, `vers` and `yanked` fields that `serde_json` reads from a
/// line holding a JSON object, or none.
pub uninterp spec fn json_record_fields(line: Seq<char>) -> Option<(Seq<char>, Seq<char>, bool)>;

/// Relies on `serde_json::from_str` into a `serde_json::Value` and on its
/// accessors `get`, `as_str` and `as_bool`: the three fields of a record,
/// when the line is JSON and they have those types.
#[verifier::external_body]
fn record_fields(line: &str) -> (r: Option<(String, String, bool)>)
    ensures
        match r {
            Some(t) => json_record_fields(line@) == Some((t.0@, t.1@, t.2)),
            None => json_record_fields(line@) is None,
        },
{
    let v: serde_json::Value = serde_json::from_str(line).ok()?;
    let name = v.get("name")?.as_str()?.to_string();
    let vers = v.get("vers")?.as_str()?.to_string();
    let yanked = v.get("yanked")?.as_bool()?;
    Some((name, vers, yanked))
}

/// The record a line states, when its fields are there and `vers` is a version.
pub open spec fn record_of_line(line: Seq<char>) -> Option<(Seq<char>, VersionModel, bool)> {
    match json_record_fields(line) {
        Some(f) => match semver_parse(f.1) {
            Some(v) => Some((f.0, v, f.2)),
            None => None,
        },
        None => None,
    }
}

/// A line that holds something: it must state a record.
pub open spec fn line_ok(l: Seq<char>) -> bool {
    l.len() == 0 || record_of_line(l) is Some
}

proof fn lemma_records_of_lines(ls: Seq<Seq<char>>)
    ensures
        records_of_lines(ls) is Some <==> forall|k: int| 0 <= k < ls.len() ==> line_ok(#[trigger] ls[k]),
        records_of_lines(ls) is Some ==> forall|x: (Seq<char>, VersionModel, bool)|
            records_of_lines(ls)->Some_0.contains(x) <==> exists|k: int|
                0 <= k < ls.len() && (#[trigger] ls[k]).len() > 0 && record_of_line(ls[k]) == Some(x),
    decreases ls.len(),
{
    if ls.len() > 0 {
        let t = ls.drop_first();
        lemma_records_of_lines(t);
        assert forall|k: int| 0 <= k < t.len() implies #[trigger] t[k] == ls[k + 1] by {}
        if records_of_lines(t) is Some && line_ok(ls[0]) {
            let rs = records_of_lines(ls)->Some_0;
            let rt = records_of_lines(t)->Some_0;
            assert forall|x: (Seq<char>, VersionModel, bool)| rs.contains(x) <==> exists|k: int|
                0 <= k < ls.len() && (#[trigger] ls[k]).len() > 0 && record_of_line(ls[k]) == Some(
                    x,
                ) by {
                if rs.contains(x) {
                    if ls[0].len() > 0 && x == record_of_line(ls[0])->Some_0 {
                        assert(ls[0].len() > 0 && record_of_line(ls[0]) == Some(x));
                    } else {
                        if ls[0].len() > 0 {
                            assert(rs == seq![record_of_line(ls[0])->Some_0] + rt);
                            let i = choose|i: int| 0 <= i < rs.len() && rs[i] == x;
                            assert(rt.contains(x)) by {
                                assert(rt[i - 1] == x);
                            }
                        } else {
                            assert(rt.contains(x));
                        }
                        let k = choose|k: int|
                            0 <= k < t.len() && (#[trigger] t[k]).len() > 0 && record_of_line(t[k])
                                == Some(x);
                        assert(ls[k + 1] == t[k]);
                    }
                }
                if exists|k: int|
                    0 <= k < ls.len() && (#[trigger] ls[k]).len() > 0 && record_of_line(ls[k])
                        == Some(x) {
                    let k = choose|k: int|
                        0 <= k < ls.len() && (#[trigger] ls[k]).len() > 0 && record_of_line(ls[k])
                            == Some(x);
                    if k == 0 {
                        assert(rs == seq![x] + rt);
                        assert(rs[0] == x);
                    } else {
                        assert(t[k - 1] == ls[k]);
                        assert(rt.contains(x));
                        let i = choose|i: int| 0 <= i < rt.len() && rt[i] == x;
                        if ls[0].len() > 0 {
                            assert(rs == seq![record_of_line(ls[0])->Some_0] + rt);
                            assert(rs[i + 1] == x);
                        } else {
                            assert(rs[i] == x);
                        }
                    }
                }
            }
        }
        if forall|k: int| 0 <= k < ls.len() ==> line_ok(#[trigger] ls[k]) {
            assert(line_ok(ls[0]));
            assert forall|k: int| 0 <= k < t.len() implies line_ok(#[trigger] t[k]) by {
                assert(line_ok(ls[k + 1]));
            }
        }
        if records_of_lines(ls) is Some {
            assert(records_of_lines(t) is Some);
            assert(line_ok(ls[0]));
            assert forall|k: int| 0 <= k < ls.len() implies line_ok(#[trigger] ls[k]) by {
                if k > 0 {
                    assert(ls[k] == t[k - 1]);
                }
            }
        }
        if records_of_lines(t) is None {
            let k = choose|k: int| 0 <= k < t.len() && !line_ok(#[trigger] t[k]);
            assert(ls[k + 1] == t[k]);
        }
    }
}

/// Shuffling the lines of an index entry changes neither whether it parses
/// nor, when it does, whether a version is selected and which one: it agrees
/// on `major.minor.patch` and the prerelease tag.
pub proof fn lemma_shuffled_lines_select_alike(
    l1: Seq<Seq<char>>,
    l2: Seq<Seq<char>>,
    allow_prerelease: bool,
    i: int,
    j: int,
)
    requires
        forall|l: Seq<char>| l1.contains(l) <==> l2.contains(l),
    ensures
        records_of_lines(l1) is Some <==> records_of_lines(l2) is Some,
        records_of_lines(l1) is Some ==> {
            let a = records_of_lines(l1)->Some_0;
            let b = records_of_lines(l2)->Some_0;
            &&& any_eligible(a, allow_prerelease) <==> any_eligible(b, allow_prerelease)
            &&& selected_at(a, allow_prerelease, i) && selected_at(b, allow_prerelease, j) ==> {
                &&& cmp_version(a[i].1, b[j].1) == 0
                &&& a[i].1.major == b[j].1.major
                &&& a[i].1.minor == b[j].1.minor
                &&& a[i].1.patch == b[j].1.patch
                &&& a[i].1.pre == b[j].1.pre
            }
        },
{
    lemma_records_of_lines(l1);
    lemma_records_of_lines(l2);
    assert forall|k: int| 0 <= k < l1.len() implies #[trigger] l2.contains(l1[k]) by {
        assert(l1.contains(l1[k]));
    }
    assert forall|k: int| 0 <= k < l2.len() implies #[trigger] l1.contains(l2[k]) by {
        assert(l2.contains(l2[k]));
    }
    if records_of_lines(l1) is Some && records_of_lines(l2) is None {
        let k = choose|k: int| 0 <= k < l2.len() && !line_ok(#[trigger] l2[k]);
        assert(l1.contains(l2[k]));
    }
    if records_of_lines(l2) is Some && records_of_lines(l1) is None {
        let k = choose|k: int| 0 <= k < l1.len() && !line_ok(#[trigger] l1[k]);
        assert(l2.contains(l1[k]));
    }
    if records_of_lines(l1) is Some && records_of_lines(l2) is Some {
        let a = records_of_lines(l1)->Some_0;
        let b = records_of_lines(l2)->Some_0;
        assert forall|x: (Seq<char>, VersionModel, bool)| a.contains(x) <==> b.contains(x) by {
            if a.contains(x) {
                let k = choose|k: int|
                    0 <= k < l1.len() && (#[trigger] l1[k]).len() > 0 && record_of_line(l1[k])
                        == Some(x);
                assert(l2.contains(l1[k]));
                let m = choose|m: int| 0 <= m < l2.len() && l2[m] == l1[k];
                assert(l2[m].len() > 0 && record_of_line(l2[m]) == Some(x));
            }
            if b.contains(x) {
                let k = choose|k: int|
                    0 <= k < l2.len() && (#[trigger] l2[k]).len() > 0 && record_of_line(l2[k])
                        == Some(x);
                assert(l1.contains(l2[k]));
                let m = choose|m: int| 0 <= m < l1.len() && l1[m] == l2[k];
                assert(l1[m].len() > 0 && record_of_line(l1[m]) == Some(x));
            }
        }
        lemma_selection_order_independent(a, b, allow_prerelease, i, j);
    }
}

/// Where the line that starts at `i` ends: the next `\n`, or the end.
pub open spec fn line_end(s: Seq<char>, i: int) -> int
    decreases s.len() - i,
{
    if i < 0 || i >= s.len() || s[i] == '\n' {
        i
    } else {
        line_end(s, i + 1)
    }
}

/// A line without the `\r` of a `\r\n` ending.
pub open spec fn strip_cr(l: Seq<char>) -> Seq<char> {
    if l.len() > 0 && l.last() == '\r' {
        l.drop_last()
    } else {
        l
    }
}

/// The lines of `s` from position `i`: split at `\n`, with no empty last
/// line after a final `\n`.
pub open spec fn lines_from(s: Seq<char>, i: int) -> Seq<Seq<char>>
    decreases s.len() - i,
{
    if i < 0 || i >= s.len() {
        Seq::empty()
    } else {
        let e = line_end(s, i);
        let first = strip_cr(s.subrange(i, e));
        if i <= e && e < s.len() {
            seq![first] + lines_from(s, e + 1)
        } else {
            seq![first]
        }
    }
}

/// The records of the non-empty lines, or none if one of them is not a record.
pub open spec fn records_of_lines(ls: Seq<Seq<char>>) -> Option<Seq<(Seq<char>, VersionModel, bool)>>
    decreases ls.len(),
{
    if ls.len() == 0 {
        Some(Seq::empty())
    } else {
        let rest = records_of_lines(ls.drop_first());
        if ls[0].len() == 0 {
            rest
        } else {
            match (record_of_line(ls[0]), rest) {
                (Some(r), Some(rs)) => Some(seq![r] + rs),
                _ => None,
            }
        }
    }
}

proof fn lemma_line_end(s: Seq<char>, i: int)
    requires
        0 <= i <= s.len(),
    ensures
        i <= line_end(s, i) <= s.len(),
        line_end(s, i) < s.len() ==> s[line_end(s, i)] == '\n',
        forall|k: int| i <= k < line_end(s, i) ==> s[k] != '\n',
    decreases s.len() - i,
{
    if i < s.len() && s[i] != '\n' {
        lemma_line_end(s, i + 1);
    }
}

fn find_line_end(s: &str, n: usize, i: usize) -> (e: usize)
    requires
        n == s@.len(),
        i <= n,
    ensures
        e as int == line_end(s@, i as int),
{
    let mut e = i;
    proof {
        lemma_line_end(s@, i as int);
    }
    while e < n && s.get_char(e) != '\n'
        invariant
            n == s@.len(),
            i <= e <= n,
            line_end(s@, e as int) == line_end(s@, i as int),
        decreases n - e,
    {
        e = e + 1;
    }
    e
}

/// The records of an index file, one per non-empty line.
pub fn parse_summary(content: &str) -> (r: Result<Vec<CrateVersion>, FetchError>)
    ensures
        match records_of_lines(lines_from(content@, 0)) {
            Some(rs) => r is Ok && records_view(r->Ok_0@) == rs,
            None => r == Err::<Vec<CrateVersion>, FetchError>(FetchError::InvalidSummaryJson),
        },
{
    let ghost s = content@;
    let n = content.unicode_len();
    let mut out: Vec<CrateVersion> = Vec::new();
    let mut i: usize = 0;
    while i < n
        invariant
            s == content@,
            n == s.len(),
            i <= n,
            records_of_lines(lines_from(s, 0)) == match records_of_lines(lines_from(s, i as int)) {
                Some(rs) => Some(records_view(out@) + rs),
                None => None::<Seq<(Seq<char>, VersionModel, bool)>>,
            },
        decreases n - i,
    {
        let e = find_line_end(content, n, i);
        proof {
            lemma_line_end(s, i as int);
        }
        let mut stop = e;
        if stop > i && content.get_char(stop - 1) == '\r' {
            stop = stop - 1;
        }
        let line = content.substring_char(i, stop);
        let ghost ls = lines_from(s, i as int);
        assert(line@ == strip_cr(s.subrange(i as int, e as int)));
        assert(ls[0] == line@);
        assert(e < n ==> ls.drop_first() =~= lines_from(s, e + 1));
        assert(e >= n ==> ls.drop_first() =~= lines_from(s, n as int));
        if stop > i {
            match record_fields(line) {
                None => {
                    return Err(FetchError::InvalidSummaryJson);
                },
                Some(fields) => {
                    match parse_version(fields.1.as_str()) {
                        None => {
                            return Err(FetchError::InvalidSummaryJson);
                        },
                        Some(version) => {
                            let rec = CrateVersion { name: fields.0, version, yanked: fields.2 };
                            assert(record_of_line(line@) == Some(rec@));
                            out.push(rec);
                            proof {
                                assert(records_view(out@) =~= records_view(out@.drop_last()).push(rec@));
                                match records_of_lines(ls.drop_first()) {
                                    Some(rs) => {
                                        assert(records_view(out@) + rs =~= records_view(
                                            out@.drop_last(),
                                        ) + (seq![rec@] + rs));
                                    },
                                    None => {},
                                }
                            }
                        },
                    }
                },
            }
        }
        if e >= n {
            i = n;
        } else {
            i = e + 1;
        }
    }
    assert(lines_from(s, i as int).len() == 0);
    assert(records_view(out@) + Seq::empty() =~= records_view(out@));
    Ok(out)
}

} // verus!
