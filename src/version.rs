use vstd::prelude::*;
use vstd::string::*;

use crate::text::push_char;

verus! {

/// One dot-separated part of a prerelease or build tag.
#[derive(Debug, Clone, PartialEq, Eq)]
pub enum Identifier {
    /// A part made of digits only.
    Numeric(u64),
    /// A part that holds a letter or a hyphen.
    AlphaNumeric(String),
}

/// What an identifier stands for.
pub enum IdentifierModel {
    Numeric(u64),
    AlphaNumeric(Seq<char>),
}

impl View for Identifier {
    type V = IdentifierModel;

    open spec fn view(&self) -> IdentifierModel {
        match self {
            Identifier::Numeric(n) => IdentifierModel::Numeric(*n),
            Identifier::AlphaNumeric(s) => IdentifierModel::AlphaNumeric(s@),
        }
    }
}

/// A semantic version: `major.minor.patch`, an optional prerelease tag and
/// optional build metadata.
#[derive(Debug, Clone, PartialEq, Eq)]
pub struct Version {
    pub major: u64,
    pub minor: u64,
    pub patch: u64,
    pub pre: Vec<Identifier>,
    pub build: Vec<Identifier>,
}

pub struct VersionModel {
    pub major: u64,
    pub minor: u64,
    pub patch: u64,
    pub pre: Seq<IdentifierModel>,
    pub build: Seq<IdentifierModel>,
}

pub open spec fn idents_view(v: Seq<Identifier>) -> Seq<IdentifierModel> {
    v.map_values(|i: Identifier| i@)
}

impl View for Version {
    type V = VersionModel;

    open spec fn view(&self) -> VersionModel {
        VersionModel {
            major: self.major,
            minor: self.minor,
            patch: self.patch,
            pre: idents_view(self.pre@),
            build: idents_view(self.build@),
        }
    }
}

/// -1, 0 or 1 as `a` is below, equal to or above `b`.
pub open spec fn cmp_int(a: int, b: int) -> int {
    if a < b {
        -1
    } else if a > b {
        1
    } else {
        0
    }
}

/// Lexicographic order of texts, character by character; a proper prefix
/// comes first.
pub open spec fn cmp_chars(a: Seq<char>, b: Seq<char>) -> int
    decreases a.len(),
{
    if a.len() == 0 && b.len() == 0 {
        0
    } else if a.len() == 0 {
        -1
    } else if b.len() == 0 {
        1
    } else if a[0] != b[0] {
        cmp_int(a[0] as int, b[0] as int)
    } else {
        cmp_chars(a.drop_first(), b.drop_first())
    }
}

/// Numeric parts come before the others; numeric parts compare by value,
/// the others as text.
pub open spec fn cmp_ident(a: IdentifierModel, b: IdentifierModel) -> int {
    match (a, b) {
        (IdentifierModel::Numeric(x), IdentifierModel::Numeric(y)) => cmp_int(x as int, y as int),
        (IdentifierModel::Numeric(_), IdentifierModel::AlphaNumeric(_)) => -1,
        (IdentifierModel::AlphaNumeric(_), IdentifierModel::Numeric(_)) => 1,
        (IdentifierModel::AlphaNumeric(x), IdentifierModel::AlphaNumeric(y)) => cmp_chars(x, y),
    }
}

/// Lexicographic order of identifier lists; a proper prefix comes first.
pub open spec fn cmp_idents(a: Seq<IdentifierModel>, b: Seq<IdentifierModel>) -> int
    decreases a.len(),
{
    if a.len() == 0 && b.len() == 0 {
        0
    } else if a.len() == 0 {
        -1
    } else if b.len() == 0 {
        1
    } else if cmp_ident(a[0], b[0]) != 0 {
        cmp_ident(a[0], b[0])
    } else {
        cmp_idents(a.drop_first(), b.drop_first())
    }
}

/// A release outranks every prerelease of the same `major.minor.patch`.
pub open spec fn cmp_pre(a: Seq<IdentifierModel>, b: Seq<IdentifierModel>) -> int {
    if a.len() == 0 && b.len() == 0 {
        0
    } else if a.len() == 0 {
        1
    } else if b.len() == 0 {
        -1
    } else {
        cmp_idents(a, b)
    }
}

/// Semantic-version precedence: major, minor, patch, then the prerelease
/// tag. Build metadata takes no part.
pub open spec fn cmp_version(a: VersionModel, b: VersionModel) -> int {
    if a.major != b.major {
        cmp_int(a.major as int, b.major as int)
    } else if a.minor != b.minor {
        cmp_int(a.minor as int, b.minor as int)
    } else if a.patch != b.patch {
        cmp_int(a.patch as int, b.patch as int)
    } else {
        cmp_pre(a.pre, b.pre)
    }
}

pub open spec fn is_prerelease(v: VersionModel) -> bool {
    v.pre.len() > 0
}

proof fn lemma_cmp_chars(a: Seq<char>, b: Seq<char>, c: Seq<char>)
    ensures
        cmp_chars(a, b) == -cmp_chars(b, a),
        -1 <= cmp_chars(a, b) <= 1,
        cmp_chars(a, b) == 0 ==> a == b,
        cmp_chars(a, b) <= 0 && cmp_chars(b, c) <= 0 ==> cmp_chars(a, c) <= 0,
    decreases a.len(),
{
    if a.len() > 0 && b.len() > 0 && c.len() > 0 {
        lemma_cmp_chars(a.drop_first(), b.drop_first(), c.drop_first());
    } else if a.len() > 0 && b.len() > 0 {
        lemma_cmp_chars(a.drop_first(), b.drop_first(), c);
    }
    if a.len() > 0 && b.len() > 0 && a[0] == b[0] && cmp_chars(a, b) == 0 {
        assert(a == seq![a[0]] + a.drop_first());
        assert(b == seq![b[0]] + b.drop_first());
    }
    if a.len() == 0 && b.len() == 0 {
        assert(a == b);
    }
}

proof fn lemma_cmp_ident(a: IdentifierModel, b: IdentifierModel, c: IdentifierModel)
    ensures
        cmp_ident(a, b) == -cmp_ident(b, a),
        -1 <= cmp_ident(a, b) <= 1,
        cmp_ident(a, b) == 0 ==> a == b,
        cmp_ident(a, b) <= 0 && cmp_ident(b, c) <= 0 ==> cmp_ident(a, c) <= 0,
{
    match (a, b, c) {
        (
            IdentifierModel::AlphaNumeric(x),
            IdentifierModel::AlphaNumeric(y),
            IdentifierModel::AlphaNumeric(z),
        ) => {
            lemma_cmp_chars(x, y, z);
        },
        (IdentifierModel::AlphaNumeric(x), IdentifierModel::AlphaNumeric(y), _) => {
            lemma_cmp_chars(x, y, y);
        },
        _ => {},
    }
}

proof fn lemma_cmp_idents(
    a: Seq<IdentifierModel>,
    b: Seq<IdentifierModel>,
    c: Seq<IdentifierModel>,
)
    ensures
        cmp_idents(a, b) == -cmp_idents(b, a),
        -1 <= cmp_idents(a, b) <= 1,
        cmp_idents(a, b) == 0 ==> a == b,
        cmp_idents(a, b) <= 0 && cmp_idents(b, c) <= 0 ==> cmp_idents(a, c) <= 0,
    decreases a.len(),
{
    if a.len() > 0 && b.len() > 0 {
        lemma_cmp_ident(a[0], b[0], b[0]);
        if c.len() > 0 {
            lemma_cmp_ident(a[0], b[0], c[0]);
            lemma_cmp_ident(a[0], c[0], b[0]);
            lemma_cmp_ident(b[0], a[0], c[0]);
            lemma_cmp_ident(b[0], c[0], a[0]);
            lemma_cmp_ident(c[0], a[0], b[0]);
            lemma_cmp_ident(c[0], b[0], a[0]);
            lemma_cmp_idents(a.drop_first(), b.drop_first(), c.drop_first());
        } else {
            lemma_cmp_idents(a.drop_first(), b.drop_first(), c);
        }
        if cmp_idents(a, b) == 0 {
            assert(a == seq![a[0]] + a.drop_first());
            assert(b == seq![b[0]] + b.drop_first());
        }
    }
    if a.len() == 0 && b.len() == 0 {
        assert(a == b);
    }
}

/// Precedence is a total order on `major.minor.patch` and the prerelease tag.
pub proof fn lemma_cmp_version(a: VersionModel, b: VersionModel, c: VersionModel)
    ensures
        cmp_version(a, b) == -cmp_version(b, a),
        cmp_version(a, b) == 0 ==> a.major == b.major && a.minor == b.minor && a.patch == b.patch
            && a.pre == b.pre,
        cmp_version(a, b) <= 0 && cmp_version(b, c) <= 0 ==> cmp_version(a, c) <= 0,
{
    lemma_cmp_idents(a.pre, b.pre, c.pre);
    lemma_cmp_idents(b.pre, a.pre, c.pre);
    lemma_cmp_idents(a.pre, c.pre, b.pre);
    lemma_cmp_idents(b.pre, c.pre, a.pre);
    lemma_cmp_idents(c.pre, a.pre, b.pre);
    lemma_cmp_idents(c.pre, b.pre, a.pre);
    if a.pre.len() == 0 && b.pre.len() == 0 {
        assert(a.pre == b.pre);
    }
}


/// The decimal digit for `d` (below ten).
pub open spec fn digit_char(d: nat) -> char {
    ((d + 48) as u8) as char
}

/// The decimal notation of `n`, without leading zeros.
pub open spec fn decimal(n: nat) -> Seq<char>
    decreases n,
{
    if n < 10 {
        seq![digit_char(n)]
    } else {
        decimal(n / 10).push(digit_char(n % 10))
    }
}

pub open spec fn ident_text(i: IdentifierModel) -> Seq<char> {
    match i {
        IdentifierModel::Numeric(n) => decimal(n as nat),
        IdentifierModel::AlphaNumeric(s) => s,
    }
}

/// The identifiers written out with `.` between them.
pub open spec fn join_idents(ids: Seq<IdentifierModel>) -> Seq<char>
    decreases ids.len(),
{
    if ids.len() == 0 {
        Seq::empty()
    } else if ids.len() == 1 {
        ident_text(ids[0])
    } else {
        join_idents(ids.drop_last()).push('.') + ident_text(ids.last())
    }
}

/// The usual notation of a version: `1.2.3`, `1.2.3-alpha.1`, `1.2.3+build`.
pub open spec fn version_text(v: VersionModel) -> Seq<char> {
    let core = decimal(v.major as nat).push('.') + decimal(v.minor as nat).push('.') + decimal(
        v.patch as nat,
    );
    let with_pre = if v.pre.len() == 0 {
        core
    } else {
        core.push('-') + join_idents(v.pre)
    };
    if v.build.len() == 0 {
        with_pre
    } else {
        with_pre.push('+') + join_idents(v.build)
    }
}

fn push_decimal(out: &mut String, n: u64)
    ensures
        final(out)@ == old(out)@ + decimal(n as nat),
    decreases n,
{
    if n >= 10 {
        push_decimal(out, n / 10);
    }
    let d = (n % 10) as u8;
    push_char(out, (d + 48u8) as char);
    assert(final(out)@ =~= old(out)@ + decimal(n as nat));
}

fn push_ident(out: &mut String, id: &Identifier)
    ensures
        final(out)@ == old(out)@ + ident_text(id@),
{
    match id {
        Identifier::Numeric(n) => push_decimal(out, *n),
        Identifier::AlphaNumeric(s) => out.append(s.as_str()),
    }
}

fn push_idents(out: &mut String, ids: &Vec<Identifier>)
    ensures
        final(out)@ == old(out)@ + join_idents(idents_view(ids@)),
{
    let ghost start = out@;
    let mut i: usize = 0;
    while i < ids.len()
        invariant
            i <= ids@.len(),
            out@ == start + join_idents(idents_view(ids@.take(i as int))),
        decreases ids.len() - i,
    {
        let ghost before = out@;
        if i > 0 {
            push_char(out, '.');
        }
        push_ident(out, &ids[i]);
        proof {
            let t = idents_view(ids@.take(i as int + 1));
            assert(t.drop_last() =~= idents_view(ids@.take(i as int)));
            assert(t.last() == ids@[i as int]@);
            if i == 0 {
                assert(join_idents(idents_view(ids@.take(0))) =~= Seq::<char>::empty());
                assert(out@ =~= start + join_idents(t));
            } else {
                assert(out@ =~= start + join_idents(t));
            }
        }
        i = i + 1;
    }
    assert(ids@.take(ids@.len() as int) =~= ids@);
}

impl Version {
    /// The version written out as text.
    pub fn to_text(&self) -> (r: String)
        ensures
            r@ == version_text(self@),
    {
        let mut out = String::new();
        push_decimal(&mut out, self.major);
        push_char(&mut out, '.');
        push_decimal(&mut out, self.minor);
        push_char(&mut out, '.');
        push_decimal(&mut out, self.patch);
        if self.pre.len() > 0 {
            push_char(&mut out, '-');
            push_idents(&mut out, &self.pre);
        }
        if self.build.len() > 0 {
            push_char(&mut out, '+');
            push_idents(&mut out, &self.build);
        }
        assert(out@ =~= version_text(self@));
        out
    }

    /// Whether the version carries a prerelease tag.
    pub fn is_prerelease(&self) -> (r: bool)
        ensures
            r == is_prerelease(self@),
    {
        self.pre.len() > 0
    }
}

fn compare_u64(a: u64, b: u64) -> (r: i8)
    ensures
        r as int == cmp_int(a as int, b as int),
{
    if a < b {
        -1
    } else if a > b {
        1
    } else {
        0
    }
}

fn compare_chars(a: &str, b: &str) -> (r: i8)
    ensures
        r as int == cmp_chars(a@, b@),
{
    let n = a.unicode_len();
    let m = b.unicode_len();
    let mut i: usize = 0;
    assert(a@.skip(0) =~= a@ && b@.skip(0) =~= b@);
    while i < n && i < m
        invariant
            n == a@.len(),
            m == b@.len(),
            i <= n,
            i <= m,
            cmp_chars(a@, b@) == cmp_chars(a@.skip(i as int), b@.skip(i as int)),
        decreases n - i,
    {
        let x = a.get_char(i);
        let y = b.get_char(i);
        assert(a@.skip(i as int)[0] == x && b@.skip(i as int)[0] == y);
        if x != y {
            return if (x as u32) < (y as u32) {
                -1
            } else {
                1
            };
        }
        assert(a@.skip(i as int).drop_first() =~= a@.skip(i as int + 1));
        assert(b@.skip(i as int).drop_first() =~= b@.skip(i as int + 1));
        i = i + 1;
    }
    if n == m {
        0
    } else if i == n {
        -1
    } else {
        1
    }
}

fn compare_ident(a: &Identifier, b: &Identifier) -> (r: i8)
    ensures
        r as int == cmp_ident(a@, b@),
{
    match (a, b) {
        (Identifier::Numeric(x), Identifier::Numeric(y)) => compare_u64(*x, *y),
        (Identifier::Numeric(_), Identifier::AlphaNumeric(_)) => -1,
        (Identifier::AlphaNumeric(_), Identifier::Numeric(_)) => 1,
        (Identifier::AlphaNumeric(x), Identifier::AlphaNumeric(y)) => compare_chars(
            x.as_str(),
            y.as_str(),
        ),
    }
}

fn compare_idents(a: &Vec<Identifier>, b: &Vec<Identifier>) -> (r: i8)
    ensures
        r as int == cmp_idents(idents_view(a@), idents_view(b@)),
{
    let ghost va = idents_view(a@);
    let ghost vb = idents_view(b@);
    let mut i: usize = 0;
    assert(va.skip(0) =~= va && vb.skip(0) =~= vb);
    while i < a.len() && i < b.len()
        invariant
            va == idents_view(a@),
            vb == idents_view(b@),
            i <= a@.len(),
            i <= b@.len(),
            cmp_idents(va, vb) == cmp_idents(va.skip(i as int), vb.skip(i as int)),
        decreases a.len() - i,
    {
        let c = compare_ident(&a[i], &b[i]);
        assert(va.skip(i as int)[0] == a@[i as int]@ && vb.skip(i as int)[0] == b@[i as int]@);
        if c != 0 {
            return c;
        }
        assert(va.skip(i as int).drop_first() =~= va.skip(i as int + 1));
        assert(vb.skip(i as int).drop_first() =~= vb.skip(i as int + 1));
        i = i + 1;
    }
    if a.len() == b.len() {
        0
    } else if i == a.len() {
        -1
    } else {
        1
    }
}

/// Compares two versions by precedence: -1, 0 or 1.
pub fn compare_versions(a: &Version, b: &Version) -> (r: i8)
    ensures
        r as int == cmp_version(a@, b@),
{
    if a.major != b.major {
        compare_u64(a.major, b.major)
    } else if a.minor != b.minor {
        compare_u64(a.minor, b.minor)
    } else if a.patch != b.patch {
        compare_u64(a.patch, b.patch)
    } else if a.pre.len() == 0 && b.pre.len() == 0 {
        0
    } else if a.pre.len() == 0 {
        1
    } else if b.pre.len() == 0 {
        -1
    } else {
        compare_idents(&a.pre, &b.pre)
    }
}


/// The version that `semver` reads from a text, or none.
pub uninterp spec fn semver_parse(s: Seq<char>) -> Option<VersionModel>;

pub open spec fn version_option_view(r: Option<Version>) -> Option<VersionModel> {
    match r {
        Some(v) => Some(v@),
        None => None,
    }
}

/// Relies on `semver::Version::parse` (semver 0.9): whether a text is a
/// version, and its parts.
#[verifier::external_body]
pub(crate) fn parse_version(s: &str) -> (r: Option<Version>)
    ensures
        version_option_view(r) == semver_parse(s@),
{
    let conv = |i: semver::Identifier| match i {
        semver::Identifier::Numeric(n) => Identifier::Numeric(n),
        semver::Identifier::AlphaNumeric(t) => Identifier::AlphaNumeric(t),
    };
    semver::Version::parse(s).ok().map(|v| Version {
        major: v.major,
        minor: v.minor,
        patch: v.patch,
        pre: v.pre.into_iter().map(conv).collect(),
        build: v.build.into_iter().map(conv).collect(),
    })
}

} // verus!
