//! The build tool's record of resolved dependencies, and its line-oriented
//! lock-file serialisation: entries are kept one per line and sorted by name,
//! so the written file stays stable and merge-friendly.

use vstd::prelude::*;
use crate::format::dec_spec;

verus! {

/// A resolved package version.
#[derive(Debug, Clone, Copy, PartialEq, Eq, Structural)]
pub struct PackageVersion {
    pub major: u64,
    pub minor: u64,
    pub patch: u64,
}

/// The text of a version: the three numbers, dot-separated.
pub open spec fn version_text(v: PackageVersion) -> Seq<char> {
    dec_spec(v.major as nat) + "."@ + dec_spec(v.minor as nat) + "."@ + dec_spec(v.patch as nat)
}

impl PackageVersion {
    pub fn new(major: u64, minor: u64, patch: u64) -> (r: Self)
        ensures
            r == (PackageVersion { major, minor, patch }),
    {
        PackageVersion { major, minor, patch }
    }

    /// Renders the version, as `version_text` states.
    pub fn to_string(&self) -> (r: String)
        ensures
            r@ == version_text(*self),
    {
        let mut out = crate::format::format_u64(self.major);
        out.append(".");
        let mi = crate::format::format_u64(self.minor);
        out.append(mi.as_str());
        out.append(".");
        let pa = crate::format::format_u64(self.patch);
        out.append(pa.as_str());
        proof {
            assert(out@ =~= version_text(*self));
        }
        out
    }
}

/// What a project asks for: a version range from the package index, a local
/// path, or a git repository.
#[derive(Debug, Clone, PartialEq, Eq)]
pub enum Requirement {
    Hex { version: String },
    Path { path: String },
    Git { git: String },
}

/// The inline-table text of one requirement.
pub open spec fn requirement_text(r: Requirement) -> Seq<char> {
    match r {
        Requirement::Hex { version } => "{ version = \""@ + version@ + "\" }"@,
        Requirement::Path { path } => "{ path = \""@ + path@ + "\" }"@,
        Requirement::Git { git } => "{ git = \""@ + git@ + "\" }"@,
    }
}

impl Requirement {
    pub fn hex(range: &str) -> (r: Self)
        ensures
            r is Hex && r->Hex_version@ == range@,
    {
        Requirement::Hex { version: range.to_owned() }
    }

    pub fn path(p: &str) -> (r: Self)
        ensures
            r is Path && r->Path_path@ == p@,
    {
        Requirement::Path { path: p.to_owned() }
    }

    pub fn git(url: &str) -> (r: Self)
        ensures
            r is Git && r->Git_git@ == url@,
    {
        Requirement::Git { git: url.to_owned() }
    }

    /// Renders the requirement, as `requirement_text` states.
    pub fn to_toml(&self) -> (r: String)
        ensures
            r@ == requirement_text(*self),
    {
        match self {
            Requirement::Hex { version } => {
                let mut out = "{ version = \"".to_owned();
                out.append(version.as_str());
                out.append("\" }");
                proof {
                    assert(out@ =~= requirement_text(*self));
                }
                out
            },
            Requirement::Path { path } => {
                let mut out = "{ path = \"".to_owned();
                out.append(path.as_str());
                out.append("\" }");
                proof {
                    assert(out@ =~= requirement_text(*self));
                }
                out
            },
            Requirement::Git { git } => {
                let mut out = "{ git = \"".to_owned();
                out.append(git.as_str());
                out.append("\" }");
                proof {
                    assert(out@ =~= requirement_text(*self));
                }
                out
            },
        }
    }
}

/// The uppercase hexadecimal digit of one value below sixteen.
pub open spec fn hex_digit(d: nat) -> char {
    if d < 10 {
        crate::format::digit_char(d)
    } else if d == 10 {
        'A'
    } else if d == 11 {
        'B'
    } else if d == 12 {
        'C'
    } else if d == 13 {
        'D'
    } else if d == 14 {
        'E'
    } else {
        'F'
    }
}

/// The uppercase hexadecimal text of a byte string: two digits per byte,
/// high nibble first.
pub open spec fn hex_upper_of(bytes: Seq<u8>) -> Seq<char>
    decreases bytes,
{
    if bytes.len() == 0 {
        Seq::empty()
    } else {
        hex_upper_of(bytes.drop_last()) + seq![
            hex_digit((bytes.last() / 16) as nat),
            hex_digit((bytes.last() % 16) as nat),
        ]
    }
}

/// Relies on base16::encode_upper: it renders each input byte as two
/// uppercase hexadecimal digits, most significant nibble first, in input
/// order.
#[verifier::external_body]
fn hex_encode_upper(bytes: &Vec<u8>) -> (r: String)
    ensures
        r@ == hex_upper_of(bytes@),
{
    base16::encode_upper(bytes)
}

/// A checksum carried as raw bytes and written as uppercase base-16.
#[derive(Debug, Clone, PartialEq, Eq, PartialOrd, Ord)]
pub struct Base16Checksum(pub Vec<u8>);

impl Base16Checksum {
    /// Renders the checksum, as `hex_upper_of` states.
    pub fn to_string(&self) -> (r: String)
        ensures
            r@ == hex_upper_of(self.0@),
    {
        hex_encode_upper(&self.0)
    }
}

/// Where a resolved package came from.
#[derive(Debug, Clone, PartialEq, Eq)]
pub enum ManifestPackageSource {
    Hex { outer_checksum: Base16Checksum },
    Git { repo: String, commit: String },
    Local { path: String },
}

/// The source fields of one package entry.
pub open spec fn source_text(s: ManifestPackageSource) -> Seq<char> {
    match s {
        ManifestPackageSource::Hex { outer_checksum } => ", source = \"hex\", outer_checksum = \""@
            + hex_upper_of(outer_checksum.0@) + "\""@,
        ManifestPackageSource::Git { repo, commit } => ", source = \"git\", repo = \""@ + repo@
            + "\", commit = \""@ + commit@ + "\""@,
        ManifestPackageSource::Local { path } => ", source = \"local\", path = \""@ + path@
            + "\""@,
    }
}

/// One resolved package of the manifest.
#[derive(Debug, Clone, PartialEq, Eq)]
pub struct ManifestPackage {
    pub name: String,
    pub version: PackageVersion,
    pub build_tools: Vec<String>,
    pub otp_app: Option<String>,
    pub requirements: Vec<String>,
    pub source: ManifestPackageSource,
}

impl ManifestPackage {
    /// Replaces the build tools, keeping everything else.
    pub fn with_build_tools(self, build_tools: &[&str]) -> (r: Self)
        ensures
            r.name == self.name,
            r.version == self.version,
            r.build_tools@.len() == build_tools@.len(),
            forall|k: int|
                0 <= k < build_tools@.len() ==> (#[trigger] r.build_tools@[k])@
                    == build_tools@[k]@,
            r.otp_app == self.otp_app,
            r.requirements == self.requirements,
            r.source == self.source,
    {
        let mut tools: Vec<String> = Vec::new();
        let n = build_tools.len();
        let mut k: usize = 0;
        while k < n
            invariant
                n == build_tools@.len(),
                k <= n,
                tools@.len() == k,
                forall|j: int| 0 <= j < k ==> (#[trigger] tools@[j])@ == build_tools@[j]@,
            decreases n - k,
        {
            let s: &str = build_tools[k];
            tools.push(s.to_owned());
            k += 1;
        }
        ManifestPackage { build_tools: tools, ..self }
    }

    /// Whether the package comes from the package index.
    pub fn is_hex(&self) -> (r: bool)
        ensures
            r == (self.source is Hex),
    {
        matches!(self.source, ManifestPackageSource::Hex { .. })
    }

    /// Whether the package comes from a local path.
    pub fn is_local(&self) -> (r: bool)
        ensures
            r == (self.source is Local),
    {
        matches!(self.source, ManifestPackageSource::Local { .. })
    }
}

impl Default for ManifestPackage {
    /// An empty package entry at version 1.0.0 from the package index.
    fn default() -> (r: Self)
        ensures
            r.name@ == Seq::<char>::empty(),
            r.version == (PackageVersion { major: 1, minor: 0, patch: 0 }),
            r.build_tools@ == Seq::<String>::empty(),
            r.otp_app is None,
            r.requirements@ == Seq::<String>::empty(),
            r.source is Hex && r.source->Hex_outer_checksum.0@ == Seq::<u8>::empty(),
    {
        ManifestPackage {
            name: String::new(),
            version: PackageVersion { major: 1, minor: 0, patch: 0 },
            build_tools: Vec::new(),
            otp_app: Option::None,
            requirements: Vec::new(),
            source: ManifestPackageSource::Hex { outer_checksum: Base16Checksum(Vec::new()) },
        }
    }
}

/// The record of every resolved dependency: what was asked for, and what was
/// picked.
#[derive(Debug, Clone, PartialEq, Eq)]
pub struct Manifest {
    pub requirements: Vec<(String, Requirement)>,
    pub packages: Vec<ManifestPackage>,
}


/// Strict lexicographic order on character strings by code point, which for
/// this text agrees with the byte order of their encodings.
pub open spec fn lex_lt(a: Seq<char>, b: Seq<char>) -> bool
    decreases a.len(),
{
    if b.len() == 0 {
        false
    } else if a.len() == 0 {
        true
    } else if a[0] != b[0] {
        (a[0] as u32) < (b[0] as u32)
    } else {
        lex_lt(a.drop_first(), b.drop_first())
    }
}

/// Compares two strings, as `lex_lt` states.
pub fn string_lt(a: &str, b: &str) -> (r: bool)
    ensures
        r == lex_lt(a@, b@),
{
    let alen = a.unicode_len();
    let blen = b.unicode_len();
    proof {
        assert(a@.skip(0) =~= a@);
        assert(b@.skip(0) =~= b@);
    }
    let mut i: usize = 0;
    loop
        invariant
            alen == a@.len(),
            blen == b@.len(),
            i <= alen,
            i <= blen,
            lex_lt(a@, b@) == lex_lt(a@.skip(i as int), b@.skip(i as int)),
        decreases alen - i,
    {
        proof {
            if i < alen {
                assert(a@.skip(i as int)[0] == a@[i as int]);
            }
            if i < blen {
                assert(b@.skip(i as int)[0] == b@[i as int]);
            }
        }
        if i >= blen {
            proof {
                assert(b@.skip(i as int).len() == 0);
            }
            return false;
        }
        if i >= alen {
            proof {
                assert(a@.skip(i as int).len() == 0);
            }
            return true;
        }
        let ca = a.get_char(i);
        let cb = b.get_char(i);
        if ca != cb {
            return (ca as u32) < (cb as u32);
        }
        proof {
            assert(a@.skip(i as int).drop_first() =~= a@.skip(i + 1));
            assert(b@.skip(i as int).drop_first() =~= b@.skip(i + 1));
        }
        i += 1;
    }
}

/// A package inserted into an already sorted run: it goes in front of the
/// first strictly greater name, so equal names keep their original order.
pub open spec fn insert_pkg(s: Seq<ManifestPackage>, p: ManifestPackage) -> Seq<ManifestPackage>
    decreases s.len(),
{
    if s.len() == 0 {
        seq![p]
    } else if lex_lt(p.name@, s[0].name@) {
        seq![p] + s
    } else {
        seq![s[0]] + insert_pkg(s.drop_first(), p)
    }
}

/// The packages in name order, insertion by insertion; a stable sort.
pub open spec fn sort_pkgs(s: Seq<ManifestPackage>) -> Seq<ManifestPackage>
    decreases s.len(),
{
    if s.len() == 0 {
        Seq::empty()
    } else {
        insert_pkg(sort_pkgs(s.drop_last()), s.last())
    }
}

/// A requirement entry inserted into an already sorted run, keyed by name.
pub open spec fn insert_req(
    s: Seq<(String, Requirement)>,
    e: (String, Requirement),
) -> Seq<(String, Requirement)>
    decreases s.len(),
{
    if s.len() == 0 {
        seq![e]
    } else if lex_lt(e.0@, s[0].0@) {
        seq![e] + s
    } else {
        seq![s[0]] + insert_req(s.drop_first(), e)
    }
}

/// The requirement entries in key order; a stable sort.
pub open spec fn sort_reqs(s: Seq<(String, Requirement)>) -> Seq<(String, Requirement)>
    decreases s.len(),
{
    if s.len() == 0 {
        Seq::empty()
    } else {
        insert_req(sort_reqs(s.drop_last()), s.last())
    }
}

/// Where the insertion lands: before the first strictly greater name.
proof fn lemma_insert_pkg_at(s: Seq<ManifestPackage>, p: ManifestPackage, j: int)
    requires
        0 <= j <= s.len(),
        forall|l: int| 0 <= l < j ==> !lex_lt(p.name@, (#[trigger] s[l]).name@),
        j < s.len() ==> lex_lt(p.name@, s[j].name@),
    ensures
        insert_pkg(s, p) =~= s.take(j) + seq![p] + s.skip(j),
    decreases s.len(),
{
    if s.len() == 0 {
    } else if lex_lt(p.name@, s[0].name@) {
        assert(j == 0);
    } else {
        lemma_insert_pkg_at(s.drop_first(), p, j - 1);
        assert(s.drop_first().take(j - 1) =~= s.take(j).drop_first());
        assert(s.drop_first().skip(j - 1) =~= s.skip(j));
    }
}

proof fn lemma_insert_req_at(s: Seq<(String, Requirement)>, e: (String, Requirement), j: int)
    requires
        0 <= j <= s.len(),
        forall|l: int| 0 <= l < j ==> !lex_lt(e.0@, (#[trigger] s[l]).0@),
        j < s.len() ==> lex_lt(e.0@, s[j].0@),
    ensures
        insert_req(s, e) =~= s.take(j) + seq![e] + s.skip(j),
    decreases s.len(),
{
    if s.len() == 0 {
    } else if lex_lt(e.0@, s[0].0@) {
        assert(j == 0);
    } else {
        lemma_insert_req_at(s.drop_first(), e, j - 1);
        assert(s.drop_first().take(j - 1) =~= s.take(j).drop_first());
        assert(s.drop_first().skip(j - 1) =~= s.skip(j));
    }
}


proof fn lemma_insert_pkg_len(s: Seq<ManifestPackage>, p: ManifestPackage)
    ensures
        insert_pkg(s, p).len() == s.len() + 1,
    decreases s.len(),
{
    if s.len() > 0 && !lex_lt(p.name@, s[0].name@) {
        lemma_insert_pkg_len(s.drop_first(), p);
    }
}

proof fn lemma_sort_pkgs_len(s: Seq<ManifestPackage>)
    ensures
        sort_pkgs(s).len() == s.len(),
    decreases s.len(),
{
    if s.len() > 0 {
        lemma_sort_pkgs_len(s.drop_last());
        lemma_insert_pkg_len(sort_pkgs(s.drop_last()), s.last());
    }
}

proof fn lemma_insert_req_len(s: Seq<(String, Requirement)>, e: (String, Requirement))
    ensures
        insert_req(s, e).len() == s.len() + 1,
    decreases s.len(),
{
    if s.len() > 0 && !lex_lt(e.0@, s[0].0@) {
        lemma_insert_req_len(s.drop_first(), e);
    }
}

proof fn lemma_sort_reqs_len(s: Seq<(String, Requirement)>)
    ensures
        sort_reqs(s).len() == s.len(),
    decreases s.len(),
{
    if s.len() > 0 {
        lemma_sort_reqs_len(s.drop_last());
        lemma_insert_req_len(sort_reqs(s.drop_last()), s.last());
    }
}

/// The positions of the packages in name order: entry `k` of the result says
/// which original package stands at place `k` once sorted.
fn sorted_package_order(v: &Vec<ManifestPackage>) -> (order: Vec<usize>)
    ensures
        order@.len() == v@.len(),
        forall|k: int| 0 <= k < order@.len() ==> (#[trigger] order@[k]) < v@.len(),
        sort_pkgs(v@).len() == v@.len(),
        forall|k: int|
            0 <= k < order@.len() ==> v@[(#[trigger] order@[k]) as int] == sort_pkgs(v@)[k],
{
    let n = v.len();
    let mut order: Vec<usize> = Vec::new();
    let mut i: usize = 0;
    while i < n
        invariant
            n == v@.len(),
            i <= n,
            order@.len() == i,
            sort_pkgs(v@.take(i as int)).len() == i,
            forall|k: int| 0 <= k < i ==> (#[trigger] order@[k]) < i,
            forall|k: int|
                0 <= k < i ==> v@[(#[trigger] order@[k]) as int] == sort_pkgs(
                    v@.take(i as int),
                )[k],
        decreases n - i,
    {
        let ghost sorted = sort_pkgs(v@.take(i as int));
        let mut j: usize = 0;
        while j < i && !string_lt(v[i].name.as_str(), v[order[j]].name.as_str())
            invariant
                n == v@.len(),
                i < n,
                j <= i,
                order@.len() == i,
                sorted == sort_pkgs(v@.take(i as int)),
                sorted.len() == i,
                forall|k: int| 0 <= k < i ==> (#[trigger] order@[k]) < i,
                forall|k: int|
                    0 <= k < i ==> v@[(#[trigger] order@[k]) as int] == sorted[k],
                forall|l: int| 0 <= l < j ==> !lex_lt(v@[i as int].name@, (#[trigger] sorted[l]).name@),
            decreases i - j,
        {
            j += 1;
        }
        proof {
            lemma_insert_pkg_at(sorted, v@[i as int], j as int);
            assert(v@.take(i + 1).drop_last() =~= v@.take(i as int));
            assert(v@.take(i + 1).last() == v@[i as int]);
            assert(sort_pkgs(v@.take(i + 1)) == insert_pkg(sorted, v@[i as int]));
            lemma_insert_pkg_len(sorted, v@[i as int]);
        }
        order.insert(j, i);
        proof {
            let sorted2 = sort_pkgs(v@.take(i + 1));
            assert(sorted2 =~= sorted.take(j as int) + seq![v@[i as int]] + sorted.skip(j as int));
            assert forall|k: int| 0 <= k < i + 1 implies v@[(#[trigger] order@[k]) as int]
                == sorted2[k] by {
                if k < j {
                    assert(order@[k] == order@.subrange(0, j as int)[k]);
                    assert(sorted2[k] == sorted[k]);
                } else if k == j {
                    assert(order@[k] == i);
                    assert(sorted2[k] == v@[i as int]);
                } else {
                    assert(sorted2[k] == sorted.skip(j as int)[k - j - 1]);
                    assert(sorted2[k] == sorted[k - 1]);
                }
            }
        }
        i += 1;
    }
    proof {
        assert(v@.take(n as int) =~= v@);
    }
    order
}

/// The positions of the requirement entries in key order.
fn sorted_requirement_order(v: &Vec<(String, Requirement)>) -> (order: Vec<usize>)
    ensures
        order@.len() == v@.len(),
        forall|k: int| 0 <= k < order@.len() ==> (#[trigger] order@[k]) < v@.len(),
        sort_reqs(v@).len() == v@.len(),
        forall|k: int|
            0 <= k < order@.len() ==> v@[(#[trigger] order@[k]) as int] == sort_reqs(v@)[k],
{
    let n = v.len();
    let mut order: Vec<usize> = Vec::new();
    let mut i: usize = 0;
    while i < n
        invariant
            n == v@.len(),
            i <= n,
            order@.len() == i,
            sort_reqs(v@.take(i as int)).len() == i,
            forall|k: int| 0 <= k < i ==> (#[trigger] order@[k]) < i,
            forall|k: int|
                0 <= k < i ==> v@[(#[trigger] order@[k]) as int] == sort_reqs(
                    v@.take(i as int),
                )[k],
        decreases n - i,
    {
        let ghost sorted = sort_reqs(v@.take(i as int));
        let mut j: usize = 0;
        while j < i && !string_lt(v[i].0.as_str(), v[order[j]].0.as_str())
            invariant
                n == v@.len(),
                i < n,
                j <= i,
                order@.len() == i,
                sorted == sort_reqs(v@.take(i as int)),
                sorted.len() == i,
                forall|k: int| 0 <= k < i ==> (#[trigger] order@[k]) < i,
                forall|k: int|
                    0 <= k < i ==> v@[(#[trigger] order@[k]) as int] == sorted[k],
                forall|l: int| 0 <= l < j ==> !lex_lt(v@[i as int].0@, (#[trigger] sorted[l]).0@),
            decreases i - j,
        {
            j += 1;
        }
        proof {
            lemma_insert_req_at(sorted, v@[i as int], j as int);
            assert(v@.take(i + 1).drop_last() =~= v@.take(i as int));
            assert(v@.take(i + 1).last() == v@[i as int]);
            assert(sort_reqs(v@.take(i + 1)) == insert_req(sorted, v@[i as int]));
            lemma_insert_req_len(sorted, v@[i as int]);
        }
        order.insert(j, i);
        proof {
            let sorted2 = sort_reqs(v@.take(i + 1));
            assert(sorted2 =~= sorted.take(j as int) + seq![v@[i as int]] + sorted.skip(j as int));
            assert forall|k: int| 0 <= k < i + 1 implies v@[(#[trigger] order@[k]) as int]
                == sorted2[k] by {
                if k < j {
                    assert(sorted2[k] == sorted[k]);
                } else if k == j {
                    assert(order@[k] == i);
                    assert(sorted2[k] == v@[i as int]);
                } else {
                    assert(sorted2[k] == sorted.skip(j as int)[k - j - 1]);
                    assert(sorted2[k] == sorted[k - 1]);
                }
            }
        }
        i += 1;
    }
    proof {
        assert(v@.take(n as int) =~= v@);
    }
    order
}


/// The first `k` strings of a quoted, comma-separated list.
pub open spec fn quoted_list_text(ss: Seq<String>, k: int) -> Seq<char>
    decreases k,
{
    if k <= 0 {
        Seq::empty()
    } else {
        quoted_list_text(ss, k - 1) + (if k == 1 {
            Seq::<char>::empty()
        } else {
            ", "@
        }) + "\""@ + ss[k - 1]@ + "\""@
    }
}

/// The optional OTP application field of one package entry.
pub open spec fn otp_text(o: Option<String>) -> Seq<char> {
    match o {
        Option::None => Seq::empty(),
        Option::Some(a) => ", otp_app = \""@ + a@ + "\""@,
    }
}

/// One package entry, on a single line.
pub open spec fn package_text(p: ManifestPackage) -> Seq<char> {
    "  { name = \""@ + p.name@ + "\", version = \""@ + version_text(p.version)
        + "\", build_tools = ["@ + quoted_list_text(p.build_tools@, p.build_tools@.len() as int)
        + "], requirements = ["@ + quoted_list_text(
        p.requirements@,
        p.requirements@.len() as int,
    ) + "]"@ + otp_text(p.otp_app) + source_text(p.source) + " },\n"@
}

/// The first `k` package entries.
pub open spec fn packages_text(ps: Seq<ManifestPackage>, k: int) -> Seq<char>
    decreases k,
{
    if k <= 0 {
        Seq::empty()
    } else {
        packages_text(ps, k - 1) + package_text(ps[k - 1])
    }
}

/// The first `k` requirement lines.
pub open spec fn reqs_text(rs: Seq<(String, Requirement)>, k: int) -> Seq<char>
    decreases k,
{
    if k <= 0 {
        Seq::empty()
    } else {
        reqs_text(rs, k - 1) + rs[k - 1].0@ + " = "@ + requirement_text(rs[k - 1].1) + "\n"@
    }
}

/// The whole lock file: a fixed header, the packages sorted by name, then the
/// requirements sorted by name.
pub open spec fn manifest_toml(m: Manifest) -> Seq<char> {
    "# This file was generated by Gleam\n# You typically do not need to edit this file\n\n"@
        + "packages = [\n"@ + packages_text(sort_pkgs(m.packages@), m.packages@.len() as int)
        + "]\n\n"@ + "[requirements]\n"@ + reqs_text(
        sort_reqs(m.requirements@),
        m.requirements@.len() as int,
    )
}

/// Renders a quoted, comma-separated list, as `quoted_list_text` states.
fn append_quoted_list(out: &mut String, ss: &Vec<String>)
    ensures
        final(out)@ == old(out)@ + quoted_list_text(ss@, ss@.len() as int),
{
    let ghost base = out@;
    let n = ss.len();
    let mut k: usize = 0;
    while k < n
        invariant
            n == ss.len(),
            k <= n,
            out@ == base + quoted_list_text(ss@, k as int),
        decreases n - k,
    {
        if k != 0 {
            out.append(", ");
        }
        out.append("\"");
        out.append(ss[k].as_str());
        out.append("\"");
        proof {
            assert(out@ =~= base + quoted_list_text(ss@, k + 1 as int));
        }
        k += 1;
    }
    proof {
        assert(out@ =~= base + quoted_list_text(ss@, n as int));
    }
}

/// Renders one package entry, as `package_text` states.
#[verifier::rlimit(100)]
fn append_package(out: &mut String, p: &ManifestPackage)
    ensures
        final(out)@ == old(out)@ + package_text(*p),
{
    let ghost base = out@;
    out.append("  { name = \"");
    out.append(p.name.as_str());
    out.append("\", version = \"");
    let ver = p.version.to_string();
    out.append(ver.as_str());
    out.append("\", build_tools = [");
    append_quoted_list(out, &p.build_tools);
    out.append("], requirements = [");
    append_quoted_list(out, &p.requirements);
    out.append("]");
    match &p.otp_app {
        Option::Some(app) => {
            out.append(", otp_app = \"");
            out.append(app.as_str());
            out.append("\"");
        },
        Option::None => {},
    }
    match &p.source {
        ManifestPackageSource::Hex { outer_checksum } => {
            out.append(", source = \"hex\", outer_checksum = \"");
            let sum = outer_checksum.to_string();
            out.append(sum.as_str());
            out.append("\"");
        },
        ManifestPackageSource::Git { repo, commit } => {
            out.append(", source = \"git\", repo = \"");
            out.append(repo.as_str());
            out.append("\", commit = \"");
            out.append(commit.as_str());
            out.append("\"");
        },
        ManifestPackageSource::Local { path } => {
            out.append(", source = \"local\", path = \"");
            out.append(path.as_str());
            out.append("\"");
        },
    }
    out.append(" },\n");
    proof {
        assert(out@ =~= base + package_text(*p));
    }
}

impl Manifest {
    /// Serialises the manifest by hand rather than through a generic
    /// document writer, so every entry stays on one line and the file resists
    /// merge conflicts; `manifest_toml` states the output character by
    /// character.
    pub fn to_toml(&self) -> (r: String)
        ensures
            r@ == manifest_toml(*self),
    {
        let mut buffer = String::new();
        buffer.append(
            "# This file was generated by Gleam\n# You typically do not need to edit this file\n\n",
        );
        buffer.append("packages = [\n");
        let ghost after_open = buffer@;
        let ghost sorted = sort_pkgs(self.packages@);
        let order = sorted_package_order(&self.packages);
        let n = self.packages.len();
        let mut k: usize = 0;
        while k < n
            invariant
                n == self.packages@.len(),
                k <= n,
                sorted == sort_pkgs(self.packages@),
                sorted.len() == n,
                order@.len() == n,
                forall|l: int| 0 <= l < n ==> (#[trigger] order@[l]) < n,
                forall|l: int|
                    0 <= l < n ==> self.packages@[(#[trigger] order@[l]) as int] == sorted[l],
                after_open == buffer@.take(after_open.len() as int) && buffer@ == after_open
                    + packages_text(sorted, k as int),
            decreases n - k,
        {
            append_package(&mut buffer, &self.packages[order[k]]);
            proof {
                assert(buffer@ =~= after_open + packages_text(sorted, k + 1 as int));
            }
            k += 1;
        }
        buffer.append("]\n\n");
        buffer.append("[requirements]\n");
        let ghost after_reqs = buffer@;
        let ghost rsorted = sort_reqs(self.requirements@);
        let rorder = sorted_requirement_order(&self.requirements);
        let m = self.requirements.len();
        let mut k2: usize = 0;
        while k2 < m
            invariant
                m == self.requirements@.len(),
                k2 <= m,
                rsorted == sort_reqs(self.requirements@),
                rsorted.len() == m,
                rorder@.len() == m,
                forall|l: int| 0 <= l < m ==> (#[trigger] rorder@[l]) < m,
                forall|l: int|
                    0 <= l < m ==> self.requirements@[(#[trigger] rorder@[l]) as int]
                        == rsorted[l],
                buffer@ == after_reqs + reqs_text(rsorted, k2 as int),
            decreases m - k2,
        {
            let entry = &self.requirements[rorder[k2]];
            buffer.append(entry.0.as_str());
            buffer.append(" = ");
            let req = entry.1.to_toml();
            buffer.append(req.as_str());
            buffer.append("\n");
            proof {
                assert(buffer@ =~= after_reqs + reqs_text(rsorted, k2 + 1 as int));
            }
            k2 += 1;
        }
        proof {
            assert(buffer@ =~= manifest_toml(*self));
        }
        buffer
    }
}

} // verus!
