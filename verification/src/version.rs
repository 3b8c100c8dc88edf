//! Semantic versions, held as plain values and ordered by the `semver` crate.

use crate::decimal::{decimal_text, push_decimal};
use semver::{BuildMetadata, Prerelease};
use std::cmp::Ordering;
use vstd::pervasive::unreached;
use vstd::prelude::*;

verus! {

/// What a [`Version`] stands for: three numbers, the pre-release text (empty
/// for an ordinary release) and the build metadata text.
pub struct VersionView {
    pub major: u64,
    pub minor: u64,
    pub patch: u64,
    pub pre: Seq<char>,
    pub build: Seq<char>,
}

/// Whether `semver::Prerelease::new` accepts `text`.
pub uninterp spec fn is_prerelease_text(text: Seq<char>) -> bool;

/// Whether `semver::BuildMetadata::new` accepts `text`.
pub uninterp spec fn is_build_text(text: Seq<char>) -> bool;

/// What `semver::Version::cmp` returns for two versions, as -1, 0 or 1.
pub uninterp spec fn semver_precedence(a: VersionView, b: VersionView) -> int;

impl VersionView {
    /// Both texts are ones that `semver` accepts.
    pub open spec fn valid(self) -> bool {
        is_prerelease_text(self.pre) && is_build_text(self.build)
    }

    /// A pre-release: a version with a non-empty pre-release text.
    pub open spec fn is_prerelease(self) -> bool {
        self.pre.len() > 0
    }

    /// The version written out: the three numbers with dots between them,
    /// then `-` and the pre-release text, then `+` and the build metadata,
    /// each only where the text is not empty.
    pub open spec fn text(self) -> Seq<char> {
        decimal_text(self.major as nat) + seq!['.'] + decimal_text(self.minor as nat) + seq!['.']
            + decimal_text(self.patch as nat) + (if self.pre.len() > 0 {
            seq!['-'] + self.pre
        } else {
            Seq::empty()
        }) + (if self.build.len() > 0 {
            seq!['+'] + self.build
        } else {
            Seq::empty()
        })
    }

    /// Order of the three numbers, compared from left to right.
    pub open spec fn core_order(self, other: VersionView) -> int {
        if self.major != other.major {
            if self.major < other.major { -1 } else { 1 }
        } else if self.minor != other.minor {
            if self.minor < other.minor { -1 } else { 1 }
        } else if self.patch != other.patch {
            if self.patch < other.patch { -1 } else { 1 }
        } else {
            0
        }
    }
}

/// The total order of versions, as -1, 0 or 1: the numbers decide first; with
/// equal numbers an ordinary release is above every pre-release; what remains
/// is left to `semver`.
pub open spec fn version_order(a: VersionView, b: VersionView) -> int {
    if a.core_order(b) != 0 {
        a.core_order(b)
    } else if !a.is_prerelease() && b.is_prerelease() {
        1
    } else if a.is_prerelease() && !b.is_prerelease() {
        -1
    } else {
        semver_precedence(a, b)
    }
}

/// `a` comes strictly before `b`.
pub open spec fn version_before(a: VersionView, b: VersionView) -> bool {
    version_order(a, b) < 0
}

/// A semantic version.
#[derive(Debug)]
pub struct Version {
    major: u64,
    minor: u64,
    patch: u64,
    pre: String,
    build: String,
}

impl View for Version {
    type V = VersionView;

    closed spec fn view(&self) -> VersionView {
        VersionView {
            major: self.major,
            minor: self.minor,
            patch: self.patch,
            pre: self.pre@,
            build: self.build@,
        }
    }
}

/// Calls `semver::Prerelease::new` and tells whether it accepted `text`. The
/// empty text is the crate's `Prerelease::EMPTY` and is always accepted.
#[verifier::external_body]
fn prerelease_accepted(text: &str) -> (ok: bool)
    ensures
        ok == is_prerelease_text(text@),
        text@.len() == 0 ==> ok,
{
    Prerelease::new(text).is_ok()
}

/// Calls `semver::BuildMetadata::new` and tells whether it accepted `text`.
/// The empty text is the crate's `BuildMetadata::EMPTY` and is always
/// accepted.
#[verifier::external_body]
fn build_accepted(text: &str) -> (ok: bool)
    ensures
        ok == is_build_text(text@),
        text@.len() == 0 ==> ok,
{
    BuildMetadata::new(text).is_ok()
}

/// Calls `semver::Version::cmp` on the two versions, built from their parts
/// with `Prerelease::new` and `BuildMetadata::new`, which accept the texts of
/// a valid version. The crate documents a total order in which the three
/// numbers are compared first and, with equal numbers, a pre-release is below
/// the ordinary release. The contract states that, and of the total order
/// what the library's proofs use: the result is 0 exactly for equal versions,
/// swapping the arguments negates it, and the order is transitive: where `a`
/// is not after `b`, `a` comes before every valid version that `b` comes
/// before.
#[verifier::external_body]
fn semver_order(a: &Version, b: &Version) -> (r: i8)
    requires
        a@.valid(),
        b@.valid(),
    ensures
        r == semver_precedence(a@, b@),
        r == version_order(a@, b@),
        -1 <= r <= 1,
        r == 0 <==> a@ == b@,
        version_order(b@, a@) == -r,
        forall|c: VersionView| #![trigger version_order(b@, c)]
            c.valid() && r <= 0 && version_order(b@, c) < 0 ==> version_order(a@, c) < 0,
{
    let (p, q) = (Prerelease::new(&a.pre).unwrap(), Prerelease::new(&b.pre).unwrap());
    let (m, n) = (BuildMetadata::new(&a.build).unwrap(), BuildMetadata::new(&b.build).unwrap());
    let x = semver::Version { major: a.major, minor: a.minor, patch: a.patch, pre: p, build: m };
    let y = semver::Version { major: b.major, minor: b.minor, patch: b.patch, pre: q, build: n };
    match x.cmp(&y) {
        Ordering::Less => -1,
        Ordering::Equal => 0,
        Ordering::Greater => 1,
    }
}

impl Version {
    #[verifier::type_invariant]
    spec fn texts_accepted(self) -> bool {
        self@.valid()
    }

    /// The ordinary release `major.minor.patch`.
    pub fn new(major: u64, minor: u64, patch: u64) -> (v: Version)
        ensures
            v@ == (VersionView { major, minor, patch, pre: Seq::empty(), build: Seq::empty() }),
    {
        proof {
            reveal_strlit("");
        }
        match Self::from_parts(major, minor, patch, "", "") {
            Some(version) => {
                assert(version@.pre =~= Seq::empty() && version@.build =~= Seq::empty());
                version
            },
            None => unreached(),
        }
    }

    /// A version from its parts, or `None` where `semver` refuses the
    /// pre-release or the build metadata text.
    pub fn from_parts(major: u64, minor: u64, patch: u64, pre: &str, build: &str) -> (r: Option<
        Version,
    >)
        ensures
            r is Some <==> is_prerelease_text(pre@) && is_build_text(build@),
            pre@.len() == 0 && build@.len() == 0 ==> r is Some,
            r matches Some(v) ==> v@ == (VersionView {
                major,
                minor,
                patch,
                pre: pre@,
                build: build@,
            }),
    {
        if prerelease_accepted(pre) && build_accepted(build) {
            Some(Version { major, minor, patch, pre: pre.to_owned(), build: build.to_owned() })
        } else {
            None
        }
    }

    /// The major number.
    pub fn major(&self) -> (n: u64)
        ensures
            n == self@.major,
    {
        self.major
    }

    /// The minor number.
    pub fn minor(&self) -> (n: u64)
        ensures
            n == self@.minor,
    {
        self.minor
    }

    /// The patch number.
    pub fn patch(&self) -> (n: u64)
        ensures
            n == self@.patch,
    {
        self.patch
    }

    /// Whether this is a pre-release. Every version holds texts that
    /// `semver` accepts.
    pub fn is_prerelease(&self) -> (pre: bool)
        ensures
            pre == self@.is_prerelease(),
            self@.valid(),
    {
        proof {
            use_type_invariant(self);
        }
        !self.pre.as_str().is_empty()
    }

    /// The pre-release text, empty for an ordinary release.
    pub fn pre(&self) -> (text: &str)
        ensures
            text@ == self@.pre,
    {
        self.pre.as_str()
    }

    /// The build metadata text, which may be empty.
    pub fn build(&self) -> (text: &str)
        ensures
            text@ == self@.build,
    {
        self.build.as_str()
    }

    /// The version written out, as `1.2.3`, `1.2.3-rc.1` or `1.2.3+build`.
    pub fn to_string(&self) -> (text: String)
        ensures
            text@ == self@.text(),
    {
        proof {
            reveal_strlit(".");
            reveal_strlit("-");
            reveal_strlit("+");
        }
        let mut text = String::new();
        push_decimal(&mut text, self.major);
        text.append(".");
        push_decimal(&mut text, self.minor);
        text.append(".");
        push_decimal(&mut text, self.patch);
        if !self.pre.as_str().is_empty() {
            text.append("-");
            text.append(self.pre.as_str());
        }
        if !self.build.as_str().is_empty() {
            text.append("+");
            text.append(self.build.as_str());
        }
        text
    }

    /// The order of `self` and `other` as -1, 0 or 1, decided by `semver`.
    /// It is 0 exactly for equal versions, swapping the two negates it, and
    /// where `self` is not after `other`, `self` comes before every valid
    /// version that `other` comes before.
    pub fn precedence(&self, other: &Version) -> (sign: i8)
        ensures
            self@.valid(),
            other@.valid(),
            sign == version_order(self@, other@),
            -1 <= sign <= 1,
            sign == 0 <==> self@ == other@,
            version_order(other@, self@) == -sign,
            forall|c: VersionView| #![trigger version_order(other@, c)]
                c.valid() && sign <= 0 && version_order(other@, c) < 0 ==> version_order(
                    self@,
                    c,
                ) < 0,
    {
        proof {
            use_type_invariant(self);
            use_type_invariant(other);
        }
        semver_order(self, other)
    }

    /// Compares two versions in the order of `semver`.
    pub fn compare(&self, other: &Version) -> (r: Ordering)
        ensures
            r == order_of(version_order(self@, other@)),
            (r is Equal) <==> self@ == other@,
    {
        let sign: i8 = self.precedence(other);
        if sign < 0 {
            Ordering::Less
        } else if sign == 0 {
            Ordering::Equal
        } else {
            Ordering::Greater
        }
    }
}

impl Clone for Version {
    fn clone(&self) -> (copy: Self)
        ensures
            copy@ == self@,
    {
        proof {
            use_type_invariant(self);
        }
        Version {
            major: self.major,
            minor: self.minor,
            patch: self.patch,
            pre: self.pre.clone(),
            build: self.build.clone(),
        }
    }
}

/// The `Ordering` that a sign stands for.
pub open spec fn order_of(sign: int) -> Ordering {
    if sign < 0 {
        Ordering::Less
    } else if sign == 0 {
        Ordering::Equal
    } else {
        Ordering::Greater
    }
}

} // verus!
