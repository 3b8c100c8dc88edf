//! Version ranges: the key under which the versions of one release line are
//! grouped.

use crate::decimal::{
    all_digits, decimal_text, lemma_decimal_text_is_digits, lemma_parse_decimal_text, parse_decimal,
    parse_u64, push_decimal, ParseNumberError,
};
use crate::text::chars_of;
use crate::version::{Version, VersionView};
use std::cmp::Ordering;
use vstd::prelude::*;

verus! {

/// Which component of a version a range is named after.
#[derive(Clone, Copy, Debug, PartialEq, Eq, Structural)]
pub enum VersionRangeKind {
    /// Patch version.
    Patch,
    /// Minor version.
    Minor,
    /// Major version.
    Major,
}

impl VersionRangeKind {
    /// The word for this component in messages.
    pub open spec fn description_text(self) -> Seq<char> {
        match self {
            VersionRangeKind::Major => "major"@,
            VersionRangeKind::Minor => "minor"@,
            VersionRangeKind::Patch => "patch"@,
        }
    }

    /// Returns `"major"`, `"minor"` or `"patch"`.
    pub fn description(&self) -> (text: &'static str)
        ensures
            text@ == self.description_text(),
    {
        match self {
            VersionRangeKind::Major => "major",
            VersionRangeKind::Minor => "minor",
            VersionRangeKind::Patch => "patch",
        }
    }
}

/// A range of versions: all `major.x.y` for a major number of at least one,
/// all `0.minor.x` for a minor number of at least one, or the single
/// `0.0.patch`.
#[derive(Clone, Copy, Debug, PartialEq, Eq, Structural)]
pub enum VersionRange {
    Patch(u64),
    Minor(u64),
    Major(u64),
}

/// What a [`VersionRangeParseError`] holds.
pub struct VersionRangeParseErrorView {
    pub input: Seq<char>,
    pub component: VersionRangeKind,
    pub error: ParseNumberError,
}

/// A text that is no version range.
#[derive(Debug)]
#[non_exhaustive]
pub struct VersionRangeParseError {
    /// The input that failed to parse.
    pub input: String,
    /// The component that failed to parse.
    pub component: VersionRangeKind,
    /// The error that occurred.
    pub error: ParseNumberError,
}

impl View for VersionRangeParseError {
    type V = VersionRangeParseErrorView;

    open spec fn view(&self) -> VersionRangeParseErrorView {
        VersionRangeParseErrorView {
            input: self.input@,
            component: self.component,
            error: self.error,
        }
    }
}

impl VersionRangeParseErrorView {
    /// The message of the error.
    pub open spec fn message(self) -> Seq<char> {
        "unable to parse version range input "@ + self.input + " at component "@
            + self.component.description_text()
    }
}

impl VersionRangeParseError {
    /// The error for `input`, which failed at `component` with `error`.
    pub fn new(input: &str, component: VersionRangeKind, error: ParseNumberError) -> (e: Self)
        ensures
            e@ == (VersionRangeParseErrorView { input: input@, component, error }),
    {
        Self { input: input.to_owned(), component, error }
    }

    /// The message of the error.
    pub fn to_string(&self) -> (text: String)
        ensures
            text@ == self@.message(),
    {
        let mut text = "unable to parse version range input ".to_owned();
        text.append(self.input.as_str());
        text.append(" at component ");
        text.append(self.component.description());
        text
    }

    /// The number error underneath.
    pub fn source(&self) -> (error: ParseNumberError)
        ensures
            error == self.error,
    {
        self.error
    }
}

/// `text` begins with `prefix`.
pub open spec fn has_prefix(text: Seq<char>, prefix: Seq<char>) -> bool {
    prefix.len() <= text.len() && text.subrange(0, prefix.len() as int) == prefix
}

/// `text` without its first `n` characters.
pub open spec fn after(text: Seq<char>, n: int) -> Seq<char> {
    text.subrange(n, text.len() as int)
}

/// The component of `text` read as a number, or the error for it.
pub open spec fn parse_component_text(text: Seq<char>, component: VersionRangeKind) -> Result<
    u64,
    VersionRangeParseErrorView,
> {
    match parse_decimal(text) {
        Ok(n) => Ok(n),
        Err(error) => Err(VersionRangeParseErrorView { input: text, component, error }),
    }
}

/// The range that `text` denotes: `0.0.<patch>`, `0.<minor>` or `<major>`,
/// tried in this order.
pub open spec fn parse_range(text: Seq<char>) -> Result<VersionRange, VersionRangeParseErrorView> {
    if has_prefix(text, seq!['0', '.', '0', '.']) {
        match parse_component_text(after(text, 4), VersionRangeKind::Patch) {
            Ok(n) => Ok(VersionRange::Patch(n)),
            Err(e) => Err(e),
        }
    } else if has_prefix(text, seq!['0', '.']) {
        match parse_component_text(after(text, 2), VersionRangeKind::Minor) {
            Ok(n) => Ok(VersionRange::Minor(n)),
            Err(e) => Err(e),
        }
    } else {
        match parse_component_text(text, VersionRangeKind::Major) {
            Ok(n) => Ok(VersionRange::Major(n)),
            Err(e) => Err(e),
        }
    }
}

/// Reads one component of a range.
pub fn parse_component(s: &str, component: VersionRangeKind) -> (r: Result<
    u64,
    VersionRangeParseError,
>)
    ensures
        r matches Ok(n) ==> parse_component_text(s@, component) == Ok::<
            u64,
            VersionRangeParseErrorView,
        >(n),
        r matches Err(e) ==> parse_component_text(s@, component) == Err::<
            u64,
            VersionRangeParseErrorView,
        >(e@),
{
    match parse_u64(s) {
        Ok(n) => Ok(n),
        Err(error) => Err(VersionRangeParseError::new(s, component, error)),
    }
}

impl VersionRange {
    /// The component that the range is named after.
    pub open spec fn kind(self) -> VersionRangeKind {
        match self {
            VersionRange::Patch(_) => VersionRangeKind::Patch,
            VersionRange::Minor(_) => VersionRangeKind::Minor,
            VersionRange::Major(_) => VersionRangeKind::Major,
        }
    }

    /// The rank of the kind: patch ranges first, major ranges last.
    pub open spec fn rank(self) -> int {
        match self {
            VersionRange::Patch(_) => 0,
            VersionRange::Minor(_) => 1,
            VersionRange::Major(_) => 2,
        }
    }

    /// The number of the range.
    pub open spec fn number(self) -> u64 {
        match self {
            VersionRange::Patch(n) => n,
            VersionRange::Minor(n) => n,
            VersionRange::Major(n) => n,
        }
    }

    /// The order of ranges, as -1, 0 or 1: by rank first, then by number.
    pub open spec fn order(self, other: VersionRange) -> int {
        if self.rank() != other.rank() {
            if self.rank() < other.rank() { -1 } else { 1 }
        } else if self.number() != other.number() {
            if self.number() < other.number() { -1 } else { 1 }
        } else {
            0
        }
    }

    /// `self` comes strictly before `other`.
    pub open spec fn before(self, other: VersionRange) -> bool {
        self.order(other) < 0
    }

    /// The range of the version with these three numbers.
    pub open spec fn of_numbers(major: u64, minor: u64, patch: u64) -> VersionRange {
        if major >= 1 {
            VersionRange::Major(major)
        } else if minor >= 1 {
            VersionRange::Minor(minor)
        } else {
            VersionRange::Patch(patch)
        }
    }

    /// The range of a version.
    pub open spec fn of_version(version: VersionView) -> VersionRange {
        Self::of_numbers(version.major, version.minor, version.patch)
    }

    /// The range written out: `<major>`, `0.<minor>` or `0.0.<patch>`.
    pub open spec fn text(self) -> Seq<char> {
        match self {
            VersionRange::Major(n) => decimal_text(n as nat),
            VersionRange::Minor(n) => seq!['0', '.'] + decimal_text(n as nat),
            VersionRange::Patch(n) => seq!['0', '.', '0', '.'] + decimal_text(n as nat),
        }
    }

    /// The range that `version` falls in. Only the three numbers count.
    pub fn from_version(version: &Version) -> (range: VersionRange)
        ensures
            range == Self::of_numbers(version@.major, version@.minor, version@.patch),
    {
        if version.major() >= 1 {
            VersionRange::Major(version.major())
        } else if version.minor() >= 1 {
            VersionRange::Minor(version.minor())
        } else {
            VersionRange::Patch(version.patch())
        }
    }

    /// The rank of the kind, as a number.
    fn rank_number(&self) -> (rank: u8)
        ensures
            rank == self.rank(),
    {
        match self {
            VersionRange::Patch(_) => 0,
            VersionRange::Minor(_) => 1,
            VersionRange::Major(_) => 2,
        }
    }

    /// The number of the range.
    pub fn value(&self) -> (n: u64)
        ensures
            n == self.number(),
    {
        match self {
            VersionRange::Patch(n) => *n,
            VersionRange::Minor(n) => *n,
            VersionRange::Major(n) => *n,
        }
    }

    /// The order of `self` and `other` as -1, 0 or 1: by rank first, then by
    /// number.
    pub fn order_sign(&self, other: &VersionRange) -> (sign: i8)
        ensures
            sign == self.order(*other),
            sign == 0 <==> *self == *other,
    {
        let (a, b) = (self.rank_number(), other.rank_number());
        if a < b {
            -1
        } else if a > b {
            1
        } else if self.value() < other.value() {
            -1
        } else if self.value() > other.value() {
            1
        } else {
            0
        }
    }

    /// Compares two ranges: by rank first, then by number.
    pub fn compare(&self, other: &VersionRange) -> (r: Ordering)
        ensures
            (r is Less) == (self.order(*other) < 0),
            (r is Equal) == (*self == *other),
            (r is Greater) == (self.order(*other) > 0),
    {
        let (a, b) = (self.rank_number(), other.rank_number());
        if a < b {
            Ordering::Less
        } else if a > b {
            Ordering::Greater
        } else if self.value() < other.value() {
            Ordering::Less
        } else if self.value() > other.value() {
            Ordering::Greater
        } else {
            Ordering::Equal
        }
    }

    /// The range written out: `<major>`, `0.<minor>` or `0.0.<patch>`.
    pub fn to_string(&self) -> (text: String)
        ensures
            text@ == self.text(),
    {
        proof {
            reveal_strlit("0.");
            reveal_strlit("0.0.");
        }
        let mut text = String::new();
        match self {
            VersionRange::Major(n) => {
                push_decimal(&mut text, *n);
            },
            VersionRange::Minor(n) => {
                text.append("0.");
                push_decimal(&mut text, *n);
            },
            VersionRange::Patch(n) => {
                text.append("0.0.");
                push_decimal(&mut text, *n);
            },
        }
        text
    }

    /// Reads a range from `0.0.<patch>`, `0.<minor>` or `<major>`.
    pub fn from_str(input: &str) -> (r: Result<VersionRange, VersionRangeParseError>)
        ensures
            r matches Ok(range) ==> parse_range(input@) == Ok::<
                VersionRange,
                VersionRangeParseErrorView,
            >(range),
            r matches Err(e) ==> parse_range(input@) == Err::<
                VersionRange,
                VersionRangeParseErrorView,
            >(e@),
    {
        let chars = chars_of(input);
        let len = chars.len();
        let zero_dot = len >= 2 && chars[0] == '0' && chars[1] == '.';
        assert(zero_dot == has_prefix(input@, seq!['0', '.'])) by {
            if zero_dot {
                assert(input@.subrange(0, 2) =~= seq!['0', '.']);
            } else if len >= 2 {
                assert(input@.subrange(0, 2)[0] == input@[0]);
                assert(input@.subrange(0, 2)[1] == input@[1]);
            }
        }
        let twice = zero_dot && len >= 4 && chars[2] == '0' && chars[3] == '.';
        assert(twice == has_prefix(input@, seq!['0', '.', '0', '.'])) by {
            if twice {
                assert(input@.subrange(0, 4) =~= seq!['0', '.', '0', '.']);
            } else if len >= 4 {
                assert(input@.subrange(0, 4)[0] == input@[0]);
                assert(input@.subrange(0, 4)[1] == input@[1]);
                assert(input@.subrange(0, 4)[2] == input@[2]);
                assert(input@.subrange(0, 4)[3] == input@[3]);
            }
        }
        if twice {
            match parse_component(input.substring_char(4, len), VersionRangeKind::Patch) {
                Ok(n) => Ok(VersionRange::Patch(n)),
                Err(e) => Err(e),
            }
        } else if zero_dot {
            match parse_component(input.substring_char(2, len), VersionRangeKind::Minor) {
                Ok(n) => Ok(VersionRange::Minor(n)),
                Err(e) => Err(e),
            }
        } else {
            match parse_component(input, VersionRangeKind::Major) {
                Ok(n) => Ok(VersionRange::Major(n)),
                Err(e) => Err(e),
            }
        }
    }
}

impl std::str::FromStr for VersionRange {
    type Err = VersionRangeParseError;

    /// Reads a range as [`VersionRange::from_str`] does.
    fn from_str(input: &str) -> (r: Result<Self, Self::Err>)
        ensures
            r matches Ok(range) ==> parse_range(input@) == Ok::<
                VersionRange,
                VersionRangeParseErrorView,
            >(range),
            r matches Err(e) ==> parse_range(input@) == Err::<
                VersionRange,
                VersionRangeParseErrorView,
            >(e@),
    {
        VersionRange::from_str(input)
    }
}

/// The range of a version depends on its three numbers alone: versions that
/// differ in their pre-release or build metadata texts only are in the same
/// range.
pub proof fn lemma_range_ignores_texts(a: VersionView, b: VersionView)
    requires
        a.major == b.major,
        a.minor == b.minor,
        a.patch == b.patch,
    ensures
        VersionRange::of_version(a) == VersionRange::of_version(b),
{
}

/// Reading back a range that was written out gives the same range.
pub proof fn lemma_range_text_round_trip(range: VersionRange)
    ensures
        parse_range(range.text()) == Ok::<VersionRange, VersionRangeParseErrorView>(range),
{
    let n = range.number();
    let digits = decimal_text(n as nat);
    lemma_decimal_text_is_digits(n as nat);
    lemma_parse_decimal_text(n);
    let text = range.text();
    match range {
        VersionRange::Major(_) => {},
        VersionRange::Minor(_) => {
            assert(text.subrange(0, 2) =~= seq!['0', '.']);
            assert(after(text, 2) =~= digits);
        },
        VersionRange::Patch(_) => {
            assert(text.subrange(0, 4) =~= seq!['0', '.', '0', '.']);
            assert(after(text, 4) =~= digits);
        },
    }
}

/// The order of ranges is a strict total order: exactly one of before, equal
/// and after holds, and before is transitive.
pub proof fn lemma_range_order_total(a: VersionRange, b: VersionRange, c: VersionRange)
    ensures
        a.order(b) == 0 <==> a == b,
        a.order(b) == -b.order(a),
        a.before(b) && b.before(c) ==> a.before(c),
{
}

} // verus!
