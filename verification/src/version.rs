//! Versions: a triple of 16-bit ordinals with a total order, a canonical
//! text form, and two ways of reading text.

use crate::decimal::decimal_text;
use crate::decimal::error_text;
use crate::decimal::is_digit;
use crate::decimal::lemma_decimal_text;
use crate::decimal::lemma_parse_decimal_text;
use crate::decimal::parse_u16;
use crate::decimal::parse_u16_chars;
use crate::decimal::push_decimal;
use crate::decimal::NumberError;
use crate::text::chars_of;
use crate::text::lemma_split_head;
use crate::text::lemma_split_nonempty;
use crate::text::lemma_split_whole;
use crate::text::split;
use crate::text::split_on;
use crate::text::texts;
use std::cmp::Ordering;
use vstd::prelude::*;

verus! {

/// A package revision: three 16-bit ordinals, ordered by `major`, then
/// `minor`, then `patch`.
#[derive(Debug, Clone, Copy, PartialEq, Eq, Structural, Ord, Hash)]
pub struct Version {
    pub major: u16,
    pub minor: u16,
    pub patch: u16,
}

/// Why a text is not a version.
#[derive(Debug, PartialEq, Eq)]
pub enum VersionParseError {
    /// The text has fewer than three parts.
    InvalidFormat,
    /// A part is not a 16-bit number; the message says why.
    InvalidNumber(String),
}

/// What a `VersionParseError` holds, as plain values.
pub enum ParseFailure {
    InvalidFormat,
    InvalidNumber(Seq<char>),
}

impl View for VersionParseError {
    type V = ParseFailure;

    open spec fn view(&self) -> ParseFailure {
        match self {
            VersionParseError::InvalidFormat => ParseFailure::InvalidFormat,
            VersionParseError::InvalidNumber(detail) => ParseFailure::InvalidNumber(detail@),
        }
    }
}

/// The failure that a part which is no number causes.
pub open spec fn invalid_number(e: NumberError) -> ParseFailure {
    ParseFailure::InvalidNumber(error_text(e))
}

/// The canonical text of a version: its three parts in decimal, with a dot
/// between neighbours.
pub open spec fn version_text(v: Version) -> Seq<char> {
    decimal_text(v.major as nat).push('.') + (decimal_text(v.minor as nat).push('.')
        + decimal_text(v.patch as nat))
}

/// What the strict reading of `text` gives. The parts between dots are read
/// from the left; the first three must be there and must be numbers, and what
/// follows a third dot is not looked at.
pub open spec fn strict_parse(text: Seq<char>) -> Result<Version, ParseFailure> {
    let parts = split(text, '.');
    match parse_u16(parts[0]) {
        Err(e) => Err(invalid_number(e)),
        Ok(major) => if parts.len() < 2 {
            Err(ParseFailure::InvalidFormat)
        } else {
            match parse_u16(parts[1]) {
                Err(e) => Err(invalid_number(e)),
                Ok(minor) => if parts.len() < 3 {
                    Err(ParseFailure::InvalidFormat)
                } else {
                    match parse_u16(parts[2]) {
                        Err(e) => Err(invalid_number(e)),
                        Ok(patch) => Ok(Version { major, minor, patch }),
                    }
                },
            }
        },
    }
}

/// The part at `i`, or the text `0` where the split has no such part.
pub open spec fn part_or_zero(parts: Seq<Seq<char>>, i: int) -> Seq<char> {
    if i < parts.len() {
        parts[i]
    } else {
        seq!['0']
    }
}

/// What the lenient reading of `text` gives. The first part must be a number;
/// a missing second or third part counts as `0`, and what follows a third dot
/// is not looked at. The first part that is no number decides the error.
pub open spec fn lenient_parse(text: Seq<char>) -> Result<Version, NumberError> {
    let parts = split(text, '.');
    match parse_u16(parts[0]) {
        Err(e) => Err(e),
        Ok(major) => match parse_u16(part_or_zero(parts, 1)) {
            Err(e) => Err(e),
            Ok(minor) => match parse_u16(part_or_zero(parts, 2)) {
                Err(e) => Err(e),
                Ok(patch) => Ok(Version { major, minor, patch }),
            },
        },
    }
}

/// The text of a parse error, as it is shown to a reader.
pub open spec fn parse_error_text(e: ParseFailure) -> Seq<char> {
    match e {
        ParseFailure::InvalidFormat => "invalid version format: expected \"major.minor.patch\""@,
        ParseFailure::InvalidNumber(detail) => "invalid version number: "@ + detail,
    }
}

impl VersionParseError {
    /// The text of this error, as it is shown to a reader.
    pub fn to_string(&self) -> (s: String)
        ensures
            s@ == parse_error_text(self@),
    {
        match self {
            VersionParseError::InvalidFormat => String::from_str(
                "invalid version format: expected \"major.minor.patch\"",
            ),
            VersionParseError::InvalidNumber(detail) => {
                let mut s = String::from_str("invalid version number: ");
                s.append(detail.as_str());
                s
            },
        }
    }
}

/// The error that a part which is no number causes.
fn number_failure(e: NumberError) -> (r: VersionParseError)
    ensures
        r@ == invalid_number(e),
{
    VersionParseError::InvalidNumber(String::from_str(e.message()))
}

impl Version {
    /// Builds a version from its three parts; every combination is valid.
    #[must_use]
    pub fn new(major: u16, minor: u16, patch: u16) -> (v: Version)
        ensures
            v == (Version { major, minor, patch }),
    {
        Version { major, minor, patch }
    }

    /// Is `self` lower than `other`: lower in the first part in which the two
    /// differ, taken in the order `major`, `minor`, `patch`?
    pub open spec fn precedes(self, other: Version) -> bool {
        ||| self.major < other.major
        ||| self.major == other.major && self.minor < other.minor
        ||| self.major == other.major && self.minor == other.minor && self.patch < other.patch
    }

    /// `self` is lower than `other` or equal to it.
    pub open spec fn at_most(self, other: Version) -> bool {
        self.precedes(other) || self == other
    }

    /// How `self` stands to `other`.
    pub open spec fn ordering(self, other: Version) -> Ordering {
        if self.precedes(other) {
            Ordering::Less
        } else if self == other {
            Ordering::Equal
        } else {
            Ordering::Greater
        }
    }

    /// Compares by `major`, then `minor`, then `patch`: the first part in
    /// which the two differ decides.
    pub fn compare(&self, other: &Version) -> (o: Ordering)
        ensures
            o == self.ordering(*other),
    {
        if self.major < other.major {
            Ordering::Less
        } else if self.major > other.major {
            Ordering::Greater
        } else if self.minor < other.minor {
            Ordering::Less
        } else if self.minor > other.minor {
            Ordering::Greater
        } else if self.patch < other.patch {
            Ordering::Less
        } else if self.patch > other.patch {
            Ordering::Greater
        } else {
            Ordering::Equal
        }
    }

    /// The canonical text: `major.minor.patch`, each part in decimal without
    /// leading zeros, none left out.
    pub fn to_string(&self) -> (s: String)
        ensures
            s@ == version_text(*self),
    {
        let mut s = String::new();
        push_decimal(&mut s, self.major);
        s.push('.');
        push_decimal(&mut s, self.minor);
        s.push('.');
        push_decimal(&mut s, self.patch);
        assert(s@ =~= version_text(*self));
        s
    }

    /// Reads a version strictly: three parts are required.
    pub fn parse_strict(text: &str) -> (r: Result<Version, VersionParseError>)
        ensures
            match r {
                Ok(v) => strict_parse(text@) == Ok::<Version, ParseFailure>(v),
                Err(e) => strict_parse(text@) == Err::<Version, ParseFailure>(e@),
            },
    {
        let chars = chars_of(text);
        let parts = split_on(chars.as_slice(), '.');
        proof {
            lemma_split_nonempty(chars@, '.');
        }
        assert(texts(parts@)[0] == parts@[0]@);
        let major = match parse_u16_chars(parts[0].as_slice()) {
            Ok(n) => n,
            Err(e) => {
                return Err(number_failure(e));
            },
        };
        if parts.len() < 2 {
            return Err(VersionParseError::InvalidFormat);
        }
        assert(texts(parts@)[1] == parts@[1]@);
        let minor = match parse_u16_chars(parts[1].as_slice()) {
            Ok(n) => n,
            Err(e) => {
                return Err(number_failure(e));
            },
        };
        if parts.len() < 3 {
            return Err(VersionParseError::InvalidFormat);
        }
        assert(texts(parts@)[2] == parts@[2]@);
        let patch = match parse_u16_chars(parts[2].as_slice()) {
            Ok(n) => n,
            Err(e) => {
                return Err(number_failure(e));
            },
        };
        Ok(Version { major, minor, patch })
    }

    /// Reads a version leniently: only the first part is required, and a
    /// failure is always that of a part which is no number.
    pub fn parse_lenient(text: &str) -> (r: Result<Version, NumberError>)
        ensures
            r == lenient_parse(text@),
    {
        let chars = chars_of(text);
        Version::parse_lenient_chars(chars.as_slice())
    }

    /// Reads a version leniently from characters.
    pub fn parse_lenient_chars(chars: &[char]) -> (r: Result<Version, NumberError>)
        ensures
            r == lenient_parse(chars@),
    {
        let parts = split_on(chars, '.');
        proof {
            lemma_split_nonempty(chars@, '.');
        }
        let zero: [char; 1] = ['0'];
        assert(zero@ =~= seq!['0']);
        assert(texts(parts@)[0] == parts@[0]@);
        let major = match parse_u16_chars(parts[0].as_slice()) {
            Ok(n) => n,
            Err(e) => {
                return Err(e);
            },
        };
        let second: &[char] = if parts.len() > 1 {
            assert(texts(parts@)[1] == parts@[1]@);
            parts[1].as_slice()
        } else {
            zero.as_slice()
        };
        let minor = match parse_u16_chars(second) {
            Ok(n) => n,
            Err(e) => {
                return Err(e);
            },
        };
        let third: &[char] = if parts.len() > 2 {
            assert(texts(parts@)[2] == parts@[2]@);
            parts[2].as_slice()
        } else {
            zero.as_slice()
        };
        let patch = match parse_u16_chars(third) {
            Ok(n) => n,
            Err(e) => {
                return Err(e);
            },
        };
        Ok(Version { major, minor, patch })
    }
}

impl PartialOrd for Version {
    fn partial_cmp(&self, other: &Version) -> (r: Option<Ordering>) {
        Some(self.compare(other))
    }
}

impl vstd::std_specs::cmp::PartialOrdSpecImpl for Version {
    open spec fn obeys_partial_cmp_spec() -> bool {
        true
    }

    open spec fn partial_cmp_spec(&self, other: &Version) -> Option<Ordering> {
        Some(self.ordering(*other))
    }
}

/// The order is total: of `a < b`, `a == b` and `b < a` exactly one holds, and
/// which one is decided by the first of `major`, `minor`, `patch` in which the
/// two differ.
pub proof fn lemma_order_total(a: Version, b: Version)
    ensures
        a.precedes(b) || a == b || b.precedes(a),
        !(a.precedes(b) && a == b),
        !(a.precedes(b) && b.precedes(a)),
        !(a == b && b.precedes(a)),
        a.major != b.major ==> (a.precedes(b) <==> a.major < b.major),
        a.major == b.major && a.minor != b.minor ==> (a.precedes(b) <==> a.minor < b.minor),
        a.major == b.major && a.minor == b.minor ==> (a.precedes(b) <==> a.patch < b.patch),
{
}

/// What a comparison returns says which of the three holds.
pub proof fn lemma_comparison(a: Version, b: Version)
    ensures
        a.ordering(b) == Ordering::Less <==> a.precedes(b),
        a.ordering(b) == Ordering::Equal <==> a == b,
        a.ordering(b) == Ordering::Greater <==> b.precedes(a),
{
}

/// The order is transitive.
pub proof fn lemma_order_transitive(a: Version, b: Version, c: Version)
    requires
        a.precedes(b),
        b.precedes(c),
    ensures
        a.precedes(c),
{
}

/// When the strict reading succeeds and when it fails for want of parts: it
/// succeeds exactly when the text has three parts or more and the first three
/// are numbers; it reports the format exactly when the text has one or two
/// parts and they are numbers.
pub proof fn lemma_strict_outcomes(text: Seq<char>)
    ensures
        strict_parse(text) is Ok <==> {
            let parts = split(text, '.');
            &&& parts.len() >= 3
            &&& parse_u16(parts[0]) is Ok
            &&& parse_u16(parts[1]) is Ok
            &&& parse_u16(parts[2]) is Ok
        },
        strict_parse(text) == Err::<Version, ParseFailure>(ParseFailure::InvalidFormat) <==> {
            let parts = split(text, '.');
            &&& parts.len() < 3
            &&& forall|i: int| 0 <= i < parts.len() ==> parse_u16(#[trigger] parts[i]) is Ok
        },
{
    lemma_split_nonempty(text, '.');
    let parts = split(text, '.');
    if parts.len() < 3 && (forall|i: int|
        0 <= i < parts.len() ==> parse_u16(#[trigger] parts[i]) is Ok) {
        assert(parse_u16(parts[0]) is Ok);
        if parts.len() == 2 {
            assert(parse_u16(parts[1]) is Ok);
        }
    }
}

/// The lenient reading succeeds exactly when the first part is a number and
/// the second and the third are numbers or missing.
pub proof fn lemma_lenient_outcomes(text: Seq<char>)
    ensures
        lenient_parse(text) is Ok <==> {
            let parts = split(text, '.');
            &&& parse_u16(parts[0]) is Ok
            &&& parts.len() > 1 ==> parse_u16(parts[1]) is Ok
            &&& parts.len() > 2 ==> parse_u16(parts[2]) is Ok
        },
{
    lemma_split_nonempty(text, '.');
    lemma_parse_decimal_text(0);
    assert(decimal_text(0) =~= seq!['0']);
}

/// The canonical text of a version splits at its two dots into the decimal
/// texts of the three parts.
pub proof fn lemma_version_text_parts(v: Version)
    ensures
        split(version_text(v), '.') == seq![
            decimal_text(v.major as nat),
            decimal_text(v.minor as nat),
            decimal_text(v.patch as nat),
        ],
{
    let major = decimal_text(v.major as nat);
    let minor = decimal_text(v.minor as nat);
    let patch = decimal_text(v.patch as nat);
    lemma_no_dot(v.major as nat);
    lemma_no_dot(v.minor as nat);
    lemma_no_dot(v.patch as nat);
    lemma_split_whole(patch, '.');
    lemma_split_head(minor, '.', patch);
    lemma_split_head(major, '.', minor.push('.') + patch);
    assert(seq![major] + (seq![minor] + seq![patch]) =~= seq![major, minor, patch]);
}

/// The canonical text of a version holds digits and dots only, and ends with
/// a digit.
pub proof fn lemma_version_text_chars(v: Version)
    ensures
        version_text(v).len() > 0,
        is_digit(version_text(v).last()),
        forall|i: int|
            0 <= i < version_text(v).len() ==> is_digit(#[trigger] version_text(v)[i])
                || version_text(v)[i] == '.',
{
    lemma_decimal_text(v.major as nat);
    lemma_decimal_text(v.minor as nat);
    lemma_decimal_text(v.patch as nat);
    let major = decimal_text(v.major as nat);
    let minor = decimal_text(v.minor as nat);
    let patch = decimal_text(v.patch as nat);
    let t = version_text(v);
    assert(t.last() == patch.last());
    assert forall|i: int| 0 <= i < t.len() implies is_digit(#[trigger] t[i]) || t[i] == '.' by {
        if i < major.len() {
            assert(t[i] == major[i]);
        } else if i == major.len() {
        } else if i < major.len() + 1 + minor.len() {
            assert(t[i] == minor[i - major.len() - 1]);
        } else if i == major.len() + 1 + minor.len() {
        } else {
            assert(t[i] == patch[i - major.len() - minor.len() - 2]);
        }
    }
}

/// The decimal text of a number holds no dot.
proof fn lemma_no_dot(n: nat)
    ensures
        !decimal_text(n).contains('.'),
{
    lemma_decimal_text(n);
}

/// Reading the canonical text of a version strictly gives the version back.
pub proof fn lemma_round_trip(v: Version)
    ensures
        strict_parse(version_text(v)) == Ok::<Version, ParseFailure>(v),
{
    lemma_version_text_parts(v);
    lemma_parse_decimal_text(v.major);
    lemma_parse_decimal_text(v.minor);
    lemma_parse_decimal_text(v.patch);
}

/// Reading the canonical text of a version leniently gives the version back
/// too.
pub proof fn lemma_round_trip_lenient(v: Version)
    ensures
        lenient_parse(version_text(v)) == Ok::<Version, NumberError>(v),
{
    lemma_version_text_parts(v);
    lemma_parse_decimal_text(v.major);
    lemma_parse_decimal_text(v.minor);
    lemma_parse_decimal_text(v.patch);
}

} // verus!
