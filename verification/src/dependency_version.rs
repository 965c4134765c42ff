//! Version constraints: no bound, or one comparator with one version.

use crate::error::DependencyParseError;
use crate::text::chars_of;
use crate::text::lemma_split_head;
use crate::text::lemma_split_nonempty;
use crate::text::lemma_split_whole;
use crate::text::lemma_trim_clean;
use crate::text::split;
use crate::text::split_on;
use crate::text::texts;
use crate::text::trim;
use crate::text::trim_slice;
use crate::version::lemma_order_total;
use crate::version::lemma_order_transitive;
use crate::version::lemma_round_trip_lenient;
use crate::version::lemma_version_text_chars;
use crate::version::lenient_parse;
use crate::version::version_text;
use crate::version::Version;
use vstd::prelude::*;

verus! {

/// A constraint on the version of a package.
#[derive(Debug, Clone, Copy, PartialEq, Eq, Structural, Hash)]
pub enum DependencyVersion {
    /// Every version is allowed.
    Any,
    /// Versions below the bound.
    Lower(Version),
    /// The bound and versions below it.
    LowerOrEqual(Version),
    /// The bound alone.
    Exact(Version),
    /// The bound and versions above it.
    HigherOrEqual(Version),
    /// Versions above the bound.
    Higher(Version),
}

/// The comparator that stands for a constraint in text; `Any` has none.
pub open spec fn comparator_text(c: DependencyVersion) -> Seq<char> {
    match c {
        DependencyVersion::Any => Seq::empty(),
        DependencyVersion::Lower(_) => seq!['<'],
        DependencyVersion::LowerOrEqual(_) => seq!['<', '='],
        DependencyVersion::Exact(_) => seq!['='],
        DependencyVersion::HigherOrEqual(_) => seq!['>', '='],
        DependencyVersion::Higher(_) => seq!['>'],
    }
}

/// The text of a constraint: nothing for `Any`, else the comparator, one
/// space and the canonical text of the bound.
pub open spec fn constraint_text(c: DependencyVersion) -> Seq<char> {
    match c.bound() {
        None => Seq::empty(),
        Some(v) => comparator_text(c).push(' ') + version_text(v),
    }
}

/// The constraint that the comparator `token` makes of the bound `v`, if
/// `token` is a comparator.
pub open spec fn bounded(token: Seq<char>, v: Version) -> Option<DependencyVersion> {
    if token =~= seq!['<'] {
        Some(DependencyVersion::Lower(v))
    } else if token =~= seq!['<', '='] {
        Some(DependencyVersion::LowerOrEqual(v))
    } else if token =~= seq!['='] {
        Some(DependencyVersion::Exact(v))
    } else if token =~= seq!['>', '='] {
        Some(DependencyVersion::HigherOrEqual(v))
    } else if token =~= seq!['>'] {
        Some(DependencyVersion::Higher(v))
    } else {
        None
    }
}

/// What reading `text` as a constraint gives. Text that is empty once
/// trimmed is `Any`. Otherwise the trimmed text is cut at its spaces: the
/// first token is the comparator and the second the version, read leniently;
/// further tokens are not looked at. A missing version is reported before a
/// bad version, and that before a bad comparator.
pub open spec fn constraint_parse(text: Seq<char>) -> Result<
    DependencyVersion,
    DependencyParseError,
> {
    let t = trim(text);
    let tokens = split(t, ' ');
    if t.len() == 0 {
        Ok(DependencyVersion::Any)
    } else if tokens.len() < 2 {
        Err(DependencyParseError::MissingVersion)
    } else {
        match lenient_parse(tokens[1]) {
            Err(e) => Err(DependencyParseError::InvalidNumber(e)),
            Ok(v) => match bounded(tokens[0], v) {
                Some(c) => Ok(c),
                None => Err(DependencyParseError::InvalidComparator),
            },
        }
    }
}

impl DependencyVersion {
    /// The bound of the constraint; `Any` has none.
    pub open spec fn bound(self) -> Option<Version> {
        match self {
            DependencyVersion::Any => None,
            DependencyVersion::Lower(v) => Some(v),
            DependencyVersion::LowerOrEqual(v) => Some(v),
            DependencyVersion::Exact(v) => Some(v),
            DependencyVersion::HigherOrEqual(v) => Some(v),
            DependencyVersion::Higher(v) => Some(v),
        }
    }

    /// Does the constraint hold of `version`? Each bound is inclusive or
    /// exclusive as the variant's name says.
    pub open spec fn spec_allows(&self, version: Version) -> bool {
        match *self {
            DependencyVersion::Any => true,
            DependencyVersion::Lower(v) => version.precedes(v),
            DependencyVersion::LowerOrEqual(v) => version.at_most(v),
            DependencyVersion::Exact(v) => version == v,
            DependencyVersion::HigherOrEqual(v) => v.at_most(version),
            DependencyVersion::Higher(v) => v.precedes(version),
        }
    }

    /// Is the version at `i` the one that the constraint picks from
    /// `versions`? For `Exact` that is the first version equal to the bound;
    /// for the others it is the highest allowed version, and the last one
    /// where that version occurs more than once.
    pub open spec fn picks(self, versions: Seq<Version>, i: int) -> bool {
        &&& 0 <= i < versions.len()
        &&& self.spec_allows(versions[i])
        &&& if self is Exact {
            forall|j: int| 0 <= j < i ==> !self.spec_allows(#[trigger] versions[j])
        } else {
            &&& forall|j: int|
                0 <= j < i && self.spec_allows(#[trigger] versions[j]) ==> versions[j].at_most(
                    versions[i],
                )
            &&& forall|j: int|
                i < j < versions.len() && self.spec_allows(#[trigger] versions[j])
                    ==> versions[j].precedes(versions[i])
        }
    }

    /// Does the constraint allow none of `versions`?
    pub open spec fn allows_none(self, versions: Seq<Version>) -> bool {
        forall|j: int| 0 <= j < versions.len() ==> !self.spec_allows(#[trigger] versions[j])
    }

    /// Does the constraint hold of `version`?
    #[must_use]
    #[verifier::when_used_as_spec(spec_allows)]
    pub fn allows(&self, version: Version) -> (r: bool)
        ensures
            r == self.spec_allows(version),
    {
        match self {
            DependencyVersion::Any => true,
            DependencyVersion::Lower(v) => version < *v,
            DependencyVersion::LowerOrEqual(v) => version <= *v,
            DependencyVersion::Exact(v) => version == *v,
            DependencyVersion::HigherOrEqual(v) => version >= *v,
            DependencyVersion::Higher(v) => version > *v,
        }
    }

    #[must_use]
    pub fn is_any(&self) -> (r: bool)
        ensures
            r == (*self is Any),
    {
        matches!(self, DependencyVersion::Any)
    }

    #[must_use]
    pub fn is_lower(&self) -> (r: bool)
        ensures
            r == (*self is Lower),
    {
        matches!(self, DependencyVersion::Lower(_))
    }

    #[must_use]
    pub fn is_lower_or_equal(&self) -> (r: bool)
        ensures
            r == (*self is LowerOrEqual),
    {
        matches!(self, DependencyVersion::LowerOrEqual(_))
    }

    #[must_use]
    pub fn is_exact(&self) -> (r: bool)
        ensures
            r == (*self is Exact),
    {
        matches!(self, DependencyVersion::Exact(_))
    }

    #[must_use]
    pub fn is_higher_or_equal(&self) -> (r: bool)
        ensures
            r == (*self is HigherOrEqual),
    {
        matches!(self, DependencyVersion::HigherOrEqual(_))
    }

    #[must_use]
    pub fn is_higher(&self) -> (r: bool)
        ensures
            r == (*self is Higher),
    {
        matches!(self, DependencyVersion::Higher(_))
    }

    /// The bound of the constraint; `Any` has none.
    #[must_use]
    pub fn version(&self) -> (r: Option<&Version>)
        ensures
            match r {
                Some(v) => self.bound() == Some(*v),
                None => self.bound() is None,
            },
    {
        match self {
            DependencyVersion::Any => None,
            DependencyVersion::Lower(v)
            | DependencyVersion::LowerOrEqual(v)
            | DependencyVersion::Exact(v)
            | DependencyVersion::HigherOrEqual(v)
            | DependencyVersion::Higher(v) => Some(v),
        }
    }

    /// The place in `versions` of the version that the constraint picks, or
    /// `None` where it allows none of them.
    pub fn allowed_index(&self, versions: &[Version]) -> (r: Option<usize>)
        ensures
            match r {
                Some(i) => self.picks(versions@, i as int),
                None => self.allows_none(versions@),
            },
    {
        let first_only = self.is_exact();
        let mut best: Option<usize> = None;
        let mut i: usize = 0;
        while i < versions.len()
            invariant
                i <= versions.len(),
                first_only == (*self is Exact),
                match best {
                    Some(b) => b < i && self.picks(versions@.take(i as int), b as int),
                    None => self.allows_none(versions@.take(i as int)),
                },
            decreases versions.len() - i,
        {
            let candidate = versions[i];
            let ghost seen = versions@.take(i as int);
            let ghost next = versions@.take(i + 1);
            assert(forall|j: int| 0 <= j < i ==> seen[j] == next[j]);
            assert(next[i as int] == candidate);
            if self.allows(candidate) {
                match best {
                    None => {
                        best = Some(i);
                    },
                    Some(b) => {
                        if !first_only {
                            proof {
                                lemma_order_total(candidate, versions[b as int]);
                            }
                            if candidate >= versions[b] {
                                proof {
                                    assert forall|j: int|
                                        0 <= j < i && self.spec_allows(
                                            #[trigger] next[j],
                                        ) implies next[j].at_most(candidate) by {
                                        lemma_order_total(seen[j], seen[b as int]);
                                        if seen[j].precedes(seen[b as int]) && seen[b as int].precedes(
                                            candidate,
                                        ) {
                                            lemma_order_transitive(
                                                seen[j],
                                                seen[b as int],
                                                candidate,
                                            );
                                        }
                                    }
                                }
                                best = Some(i);
                            }
                        }
                    },
                }
            }
            i += 1;
        }
        assert(versions@.take(i as int) =~= versions@);
        best
    }

    /// The version that the constraint picks from `versions`: the highest
    /// allowed one, or `None` where it allows none of them. For `Exact` that
    /// is the first version equal to the bound.
    #[must_use]
    pub fn get_allowed_version<'a>(&self, versions: &'a [Version]) -> (r: Option<&'a Version>)
        ensures
            match r {
                Some(v) => {
                    &&& versions@.contains(*v)
                    &&& self.spec_allows(*v)
                    &&& forall|j: int|
                        0 <= j < versions.len() && self.spec_allows(#[trigger] versions[j])
                            ==> versions[j].at_most(*v)
                    &&& exists|i: int| self.picks(versions@, i) && versions[i] == *v
                },
                None => self.allows_none(versions@),
            },
    {
        match self.allowed_index(versions) {
            Some(i) => {
                proof {
                    assert forall|j: int|
                        0 <= j < versions.len() && self.spec_allows(
                            #[trigger] versions[j],
                        ) implies versions[j].at_most(versions[i as int]) by {
                        if j < i && self is Exact {
                        }
                    }
                }
                Some(&versions[i])
            },
            None => None,
        }
    }

    /// The text of the constraint: nothing for `Any`, else the comparator,
    /// one space and the bound.
    pub fn to_string(&self) -> (s: String)
        ensures
            s@ == constraint_text(*self),
    {
        proof {
            reveal_strlit("< ");
            reveal_strlit("<= ");
            reveal_strlit("= ");
            reveal_strlit(">= ");
            reveal_strlit("> ");
        }
        let (comparator, bound) = match self {
            DependencyVersion::Any => {
                return String::new();
            },
            DependencyVersion::Lower(v) => ("< ", v),
            DependencyVersion::LowerOrEqual(v) => ("<= ", v),
            DependencyVersion::Exact(v) => ("= ", v),
            DependencyVersion::HigherOrEqual(v) => (">= ", v),
            DependencyVersion::Higher(v) => ("> ", v),
        };
        assert(comparator@ =~= comparator_text(*self).push(' '));
        let mut s = String::from_str(comparator);
        let digits = bound.to_string();
        s.append(digits.as_str());
        s
    }

    /// Reads a constraint.
    pub fn parse(text: &str) -> (r: Result<DependencyVersion, DependencyParseError>)
        ensures
            r == constraint_parse(text@),
    {
        let chars = chars_of(text);
        DependencyVersion::parse_chars(chars.as_slice())
    }

    /// Reads a constraint from characters.
    pub fn parse_chars(chars: &[char]) -> (r: Result<DependencyVersion, DependencyParseError>)
        ensures
            r == constraint_parse(chars@),
    {
        let t = trim_slice(chars);
        if t.len() == 0 {
            return Ok(DependencyVersion::Any);
        }
        let tokens = split_on(t, ' ');
        proof {
            lemma_split_nonempty(t@, ' ');
        }
        if tokens.len() < 2 {
            return Err(DependencyParseError::MissingVersion);
        }
        assert(texts(tokens@)[0] == tokens@[0]@);
        assert(texts(tokens@)[1] == tokens@[1]@);
        let version = match Version::parse_lenient_chars(tokens[1].as_slice()) {
            Ok(v) => v,
            Err(e) => {
                return Err(DependencyParseError::InvalidNumber(e));
            },
        };
        let c = &tokens[0];
        let n = c.len();
        if n == 1 && c[0] == '<' {
            Ok(DependencyVersion::Lower(version))
        } else if n == 2 && c[0] == '<' && c[1] == '=' {
            Ok(DependencyVersion::LowerOrEqual(version))
        } else if n == 1 && c[0] == '=' {
            Ok(DependencyVersion::Exact(version))
        } else if n == 2 && c[0] == '>' && c[1] == '=' {
            Ok(DependencyVersion::HigherOrEqual(version))
        } else if n == 1 && c[0] == '>' {
            Ok(DependencyVersion::Higher(version))
        } else {
            assert(!(c@ =~= seq!['<']));
            assert(!(c@ =~= seq!['<', '=']));
            assert(!(c@ =~= seq!['=']));
            assert(!(c@ =~= seq!['>', '=']));
            assert(!(c@ =~= seq!['>']));
            Err(DependencyParseError::InvalidComparator)
        }
    }
}

impl From<Version> for DependencyVersion {
    /// A bare version stands for the constraint that allows it alone.
    fn from(version: Version) -> (r: DependencyVersion) {
        DependencyVersion::Exact(version)
    }
}

impl vstd::std_specs::convert::FromSpecImpl<Version> for DependencyVersion {
    open spec fn obeys_from_spec() -> bool {
        true
    }

    open spec fn from_spec(version: Version) -> DependencyVersion {
        DependencyVersion::Exact(version)
    }
}

impl From<&Version> for DependencyVersion {
    /// A bare version stands for the constraint that allows it alone.
    fn from(version: &Version) -> (r: DependencyVersion) {
        DependencyVersion::Exact(*version)
    }
}

impl vstd::std_specs::convert::FromSpecImpl<&Version> for DependencyVersion {
    open spec fn obeys_from_spec() -> bool {
        true
    }

    open spec fn from_spec(version: &Version) -> DependencyVersion {
        DependencyVersion::Exact(*version)
    }
}

/// The bounds are inclusive or exclusive as the variants' names say: a bound
/// is allowed by `LowerOrEqual`, `Exact` and `HigherOrEqual`, and by neither
/// `Lower` nor `Higher`.
pub proof fn lemma_bound_itself(v: Version)
    ensures
        DependencyVersion::Any.allows(v),
        !DependencyVersion::Lower(v).allows(v),
        DependencyVersion::LowerOrEqual(v).allows(v),
        DependencyVersion::Exact(v).allows(v),
        DependencyVersion::HigherOrEqual(v).allows(v),
        !DependencyVersion::Higher(v).allows(v),
{
}

/// `Lower` and `HigherOrEqual` with one bound part the versions between them,
/// and so do `LowerOrEqual` and `Higher`.
pub proof fn lemma_complements(bound: Version, v: Version)
    ensures
        DependencyVersion::Lower(bound).allows(v) != DependencyVersion::HigherOrEqual(bound).allows(
            v,
        ),
        DependencyVersion::LowerOrEqual(bound).allows(v) != DependencyVersion::Higher(bound).allows(
            v,
        ),
{
    lemma_order_total(v, bound);
}

/// Reading the text of a constraint gives the constraint back.
pub proof fn lemma_constraint_round_trip(c: DependencyVersion)
    ensures
        constraint_parse(constraint_text(c)) == Ok::<DependencyVersion, DependencyParseError>(c),
{
    let t = constraint_text(c);
    match c.bound() {
        None => {
            lemma_trim_clean(t);
        },
        Some(v) => {
            let comparator = comparator_text(c);
            let version = version_text(v);
            lemma_version_text_chars(v);
            assert(t.last() == version.last());
            assert(t[0] == comparator[0]);
            lemma_trim_clean(t);
            assert(!comparator.contains(' '));
            assert(!version.contains(' '));
            lemma_split_whole(version, ' ');
            lemma_split_head(comparator, ' ', version);
            assert(split(t, ' ') =~= seq![comparator, version]);
            lemma_round_trip_lenient(v);
        },
    }
}

/// At most one place in a list is picked.
pub proof fn lemma_picks_once(c: DependencyVersion, versions: Seq<Version>, i: int, j: int)
    requires
        c.picks(versions, i),
        c.picks(versions, j),
    ensures
        i == j,
{
    if i < j {
        lemma_order_total(versions[i], versions[j]);
    } else if j < i {
        lemma_order_total(versions[j], versions[i]);
    }
}

} // verus!
