//! The kind of a dependency: how strongly one package asks for another, or
//! that it excludes it.

use crate::error::DependencyParseError;
use crate::text::chars_of;
use std::cmp::Ordering;
use vstd::prelude::*;

verus! {

/// The strength and polarity of a dependency, from the weakest claim on the
/// other package to the strongest:
/// `Incompatible < Optional < HiddenOptional < RequiredLazy < Required`.
#[derive(Debug, Clone, Copy, PartialEq, Eq, Structural, Ord, Hash)]
pub enum DependencyType {
    Incompatible,
    Optional,
    HiddenOptional,
    RequiredLazy,
    Required,
}

/// The marker that stands for a kind in text; `Required` has none.
pub open spec fn marker_text(kind: DependencyType) -> Seq<char> {
    match kind {
        DependencyType::Incompatible => seq!['!'],
        DependencyType::Optional => seq!['?'],
        DependencyType::HiddenOptional => seq!['(', '?', ')'],
        DependencyType::RequiredLazy => seq!['~'],
        DependencyType::Required => Seq::empty(),
    }
}

/// What reading `text` as a marker gives: the kind whose marker is exactly
/// `text`, if there is one.
pub open spec fn marker_parse(text: Seq<char>) -> Result<DependencyType, DependencyParseError> {
    if text =~= marker_text(DependencyType::Incompatible) {
        Ok(DependencyType::Incompatible)
    } else if text =~= marker_text(DependencyType::Optional) {
        Ok(DependencyType::Optional)
    } else if text =~= marker_text(DependencyType::HiddenOptional) {
        Ok(DependencyType::HiddenOptional)
    } else if text =~= marker_text(DependencyType::RequiredLazy) {
        Ok(DependencyType::RequiredLazy)
    } else if text =~= marker_text(DependencyType::Required) {
        Ok(DependencyType::Required)
    } else {
        Err(DependencyParseError::InvalidType)
    }
}

impl DependencyType {
    /// The place of a kind in the order of the kinds.
    pub open spec fn rank(self) -> nat {
        match self {
            DependencyType::Incompatible => 0,
            DependencyType::Optional => 1,
            DependencyType::HiddenOptional => 2,
            DependencyType::RequiredLazy => 3,
            DependencyType::Required => 4,
        }
    }

    /// How `self` stands to `other` in the order of the kinds.
    pub open spec fn ordering(self, other: DependencyType) -> Ordering {
        if self.rank() < other.rank() {
            Ordering::Less
        } else if self.rank() == other.rank() {
            Ordering::Equal
        } else {
            Ordering::Greater
        }
    }

    pub open spec fn spec_is_required(&self) -> bool {
        *self == DependencyType::RequiredLazy || *self == DependencyType::Required
    }

    pub open spec fn spec_is_optional(&self) -> bool {
        *self == DependencyType::Optional || *self == DependencyType::HiddenOptional
    }

    pub open spec fn spec_is_incompatible(&self) -> bool {
        *self == DependencyType::Incompatible
    }

    /// Does the dependency have to be there: `RequiredLazy` or `Required`?
    #[verifier::when_used_as_spec(spec_is_required)]
    pub fn is_required(&self) -> (r: bool)
        ensures
            r == self.spec_is_required(),
    {
        matches!(self, DependencyType::RequiredLazy | DependencyType::Required)
    }

    /// May the dependency be absent: `Optional` or `HiddenOptional`?
    #[verifier::when_used_as_spec(spec_is_optional)]
    pub fn is_optional(&self) -> (r: bool)
        ensures
            r == self.spec_is_optional(),
    {
        matches!(self, DependencyType::Optional | DependencyType::HiddenOptional)
    }

    /// Does the dependency exclude the other package?
    #[verifier::when_used_as_spec(spec_is_incompatible)]
    pub fn is_incompatible(&self) -> (r: bool)
        ensures
            r == self.spec_is_incompatible(),
    {
        matches!(self, DependencyType::Incompatible)
    }

    /// The place of this kind in the order of the kinds, from 0.
    pub fn position(&self) -> (r: u8)
        ensures
            r == self.rank(),
    {
        match self {
            DependencyType::Incompatible => 0,
            DependencyType::Optional => 1,
            DependencyType::HiddenOptional => 2,
            DependencyType::RequiredLazy => 3,
            DependencyType::Required => 4,
        }
    }

    /// The marker of this kind: `!`, `?`, `(?)`, `~`, or nothing for
    /// `Required`.
    pub fn to_string(&self) -> (s: String)
        ensures
            s@ == marker_text(*self),
    {
        proof {
            reveal_strlit("!");
            reveal_strlit("?");
            reveal_strlit("(?)");
            reveal_strlit("~");
        }
        let s = match self {
            DependencyType::Incompatible => String::from_str("!"),
            DependencyType::Optional => String::from_str("?"),
            DependencyType::HiddenOptional => String::from_str("(?)"),
            DependencyType::RequiredLazy => String::from_str("~"),
            DependencyType::Required => String::new(),
        };
        assert(s@ =~= marker_text(*self));
        s
    }

    /// Reads a marker. The text has to be exactly one of the five markers.
    pub fn parse(text: &str) -> (r: Result<DependencyType, DependencyParseError>)
        ensures
            r == marker_parse(text@),
    {
        let chars = chars_of(text);
        let n = chars.len();
        if n == 0 {
            Ok(DependencyType::Required)
        } else if n == 1 && chars[0] == '!' {
            Ok(DependencyType::Incompatible)
        } else if n == 1 && chars[0] == '?' {
            Ok(DependencyType::Optional)
        } else if n == 3 && chars[0] == '(' && chars[1] == '?' && chars[2] == ')' {
            Ok(DependencyType::HiddenOptional)
        } else if n == 1 && chars[0] == '~' {
            Ok(DependencyType::RequiredLazy)
        } else {
            assert(!(text@ =~= marker_text(DependencyType::Incompatible)));
            assert(!(text@ =~= marker_text(DependencyType::Optional)));
            assert(!(text@ =~= marker_text(DependencyType::HiddenOptional)));
            assert(!(text@ =~= marker_text(DependencyType::RequiredLazy)));
            Err(DependencyParseError::InvalidType)
        }
    }
}

impl PartialOrd for DependencyType {
    fn partial_cmp(&self, other: &DependencyType) -> (r: Option<Ordering>) {
        let a = self.position();
        let b = other.position();
        if a < b {
            Some(Ordering::Less)
        } else if a == b {
            Some(Ordering::Equal)
        } else {
            Some(Ordering::Greater)
        }
    }
}

impl vstd::std_specs::cmp::PartialOrdSpecImpl for DependencyType {
    open spec fn obeys_partial_cmp_spec() -> bool {
        true
    }

    open spec fn partial_cmp_spec(&self, other: &DependencyType) -> Option<Ordering> {
        Some(self.ordering(*other))
    }
}

/// Each kind falls under exactly one of required, optional and incompatible.
pub proof fn lemma_kind_classes(kind: DependencyType)
    ensures
        kind.is_required() || kind.is_optional() || kind.is_incompatible(),
        !(kind.is_required() && kind.is_optional()),
        !(kind.is_required() && kind.is_incompatible()),
        !(kind.is_optional() && kind.is_incompatible()),
{
}

/// Reading the marker of a kind gives the kind back.
pub proof fn lemma_marker_round_trip(kind: DependencyType)
    ensures
        marker_parse(marker_text(kind)) == Ok::<DependencyType, DependencyParseError>(kind),
{
    assert(marker_text(DependencyType::Incompatible)[0] == '!');
    assert(marker_text(DependencyType::Optional)[0] == '?');
    assert(marker_text(DependencyType::HiddenOptional)[0] == '(');
    assert(marker_text(DependencyType::RequiredLazy)[0] == '~');
}

} // verus!
