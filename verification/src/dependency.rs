//! Dependencies: a kind, the name of the other package and a constraint on
//! its version; the parser of the compact text form, and the questions that a
//! dependency answers about a candidate.

use crate::dependency_type::marker_text;
use crate::dependency_type::DependencyType;
use crate::dependency_version::constraint_parse;
use crate::dependency_version::comparator_text;
use crate::dependency_version::constraint_text;
use crate::dependency_version::lemma_constraint_round_trip;
use crate::dependency_version::DependencyVersion;
use crate::error::DependencyParseError;
use crate::text::chars_of;
use crate::text::first_where;
use crate::text::is_whitespace;
use crate::text::join;
use crate::text::join_range;
use crate::text::lemma_first_where;
use crate::text::lemma_first_where_is;
use crate::text::not_whitespace;
use crate::text::lemma_join_pair;
use crate::text::lemma_split_head;
use crate::text::lemma_split_nonempty;
use crate::text::lemma_split_whole;
use crate::text::lemma_trim_clean;
use crate::text::split;
use crate::text::split_on;
use crate::text::string_of;
use crate::text::texts;
use crate::text::trim;
use crate::text::trim_slice;
use crate::version::lemma_version_text_chars;
use crate::version::version_text;
use crate::version::Version;
use vstd::prelude::*;
use vstd::slice::slice_subrange;

verus! {

/// A declaration that a package requires, tolerates or excludes another.
#[derive(Debug, Clone)]
pub struct Dependency {
    kind: DependencyType,
    name: String,
    version: DependencyVersion,
}

/// What a `Dependency` holds, as plain values.
pub struct DependencyView {
    pub kind: DependencyType,
    pub name: Seq<char>,
    pub version: DependencyVersion,
}

impl View for Dependency {
    type V = DependencyView;

    closed spec fn view(&self) -> DependencyView {
        DependencyView { kind: self.kind, name: self.name@, version: self.version }
    }
}

/// The kind that the start of a trimmed dependency text stands for. The
/// markers are tried in the order `!`, `?`, `(?)`, `~`; text that starts with
/// none of them is `Required`.
pub open spec fn leading_kind(t: Seq<char>) -> DependencyType {
    if t.len() >= 1 && t[0] == '!' {
        DependencyType::Incompatible
    } else if t.len() >= 1 && t[0] == '?' {
        DependencyType::Optional
    } else if t.len() >= 3 && t[0] == '(' && t[1] == '?' && t[2] == ')' {
        DependencyType::HiddenOptional
    } else if t.len() >= 1 && t[0] == '~' {
        DependencyType::RequiredLazy
    } else {
        DependencyType::Required
    }
}

/// Is `c` one of `<`, `>`, `=`?
pub open spec fn is_comparator_char(c: char) -> bool {
    c == '<' || c == '>' || c == '='
}

/// The predicate "is one of `<`, `>`, `=`".
pub open spec fn comparator_char() -> spec_fn(char) -> bool {
    |c: char| is_comparator_char(c)
}

/// `s` up to its first `<`, `>` or `=`, or all of `s` where it has none.
pub open spec fn before_comparator(s: Seq<char>) -> Seq<char> {
    s.take(first_where(s, comparator_char()) as int)
}

/// The constraint that the last two of `tokens` spell, where there are more
/// than two tokens after the first `first` and the two, joined by a space,
/// read as a constraint.
pub open spec fn trailing_constraint(tokens: Seq<Seq<char>>, first: int) -> Option<
    DependencyVersion,
> {
    let n = tokens.len() as int;
    if n > first + 2 {
        match constraint_parse(join(tokens.subrange(n - 2, n), ' ')) {
            Ok(c) => Some(c),
            Err(_) => None,
        }
    } else {
        None
    }
}

/// What reading `text` as a dependency gives.
///
/// The text is trimmed; nothing left is a failure. The kind is that of the
/// leading marker. The text is then cut at its spaces into tokens.
///
/// - One token and no marker: the name is the text up to its first `<`, `>`
///   or `=`, and the constraint is `Any`, whatever follows the name.
/// - Otherwise a marker counts as the first token whether or not a space
///   follows it. If the last two tokens read as a constraint, and more than
///   two tokens stand behind the marker's place, they are the constraint and
///   the name is made of the tokens between; else the constraint is `Any` and
///   the name is made of all tokens behind the marker's place. The name's
///   tokens are joined by spaces and cut off at the first `<`, `>` or `=`.
pub open spec fn dependency_parse(text: Seq<char>) -> Result<DependencyView, DependencyParseError> {
    let t = trim(text);
    let kind = leading_kind(t);
    let tokens = split(t, ' ');
    let n = tokens.len() as int;
    let first: int = if kind == DependencyType::Required {
        0
    } else {
        1
    };
    if t.len() == 0 {
        Err(DependencyParseError::EmptyDependency)
    } else if n == 1 && kind == DependencyType::Required {
        Ok(DependencyView { kind, name: before_comparator(t), version: DependencyVersion::Any })
    } else {
        match trailing_constraint(tokens, first) {
            Some(version) => Ok(
                DependencyView {
                    kind,
                    name: before_comparator(join(tokens.subrange(first, n - 2), ' ')),
                    version,
                },
            ),
            None => Ok(
                DependencyView {
                    kind,
                    name: before_comparator(join(tokens.subrange(first, n), ' ')),
                    version: DependencyVersion::Any,
                },
            ),
        }
    }
}

/// The text of a dependency: the marker, one space, the name, and the text of
/// the constraint right behind the name.
pub open spec fn dependency_text(d: DependencyView) -> Seq<char> {
    marker_text(d.kind).push(' ') + d.name + constraint_text(d.version)
}

/// Does the dependency `d` allow the package `name` at `version`? It does when
/// it names that package, is not incompatible, and its constraint holds.
pub open spec fn view_allows(d: DependencyView, name: Seq<char>, version: Version) -> bool {
    d.name == name && !d.kind.is_incompatible() && d.version.allows(version)
}

/// Does the dependency `d` conflict with the package `name` at `version`? It
/// does when it names that package and is incompatible or its constraint
/// fails.
pub open spec fn view_conflicts(d: DependencyView, name: Seq<char>, version: Version) -> bool {
    d.name == name && (!d.version.allows(version) || d.kind.is_incompatible())
}

/// The kind that the start of `t` stands for.
fn leading_kind_of(t: &[char]) -> (kind: DependencyType)
    ensures
        kind == leading_kind(t@),
{
    let n = t.len();
    if n >= 1 && t[0] == '!' {
        DependencyType::Incompatible
    } else if n >= 1 && t[0] == '?' {
        DependencyType::Optional
    } else if n >= 3 && t[0] == '(' && t[1] == '?' && t[2] == ')' {
        DependencyType::HiddenOptional
    } else if n >= 1 && t[0] == '~' {
        DependencyType::RequiredLazy
    } else {
        DependencyType::Required
    }
}

/// `s` up to its first `<`, `>` or `=`.
fn cut_at_comparator(s: &[char]) -> (r: &[char])
    ensures
        r@ == before_comparator(s@),
{
    let mut i: usize = 0;
    while i < s.len() && !(s[i] == '<' || s[i] == '>' || s[i] == '=')
        invariant
            i <= s.len(),
            forall|j: int| 0 <= j < i ==> !comparator_char()(#[trigger] s@[j]),
        decreases s.len() - i,
    {
        i += 1;
    }
    proof {
        lemma_first_where_is(s@, comparator_char(), i as int);
    }
    slice_subrange(s, 0, i)
}

impl Dependency {
    /// Builds a dependency from its three parts.
    pub fn new(kind: DependencyType, name: String, version: DependencyVersion) -> (d: Dependency)
        ensures
            d@ == (DependencyView { kind, name: name@, version }),
    {
        Dependency { kind, name, version }
    }

    /// Reads a dependency from its compact text form.
    pub fn parse(text: &str) -> (r: Result<Dependency, DependencyParseError>)
        ensures
            match r {
                Ok(d) => dependency_parse(text@) == Ok::<DependencyView, DependencyParseError>(d@),
                Err(e) => dependency_parse(text@) == Err::<DependencyView, DependencyParseError>(e),
            },
    {
        let chars = chars_of(text);
        let t = trim_slice(chars.as_slice());
        if t.len() == 0 {
            return Err(DependencyParseError::EmptyDependency);
        }
        let kind = leading_kind_of(t);
        let tokens = split_on(t, ' ');
        let n = tokens.len();
        proof {
            lemma_split_nonempty(t@, ' ');
        }
        let no_marker = matches!(kind, DependencyType::Required);
        if n == 1 && no_marker {
            let name = string_of(cut_at_comparator(t));
            return Ok(Dependency { kind, name, version: DependencyVersion::Any });
        }
        let first: usize = if no_marker {
            0
        } else {
            1
        };
        let trailing: Option<DependencyVersion> = if n > first + 2 {
            let last_two = join_range(tokens.as_slice(), n - 2, n, ' ');
            match DependencyVersion::parse_chars(last_two.as_slice()) {
                Ok(c) => Some(c),
                Err(_) => None,
            }
        } else {
            None
        };
        assert(trailing == trailing_constraint(texts(tokens@), first as int));
        let (last, version) = match trailing {
            Some(c) => (n - 2, c),
            None => (n, DependencyVersion::Any),
        };
        let joined = join_range(tokens.as_slice(), first, last, ' ');
        let name = string_of(cut_at_comparator(joined.as_slice()));
        Ok(Dependency { kind, name, version })
    }

    /// The kind of the dependency.
    #[must_use]
    pub fn kind(&self) -> (r: DependencyType)
        ensures
            r == self@.kind,
    {
        self.kind
    }

    /// Does the dependency have to be there?
    #[must_use]
    pub fn is_required(&self) -> (r: bool)
        ensures
            r == self@.kind.is_required(),
    {
        self.kind.is_required()
    }

    /// May the dependency be absent?
    #[must_use]
    pub fn is_optional(&self) -> (r: bool)
        ensures
            r == self@.kind.is_optional(),
    {
        self.kind.is_optional()
    }

    /// Does the dependency exclude the other package?
    #[must_use]
    pub fn is_incompatible(&self) -> (r: bool)
        ensures
            r == self@.kind.is_incompatible(),
    {
        self.kind.is_incompatible()
    }

    /// The name of the other package.
    #[must_use]
    pub fn name(&self) -> (r: &String)
        ensures
            r@ == self@.name,
    {
        &self.name
    }

    /// The constraint on the other package's version.
    #[must_use]
    pub fn version(&self) -> (r: &DependencyVersion)
        ensures
            *r == self@.version,
    {
        &self.version
    }

    /// The text of the dependency: marker, space, name, constraint.
    pub fn to_string(&self) -> (s: String)
        ensures
            s@ == dependency_text(self@),
    {
        let mut s = self.kind.to_string();
        s.push(' ');
        s.append(self.name.as_str());
        let constraint = self.version.to_string();
        s.append(constraint.as_str());
        s
    }
}

/// What answers whether a candidate package is allowed or in conflict.
pub trait DependencyUtil {
    /// Is the package `name` at `version` allowed?
    spec fn spec_allows(&self, name: Seq<char>, version: Version) -> bool;

    /// Is the package `name` at `version` in conflict?
    spec fn spec_conflicts(&self, name: Seq<char>, version: Version) -> bool;

    /// Is the package `name` at `version` allowed?
    fn allows(&self, name: &str, version: Version) -> (r: bool)
        ensures
            r == self.spec_allows(name@, version),
    ;

    /// Is the package `name` at `version` in conflict?
    fn conflicts(&self, name: &str, version: Version) -> (r: bool)
        ensures
            r == self.spec_conflicts(name@, version),
    ;
}

impl DependencyUtil for Dependency {
    open spec fn spec_allows(&self, name: Seq<char>, version: Version) -> bool {
        view_allows(self@, name, version)
    }

    open spec fn spec_conflicts(&self, name: Seq<char>, version: Version) -> bool {
        view_conflicts(self@, name, version)
    }

    fn allows(&self, name: &str, version: Version) -> (r: bool) {
        *self.name.as_str() == *name && !self.kind.is_incompatible() && self.version.allows(version)
    }

    fn conflicts(&self, name: &str, version: Version) -> (r: bool) {
        *self.name.as_str() == *name && (!self.version.allows(version)
            || self.kind.is_incompatible())
    }
}

impl DependencyUtil for &Dependency {
    open spec fn spec_allows(&self, name: Seq<char>, version: Version) -> bool {
        view_allows((*self)@, name, version)
    }

    open spec fn spec_conflicts(&self, name: Seq<char>, version: Version) -> bool {
        view_conflicts((*self)@, name, version)
    }

    fn allows(&self, name: &str, version: Version) -> (r: bool) {
        (*self).allows(name, version)
    }

    fn conflicts(&self, name: &str, version: Version) -> (r: bool) {
        (*self).conflicts(name, version)
    }
}

/// Only text that is empty once trimmed is refused, and the failure says so.
pub proof fn lemma_refused_when_empty(text: Seq<char>)
    ensures
        dependency_parse(text) is Err <==> trim(text).len() == 0,
        dependency_parse(text) is Err ==> dependency_parse(text)
            == Err::<DependencyView, DependencyParseError>(DependencyParseError::EmptyDependency),
{
}

/// The name of a dependency that was read holds none of `<`, `>` and `=`.
pub proof fn lemma_name_without_comparator(text: Seq<char>, i: int)
    requires
        dependency_parse(text) is Ok,
        0 <= i < dependency_parse(text)->Ok_0.name.len(),
    ensures
        !is_comparator_char(dependency_parse(text)->Ok_0.name[i]),
{
    let t = trim(text);
    let tokens = split(t, ' ');
    let n = tokens.len() as int;
    let first: int = if leading_kind(t) == DependencyType::Required {
        0
    } else {
        1
    };
    let full = if n == 1 && leading_kind(t) == DependencyType::Required {
        t
    } else if trailing_constraint(tokens, first) is Some {
        join(tokens.subrange(first, n - 2), ' ')
    } else {
        join(tokens.subrange(first, n), ' ')
    };
    assert(dependency_parse(text)->Ok_0.name == before_comparator(full));
    lemma_first_where(full, comparator_char());
}

/// Is `name` a name that a declaration can spell: not empty, and free of
/// white space and of `<`, `>` and `=`?
pub open spec fn plain_name(name: Seq<char>) -> bool {
    &&& name.len() > 0
    &&& forall|i: int|
        0 <= i < name.len() ==> !is_whitespace(#[trigger] name[i]) && !is_comparator_char(name[i])
}

/// The text that declares a dependency: the marker and a space, where the
/// kind has a marker; the name; and a space and the constraint, where there
/// is a constraint.
pub open spec fn declaration_text(d: DependencyView) -> Seq<char> {
    let head = if d.kind == DependencyType::Required {
        d.name
    } else {
        marker_text(d.kind).push(' ') + d.name
    };
    if d.version is Any {
        head
    } else {
        head.push(' ') + constraint_text(d.version)
    }
}

/// A plain name holds no space, starts and ends with something else than
/// white space, and is not cut short at a comparator.
proof fn lemma_plain_name(name: Seq<char>)
    requires
        plain_name(name),
    ensures
        !name.contains(' '),
        !is_whitespace(name[0]),
        !is_whitespace(name.last()),
        before_comparator(name) == name,
        split(name, ' ') == seq![name],
        join(seq![name], ' ') == name,
{
    assert(is_whitespace(' '));
    if name.contains(' ') {
        let i = choose|i: int| 0 <= i < name.len() && name[i] == ' ';
        assert(is_whitespace(name[i]));
    }
    lemma_first_where_is(name, comparator_char(), name.len() as int);
    assert(name.take(name.len() as int) =~= name);
    lemma_split_whole(name, ' ');
}

/// The text of a constraint other than `Any` is a comparator, a space and a
/// version: two tokens that join to the text again.
proof fn lemma_constraint_tokens(c: DependencyVersion)
    requires
        !(c is Any),
    ensures
        constraint_text(c).len() > 0,
        !is_whitespace(constraint_text(c).last()),
        !comparator_text(c).contains(' '),
        comparator_text(c).len() > 0,
        split(constraint_text(c), ' ') == seq![comparator_text(c), version_text(c.bound()->0)],
        join(seq![comparator_text(c), version_text(c.bound()->0)], ' ') == constraint_text(c),
{
    let v = c.bound()->0;
    let comparator = comparator_text(c);
    let version = version_text(v);
    lemma_version_text_chars(v);
    assert(constraint_text(c).last() == version.last());
    assert(!version.contains(' '));
    lemma_split_whole(version, ' ');
    lemma_split_head(comparator, ' ', version);
    assert(seq![comparator] + seq![version] =~= seq![comparator, version]);
    lemma_join_pair(comparator, version, ' ');
}

/// A name and a constraint, with one space between them, read back.
proof fn lemma_reads_name_and_constraint(name: Seq<char>, c: DependencyVersion)
    requires
        plain_name(name),
        leading_kind(name) == DependencyType::Required,
        !(c is Any),
    ensures
        dependency_parse(name.push(' ') + constraint_text(c)) == Ok::<
            DependencyView,
            DependencyParseError,
        >(DependencyView { kind: DependencyType::Required, name, version: c }),
{
    let constraint = constraint_text(c);
    let comparator = comparator_text(c);
    let version = version_text(c.bound()->0);
    let t = name.push(' ') + constraint;
    lemma_plain_name(name);
    lemma_constraint_tokens(c);
    lemma_constraint_round_trip(c);
    assert(t[0] == name[0]);
    assert(t.last() == constraint.last());
    lemma_trim_clean(t);
    assert(forall|i: int| 0 <= i < name.len() ==> t[i] == name[i]);
    assert(t[name.len() as int] == ' ');
    assert(leading_kind(t) == DependencyType::Required);
    lemma_split_head(name, ' ', constraint);
    let tokens = seq![name, comparator, version];
    assert(split(t, ' ') =~= tokens);
    assert(tokens.subrange(1, 3) =~= seq![comparator, version]);
    assert(tokens.subrange(0, 1) =~= seq![name]);
}

/// A marker and a name, with one space between them, read back.
proof fn lemma_reads_marker_and_name(kind: DependencyType, name: Seq<char>)
    requires
        plain_name(name),
        kind != DependencyType::Required,
    ensures
        dependency_parse(marker_text(kind).push(' ') + name) == Ok::<
            DependencyView,
            DependencyParseError,
        >(DependencyView { kind, name, version: DependencyVersion::Any }),
{
    let marker = marker_text(kind);
    let t = marker.push(' ') + name;
    lemma_plain_name(name);
    assert(t[0] == marker[0]);
    assert(t.last() == name.last());
    lemma_trim_clean(t);
    assert(forall|i: int| 0 <= i < marker.len() ==> t[i] == marker[i]);
    assert(leading_kind(t) == kind);
    assert(!marker.contains(' '));
    lemma_split_head(marker, ' ', name);
    let tokens = seq![marker, name];
    assert(split(t, ' ') =~= tokens);
    assert(tokens.subrange(1, 2) =~= seq![name]);
}

/// A marker, a name and a constraint, with one space between neighbours, read
/// back.
proof fn lemma_reads_marker_name_and_constraint(
    kind: DependencyType,
    name: Seq<char>,
    c: DependencyVersion,
)
    requires
        plain_name(name),
        kind != DependencyType::Required,
        !(c is Any),
    ensures
        dependency_parse((marker_text(kind).push(' ') + name).push(' ') + constraint_text(c))
            == Ok::<DependencyView, DependencyParseError>(
            DependencyView { kind, name, version: c },
        ),
{
    let marker = marker_text(kind);
    let constraint = constraint_text(c);
    let comparator = comparator_text(c);
    let version = version_text(c.bound()->0);
    let t = (marker.push(' ') + name).push(' ') + constraint;
    let rest = name.push(' ') + constraint;
    lemma_plain_name(name);
    lemma_constraint_tokens(c);
    lemma_constraint_round_trip(c);
    assert(t =~= marker.push(' ') + rest);
    assert(t[0] == marker[0]);
    assert(t.last() == constraint.last());
    lemma_trim_clean(t);
    assert(forall|i: int| 0 <= i < marker.len() ==> t[i] == marker[i]);
    assert(leading_kind(t) == kind);
    assert(!marker.contains(' '));
    lemma_split_head(name, ' ', constraint);
    lemma_split_head(marker, ' ', rest);
    let tokens = seq![marker, name, comparator, version];
    assert(split(t, ' ') =~= tokens);
    assert(tokens.subrange(2, 4) =~= seq![comparator, version]);
    assert(tokens.subrange(1, 2) =~= seq![name]);
}

/// A declaration reads back as the dependency it declares, where the name is
/// plain and, for want of a marker, does not itself start like one.
pub proof fn lemma_declaration_reads_back(d: DependencyView)
    requires
        plain_name(d.name),
        d.kind == DependencyType::Required ==> leading_kind(d.name) == DependencyType::Required,
    ensures
        dependency_parse(declaration_text(d)) == Ok::<DependencyView, DependencyParseError>(d),
{
    if d.kind == DependencyType::Required {
        if d.version is Any {
            lemma_plain_name(d.name);
            lemma_trim_clean(d.name);
            lemma_compact_form(d.name);
        } else {
            lemma_reads_name_and_constraint(d.name, d.version);
        }
    } else {
        if d.version is Any {
            lemma_reads_marker_and_name(d.kind, d.name);
        } else {
            lemma_reads_marker_name_and_constraint(d.kind, d.name, d.version);
        }
    }
}

/// A name with a constraint glued to it, as `to_string` writes it, is cut
/// back to the name.
proof fn lemma_glued_constraint(name: Seq<char>, c: DependencyVersion)
    requires
        plain_name(name),
        !(c is Any),
    ensures
        before_comparator(name + constraint_text(c)) == name,
        split(name + constraint_text(c), ' ') == seq![
            name + comparator_text(c),
            version_text(c.bound()->0),
        ],
        join(seq![name + comparator_text(c), version_text(c.bound()->0)], ' ') == name
            + constraint_text(c),
        !is_whitespace((name + constraint_text(c)).last()),
{
    let comparator = comparator_text(c);
    let version = version_text(c.bound()->0);
    let glued = name + constraint_text(c);
    lemma_plain_name(name);
    lemma_constraint_tokens(c);
    assert(glued[name.len() as int] == comparator[0]);
    assert forall|j: int| 0 <= j < name.len() implies !comparator_char()(#[trigger] glued[j]) by {
        assert(glued[j] == name[j]);
    }
    lemma_first_where_is(glued, comparator_char(), name.len() as int);
    assert(glued.take(name.len() as int) =~= name);
    let first = name + comparator;
    assert(glued =~= first.push(' ') + version);
    assert(!first.contains(' ')) by {
        if first.contains(' ') {
            let j = choose|j: int| 0 <= j < first.len() && first[j] == ' ';
            if j < name.len() {
                assert(name.contains(name[j]));
            } else {
                assert(comparator.contains(comparator[j - name.len()]));
            }
        }
    }
    lemma_version_text_chars(c.bound()->0);
    assert(!version.contains(' '));
    lemma_split_whole(version, ' ');
    lemma_split_head(first, ' ', version);
    assert(seq![first] + seq![version] =~= seq![first, version]);
    lemma_join_pair(first, version, ' ');
    assert(glued.last() == version.last());
}

/// What `to_string` writes reads back with the same kind and name, but
/// without the constraint: glued to the name, it is taken for a part of it
/// and cut off. The name has to be plain and, for want of a marker, must not
/// itself start like one.
pub proof fn lemma_written_form_reads_back(d: DependencyView)
    requires
        plain_name(d.name),
        d.kind == DependencyType::Required ==> leading_kind(d.name) == DependencyType::Required,
    ensures
        dependency_parse(dependency_text(d)) == Ok::<DependencyView, DependencyParseError>(
            DependencyView { kind: d.kind, name: d.name, version: DependencyVersion::Any },
        ),
{
    let marker = marker_text(d.kind);
    let name = d.name;
    let tail = name + constraint_text(d.version);
    let t = dependency_text(d);
    lemma_plain_name(name);
    assert(t =~= marker.push(' ') + tail);
    assert(tail[0] == name[0]);
    if d.version is Any {
        assert(tail =~= name);
    } else {
        lemma_glued_constraint(name, d.version);
    }
    let tokens = split(tail, ' ');
    assert(tokens.len() <= 2);
    assert(join(tokens, ' ') == tail);
    assert(before_comparator(tail) == name);
    assert(forall|i: int| 0 <= i < name.len() ==> tail[i] == name[i]);
    if d.kind == DependencyType::Required {
        assert(is_whitespace(' '));
        assert(t =~= seq![' '] + tail);
        assert forall|j: int| 0 <= j < 1 implies !not_whitespace()(#[trigger] t[j]) by {}
        assert(not_whitespace()(t[1]));
        lemma_first_where_is(t, not_whitespace(), 1);
        assert(t.skip(1) =~= tail);
        assert(trim(t) == tail);
        assert(leading_kind(tail) == DependencyType::Required) by {
            if d.version is Any {
            } else {
                assert(tail[name.len() as int] == comparator_text(d.version)[0]);
            }
        }
        assert(tokens.subrange(0, tokens.len() as int) =~= tokens);
    } else {
        assert(t[0] == marker[0]);
        assert(t.last() == tail.last());
        lemma_trim_clean(t);
        assert(forall|i: int| 0 <= i < marker.len() ==> t[i] == marker[i]);
        assert(leading_kind(t) == d.kind);
        assert(!marker.contains(' '));
        lemma_split_head(marker, ' ', tail);
        let all = seq![marker] + tokens;
        assert(all.subrange(1, all.len() as int) =~= tokens);
    }
}

/// The compact form: text without spaces and without a marker names a
/// required dependency without a constraint, and the name ends before the
/// first `<`, `>` or `=`. What follows is dropped.
pub proof fn lemma_compact_form(text: Seq<char>)
    requires
        text.len() > 0,
        trim(text) == text,
        !text.contains(' '),
        leading_kind(text) == DependencyType::Required,
    ensures
        dependency_parse(text) == Ok::<DependencyView, DependencyParseError>(
            DependencyView {
                kind: DependencyType::Required,
                name: before_comparator(text),
                version: DependencyVersion::Any,
            },
        ),
{
    lemma_split_whole(text, ' ');
}

/// A marker takes the whole first token with it: text without spaces that
/// starts with a marker gives a dependency of that kind with an empty name.
pub proof fn lemma_marker_without_space(text: Seq<char>)
    requires
        text.len() > 0,
        trim(text) == text,
        !text.contains(' '),
        leading_kind(text) != DependencyType::Required,
    ensures
        dependency_parse(text) == Ok::<DependencyView, DependencyParseError>(
            DependencyView {
                kind: leading_kind(text),
                name: Seq::empty(),
                version: DependencyVersion::Any,
            },
        ),
{
    lemma_split_whole(text, ' ');
    let tokens = seq![text];
    assert(tokens.subrange(1, 1) =~= Seq::<Seq<char>>::empty());
    assert(before_comparator(Seq::<char>::empty()) =~= Seq::<char>::empty());
}

/// An incompatible dependency conflicts with every version of the package it
/// names and allows none, whatever its constraint.
pub proof fn lemma_incompatible_always_conflicts(d: Dependency, version: Version)
    requires
        d@.kind == DependencyType::Incompatible,
    ensures
        d.spec_conflicts(d@.name, version),
        !d.spec_allows(d@.name, version),
{
}

/// A dependency that is not incompatible either allows or conflicts with a
/// candidate of its own name, never both; a candidate of another name is
/// neither allowed nor in conflict.
pub proof fn lemma_allows_or_conflicts(d: Dependency, name: Seq<char>, version: Version)
    ensures
        !(d.spec_allows(name, version) && d.spec_conflicts(name, version)),
        name == d@.name ==> d.spec_allows(name, version) || d.spec_conflicts(name, version),
        name != d@.name ==> !d.spec_allows(name, version) && !d.spec_conflicts(name, version),
{
}

} // verus!
