//! Character sequences: searching, trimming, splitting and joining.
//!
//! The parsers of this crate read text as a sequence of characters. The spec
//! functions here say what each operation yields; the executable functions
//! compute it on slices of `char` and are proved against them.

use vstd::prelude::*;
use vstd::slice::slice_subrange;

verus! {

/// The index of the first character of `s` that satisfies `p`, or the length
/// of `s` when none does.
pub open spec fn first_where(s: Seq<char>, p: spec_fn(char) -> bool) -> nat
    decreases s.len(),
{
    if s.len() == 0 || p(s[0]) {
        0
    } else {
        1 + first_where(s.drop_first(), p)
    }
}

/// `first_where` stays within the sequence, nothing before it satisfies `p`,
/// and the character at it does.
pub proof fn lemma_first_where(s: Seq<char>, p: spec_fn(char) -> bool)
    ensures
        first_where(s, p) <= s.len(),
        forall|j: int| 0 <= j < first_where(s, p) ==> !p(#[trigger] s[j]),
        first_where(s, p) < s.len() ==> p(s[first_where(s, p) as int]),
    decreases s.len(),
{
    if s.len() == 0 || p(s[0]) {
    } else {
        let rest = s.drop_first();
        lemma_first_where(rest, p);
        assert forall|j: int| 0 <= j < first_where(s, p) implies !p(#[trigger] s[j]) by {
            if j > 0 {
                assert(s[j] == rest[j - 1]);
            }
        }
    }
}

/// An index with nothing before it that satisfies `p`, and which is the end
/// of `s` or holds a character that does, is `first_where(s, p)`.
pub proof fn lemma_first_where_is(s: Seq<char>, p: spec_fn(char) -> bool, i: int)
    requires
        0 <= i <= s.len(),
        forall|j: int| 0 <= j < i ==> !p(#[trigger] s[j]),
        i < s.len() ==> p(s[i]),
    ensures
        first_where(s, p) == i,
    decreases s.len(),
{
    if s.len() == 0 || p(s[0]) {
        if i > 0 {
            assert(!p(s[0]));
        }
    } else {
        let rest = s.drop_first();
        assert forall|j: int| 0 <= j < i - 1 implies !p(#[trigger] rest[j]) by {
            assert(rest[j] == s[j + 1]);
        }
        lemma_first_where_is(rest, p, i - 1);
    }
}

/// The predicate "is the character `c`".
pub open spec fn is_char(c: char) -> spec_fn(char) -> bool {
    |x: char| x == c
}

/// White space, as the Unicode property `White_Space` has it.
pub open spec fn is_whitespace(c: char) -> bool {
    let u = c as u32;
    ||| 0x09 <= u <= 0x0D
    ||| u == 0x20
    ||| u == 0x85
    ||| u == 0xA0
    ||| u == 0x1680
    ||| 0x2000 <= u <= 0x200A
    ||| u == 0x2028
    ||| u == 0x2029
    ||| u == 0x202F
    ||| u == 0x205F
    ||| u == 0x3000
}

/// The predicate "is not white space".
pub open spec fn not_whitespace() -> spec_fn(char) -> bool {
    |x: char| !is_whitespace(x)
}

/// `s` without its leading white space.
pub open spec fn trim_start(s: Seq<char>) -> Seq<char> {
    s.skip(first_where(s, not_whitespace()) as int)
}

/// `s` without its trailing white space.
pub open spec fn trim_end(s: Seq<char>) -> Seq<char>
    decreases s.len(),
{
    if s.len() > 0 && is_whitespace(s.last()) {
        trim_end(s.drop_last())
    } else {
        s
    }
}

/// `s` without its leading and trailing white space.
pub open spec fn trim(s: Seq<char>) -> Seq<char> {
    trim_end(trim_start(s))
}

/// The pieces of `s` between the occurrences of `sep`. There is always at
/// least one piece; `n` separators give `n + 1` pieces, empty ones included.
pub open spec fn split(s: Seq<char>, sep: char) -> Seq<Seq<char>>
    decreases s.len(),
{
    let i = first_where(s, is_char(sep));
    if i < s.len() {
        seq![s.take(i as int)] + split(s.skip(i + 1 as int), sep)
    } else {
        seq![s]
    }
}

/// The pieces of `parts` in order, with `sep` between neighbours.
pub open spec fn join(parts: Seq<Seq<char>>, sep: char) -> Seq<char>
    decreases parts.len(),
{
    if parts.len() == 0 {
        Seq::empty()
    } else if parts.len() == 1 {
        parts[0]
    } else {
        join(parts.drop_last(), sep).push(sep) + parts.last()
    }
}

/// The texts that a list of character vectors holds.
pub open spec fn texts(parts: Seq<Vec<char>>) -> Seq<Seq<char>> {
    parts.map_values(|p: Vec<char>| p@)
}

/// A split has at least one piece.
pub proof fn lemma_split_nonempty(s: Seq<char>, sep: char)
    ensures
        split(s, sep).len() >= 1,
{
}

/// A text without the separator is its own single piece.
pub proof fn lemma_split_whole(s: Seq<char>, sep: char)
    requires
        !s.contains(sep),
    ensures
        split(s, sep) == seq![s],
{
    lemma_first_where(s, is_char(sep));
    let i = first_where(s, is_char(sep));
    if i < s.len() {
        assert(s.contains(s[i as int]));
    }
}

/// A text that starts with a separator-free `head` and a separator splits
/// into `head` and the pieces of what follows.
pub proof fn lemma_split_head(head: Seq<char>, sep: char, rest: Seq<char>)
    requires
        !head.contains(sep),
    ensures
        split(head.push(sep) + rest, sep) == seq![head] + split(rest, sep),
{
    let s = head.push(sep) + rest;
    assert forall|j: int| 0 <= j < head.len() implies !is_char(sep)(#[trigger] s[j]) by {
        assert(s[j] == head[j]);
        assert(head.contains(head[j]));
    }
    assert(s[head.len() as int] == sep);
    lemma_first_where_is(s, is_char(sep), head.len() as int);
    assert(s.take(head.len() as int) =~= head);
    assert(s.skip(head.len() + 1 as int) =~= rest);
}

/// Two pieces join into the first, the separator and the second.
pub proof fn lemma_join_pair(a: Seq<char>, b: Seq<char>, sep: char)
    ensures
        join(seq![a], sep) == a,
        join(seq![a, b], sep) == a.push(sep) + b,
{
    assert(seq![a, b].drop_last() =~= seq![a]);
    assert(join(seq![a], sep) == a);
    assert(join(seq![a, b], sep) == join(seq![a, b].drop_last(), sep).push(sep) + b);
}

/// A piece in front of others joins as the piece, the separator and the join
/// of the others.
pub proof fn lemma_join_front(head: Seq<char>, rest: Seq<Seq<char>>, sep: char)
    requires
        rest.len() > 0,
    ensures
        join(seq![head] + rest, sep) == head.push(sep) + join(rest, sep),
    decreases rest.len(),
{
    let all = seq![head] + rest;
    assert(all.last() == rest.last());
    assert(all.drop_last() =~= seq![head] + rest.drop_last());
    assert(join(all, sep) == join(all.drop_last(), sep).push(sep) + rest.last());
    if rest.len() == 1 {
        assert(all.drop_last() =~= seq![head]);
        assert(join(seq![head], sep) == head);
        assert(join(rest, sep) == rest.last());
    } else {
        lemma_join_front(head, rest.drop_last(), sep);
        let front = join(rest.drop_last(), sep);
        assert(join(rest, sep) == front.push(sep) + rest.last());
        assert((head.push(sep) + front).push(sep) + rest.last() =~= head.push(sep) + (front.push(
            sep,
        ) + rest.last()));
    }
}

/// Cutting a text at a separator and joining the pieces with it gives the
/// text back.
pub proof fn lemma_join_split(s: Seq<char>, sep: char)
    ensures
        join(split(s, sep), sep) == s,
    decreases s.len(),
{
    lemma_first_where(s, is_char(sep));
    let i = first_where(s, is_char(sep)) as int;
    if i < s.len() {
        let rest = s.skip(i + 1);
        lemma_join_split(rest, sep);
        lemma_split_nonempty(rest, sep);
        lemma_join_front(s.take(i), split(rest, sep), sep);
        assert(s.take(i).push(sep) + rest =~= s);
    }
}

/// No piece of a split holds the separator.
pub proof fn lemma_split_pieces(s: Seq<char>, sep: char, k: int)
    requires
        0 <= k < split(s, sep).len(),
    ensures
        !split(s, sep)[k].contains(sep),
    decreases s.len(),
{
    lemma_first_where(s, is_char(sep));
    let i = first_where(s, is_char(sep)) as int;
    if i < s.len() {
        if k == 0 {
            let head = s.take(i);
            if head.contains(sep) {
                let j = choose|j: int| 0 <= j < head.len() && head[j] == sep;
                assert(is_char(sep)(s[j]));
            }
        } else {
            lemma_split_pieces(s.skip(i + 1), sep, k - 1);
        }
    } else {
        if s.contains(sep) {
            let j = choose|j: int| 0 <= j < s.len() && s[j] == sep;
            assert(is_char(sep)(s[j]));
        }
    }
}

/// What is left of a trimmed text neither starts nor ends with white space.
pub proof fn lemma_trim_ends(s: Seq<char>)
    ensures
        trim(s).len() > 0 ==> !is_whitespace(trim(s)[0]) && !is_whitespace(trim(s).last()),
{
    lemma_first_where(s, not_whitespace());
    let start = trim_start(s);
    if start.len() > 0 {
        assert(not_whitespace()(start[0]));
    }
    lemma_trim_end_prefix(start);
}

/// Trimming the end leaves a prefix that does not end with white space.
proof fn lemma_trim_end_prefix(s: Seq<char>)
    ensures
        trim_end(s).len() <= s.len(),
        trim_end(s) == s.take(trim_end(s).len() as int),
        trim_end(s).len() > 0 ==> !is_whitespace(trim_end(s).last()),
    decreases s.len(),
{
    if s.len() > 0 && is_whitespace(s.last()) {
        lemma_trim_end_prefix(s.drop_last());
        let r = trim_end(s.drop_last());
        assert(s.drop_last().take(r.len() as int) =~= s.take(r.len() as int));
    } else {
        assert(s.take(s.len() as int) =~= s);
    }
}

/// Trimming twice is trimming once.
pub proof fn lemma_trim_twice(s: Seq<char>)
    ensures
        trim(trim(s)) == trim(s),
{
    lemma_trim_ends(s);
    lemma_trim_clean(trim(s));
}

/// Text that neither starts nor ends with white space is its own trimmed
/// form, and so is the empty text.
pub proof fn lemma_trim_clean(s: Seq<char>)
    requires
        s.len() > 0 ==> !is_whitespace(s[0]) && !is_whitespace(s.last()),
    ensures
        trim(s) == s,
{
    assert(first_where(s, not_whitespace()) == 0);
    assert(s.skip(0) =~= s);
}

/// Is `c` white space?
pub fn is_whitespace_char(c: char) -> (r: bool)
    ensures
        r == is_whitespace(c),
{
    let u: u32 = c as u32;
    (0x09 <= u && u <= 0x0D) || u == 0x20 || u == 0x85 || u == 0xA0 || u == 0x1680 || (0x2000 <= u
        && u <= 0x200A) || u == 0x2028 || u == 0x2029 || u == 0x202F || u == 0x205F || u == 0x3000
}

/// The characters of `text`, in order.
pub fn chars_of(text: &str) -> (chars: Vec<char>)
    ensures
        chars@ == text@,
{
    let mut chars: Vec<char> = Vec::new();
    for c in it: text.chars()
        invariant
            it.seq() == text@,
            chars@ == it.seq().take(it.index() as int),
    {
        chars.push(c);
    }
    chars
}

/// `String::push` of the standard library: the given character is appended to
/// the end of the string, and nothing else of the string changes.
pub assume_specification[ String::push ](s: &mut String, c: char)
    ensures
        final(s)@ == old(s)@.push(c),
;

/// `==` on string slices, as the standard library implements it for `str`:
/// two slices are equal exactly when they hold the same characters.
pub assume_specification[ <str as PartialEq>::eq ](a: &str, b: &str) -> (r: bool)
    ensures
        r == (a@ == b@),
;

/// The string made of `chars`, in order.
pub fn string_of(chars: &[char]) -> (text: String)
    ensures
        text@ == chars@,
{
    let mut text = String::new();
    let mut i: usize = 0;
    while i < chars.len()
        invariant
            i <= chars.len(),
            text@ == chars@.take(i as int),
        decreases chars.len() - i,
    {
        text.push(chars[i]);
        i += 1;
    }
    text
}

/// `s` without its leading and trailing white space.
pub fn trim_slice(s: &[char]) -> (r: &[char])
    ensures
        r@ == trim(s@),
{
    let n = s.len();
    let mut start: usize = 0;
    while start < n && is_whitespace_char(s[start])
        invariant
            start <= n == s.len(),
            forall|j: int| 0 <= j < start ==> !not_whitespace()(#[trigger] s@[j]),
        decreases n - start,
    {
        start += 1;
    }
    proof {
        lemma_first_where_is(s@, not_whitespace(), start as int);
    }
    let mut end: usize = n;
    while end > start && is_whitespace_char(s[end - 1])
        invariant
            start <= end <= n == s.len(),
            trim_end(s@.subrange(start as int, end as int)) == trim(s@),
        decreases end,
    {
        proof {
            let cut = s@.subrange(start as int, end as int);
            assert(cut.last() == s@[end - 1]);
            assert(cut.drop_last() =~= s@.subrange(start as int, end - 1));
        }
        end -= 1;
    }
    proof {
        let cut = s@.subrange(start as int, end as int);
        if end > start {
            assert(cut.last() == s@[end - 1]);
        }
    }
    slice_subrange(s, start, end)
}

/// The pieces of `s` between the occurrences of `sep`.
pub fn split_on(s: &[char], sep: char) -> (parts: Vec<Vec<char>>)
    ensures
        texts(parts@) == split(s@, sep),
{
    let n = s.len();
    let mut parts: Vec<Vec<char>> = Vec::new();
    let mut piece: Vec<char> = Vec::new();
    let mut start: usize = 0;
    let mut i: usize = 0;
    proof {
        assert(s@.skip(0) =~= s@);
        assert(texts(parts@) + split(s@, sep) =~= split(s@, sep));
    }
    while i < n
        invariant
            start <= i <= n == s.len(),
            piece@ == s@.subrange(start as int, i as int),
            forall|j: int| start <= j < i ==> s@[j] != sep,
            split(s@, sep) == texts(parts@) + split(s@.skip(start as int), sep),
        decreases n - i,
    {
        if s[i] == sep {
            proof {
                let tail = s@.skip(start as int);
                assert forall|j: int| 0 <= j < i - start implies !is_char(sep)(
                    #[trigger] tail[j],
                ) by {
                    assert(tail[j] == s@[start + j]);
                }
                lemma_first_where_is(tail, is_char(sep), i - start);
                assert(tail.take(i - start) =~= piece@);
                assert(tail.skip(i - start + 1) =~= s@.skip(i + 1));
                assert(texts(parts@.push(piece)) =~= texts(parts@) + seq![piece@]);
            }
            parts.push(piece);
            piece = Vec::new();
            start = i + 1;
        } else {
            piece.push(s[i]);
            assert(piece@ =~= s@.subrange(start as int, i + 1));
        }
        i += 1;
    }
    proof {
        let tail = s@.skip(start as int);
        assert forall|j: int| 0 <= j < tail.len() implies !is_char(sep)(#[trigger] tail[j]) by {
            assert(tail[j] == s@[start + j]);
        }
        lemma_first_where_is(tail, is_char(sep), tail.len() as int);
        assert(tail =~= piece@);
        assert(texts(parts@.push(piece)) =~= texts(parts@) + seq![piece@]);
    }
    parts.push(piece);
    parts
}

/// The pieces `parts[from..to]` in order, with `sep` between neighbours.
pub fn join_range(parts: &[Vec<char>], from: usize, to: usize, sep: char) -> (r: Vec<char>)
    requires
        from <= to <= parts.len(),
    ensures
        r@ == join(texts(parts@).subrange(from as int, to as int), sep),
{
    let mut r: Vec<char> = Vec::new();
    let mut i: usize = from;
    while i < to
        invariant
            from <= i <= to <= parts.len(),
            r@ == join(texts(parts@).subrange(from as int, i as int), sep),
        decreases to - i,
    {
        if i > from {
            r.push(sep);
        }
        let piece = &parts[i];
        let ghost before = r@;
        let mut k: usize = 0;
        while k < piece.len()
            invariant
                k <= piece.len(),
                r@ == before + piece@.take(k as int),
            decreases piece.len() - k,
        {
            r.push(piece[k]);
            k += 1;
            assert(r@ =~= before + piece@.take(k as int));
        }
        proof {
            let done = texts(parts@).subrange(from as int, i + 1);
            assert(done.drop_last() =~= texts(parts@).subrange(from as int, i as int));
            assert(done.last() == piece@);
            assert(piece@.take(piece.len() as int) =~= piece@);
            assert(r@ =~= join(done, sep));
        }
        i += 1;
    }
    r
}

} // verus!
