//! Character-level helpers shared by the parsers and printers of this crate.
use vstd::prelude::*;

verus! {

/// The `White_Space` property of Unicode, which `char::is_whitespace` tests.
pub open spec fn is_ws(c: char) -> bool {
    ||| ('\u{9}' <= c && c <= '\u{D}')
    ||| c == ' '
    ||| c == '\u{85}'
    ||| c == '\u{A0}'
    ||| c == '\u{1680}'
    ||| ('\u{2000}' <= c && c <= '\u{200A}')
    ||| c == '\u{2028}'
    ||| c == '\u{2029}'
    ||| c == '\u{202F}'
    ||| c == '\u{205F}'
    ||| c == '\u{3000}'
}

/// Whether `c` is white space in the sense of Unicode.
pub fn is_whitespace(c: char) -> (b: bool)
    ensures
        b == is_ws(c),
{
    ('\u{9}' <= c && c <= '\u{D}') || c == ' ' || c == '\u{85}' || c == '\u{A0}' || c == '\u{1680}'
        || ('\u{2000}' <= c && c <= '\u{200A}') || c == '\u{2028}' || c == '\u{2029}' || c
        == '\u{202F}' || c == '\u{205F}' || c == '\u{3000}'
}

/// Whether some character of `s` is white space.
pub open spec fn has_ws(s: Seq<char>) -> bool {
    exists|i: int| 0 <= i < s.len() && is_ws(#[trigger] s[i])
}

/// Whether `c` occurs in `s`.
pub open spec fn has_char(s: Seq<char>, c: char) -> bool {
    exists|i: int| 0 <= i < s.len() && #[trigger] s[i] == c
}

/// `s` without the white space at its start.
pub open spec fn trim_start(s: Seq<char>) -> Seq<char>
    decreases s.len(),
{
    if s.len() > 0 && is_ws(s[0]) {
        trim_start(s.drop_first())
    } else {
        s
    }
}

/// `s` without the white space at its end.
pub open spec fn trim_end(s: Seq<char>) -> Seq<char>
    decreases s.len(),
{
    if s.len() > 0 && is_ws(s.last()) {
        trim_end(s.drop_last())
    } else {
        s
    }
}

/// `s` without the white space at either end, as `str::trim` gives it.
pub open spec fn trim(s: Seq<char>) -> Seq<char> {
    trim_end(trim_start(s))
}

/// The string views of a sequence of strings.
pub open spec fn views(v: Seq<String>) -> Seq<Seq<char>> {
    v.map_values(|s: String| s@)
}

/// Appends one character with `String::push` of std; claimed of it, as its
/// documentation says: the string gains `c` at its end and is otherwise unchanged.
#[verifier::external_body]
pub(crate) fn push_char(s: &mut String, c: char)
    ensures
        final(s)@ == old(s)@.push(c),
{
    s.push(c);
}

/// The characters of `s`, in order.
pub fn chars_of(s: &str) -> (out: Vec<char>)
    ensures
        out@ == s@,
{
    let mut out: Vec<char> = Vec::new();
    for c in it: s.chars()
        invariant
            out@ == it.seq().take(it.index() as int),
    {
        out.push(c);
    }
    out
}

/// A string holding the characters of `cs`.
pub fn string_of(cs: &[char]) -> (out: String)
    ensures
        out@ == cs@,
{
    let mut out = String::new();
    let mut i: usize = 0;
    while i < cs.len()
        invariant
            i <= cs@.len(),
            out@ == cs@.take(i as int),
        decreases cs@.len() - i,
    {
        push_char(&mut out, cs[i]);
        assert(cs@.take(i + 1) == cs@.take(i as int).push(cs@[i as int]));
        i += 1;
    }
    assert(cs@.take(cs@.len() as int) == cs@);
    out
}

/// Appends the characters of `cs` to `s`.
pub fn push_chars(s: &mut String, cs: &[char])
    ensures
        final(s)@ == old(s)@ + cs@,
{
    let mut i: usize = 0;
    while i < cs.len()
        invariant
            i <= cs@.len(),
            s@ == old(s)@ + cs@.take(i as int),
        decreases cs@.len() - i,
    {
        push_char(s, cs[i]);
        assert(cs@.take(i + 1) == cs@.take(i as int).push(cs@[i as int]));
        i += 1;
    }
    assert(cs@.take(cs@.len() as int) == cs@);
}

/// Whether some character of `cs` is white space.
pub fn any_whitespace(cs: &[char]) -> (b: bool)
    ensures
        b == has_ws(cs@),
{
    let mut i: usize = 0;
    while i < cs.len()
        invariant
            i <= cs@.len(),
            forall|j: int| 0 <= j < i ==> !is_ws(#[trigger] cs@[j]),
        decreases cs@.len() - i,
    {
        if is_whitespace(cs[i]) {
            return true;
        }
        i += 1;
    }
    false
}

/// `cs` without the white space at either end.
pub fn trim_chars(cs: &[char]) -> (out: Vec<char>)
    ensures
        out@ == trim(cs@),
{
    let mut start: usize = 0;
    assert(cs@.skip(0) == cs@);
    while start < cs.len() && is_whitespace(cs[start])
        invariant
            start <= cs@.len(),
            trim_start(cs@) == trim_start(cs@.skip(start as int)),
        decreases cs@.len() - start,
    {
        assert(cs@.skip(start as int).drop_first() == cs@.skip(start + 1));
        start += 1;
    }
    let mut end: usize = cs.len();
    assert(cs@.skip(start as int) == cs@.subrange(start as int, end as int));
    assert(trim_start(cs@.skip(start as int)) == cs@.skip(start as int));
    while end > start && is_whitespace(cs[end - 1])
        invariant
            start <= end <= cs@.len(),
            trim(cs@) == trim_end(cs@.subrange(start as int, end as int)),
        decreases end,
    {
        assert(cs@.subrange(start as int, end as int).drop_last() == cs@.subrange(
            start as int,
            end - 1,
        ));
        end -= 1;
    }
    let mut out: Vec<char> = Vec::new();
    let mut i: usize = start;
    while i < end
        invariant
            start <= i <= end <= cs@.len(),
            out@ == cs@.subrange(start as int, i as int),
        decreases end - i,
    {
        out.push(cs[i]);
        i += 1;
    }
    out
}


/// The place of the first `c` in `s`, or the length of `s` where there is none.
pub open spec fn char_pos(s: Seq<char>, c: char) -> nat
    decreases s.len(),
{
    if s.len() == 0 {
        0
    } else if s[0] == c {
        0
    } else {
        1 + char_pos(s.drop_first(), c)
    }
}

/// The first match found by a scan from the front is the place that `char_pos` names.
pub proof fn lemma_char_pos(s: Seq<char>, c: char, i: int)
    requires
        0 <= i <= s.len(),
        forall|j: int| 0 <= j < i ==> s[j] != c,
        i == s.len() || s[i] == c,
    ensures
        char_pos(s, c) == i,
    decreases i,
{
    if i > 0 {
        lemma_char_pos(s.drop_first(), c, i - 1);
    }
}

/// `char_pos` names an occurrence, and there is none before it.
pub proof fn lemma_char_pos_found(s: Seq<char>, c: char)
    ensures
        char_pos(s, c) <= s.len(),
        char_pos(s, c) < s.len() ==> s[char_pos(s, c) as int] == c,
        forall|j: int| 0 <= j < char_pos(s, c) ==> s[j] != c,
    decreases s.len(),
{
    if s.len() > 0 && s[0] != c {
        lemma_char_pos_found(s.drop_first(), c);
        assert forall|j: int| 0 <= j < char_pos(s, c) implies s[j] != c by {
            if j > 0 {
                assert(s[j] == s.drop_first()[j - 1]);
            }
        }
    }
}

/// The place of the first `c` in `cs`, as `char_pos` names it.
pub fn find_char(cs: &[char], c: char) -> (i: usize)
    ensures
        i == char_pos(cs@, c),
{
    let mut i: usize = 0;
    while i < cs.len()
        invariant
            i <= cs@.len(),
            forall|j: int| 0 <= j < i ==> cs@[j] != c,
        decreases cs@.len() - i,
    {
        if cs[i] == c {
            proof {
                lemma_char_pos(cs@, c, i as int);
            }
            return i;
        }
        i += 1;
    }
    proof {
        lemma_char_pos(cs@, c, i as int);
    }
    i
}

/// The characters of `cs` from `from` up to `to`.
pub fn sub_chars(cs: &[char], from: usize, to: usize) -> (out: Vec<char>)
    requires
        from <= to <= cs@.len(),
    ensures
        out@ == cs@.subrange(from as int, to as int),
{
    let mut out: Vec<char> = Vec::new();
    let mut i: usize = from;
    while i < to
        invariant
            from <= i <= to <= cs@.len(),
            out@ == cs@.subrange(from as int, i as int),
        decreases to - i,
    {
        out.push(cs[i]);
        i += 1;
    }
    out
}


/// Trimming the start takes a suffix: it adds no character.
pub proof fn lemma_trim_start_sub(s: Seq<char>, c: char)
    requires
        has_char(trim_start(s), c),
    ensures
        has_char(s, c),
    decreases s.len(),
{
    if s.len() > 0 && is_ws(s[0]) {
        lemma_trim_start_sub(s.drop_first(), c);
        let i = choose|i: int| 0 <= i < s.drop_first().len() && s.drop_first()[i] == c;
        assert(s[i + 1] == c);
    }
}

/// Trimming the end takes a prefix: it adds no character.
pub proof fn lemma_trim_end_sub(s: Seq<char>, c: char)
    requires
        has_char(trim_end(s), c),
    ensures
        has_char(s, c),
    decreases s.len(),
{
    if s.len() > 0 && is_ws(s.last()) {
        lemma_trim_end_sub(s.drop_last(), c);
        let i = choose|i: int| 0 <= i < s.drop_last().len() && s.drop_last()[i] == c;
        assert(s[i] == c);
    }
}

/// Trimming adds no character.
pub proof fn lemma_trim_sub(s: Seq<char>, c: char)
    requires
        has_char(trim(s), c),
    ensures
        has_char(s, c),
{
    lemma_trim_end_sub(trim_start(s), c);
    lemma_trim_start_sub(s, c);
}

/// After trimming the start, the first character (if any) is not white space.
pub proof fn lemma_trim_start_first(s: Seq<char>)
    ensures
        trim_start(s).len() > 0 ==> !is_ws(trim_start(s)[0]),
    decreases s.len(),
{
    if s.len() > 0 && is_ws(s[0]) {
        lemma_trim_start_first(s.drop_first());
    }
}

/// Trimming the end keeps the first character of what it leaves.
pub proof fn lemma_trim_end_prefix(s: Seq<char>)
    ensures
        trim_end(s).len() <= s.len(),
        forall|i: int| 0 <= i < trim_end(s).len() ==> trim_end(s)[i] == s[i],
        trim_end(s).len() > 0 ==> !is_ws(trim_end(s).last()),
    decreases s.len(),
{
    if s.len() > 0 && is_ws(s.last()) {
        lemma_trim_end_prefix(s.drop_last());
        assert forall|i: int| 0 <= i < trim_end(s).len() implies trim_end(s)[i] == s[i] by {
            assert(s.drop_last()[i] == s[i]);
        }
    }
}

/// Trimming a trimmed string changes nothing.
pub proof fn lemma_trim_idempotent(s: Seq<char>)
    ensures
        trim(trim(s)) == trim(s),
{
    let a = trim_start(s);
    let b = trim_end(a);
    lemma_trim_start_first(s);
    lemma_trim_end_prefix(a);
    if b.len() > 0 {
        assert(b[0] == a[0]);
        assert(trim_start(b) == b);
        assert(trim_end(b) == b);
    } else {
        assert(trim_start(b) == b);
    }
}


/// `c` in lower case where it is an ASCII capital letter; `c` otherwise.
pub open spec fn lower_char(c: char) -> char {
    if 'A' <= c && c <= 'Z' {
        ((c as u32) + 32) as char
    } else {
        c
    }
}

/// `s` with its ASCII capital letters in lower case.
pub open spec fn lower_ascii(s: Seq<char>) -> Seq<char> {
    s.map_values(|c: char| lower_char(c))
}

/// `c` in lower case where it is an ASCII capital letter.
pub fn to_lower_char(c: char) -> (r: char)
    ensures
        r == lower_char(c),
{
    if 'A' <= c && c <= 'Z' {
        ((c as u8) + 32) as char
    } else {
        c
    }
}

} // verus!
