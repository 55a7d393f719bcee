//! Character-level string utilities: equality, ASCII case folding,
//! substring search, lexicographic order, and splitting. They are the
//! shared ground for descriptor parsing, filtering and ordering.

use vstd::prelude::*;

verus! {

/// ASCII case folding of one character: `'A'..'Z'` map to `'a'..'z'`,
/// every other character is unchanged.
pub open spec fn lower_char(c: char) -> char {
    if 'A' <= c && c <= 'Z' {
        ((c as u8) + 0x20) as char
    } else {
        c
    }
}

/// ASCII case folding of a whole sequence, character by character.
pub open spec fn lower(s: Seq<char>) -> Seq<char> {
    s.map_values(|c: char| lower_char(c))
}

/// Exec counterpart of `lower_char`.
pub fn lower_char_exec(c: char) -> (r: char)
    ensures
        r == lower_char(c),
{
    if 'A' <= c && c <= 'Z' {
        (((c as u8) + 0x20) as char)
    } else {
        c
    }
}

/// Relies on `String::push`: appends exactly the given character at the
/// end of the string.
#[verifier::external_body]
pub fn push_char(s: &mut String, c: char)
    ensures
        final(s)@ == old(s)@.push(c),
{
    s.push(c);
}

/// Folds a string slice to ASCII lower case.
pub fn lower_str(s: &str) -> (r: String)
    ensures
        r@ == lower(s@),
{
    let len = s.unicode_len();
    let mut out = String::new();
    let mut i: usize = 0;
    while i < len
        invariant
            len == s@.len(),
            i <= len,
            out@ == lower(s@.take(i as int)),
        decreases len - i,
    {
        let c = lower_char_exec(s.get_char(i));
        push_char(&mut out, c);
        assert(lower(s@.take(i + 1)) =~= lower(s@.take(i as int)).push(lower_char(s@[i as int])));
        i += 1;
    }
    assert(s@.take(len as int) =~= s@);
    out
}

/// The whitespace characters: the set the command-line tokenizer
/// splits on.
pub open spec fn is_ws(c: char) -> bool {
    c == ' ' || c == '\t' || c == '\n' || c == '\u{B}' || c == '\u{C}' || c == '\r'
        || c == '\u{85}' || c == '\u{A0}' || c == '\u{1680}' || ('\u{2000}' <= c && c
        <= '\u{200A}') || c == '\u{2028}' || c == '\u{2029}' || c == '\u{202F}' || c == '\u{205F}'
        || c == '\u{3000}'
}

/// The characters of a string slice, as a vector.
pub fn str_to_chars(s: &str) -> (r: Vec<char>)
    ensures
        r@ == s@,
{
    let len = s.unicode_len();
    let mut out: Vec<char> = Vec::new();
    let mut i: usize = 0;
    while i < len
        invariant
            len == s@.len(),
            i <= len,
            out@ == s@.take(i as int),
        decreases len - i,
    {
        out.push(s.get_char(i));
        assert(out@ =~= s@.take(i + 1));
        i += 1;
    }
    assert(s@.take(len as int) =~= s@);
    out
}

/// Character-for-character equality of two string slices.
pub fn str_eq(a: &str, b: &str) -> (r: bool)
    ensures
        r == (a@ == b@),
{
    let alen = a.unicode_len();
    let blen = b.unicode_len();
    if alen != blen {
        assert(a@ != b@);
        return false;
    }
    let mut i: usize = 0;
    while i < alen
        invariant
            alen == a@.len(),
            alen == b@.len(),
            i <= alen,
            forall|j: int| 0 <= j < i ==> a@[j] == b@[j],
        decreases alen - i,
    {
        if a.get_char(i) != b.get_char(i) {
            return false;
        }
        i += 1;
    }
    assert(a@ =~= b@);
    true
}

/// The needle occurs in the haystack starting at position `i`.
pub open spec fn match_at(hay: Seq<char>, needle: Seq<char>, i: int) -> bool {
    0 <= i && i + needle.len() <= hay.len() && hay.subrange(i, i + needle.len()) == needle
}

/// The needle occurs somewhere in the haystack.
pub open spec fn contains_sub(hay: Seq<char>, needle: Seq<char>) -> bool {
    exists|i: int| match_at(hay, needle, i)
}

/// The position of the leftmost occurrence of the needle at or after
/// `from`, if any.
pub open spec fn first_match_from(hay: Seq<char>, needle: Seq<char>, from: int) -> Option<int>
    decreases hay.len() - from + 1,
{
    if from < 0 || from + needle.len() > hay.len() {
        None
    } else if hay.subrange(from, from + needle.len()) == needle {
        Some(from)
    } else {
        first_match_from(hay, needle, from + 1)
    }
}

pub proof fn lemma_first_match_from_correct(hay: Seq<char>, needle: Seq<char>, from: int)
    requires
        0 <= from,
    ensures
        match first_match_from(hay, needle, from) {
            Some(i) => match_at(hay, needle, i) && from <= i && forall|j: int|
                from <= j < i ==> !match_at(hay, needle, j),
            None => forall|j: int| j >= from ==> !match_at(hay, needle, j),
        },
    decreases hay.len() - from + 1,
{
    if from + needle.len() > hay.len() {
    } else if hay.subrange(from, from + needle.len()) == needle {
    } else {
        lemma_first_match_from_correct(hay, needle, from + 1);
    }
}

/// Checks one candidate position.
fn match_at_exec(hay: &str, needle: &str, i: usize) -> (r: bool)
    requires
        i + needle@.len() <= hay@.len(),
    ensures
        r == match_at(hay@, needle@, i as int),
{
    let hlen = hay.unicode_len();
    let nlen = needle.unicode_len();
    let mut k: usize = 0;
    while k < nlen
        invariant
            hlen == hay@.len(),
            nlen == needle@.len(),
            i + nlen <= hay@.len(),
            k <= nlen,
            forall|j: int| 0 <= j < k ==> hay@[i + j] == needle@[j],
        decreases nlen - k,
    {
        if hay.get_char(i + k) != needle.get_char(k) {
            assert(hay@.subrange(i as int, i + nlen)[k as int] == hay@[i + k]);
            return false;
        }
        k += 1;
    }
    assert(hay@.subrange(i as int, i + nlen) =~= needle@);
    true
}

/// The leftmost occurrence of the needle at or after `from`.
pub fn find_from(hay: &str, needle: &str, from: usize) -> (r: Option<usize>)
    ensures
        match r {
            Some(i) => first_match_from(hay@, needle@, from as int) == Some(i as int),
            None => first_match_from(hay@, needle@, from as int) is None,
        },
{
    let hlen = hay.unicode_len();
    let nlen = needle.unicode_len();
    if from > hlen || nlen > hlen - from {
        return None;
    }
    if nlen == 0 {
        assert(needle@ =~= hay@.subrange(from as int, from as int));
        return Some(from);
    }
    let mut i: usize = from;
    while i <= hlen - nlen
        invariant
            nlen >= 1,
            hlen == hay@.len(),
            nlen == needle@.len(),
            nlen <= hlen,
            from <= i,
            i <= hlen - nlen + 1,
            first_match_from(hay@, needle@, from as int) == first_match_from(
                hay@,
                needle@,
                i as int,
            ),
        decreases hlen - i,
    {
        if match_at_exec(hay, needle, i) {
            return Some(i);
        }
        assert(first_match_from(hay@, needle@, i as int) == first_match_from(
            hay@,
            needle@,
            i + 1,
        ));
        i += 1;
    }
    assert(first_match_from(hay@, needle@, i as int) is None);
    None
}

/// Case-insensitive substring test, the match rule of the filter: the
/// ASCII-folded needle occurs in the ASCII-folded haystack.
pub fn contains_ci(hay: &str, needle: &str) -> (r: bool)
    ensures
        r == contains_sub(lower(hay@), lower(needle@)),
{
    let hay_l = lower_str(hay);
    let needle_l = lower_str(needle);
    let found = find_from(hay_l.as_str(), needle_l.as_str(), 0);
    proof {
        lemma_first_match_from_correct(lower(hay@), lower(needle@), 0);
        if contains_sub(lower(hay@), lower(needle@)) {
            let i = choose|i: int| match_at(lower(hay@), lower(needle@), i);
            assert(first_match_from(lower(hay@), lower(needle@), 0) is Some) by {
                if first_match_from(lower(hay@), lower(needle@), 0) is None {
                    assert(!match_at(lower(hay@), lower(needle@), i));
                }
            }
        }
    }
    found.is_some()
}

/// Total lexicographic order on character sequences, by code point.
pub open spec fn lex_le(a: Seq<char>, b: Seq<char>) -> bool
    decreases a.len(),
{
    if a.len() == 0 {
        true
    } else if b.len() == 0 {
        false
    } else if a[0] != b[0] {
        a[0] < b[0]
    } else {
        lex_le(a.skip(1), b.skip(1))
    }
}

pub proof fn lemma_lex_le_total(a: Seq<char>, b: Seq<char>)
    ensures
        lex_le(a, b) || lex_le(b, a),
    decreases a.len(),
{
    if a.len() == 0 || b.len() == 0 || a[0] != b[0] {
    } else {
        lemma_lex_le_total(a.skip(1), b.skip(1));
    }
}

pub proof fn lemma_lex_le_trans(a: Seq<char>, b: Seq<char>, c: Seq<char>)
    requires
        lex_le(a, b),
        lex_le(b, c),
    ensures
        lex_le(a, c),
    decreases a.len(),
{
    if a.len() == 0 || b.len() == 0 || c.len() == 0 {
    } else if a[0] == b[0] && b[0] == c[0] {
        lemma_lex_le_trans(a.skip(1), b.skip(1), c.skip(1));
    }
}

/// Exec counterpart of `lex_le`.
pub fn lex_le_exec(a: &str, b: &str) -> (r: bool)
    ensures
        r == lex_le(a@, b@),
{
    let alen = a.unicode_len();
    let blen = b.unicode_len();
    let mut i: usize = 0;
    assert(a@.skip(0) =~= a@);
    assert(b@.skip(0) =~= b@);
    loop
        invariant
            alen == a@.len(),
            blen == b@.len(),
            i <= alen,
            i <= blen,
            forall|j: int| 0 <= j < i ==> a@[j] == b@[j],
            lex_le(a@, b@) == lex_le(a@.skip(i as int), b@.skip(i as int)),
        decreases alen - i,
    {
        if i >= alen {
            assert(a@.skip(i as int).len() == 0);
            return true;
        }
        if i >= blen {
            assert(b@.skip(i as int).len() == 0);
            assert(a@.skip(i as int).len() > 0);
            return false;
        }
        let ca = a.get_char(i);
        let cb = b.get_char(i);
        assert(a@.skip(i as int)[0] == a@[i as int]);
        assert(b@.skip(i as int)[0] == b@[i as int]);
        if ca != cb {
            return ca < cb;
        }
        assert(a@.skip(i as int).skip(1) =~= a@.skip(i + 1));
        assert(b@.skip(i as int).skip(1) =~= b@.skip(i + 1));
        i += 1;
    }
}

} // verus!
