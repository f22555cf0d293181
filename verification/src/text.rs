//! Substring containment, the one predicate that every search here rests on.
//!
//! The model is the usual one: a pattern occurs in a text when some
//! contiguous run of the text equals it. Strings are searched through their
//! UTF-8 bytes, and [`lemma_utf8_substring`] shows that this finds exactly
//! the occurrences that exist between the two character sequences.

use vstd::prelude::*;
use vstd::utf8::*;

verus! {

/// `pattern` occurs in `text` starting at offset `at`.
pub open spec fn substring_at<T>(text: Seq<T>, pattern: Seq<T>, at: int) -> bool {
    &&& 0 <= at
    &&& at + pattern.len() <= text.len()
    &&& text.subrange(at, at + pattern.len()) == pattern
}

/// `pattern` occurs somewhere in `text` as a contiguous run. The comparison
/// is exact: no case folding, no normalisation. The empty pattern occurs in
/// every text.
pub open spec fn has_substring<T>(text: Seq<T>, pattern: Seq<T>) -> bool {
    exists|at: int| substring_at(text, pattern, at)
}

/// Whether `pattern` occurs in `text` at offset `at`.
fn bytes_match_at(text: &[u8], pattern: &[u8], at: usize) -> (hit: bool)
    requires
        at + pattern@.len() <= text@.len(),
    ensures
        hit == substring_at(text@, pattern@, at as int),
{
    let n: usize = text.len();
    let m: usize = pattern.len();
    let mut j: usize = 0;
    while j < m
        invariant
            n == text@.len(),
            m == pattern@.len(),
            at + m <= n,
            j <= m,
            forall|k: int| 0 <= k < j ==> text@[at + k] == pattern@[k],
        decreases m - j,
    {
        if text[at + j] != pattern[j] {
            return false;
        }
        j += 1;
    }
    proof {
        assert(text@.subrange(at as int, at + m) =~= pattern@);
    }
    true
}

/// Whether `pattern` occurs in `text`, by trying every offset in turn.
pub fn bytes_contain(text: &[u8], pattern: &[u8]) -> (found: bool)
    ensures
        found == has_substring(text@, pattern@),
{
    let n: usize = text.len();
    let m: usize = pattern.len();
    if m > n {
        return false;
    }
    if m == 0 {
        proof {
            assert(text@.subrange(0, 0) =~= pattern@);
            assert(substring_at(text@, pattern@, 0));
        }
        return true;
    }
    let last: usize = n - m;
    let mut at: usize = 0;
    while at <= last
        invariant
            n == text@.len(),
            m == pattern@.len(),
            0 < m <= n,
            last == n - m,
            at <= last + 1,
            forall|k: int| 0 <= k < at ==> !substring_at(text@, pattern@, k),
        decreases last + 1 - at,
    {
        if bytes_match_at(text, pattern, at) {
            return true;
        }
        at += 1;
    }
    false
}

/// Whether `pattern` occurs in `text`. Case-sensitive and exact; an empty
/// pattern is found in every text.
pub fn str_contains(text: &str, pattern: &str) -> (found: bool)
    ensures
        found == has_substring(text@, pattern@),
{
    proof {
        lemma_utf8_substring(text@, pattern@);
    }
    bytes_contain(text.as_bytes(), pattern.as_bytes())
}

/// The empty pattern occurs in every text.
pub proof fn lemma_empty_pattern<T>(text: Seq<T>)
    ensures
        has_substring(text, Seq::<T>::empty()),
{
    assert(text.subrange(0, 0) =~= Seq::<T>::empty());
    assert(substring_at(text, Seq::<T>::empty(), 0));
}

/// Encoding distributes over concatenation.
pub proof fn lemma_encode_concat(a: Seq<char>, b: Seq<char>)
    ensures
        encode_utf8(a + b) == encode_utf8(a) + encode_utf8(b),
    decreases a.len(),
{
    if a.len() > 0 {
        lemma_encode_concat(a.drop_first(), b);
        assert((a + b).drop_first() =~= a.drop_first() + b);
    }
}

/// A well-formed prefix of a well-formed byte string ends on a character
/// boundary of the whole.
proof fn lemma_prefix_ends_on_boundary(whole: Seq<u8>, prefix: Seq<u8>)
    requires
        valid_utf8(whole),
        valid_utf8(prefix),
        prefix.len() <= whole.len(),
        whole.subrange(0, prefix.len() as int) == prefix,
    ensures
        is_char_boundary(whole, prefix.len() as int),
    decreases prefix.len(),
{
    if prefix.len() > 0 {
        let rest = pop_first_scalar(prefix);
        let whole_rest = pop_first_scalar(whole);
        assert(whole_rest.subrange(0, rest.len() as int) =~= rest);
        lemma_prefix_ends_on_boundary(whole_rest, rest);
    }
}

/// The encoding of a non-empty text is non-empty and starts a character.
proof fn lemma_encode_starts_character(chars: Seq<char>)
    requires
        chars.len() > 0,
    ensures
        encode_utf8(chars).len() > 0,
        !is_continuation_byte(encode_utf8(chars)[0]),
{
    encode_utf8_first_scalar(chars);
    encode_utf8_valid_utf8(chars);
    let bytes = encode_utf8(chars);
    is_char_boundary_start_end_of_seq(bytes);
    is_char_boundary_iff_not_is_continuation_byte(bytes, 0);
}

/// Searching the UTF-8 bytes of two strings finds a match exactly when the
/// pattern occurs in the text character by character: a byte-level match can
/// only begin and end where a character does.
pub proof fn lemma_utf8_substring(text: Seq<char>, pattern: Seq<char>)
    ensures
        has_substring(encode_utf8(text), encode_utf8(pattern)) == has_substring(text, pattern),
{
    let bytes = encode_utf8(text);
    let needle = encode_utf8(pattern);
    if has_substring(text, pattern) {
        let at = choose|at: int| substring_at(text, pattern, at);
        let before = text.subrange(0, at);
        let after = text.subrange(at + pattern.len(), text.len() as int);
        assert(text =~= (before + pattern) + after);
        lemma_encode_concat(before + pattern, after);
        lemma_encode_concat(before, pattern);
        let offset = encode_utf8(before).len() as int;
        assert(bytes.subrange(offset, offset + needle.len()) =~= needle);
        assert(substring_at(bytes, needle, offset));
    }
    if has_substring(bytes, needle) {
        if pattern.len() == 0 {
            assert(text.subrange(0, 0) =~= pattern);
            assert(substring_at(text, pattern, 0));
        } else {
            let offset = choose|at: int| substring_at(bytes, needle, at);
            encode_utf8_valid_utf8(text);
            encode_utf8_valid_utf8(pattern);
            lemma_encode_starts_character(pattern);
            is_char_boundary_iff_not_is_continuation_byte(bytes, offset);
            valid_utf8_split(bytes, offset);
            decode_utf8_split(bytes, offset);
            let head = bytes.subrange(0, offset);
            let tail = bytes.subrange(offset, bytes.len() as int);
            assert(tail.subrange(0, needle.len() as int) =~= needle);
            lemma_prefix_ends_on_boundary(tail, needle);
            valid_utf8_split(tail, needle.len() as int);
            decode_utf8_split(tail, needle.len() as int);
            encode_utf8_decode_utf8(text);
            encode_utf8_decode_utf8(pattern);
            let before = decode_utf8(head);
            let after = decode_utf8(tail.subrange(needle.len() as int, tail.len() as int));
            let at = before.len() as int;
            assert(text.subrange(at, at + pattern.len()) =~= pattern);
            assert(substring_at(text, pattern, at));
        }
    }
}

} // verus!
