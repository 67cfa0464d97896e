//! Text, character by character.
//!
//! A string is viewed as its sequence of characters. The comparisons here
//! read two strings side by side and never index into bytes, so they hold for
//! any text, ASCII or not.
use vstd::prelude::*;
use vstd::std_specs::iter::IteratorSpec;

verus! {

/// Whether `c` is a letter or a number of any script: what
/// `char::is_alphanumeric` answers for `c`.
pub uninterp spec fn alphanumeric(c: char) -> bool;

/// `char::is_alphanumeric` of the standard library looks `c` up in the Unicode
/// tables for letters and numbers. The tables are not spelled out here: the
/// answer is only given the name `alphanumeric`. The library asks it of
/// characters beyond ASCII only.
pub assume_specification[ char::is_alphanumeric ](c: char) -> (yes: bool)
    ensures
        yes == alphanumeric(c),
;

/// Whether `c` is a letter or a number. Within ASCII these are the letters
/// from `a` to `z` and from `A` to `Z` and the digits, which is settled here;
/// for a character beyond ASCII the standard library is asked.
pub open spec fn is_letter_or_number(c: char) -> bool {
    if (c as u32) < 0x80 {
        ('a' <= c && c <= 'z') || ('A' <= c && c <= 'Z') || ('0' <= c && c <= '9')
    } else {
        alphanumeric(c)
    }
}

pub fn letter_or_number(c: char) -> (yes: bool)
    ensures
        yes == is_letter_or_number(c),
{
    if (c as u32) < 0x80 {
        ('a' <= c && c <= 'z') || ('A' <= c && c <= 'Z') || ('0' <= c && c <= '9')
    } else {
        c.is_alphanumeric()
    }
}

/// Whether `text` begins with `prefix`.
pub fn starts_with(text: &str, prefix: &str) -> (found: bool)
    ensures
        found == prefix@.is_prefix_of(text@),
{
    let mut rest = text.chars();
    let mut wanted = prefix.chars();
    let ghost mut seen: int = 0;
    loop
        invariant
            0 <= seen <= prefix@.len(),
            seen <= text@.len(),
            rest.remaining() == text@.skip(seen),
            wanted.remaining() == prefix@.skip(seen),
            text@.take(seen) == prefix@.take(seen),
        decreases prefix@.len() - seen,
    {
        match wanted.next() {
            None => {
                assert(prefix@.take(seen) == prefix@);
                assert(text@.take(seen) == text@.subrange(0, prefix@.len() as int));
                return true;
            },
            Some(expected) => {
                match rest.next() {
                    None => {
                        return false;
                    },
                    Some(actual) => {
                        if actual != expected {
                            assert(text@[seen] != prefix@[seen]);
                            return false;
                        }
                        proof {
                            assert(text@.take(seen + 1) == text@.take(seen).push(text@[seen]));
                            assert(prefix@.take(seen + 1) == prefix@.take(seen).push(
                                prefix@[seen],
                            ));
                            assert(text@.skip(seen).drop_first() == text@.skip(seen + 1));
                            assert(prefix@.skip(seen).drop_first() == prefix@.skip(seen + 1));
                            seen = seen + 1;
                        }
                    },
                }
            },
        }
    }
}

/// Whether the two strings hold the same characters.
pub fn equal(left: &str, right: &str) -> (same: bool)
    ensures
        same == (left@ == right@),
{
    let mut ours = left.chars();
    let mut theirs = right.chars();
    let ghost mut seen: int = 0;
    loop
        invariant
            0 <= seen <= left@.len(),
            seen <= right@.len(),
            ours.remaining() == left@.skip(seen),
            theirs.remaining() == right@.skip(seen),
            left@.take(seen) == right@.take(seen),
        decreases left@.len() - seen,
    {
        match ours.next() {
            None => {
                let end = theirs.next();
                assert(left@.take(seen) == left@);
                assert(right@.len() == seen ==> right@.take(seen) == right@);
                return end.is_none();
            },
            Some(mine) => {
                match theirs.next() {
                    None => {
                        return false;
                    },
                    Some(other) => {
                        if mine != other {
                            assert(left@[seen] != right@[seen]);
                            return false;
                        }
                        proof {
                            assert(left@.take(seen + 1) == left@.take(seen).push(left@[seen]));
                            assert(right@.take(seen + 1) == right@.take(seen).push(right@[seen]));
                            assert(left@.skip(seen).drop_first() == left@.skip(seen + 1));
                            assert(right@.skip(seen).drop_first() == right@.skip(seen + 1));
                            seen = seen + 1;
                        }
                    },
                }
            },
        }
    }
}

/// Two texts that agree on their first `count` characters: one begins with
/// the other exactly when that holds of what follows those characters.
pub proof fn lemma_prefix_after_common_start(prefix: Seq<char>, text: Seq<char>, count: int)
    requires
        0 <= count <= prefix.len(),
        count <= text.len(),
        prefix.take(count) == text.take(count),
    ensures
        prefix.is_prefix_of(text) <==> prefix.skip(count).is_prefix_of(text.skip(count)),
{
    let short = prefix.skip(count);
    let long = text.skip(count);
    if prefix.is_prefix_of(text) {
        assert forall|i: int| 0 <= i < short.len() implies short[i] == long[i] by {
            assert(prefix[i + count] == text.subrange(0, prefix.len() as int)[i + count]);
        }
        assert(short =~= long.subrange(0, short.len() as int));
    }
    if short.is_prefix_of(long) {
        assert forall|i: int| 0 <= i < prefix.len() implies prefix[i] == text[i] by {
            if i < count {
                assert(prefix.take(count)[i] == prefix[i]);
                assert(text.take(count)[i] == text[i]);
            } else {
                let j = i - count;
                assert(short[j] == long.subrange(0, short.len() as int)[j]);
                assert(short[j] == prefix[i]);
                assert(long[j] == text[i]);
            }
        }
        assert(prefix =~= text.subrange(0, prefix.len() as int));
    }
}

/// What is left of `text` once `prefix` is taken from its front, if it begins
/// with `prefix`.
pub fn strip_prefix<'a>(text: &'a str, prefix: &str) -> (rest: Option<&'a str>)
    ensures
        rest is Some <==> prefix@.is_prefix_of(text@),
        rest matches Some(tail) ==> tail@ == text@.skip(prefix@.len() as int),
{
    if starts_with(text, prefix) {
        let from: usize = prefix.unicode_len();
        let to: usize = text.unicode_len();
        Some(text.substring_char(from, to))
    } else {
        None
    }
}

} // verus!
