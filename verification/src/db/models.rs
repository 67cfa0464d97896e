//! The rows of the `urls` table and the hashes that name them.
use vstd::prelude::*;

verus! {

/// `std::time::SystemTime`: a point in time, as the store stamps it on a
/// record. Nothing is said of what is inside; a value of it is only carried
/// along.
#[verifier::external_type_specification]
#[verifier::external_body]
pub struct ExSystemTime(std::time::SystemTime);

/// A stored short link.
#[derive(Debug)]
pub struct Url {
    pub hash: String,
    pub long_url: String,
    pub creation_time: std::time::SystemTime,
    pub access_count: i32,
}

/// A short link as the specifications see it: its texts are character
/// sequences and its counter is unbounded.
pub struct ShortLink {
    pub hash: Seq<char>,
    pub long_url: Seq<char>,
    pub creation_time: std::time::SystemTime,
    pub access_count: int,
}

impl View for Url {
    type V = ShortLink;

    open spec fn view(&self) -> ShortLink {
        ShortLink {
            hash: self.hash@,
            long_url: self.long_url@,
            creation_time: self.creation_time,
            access_count: self.access_count as int,
        }
    }
}

/// A short link that is about to be stored.
#[derive(Debug)]
pub struct NewUrl<'a> {
    pub hash: String,
    pub long_url: &'a String,
}

/// A `NewUrl` with its texts as character sequences.
pub struct NewLink {
    pub hash: Seq<char>,
    pub long_url: Seq<char>,
}

impl<'a> View for NewUrl<'a> {
    type V = NewLink;

    open spec fn view(&self) -> NewLink {
        NewLink { hash: self.hash@, long_url: self.long_url@ }
    }
}

/// The sixteen digits of a hash, each at the place of its value.
pub open spec fn hex_digits() -> Seq<char> {
    "0123456789abcdef"@
}

/// The hash that stands for `number`: its eight hexadecimal digits, the
/// highest first, with leading zeros and in lower case.
pub open spec fn hash_of(number: u32) -> Seq<char> {
    seq![
        hex_digits()[number as int / 0x1000_0000 % 16],
        hex_digits()[number as int / 0x100_0000 % 16],
        hex_digits()[number as int / 0x10_0000 % 16],
        hex_digits()[number as int / 0x1_0000 % 16],
        hex_digits()[number as int / 0x1000 % 16],
        hex_digits()[number as int / 0x100 % 16],
        hex_digits()[number as int / 0x10 % 16],
        hex_digits()[number as int % 16],
    ]
}

/// Whether `text` is the hash of some number.
pub open spec fn is_hash(text: Seq<char>) -> bool {
    exists|number: u32| #[trigger] hash_of(number) == text
}

/// Whether `c` is a digit of a hash.
pub open spec fn is_hex_digit(c: char) -> bool {
    ('0' <= c && c <= '9') || ('a' <= c && c <= 'f')
}

/// Every hash has eight characters, each of them a digit or a letter from
/// `a` to `f`.
pub proof fn lemma_hash_shape(number: u32)
    ensures
        hash_of(number).len() == 8,
        forall|i: int| 0 <= i < 8 ==> is_hex_digit(#[trigger] hash_of(number)[i]),
{
    reveal_strlit("0123456789abcdef");
    assert forall|value: int| 0 <= value < 16 implies is_hex_digit(
        #[trigger] hex_digits()[value],
    ) by {
        assert(hex_digits() =~= seq![
            '0',
            '1',
            '2',
            '3',
            '4',
            '5',
            '6',
            '7',
            '8',
            '9',
            'a',
            'b',
            'c',
            'd',
            'e',
            'f',
        ]);
    }
}

/// Appends the digit of `value` to `hash`.
fn push_digit(hash: &mut String, value: u32)
    requires
        value < 16,
    ensures
        final(hash)@ == old(hash)@.push(hex_digits()[value as int]),
{
    proof {
        reveal_strlit("0123456789abcdef");
    }
    let place = value as usize;
    let digit = "0123456789abcdef".substring_char(place, place + 1);
    assert(digit@ =~= seq![hex_digits()[value as int]]);
    hash.append(digit);
}

/// Writes `number` as a hash.
pub fn format_hash(number: u32) -> (hash: String)
    ensures
        hash@ == hash_of(number),
{
    let mut hash = String::new();
    push_digit(&mut hash, number / 0x1000_0000 % 16);
    push_digit(&mut hash, number / 0x100_0000 % 16);
    push_digit(&mut hash, number / 0x10_0000 % 16);
    push_digit(&mut hash, number / 0x1_0000 % 16);
    push_digit(&mut hash, number / 0x1000 % 16);
    push_digit(&mut hash, number / 0x100 % 16);
    push_digit(&mut hash, number / 0x10 % 16);
    push_digit(&mut hash, number % 16);
    hash
}

/// `rand::random` draws a number from the generator of the current thread.
/// Nothing is promised of the number: any `u32` may come, and two calls may
/// give the same.
#[verifier::external_body]
fn random_number() -> (number: u32) {
    rand::random::<u32>()
}

impl<'a> NewUrl<'a> {
    /// A link to `long_url` under a hash drawn at random.
    pub fn new(long_url: &'a String) -> (fresh: Self)
        ensures
            fresh.long_url@ == long_url@,
            is_hash(fresh.hash@),
    {
        let number = random_number();
        let hash = format_hash(number);
        assert(hash_of(number) == hash@);
        NewUrl { hash, long_url }
    }
}

} // verus!
