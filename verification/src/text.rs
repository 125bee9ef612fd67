use vstd::prelude::*;
use vstd::arithmetic::power::pow;
use vstd::string::StrSliceExecFns;

use crate::ids::Id;

verus! {

/// The lower-case form of `s`, as Unicode defines it.
pub uninterp spec fn lowercase(s: Seq<char>) -> Seq<char>;

/// The identifier that a UUID written as `s` stands for, if `s` is one.
pub uninterp spec fn uuid_from_text(s: Seq<char>) -> Option<Id>;

/// The lower-case hexadecimal digit of `n` (0 to 15).
pub open spec fn hex_digit(n: int) -> char {
    seq!['0', '1', '2', '3', '4', '5', '6', '7', '8', '9', 'a', 'b', 'c', 'd', 'e', 'f'][n]
}

/// The `k`-th hexadecimal digit of `id`, counted from the most significant one.
pub open spec fn nibble(id: Id, k: int) -> int {
    (id as int / pow(16, (31 - k) as nat)) % 16
}

/// The 32 lower-case hexadecimal digits of `id`.
pub open spec fn hex_digits(id: Id) -> Seq<char> {
    Seq::new(32, |k: int| hex_digit(nibble(id, k)))
}

/// The hyphenated form of a UUID: its digits in groups of 8, 4, 4, 4 and 12.
pub open spec fn uuid_hyphenated(id: Id) -> Seq<char> {
    let d = hex_digits(id);
    d.subrange(0, 8) + seq!['-'] + d.subrange(8, 12) + seq!['-'] + d.subrange(12, 16) + seq!['-']
        + d.subrange(16, 20) + seq!['-'] + d.subrange(20, 32)
}

/// The decimal digits of a natural number.
pub open spec fn digits(n: nat) -> Seq<char>
    decreases n,
{
    if n < 10 {
        seq![hex_digit(n as int)]
    } else {
        digits(n / 10).push(hex_digit((n % 10) as int))
    }
}

/// An integer in decimal, with a minus sign when it is negative.
pub open spec fn decimal(n: int) -> Seq<char> {
    if n < 0 {
        seq!['-'] + digits((-n) as nat)
    } else {
        digits(n as nat)
    }
}

/// `s` with every space replaced by an underscore.
pub open spec fn underscored(s: Seq<char>) -> Seq<char> {
    Seq::new(s.len(), |i: int| if s[i] == ' ' { '_' } else { s[i] })
}

/// The lower-case form of `s` (`str::to_lowercase`): the result is named
/// `lowercase`; what Unicode's case mapping does is not stated.
#[verifier::external_body]
pub(crate) fn to_lowercase(s: &str) -> (r: String)
    ensures
        r@ == lowercase(s@),
{
    s.to_lowercase()
}

/// Appends one character (`String::push`).
#[verifier::external_body]
fn push_char(s: &mut String, c: char)
    ensures
        final(s)@ == old(s)@.push(c),
{
    s.push(c)
}

/// The hyphenated lower-case form of a UUID (`uuid::Uuid::from_u128` then its
/// `Display`): 32 hexadecimal digits, most significant first, grouped 8-4-4-4-12.
#[verifier::external_body]
pub(crate) fn format_uuid(id: Id) -> (r: String)
    ensures
        r@ == uuid_hyphenated(id),
{
    uuid::Uuid::from_u128(id).to_string()
}

/// Reads a UUID (`uuid::Uuid::parse_str`, then `as_u128`). The result is named
/// `uuid_from_text`; the accepted forms (simple, hyphenated, braced, URN, in
/// either case) are not spelled out, except that the hyphenated form that
/// `format_uuid` writes is read back as the identifier it was written from.
#[verifier::external_body]
pub(crate) fn parse_uuid(s: &str) -> (r: Option<Id>)
    ensures
        r == uuid_from_text(s@),
        forall|v: Id| s@ == uuid_hyphenated(v) ==> r == Some(v),
{
    match uuid::Uuid::parse_str(s) {
        Ok(u) => Some(u.as_u128()),
        Err(_) => None,
    }
}

/// A fresh random UUID (`uuid::Uuid::new_v4`, then `as_u128`). Nothing is stated of
/// its value.
#[verifier::external_body]
pub(crate) fn random_uuid() -> (r: Id) {
    uuid::Uuid::new_v4().as_u128()
}

/// An `i64` in decimal (`i64::to_string`).
#[verifier::external_body]
pub(crate) fn i64_to_decimal(n: i64) -> (r: String)
    ensures
        r@ == decimal(n as int),
{
    n.to_string()
}

/// `s` with every space replaced by an underscore (as `str::replace(' ', "_")`).
pub fn replace_spaces(s: &str) -> (r: String)
    ensures
        r@ == underscored(s@),
{
    let n: usize = s.unicode_len();
    let mut r = String::new();
    let mut i: usize = 0;
    while i < n
        invariant
            n == s@.len(),
            i <= n,
            r@ =~= underscored(s@.take(i as int)),
        decreases n - i,
    {
        let c = s.get_char(i);
        if c == ' ' {
            push_char(&mut r, '_');
        } else {
            push_char(&mut r, c);
        }
        i = i + 1;
    }
    assert(s@.take(n as int) == s@);
    r
}

/// The hyphenated form of a UUID has 36 characters.
pub proof fn lemma_uuid_hyphenated_len(id: Id)
    ensures
        uuid_hyphenated(id).len() == 36,
        uuid_hyphenated(id).take(6) == hex_digits(id).take(6),
{
    let d = hex_digits(id);
    assert(uuid_hyphenated(id).take(6) =~= d.take(6));
}

} // verus!
