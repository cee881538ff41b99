//! The few string operations of std that the library calls.
use vstd::prelude::*;

verus! {

/// What `str::trim` leaves of a string.
pub uninterp spec fn trimmed(s: Seq<char>) -> Seq<char>;

/// What `str::to_lowercase` makes of a string.
pub uninterp spec fn lower_of(s: Seq<char>) -> Seq<char>;

/// Relies on `str::trim`: the string without leading and trailing whitespace.
#[verifier::external_body]
pub(crate) fn trim_str(s: &str) -> (r: String)
    ensures
        r@ == trimmed(s@),
{
    s.trim().to_string()
}

/// Relies on `str::to_lowercase`: the result depends on the characters alone.
#[verifier::external_body]
pub(crate) fn lowercase(s: &str) -> (r: String)
    ensures
        r@ == lower_of(s@),
{
    s.to_lowercase()
}

/// Relies on `str::chars`: the characters of the string, in order.
#[verifier::external_body]
pub(crate) fn chars_of(s: &str) -> (r: Vec<char>)
    ensures
        r@ == s@,
{
    s.chars().collect()
}

/// Relies on collecting characters into a `String`: the same characters, in order.
#[verifier::external_body]
pub(crate) fn string_of_chars(cs: &Vec<char>) -> (r: String)
    ensures
        r@ == cs@,
{
    cs.iter().collect()
}

/// The letter of the alphabet at position `k` (0 for 'A').
pub open spec fn letter(k: int) -> char {
    ((65 + k) as u32) as char
}

/// Spreadsheet-style column name of a 1-based number: 1 is "A", 26 is "Z",
/// 27 is "AA"; 0 is the empty name.
pub open spec fn base_26_of(n: nat) -> Seq<char>
    decreases n,
{
    if n == 0 {
        Seq::<char>::empty()
    } else {
        base_26_of(((n - 1) / 26) as nat) + seq![letter((n - 1) % 26)]
    }
}

/// Spreadsheet-style column name of a 1-based number: 1 is "A", 27 is "AA".
pub fn base_26(num: u32) -> (r: String)
    ensures
        r@ == base_26_of(num as nat),
{
    let mut n: u32 = num;
    let mut v: Vec<char> = Vec::new();
    while n > 0
        invariant
            base_26_of(n as nat) + v@ == base_26_of(num as nat),
        decreases n,
    {
        let m = n - 1;
        let rem = m % 26;
        let c = (65 + rem) as u8 as char;
        proof {
            assert(c == letter(rem as int));
            assert(base_26_of(n as nat) == base_26_of((m / 26) as nat) + seq![c]);
            assert(base_26_of((m / 26) as nat) + seq![c].add(v@) =~= base_26_of(n as nat) + v@);
        }
        let ghost v0 = v@;
        v.insert(0, c);
        proof {
            assert(v@ =~= seq![c] + v0);
        }
        n = m / 26;
    }
    string_of_chars(&v)
}

} // verus!
