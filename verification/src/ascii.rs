//! Byte-level text helpers: equality, ASCII case folding, membership in a
//! list of byte strings, and decimal rendering. All comparisons the library
//! makes on header names and body keys go through these.

use vstd::prelude::*;

verus! {

/// ASCII lower-casing of one byte (65..=90 are 'A'..='Z').
pub open spec fn lower_byte(b: u8) -> u8 {
    if 65 <= b && b <= 90 {
        (b + 32) as u8
    } else {
        b
    }
}

/// ASCII lower-casing of a byte string.
pub open spec fn lower(s: Seq<u8>) -> Seq<u8> {
    s.map_values(|b: u8| lower_byte(b))
}

/// Byte-string equality as an executable function.
pub fn bytes_eq(a: &[u8], b: &[u8]) -> (r: bool)
    ensures
        r == (a@ == b@),
{
    if a.len() != b.len() {
        assert(a@ != b@);
        return false;
    }
    let mut i: usize = 0;
    while i < a.len()
        invariant
            0 <= i <= a.len(),
            a.len() == b.len(),
            forall|j: int| 0 <= j < i ==> a@[j] == b@[j],
        decreases a.len() - i,
    {
        if a[i] != b[i] {
            return false;
        }
        i += 1;
    }
    proof {
        assert(a@ =~= b@);
    }
    true
}

/// Case-insensitive byte-string equality (ASCII folding).
pub fn eq_ignore_case(a: &[u8], b: &[u8]) -> (r: bool)
    ensures
        r == (lower(a@) == lower(b@)),
{
    if a.len() != b.len() {
        assert(lower(a@).len() != lower(b@).len());
        return false;
    }
    let mut i: usize = 0;
    while i < a.len()
        invariant
            0 <= i <= a.len(),
            a.len() == b.len(),
            forall|j: int| 0 <= j < i ==> lower(a@)[j] == lower(b@)[j],
        decreases a.len() - i,
    {
        let x = a[i];
        let y = b[i];
        let xl: u8 = if 65 <= x && x <= 90 { x + 32 } else { x };
        let yl: u8 = if 65 <= y && y <= 90 { y + 32 } else { y };
        if xl != yl {
            assert(lower(a@)[i as int] != lower(b@)[i as int]);
            return false;
        }
        i += 1;
    }
    proof {
        assert(lower(a@) =~= lower(b@));
    }
    true
}

/// Whether `needle` occurs in `list`, comparing ASCII-case-insensitively.
pub open spec fn in_list_ci(list: Seq<Seq<u8>>, needle: Seq<u8>) -> bool {
    exists|i: int| 0 <= i < list.len() && lower(list[i]) == lower(needle)
}

/// Case-insensitive membership of a byte string in a list of byte strings.
pub fn list_contains_ci(list: &Vec<Vec<u8>>, needle: &[u8]) -> (r: bool)
    ensures
        r == in_list_ci(list@.map_values(|v: Vec<u8>| v@), needle@),
{
    let ghost model = list@.map_values(|v: Vec<u8>| v@);
    let mut i: usize = 0;
    while i < list.len()
        invariant
            0 <= i <= list.len(),
            model == list@.map_values(|v: Vec<u8>| v@),
            forall|j: int| 0 <= j < i ==> lower(model[j]) != lower(needle@),
        decreases list.len() - i,
    {
        if eq_ignore_case(list[i].as_slice(), needle) {
            assert(lower(model[i as int]) == lower(needle@));
            return true;
        }
        i += 1;
    }
    false
}

/// Whether `needle` occurs in `list`, compared byte for byte.
pub open spec fn in_list(list: Seq<Seq<u8>>, needle: Seq<u8>) -> bool {
    exists|i: int| 0 <= i < list.len() && list[i] == needle
}

/// Exact membership of a byte string in a list of byte strings.
pub fn list_contains(list: &Vec<Vec<u8>>, needle: &[u8]) -> (r: bool)
    ensures
        r == in_list(list@.map_values(|v: Vec<u8>| v@), needle@),
{
    let ghost model = list@.map_values(|v: Vec<u8>| v@);
    let mut i: usize = 0;
    while i < list.len()
        invariant
            0 <= i <= list.len(),
            model == list@.map_values(|v: Vec<u8>| v@),
            forall|j: int| 0 <= j < i ==> model[j] != needle@,
        decreases list.len() - i,
    {
        if bytes_eq(list[i].as_slice(), needle) {
            assert(model[i as int] == needle@);
            return true;
        }
        i += 1;
    }
    false
}

/// The decimal digits of `n`, most significant first (48 is '0').
pub open spec fn dec_digits(n: nat) -> Seq<u8>
    decreases n,
{
    if n < 10 {
        seq![(48 + n) as u8]
    } else {
        dec_digits(n / 10) + seq![(48 + n % 10) as u8]
    }
}

/// Append the decimal rendering of `n` to `out`.
pub fn push_decimal(out: &mut Vec<u8>, n: u16)
    ensures
        final(out)@ == old(out)@ + dec_digits(n as nat),
    decreases n,
{
    if n < 10 {
        out.push(48 + (n as u8));
    } else {
        push_decimal(out, n / 10);
        out.push(48 + ((n % 10) as u8));
    }
}

/// ASCII lower-case a byte string into a fresh one.
#[verifier::loop_isolation(false)]
pub fn to_lower_vec(s: &[u8]) -> (r: Vec<u8>)
    ensures
        r@ == lower(s@),
{
    let mut out: Vec<u8> = Vec::new();
    let mut i: usize = 0;
    while i < s.len()
        invariant
            0 <= i <= s@.len(),
            out@.len() == i,
            forall|j: int| 0 <= j < i ==> out@[j] == lower_byte(s@[j]),
        decreases s@.len() - i,
    {
        let b = s[i];
        let bl: u8 = if 65 <= b && b <= 90 { b + 32 } else { b };
        out.push(bl);
        i += 1;
    }
    proof {
        assert(out@ =~= lower(s@));
    }
    out
}

} // verus!
