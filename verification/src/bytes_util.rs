//! Small byte-level helpers shared by the codec, the interpreter and the
//! snapshot decoder: decimal rendering of lengths, ASCII case folding and
//! byte-string comparison.

use vstd::prelude::*;
use vstd::string::StrSliceExecFns;

verus! {

/// The bytes an ASCII character sequence spells, one byte per character.
pub open spec fn ascii_of(s: Seq<char>) -> Seq<u8> {
    Seq::new(s.len(), |i: int| s[i] as u8)
}

/// The bytes of an ASCII string literal.
pub fn str_bytes(s: &str) -> (r: Vec<u8>)
    requires
        s.is_ascii(),
    ensures
        r@ == ascii_of(s@),
{
    let r = s.as_bytes_vec();
    proof {
        vstd::string::is_ascii_spec_bytes(s);
        assert(r@ =~= ascii_of(s@));
    }
    r
}

/// The ASCII decimal digits of `n`, most significant first, with no
/// leading zeros (a single `'0'` for zero).
pub open spec fn dec_digits(n: nat) -> Seq<u8>
    decreases n,
{
    if n < 10 {
        seq![(0x30 + n) as u8]
    } else {
        dec_digits(n / 10) + seq![(0x30 + n % 10) as u8]
    }
}

/// Appends the decimal digits of `n` to `out`.
pub fn push_decimal(out: &mut Vec<u8>, n: u64)
    ensures
        final(out)@ == old(out)@ + dec_digits(n as nat),
    decreases n,
{
    if n < 10 {
        out.push(0x30 + n as u8);
    } else {
        push_decimal(out, n / 10);
        out.push(0x30 + (n % 10) as u8);
        assert(out@ =~= old(out)@ + dec_digits(n as nat));
    }
}

/// ASCII case folding of one byte: `'A'..'Z'` maps to `'a'..'z'`, every
/// other byte is unchanged.
pub open spec fn lower_byte(b: u8) -> u8 {
    if 0x41 <= b && b <= 0x5a {
        (b + 0x20) as u8
    } else {
        b
    }
}

/// ASCII case folding of a byte string.
pub open spec fn lower_bytes(s: Seq<u8>) -> Seq<u8> {
    s.map_values(|b: u8| lower_byte(b))
}

/// Returns the ASCII-lowercased copy of `v`.
pub fn to_lower(v: &Vec<u8>) -> (r: Vec<u8>)
    ensures
        r@ == lower_bytes(v@),
{
    let mut r: Vec<u8> = Vec::new();
    let mut i: usize = 0;
    while i < v.len()
        invariant
            i <= v.len(),
            r@ == lower_bytes(v@.subrange(0, i as int)),
        decreases v.len() - i,
    {
        let b = v[i];
        if 0x41 <= b && b <= 0x5a {
            r.push(b + 0x20);
        } else {
            r.push(b);
        }
        i = i + 1;
        assert(r@ =~= lower_bytes(v@.subrange(0, i as int)));
    }
    assert(v@.subrange(0, v@.len() as int) =~= v@);
    r
}

/// Appends every byte of `s` to `out`.
pub fn push_all(out: &mut Vec<u8>, s: &Vec<u8>)
    ensures
        final(out)@ == old(out)@ + s@,
{
    let mut i: usize = 0;
    assert(out@ =~= old(out)@ + s@.subrange(0, 0));
    while i < s.len()
        invariant
            i <= s.len(),
            out@ == old(out)@ + s@.subrange(0, i as int),
        decreases s.len() - i,
    {
        out.push(s[i]);
        i = i + 1;
        assert(out@ =~= old(out)@ + s@.subrange(0, i as int));
    }
    assert(old(out)@ + s@.subrange(0, s@.len() as int) =~= old(out)@ + s@);
}

/// An owned copy of the bytes of `v` in `[a, b)`.
pub fn copy_range(v: &Vec<u8>, a: usize, b: usize) -> (r: Vec<u8>)
    requires
        a <= b <= v@.len(),
    ensures
        r@ == v@.subrange(a as int, b as int),
{
    vstd::slice::slice_to_vec(vstd::slice::slice_subrange(v.as_slice(), a, b))
}

/// Returns whether `a` and `b` hold the same bytes.
pub fn bytes_eq(a: &Vec<u8>, b: &Vec<u8>) -> (r: bool)
    ensures
        r == (a@ == b@),
{
    if a.len() != b.len() {
        return false;
    }
    let mut i: usize = 0;
    while i < a.len()
        invariant
            i <= a.len(),
            a@.len() == b@.len(),
            forall|j: int| 0 <= j < i ==> a@[j] == b@[j],
        decreases a.len() - i,
    {
        if a[i] != b[i] {
            return false;
        }
        i = i + 1;
    }
    assert(a@ =~= b@);
    true
}

} // verus!

