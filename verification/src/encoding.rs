//! Fixed-width lower-case hexadecimal text of 128-bit numbers.

use vstd::prelude::*;

verus! {

/// The lower-case hexadecimal digit for a value below sixteen.
pub open spec fn hex_digit(d: nat) -> char {
    if d == 0 { '0' } else if d == 1 { '1' } else if d == 2 { '2' } else if d == 3 { '3' }
    else if d == 4 { '4' } else if d == 5 { '5' } else if d == 6 { '6' } else if d == 7 { '7' }
    else if d == 8 { '8' } else if d == 9 { '9' } else if d == 10 { 'a' } else if d == 11 { 'b' }
    else if d == 12 { 'c' } else if d == 13 { 'd' } else if d == 14 { 'e' } else { 'f' }
}

/// Sixteen to the power `n`.
pub open spec fn pow16(n: nat) -> nat
    decreases n,
{
    if n == 0 { 1 } else { 16 * pow16((n - 1) as nat) }
}

/// The 32 hexadecimal digits of `v`, most significant first.
pub open spec fn hex32(v: u128) -> Seq<char> {
    Seq::new(32, |i: int| hex_digit(((v as nat) / pow16((31 - i) as nat)) % 16))
}

proof fn lemma_pow16_positive(n: nat)
    ensures
        pow16(n) >= 1,
    decreases n,
{
    if n > 0 {
        lemma_pow16_positive((n - 1) as nat);
    }
}

proof fn lemma_pow16_31()
    ensures
        pow16(31) == 0x1000_0000_0000_0000_0000_0000_0000_0000,
{
    reveal_with_fuel(pow16, 32);
}

fn digit_text(d: u128) -> (s: &'static str)
    requires
        d < 16,
    ensures
        s@ == seq![hex_digit(d as nat)],
{
    proof {
        reveal_strlit("0"); reveal_strlit("1"); reveal_strlit("2"); reveal_strlit("3");
        reveal_strlit("4"); reveal_strlit("5"); reveal_strlit("6"); reveal_strlit("7");
        reveal_strlit("8"); reveal_strlit("9"); reveal_strlit("a"); reveal_strlit("b");
        reveal_strlit("c"); reveal_strlit("d"); reveal_strlit("e"); reveal_strlit("f");
    }
    let s = if d == 0 { "0" } else if d == 1 { "1" } else if d == 2 { "2" } else if d == 3 { "3" }
    else if d == 4 { "4" } else if d == 5 { "5" } else if d == 6 { "6" } else if d == 7 { "7" }
    else if d == 8 { "8" } else if d == 9 { "9" } else if d == 10 { "a" } else if d == 11 { "b" }
    else if d == 12 { "c" } else if d == 13 { "d" } else if d == 14 { "e" } else { "f" };
    assert(s@ =~= seq![hex_digit(d as nat)]);
    s
}

/// Appends the 32 hexadecimal digits of `v` to `out`.
pub fn push_hex32(out: &mut String, v: u128)
    ensures
        final(out)@ == old(out)@ + hex32(v),
{
    let mut i: usize = 0;
    let mut p: u128 = 0x1000_0000_0000_0000_0000_0000_0000_0000;
    proof { lemma_pow16_31(); }
    while i < 32
        invariant
            0 <= i <= 32,
            i < 32 ==> p as nat == pow16((31 - i) as nat),
            out@ == old(out)@ + hex32(v).subrange(0, i as int),
        decreases 32 - i,
    {
        proof { lemma_pow16_positive((31 - i) as nat); }
        let d: u128 = (v / p) % 16;
        out.append(digit_text(d));
        proof {
            assert(hex32(v).subrange(0, i + 1) =~= hex32(v).subrange(0, i as int).push(
                hex32(v)[i as int]));
            assert(out@ =~= old(out)@ + hex32(v).subrange(0, i + 1));
            if i < 31 {
                assert(pow16((31 - i) as nat) == 16 * pow16((30 - i) as nat));
            }
        }
        if i < 31 {
            p = p / 16;
        }
        i = i + 1;
    }
    assert(hex32(v).subrange(0, 32) =~= hex32(v));
}

/// The 32 hexadecimal digits of `v` as a string.
pub fn hex_string(v: u128) -> (s: String)
    ensures
        s@ == hex32(v),
{
    let mut s = String::new();
    push_hex32(&mut s, v);
    assert(s@ =~= hex32(v));
    s
}

/// The bytes of a run of characters that are all ASCII.
pub open spec fn ascii_bytes(s: Seq<char>) -> Seq<u8> {
    s.map_values(|c: char| c as u8)
}

fn digit_byte(d: u128) -> (b: u8)
    requires
        d < 16,
    ensures
        b == hex_digit(d as nat) as u8,
{
    if d < 10 {
        48u8 + (d as u8)
    } else {
        87u8 + (d as u8)
    }
}

/// The 32 hexadecimal digits of `v` as ASCII bytes.
pub fn hex_bytes(v: u128) -> (out: Vec<u8>)
    ensures
        out@ == ascii_bytes(hex32(v)),
{
    let mut out: Vec<u8> = Vec::new();
    let mut i: usize = 0;
    let mut p: u128 = 0x1000_0000_0000_0000_0000_0000_0000_0000;
    proof { lemma_pow16_31(); }
    while i < 32
        invariant
            0 <= i <= 32,
            i < 32 ==> p as nat == pow16((31 - i) as nat),
            out@ == ascii_bytes(hex32(v).subrange(0, i as int)),
        decreases 32 - i,
    {
        proof { lemma_pow16_positive((31 - i) as nat); }
        let d: u128 = (v / p) % 16;
        let ghost before = out@;
        out.push(digit_byte(d));
        proof {
            assert(hex32(v).subrange(0, i + 1) =~= hex32(v).subrange(0, i as int).push(
                hex32(v)[i as int]));
            assert(out@ =~= ascii_bytes(hex32(v).subrange(0, i + 1)));
            if i < 31 {
                assert(pow16((31 - i) as nat) == 16 * pow16((30 - i) as nat));
            }
        }
        if i < 31 {
            p = p / 16;
        }
        i = i + 1;
    }
    assert(hex32(v).subrange(0, 32) =~= hex32(v));
    out
}

/// A copy of a run of bytes.
pub fn copy_bytes(src: &Vec<u8>) -> (out: Vec<u8>)
    ensures
        out@ == src@,
{
    let mut out: Vec<u8> = Vec::new();
    let mut i: usize = 0;
    while i < src.len()
        invariant
            0 <= i <= src@.len(),
            out@ == src@.take(i as int),
        decreases src@.len() - i,
    {
        out.push(src[i]);
        assert(out@ =~= src@.take(i + 1));
        i = i + 1;
    }
    assert(src@.take(i as int) =~= src@);
    out
}

} // verus!
