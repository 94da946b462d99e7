//! Generation of a default record name from an entropy word.
//!
//! When the caller supplies no name, one is drawn from a 64-bit entropy
//! word: its sixteen nibbles written as lowercase hexadecimal digits, most
//! significant first. The entropy source is the caller's, which keeps the
//! generator a pure function and makes collisions as unlikely as the
//! source makes repeated words; the store still enforces uniqueness.

use vstd::prelude::*;

verus! {

/// Number of hexadecimal digits in a generated name.
pub const GENERATED_NAME_LEN: usize = 16;

/// The lowercase hexadecimal digit for a value below sixteen.
pub open spec fn hex_digit_char(n: int) -> char {
    if n == 0 {
        '0'
    } else if n == 1 {
        '1'
    } else if n == 2 {
        '2'
    } else if n == 3 {
        '3'
    } else if n == 4 {
        '4'
    } else if n == 5 {
        '5'
    } else if n == 6 {
        '6'
    } else if n == 7 {
        '7'
    } else if n == 8 {
        '8'
    } else if n == 9 {
        '9'
    } else if n == 10 {
        'a'
    } else if n == 11 {
        'b'
    } else if n == 12 {
        'c'
    } else if n == 13 {
        'd'
    } else if n == 14 {
        'e'
    } else {
        'f'
    }
}

/// The i-th nibble of the entropy word, most significant first.
pub open spec fn nibble_of(entropy: u64, i: int) -> int {
    ((entropy >> ((60 - 4 * i) as u64)) & 0xf) as int
}

/// The name drawn from an entropy word: its sixteen nibbles as lowercase
/// hexadecimal digits, most significant first.
pub open spec fn hex_name_of(entropy: u64) -> Seq<char> {
    Seq::new(GENERATED_NAME_LEN as nat, |i: int| hex_digit_char(nibble_of(entropy, i)))
}

pub(crate) fn hex_digit_of(n: u64) -> (r: &'static str)
    requires
        n < 16,
    ensures
        r@.len() == 1,
        r@[0] == hex_digit_char(n as int),
{
    proof {
        reveal_strlit("0");
        reveal_strlit("1");
        reveal_strlit("2");
        reveal_strlit("3");
        reveal_strlit("4");
        reveal_strlit("5");
        reveal_strlit("6");
        reveal_strlit("7");
        reveal_strlit("8");
        reveal_strlit("9");
        reveal_strlit("a");
        reveal_strlit("b");
        reveal_strlit("c");
        reveal_strlit("d");
        reveal_strlit("e");
        reveal_strlit("f");
    }
    match n {
        0 => "0",
        1 => "1",
        2 => "2",
        3 => "3",
        4 => "4",
        5 => "5",
        6 => "6",
        7 => "7",
        8 => "8",
        9 => "9",
        10 => "a",
        11 => "b",
        12 => "c",
        13 => "d",
        14 => "e",
        _ => "f",
    }
}

/// Collision-resistance law: the generated name determines the entropy
/// word, so two generated names collide only when the entropy source
/// repeats a word.
pub proof fn lemma_generated_names_injective(e1: u64, e2: u64)
    requires
        hex_name_of(e1) == hex_name_of(e2),
    ensures
        e1 == e2,
{
    assert forall|i: int| 0 <= i < 16 implies nibble_of(e1, i) == nibble_of(e2, i) by {
        assert(hex_name_of(e1)[i] == hex_digit_char(nibble_of(e1, i)));
        assert(hex_name_of(e2)[i] == hex_digit_char(nibble_of(e2, i)));
        let s: u64 = (60 - 4 * i) as u64;
        assert(nibble_of(e1, i) == ((e1 >> s) & 0xf) as int);
        assert(nibble_of(e2, i) == ((e2 >> s) & 0xf) as int);
        assert((e1 >> s) & 0xf < 16) by (bit_vector);
        assert((e2 >> s) & 0xf < 16) by (bit_vector);
        let a = nibble_of(e1, i);
        let b = nibble_of(e2, i);
        assert(0 <= a < 16 && 0 <= b < 16);
        assert(hex_digit_char(a) == hex_digit_char(b));
        assert(a == b);
    }
    assert(nibble_of(e1, 0) == nibble_of(e2, 0));
    assert(nibble_of(e1, 1) == nibble_of(e2, 1));
    assert(nibble_of(e1, 2) == nibble_of(e2, 2));
    assert(nibble_of(e1, 3) == nibble_of(e2, 3));
    assert(nibble_of(e1, 4) == nibble_of(e2, 4));
    assert(nibble_of(e1, 5) == nibble_of(e2, 5));
    assert(nibble_of(e1, 6) == nibble_of(e2, 6));
    assert(nibble_of(e1, 7) == nibble_of(e2, 7));
    assert(nibble_of(e1, 8) == nibble_of(e2, 8));
    assert(nibble_of(e1, 9) == nibble_of(e2, 9));
    assert(nibble_of(e1, 10) == nibble_of(e2, 10));
    assert(nibble_of(e1, 11) == nibble_of(e2, 11));
    assert(nibble_of(e1, 12) == nibble_of(e2, 12));
    assert(nibble_of(e1, 13) == nibble_of(e2, 13));
    assert(nibble_of(e1, 14) == nibble_of(e2, 14));
    assert(nibble_of(e1, 15) == nibble_of(e2, 15));
    assert((e1 >> 60u64) & 0xf == (e2 >> 60u64) & 0xf && (e1 >> 56u64) & 0xf == (e2 >> 56u64) & 0xf
        && (e1 >> 52u64) & 0xf == (e2 >> 52u64) & 0xf && (e1 >> 48u64) & 0xf == (e2 >> 48u64) & 0xf
        && (e1 >> 44u64) & 0xf == (e2 >> 44u64) & 0xf && (e1 >> 40u64) & 0xf == (e2 >> 40u64) & 0xf
        && (e1 >> 36u64) & 0xf == (e2 >> 36u64) & 0xf && (e1 >> 32u64) & 0xf == (e2 >> 32u64) & 0xf
        && (e1 >> 28u64) & 0xf == (e2 >> 28u64) & 0xf && (e1 >> 24u64) & 0xf == (e2 >> 24u64) & 0xf
        && (e1 >> 20u64) & 0xf == (e2 >> 20u64) & 0xf && (e1 >> 16u64) & 0xf == (e2 >> 16u64) & 0xf
        && (e1 >> 12u64) & 0xf == (e2 >> 12u64) & 0xf && (e1 >> 8u64) & 0xf == (e2 >> 8u64) & 0xf
        && (e1 >> 4u64) & 0xf == (e2 >> 4u64) & 0xf && (e1 >> 0u64) & 0xf == (e2 >> 0u64) & 0xf
        ==> e1 == e2) by (bit_vector);
}

/// Produces the default record name drawn from the entropy word: sixteen
/// lowercase hexadecimal digits, never empty.
pub fn generate_name(entropy: u64) -> (r: String)
    ensures
        r@ == hex_name_of(entropy),
        r@.len() == GENERATED_NAME_LEN,
{
    let mut s = String::new();
    let mut i: usize = 0;
    while i < GENERATED_NAME_LEN
        invariant
            i <= GENERATED_NAME_LEN,
            s@ == hex_name_of(entropy).subrange(0, i as int),
        decreases GENERATED_NAME_LEN - i,
    {
        let shift: u64 = 60 - 4 * (i as u64);
        let nib: u64 = (entropy >> shift) & 0xf;
        proof {
            assert((entropy >> shift) & 0xf < 16) by (bit_vector);
            assert(nib as int == nibble_of(entropy, i as int));
        }
        let digit = hex_digit_of(nib);
        let ghost prev = s@;
        s.append(digit);
        proof {
            assert(hex_name_of(entropy).subrange(0, i + 1) =~= prev + digit@);
        }
        i += 1;
    }
    proof {
        assert(hex_name_of(entropy).subrange(0, GENERATED_NAME_LEN as int) =~= hex_name_of(
            entropy,
        ));
    }
    s
}

} // verus!
