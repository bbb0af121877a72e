//! Hex runs: the encoding of thumbnail bytes inside string payloads.
//!
//! Each byte is written as two uppercase hexadecimal digits, with no
//! separators.  Decoding tolerates lowercase digits; an odd number of
//! digits or a character outside the hex alphabet is a fatal decode error.

use vstd::prelude::*;
use crate::error::{DxfError, DxfResult, SpecError};

verus! {

/// True of a character that can stand in a hex run.
pub open spec fn is_hex_digit(c: char) -> bool {
    ||| 48 <= c as int <= 57
    ||| 65 <= c as int <= 70
    ||| 97 <= c as int <= 102
}

/// The value of a hex digit.
pub open spec fn hex_digit_val(c: char) -> int
    recommends
        is_hex_digit(c),
{
    if 48 <= c as int <= 57 {
        c as int - 48
    } else if 65 <= c as int <= 70 {
        c as int - 55
    } else {
        c as int - 87
    }
}

/// The uppercase digit of a value below sixteen.
pub open spec fn hex_char(n: int) -> char
    recommends
        0 <= n < 16,
{
    if n == 0 {
        '0'
    } else if n == 1 {
        '1'
    } else if n == 2 {
        '2'
    } else if n == 3 {
        '3'
    } else if n == 4 {
        '4'
    } else if n == 5 {
        '5'
    } else if n == 6 {
        '6'
    } else if n == 7 {
        '7'
    } else if n == 8 {
        '8'
    } else if n == 9 {
        '9'
    } else if n == 10 {
        'A'
    } else if n == 11 {
        'B'
    } else if n == 12 {
        'C'
    } else if n == 13 {
        'D'
    } else if n == 14 {
        'E'
    } else {
        'F'
    }
}

/// The bytes a run of hex digits denotes, when each pair of digits is
/// well-formed; `None` on an odd run or a character outside the alphabet.
pub open spec fn spec_hex_decode(s: Seq<char>) -> Option<Seq<u8>>
    decreases s.len(),
{
    if s.len() == 0 {
        Some(Seq::empty())
    } else if s.len() == 1 {
        None
    } else if is_hex_digit(s[0]) && is_hex_digit(s[1]) {
        match spec_hex_decode(s.skip(2)) {
            Some(rest) => Some(
                seq![(hex_digit_val(s[0]) * 16 + hex_digit_val(s[1])) as u8] + rest,
            ),
            None => None,
        }
    } else {
        None
    }
}

/// The uppercase hex run that denotes the given bytes.
pub open spec fn spec_hex_encode(b: Seq<u8>) -> Seq<char>
    decreases b.len(),
{
    if b.len() == 0 {
        Seq::empty()
    } else {
        seq![hex_char(b[0] as int / 16), hex_char(b[0] as int % 16)] + spec_hex_encode(b.skip(1))
    }
}

/// An encoded run has two digits for each byte.
pub proof fn lemma_hex_encode_len(b: Seq<u8>)
    ensures
        spec_hex_encode(b).len() == 2 * b.len(),
    decreases b.len(),
{
    if b.len() > 0 {
        lemma_hex_encode_len(b.skip(1));
    }
}

/// The digits of a value below sixteen decode back to that value.
proof fn lemma_hex_char_val(n: int)
    requires
        0 <= n < 16,
    ensures
        is_hex_digit(hex_char(n)),
        hex_digit_val(hex_char(n)) == n,
{
}

/// Decoding inverts encoding: the hex run of any byte sequence decodes
/// back to exactly that sequence.
pub proof fn lemma_hex_decode_encode(b: Seq<u8>)
    ensures
        spec_hex_decode(spec_hex_encode(b)) == Some(b),
    decreases b.len(),
{
    if b.len() == 0 {
        assert(spec_hex_decode(spec_hex_encode(b)) == Some(b));
    } else {
        let s = spec_hex_encode(b);
        lemma_hex_encode_len(b.skip(1));
        lemma_hex_char_val(b[0] as int / 16);
        lemma_hex_char_val(b[0] as int % 16);
        lemma_hex_decode_encode(b.skip(1));
        assert(s.skip(2) =~= spec_hex_encode(b.skip(1)));
        assert(hex_digit_val(s[0]) * 16 + hex_digit_val(s[1]) == b[0] as int);
        assert(seq![b[0]] + b.skip(1) =~= b);
    }
}

/// The value of a hex digit, or `None` for any other character.
fn hex_val_of(c: char) -> (r: Option<u8>)
    ensures
        is_hex_digit(c) ==> r == Some(hex_digit_val(c) as u8),
        !is_hex_digit(c) ==> r is None,
{
    let n = c as u32;
    if 48 <= n && n <= 57 {
        Some((n - 48) as u8)
    } else if 65 <= n && n <= 70 {
        Some((n - 55) as u8)
    } else if 97 <= n && n <= 102 {
        Some((n - 87) as u8)
    } else {
        None
    }
}

/// Decodes a run of hex digits, appending the bytes it denotes.
pub fn parse_hex_string(s: &str, data: &mut Vec<u8>) -> (r: DxfResult<()>)
    ensures
        match spec_hex_decode(s@) {
            Some(bytes) => r is Ok && final(data)@ == old(data)@ + bytes,
            None => r matches Err(e) && e@ == (SpecError::ParseError {
                message: "malformed hex data"@,
            }),
        },
{
    let n = s.unicode_len();
    let mut j: usize = 0;
    proof {
        assert(s@.skip(0) =~= s@);
        assert(data@.subrange(old(data)@.len() as int, data@.len() as int) =~= Seq::<u8>::empty());
        if let Some(rest) = spec_hex_decode(s@) {
            assert(Seq::<u8>::empty() + rest =~= rest);
        }
        assert(old(data)@ =~= data@.subrange(0, old(data)@.len() as int));
    }
    loop
        invariant
            2 * j <= n,
            n == s@.len(),
            data@.len() >= old(data)@.len(),
            old(data)@ == data@.subrange(0, old(data)@.len() as int),
            match spec_hex_decode(s@.skip(2 * j as int)) {
                Some(rest) => spec_hex_decode(s@) == Some(
                    data@.subrange(old(data)@.len() as int, data@.len() as int) + rest,
                ),
                None => spec_hex_decode(s@) is None,
            },
        decreases n - 2 * j,
    {
        let ghost taken = data@.subrange(old(data)@.len() as int, data@.len() as int);
        if 2 * j == n {
            proof {
                assert(s@.skip(2 * j as int) =~= Seq::<char>::empty());
                assert(taken + Seq::<u8>::empty() =~= taken);
                assert(data@ =~= old(data)@ + taken);
            }
            return Ok(());
        }
        if 2 * j + 1 == n {
            proof {
                assert(s@.skip(2 * j as int).len() == 1);
            }
            return Err(DxfError::ParseError("malformed hex data".to_owned()));
        }
        let c1 = s.get_char(2 * j);
        let c2 = s.get_char(2 * j + 1);
        let ghost tail = s@.skip(2 * j as int);
        proof {
            assert(tail.len() >= 2);
            assert(tail[0] == s@[2 * j as int]);
            assert(tail[1] == s@[2 * j as int + 1]);
            assert(tail.skip(2) =~= s@.skip(2 * (j + 1) as int));
        }
        match (hex_val_of(c1), hex_val_of(c2)) {
            (Some(hi), Some(lo)) => {
                let b = hi * 16 + lo;
                data.push(b);
                proof {
                    let taken2 = data@.subrange(old(data)@.len() as int, data@.len() as int);
                    assert(taken2 =~= taken + seq![b]);
                    if let Some(rest2) = spec_hex_decode(s@.skip(2 * (j + 1) as int)) {
                        assert(spec_hex_decode(tail) == Some(seq![b] + rest2));
                        assert(taken + (seq![b] + rest2) =~= taken2 + rest2);
                    }
                    assert(old(data)@ =~= data@.subrange(0, old(data)@.len() as int));
                }
                j = j + 1;
            },
            _ => {
                return Err(DxfError::ParseError("malformed hex data".to_owned()));
            },
        }
    }
}

/// The value a nibble encodes, as a one-character string.
fn nibble_text(n: u8) -> (r: &'static str)
    requires
        n < 16,
    ensures
        r@ == seq![hex_char(n as int)],
{
    let r = match n {
        0 => "0",
        1 => "1",
        2 => "2",
        3 => "3",
        4 => "4",
        5 => "5",
        6 => "6",
        7 => "7",
        8 => "8",
        9 => "9",
        10 => "A",
        11 => "B",
        12 => "C",
        13 => "D",
        14 => "E",
        _ => "F",
    };
    proof {
        reveal_strlit("0");
        reveal_strlit("1");
        reveal_strlit("2");
        reveal_strlit("3");
        reveal_strlit("4");
        reveal_strlit("5");
        reveal_strlit("6");
        reveal_strlit("7");
        reveal_strlit("8");
        reveal_strlit("9");
        reveal_strlit("A");
        reveal_strlit("B");
        reveal_strlit("C");
        reveal_strlit("D");
        reveal_strlit("E");
        reveal_strlit("F");
        assert(r@ =~= seq![hex_char(n as int)]);
    }
    r
}

/// Encodes a range of bytes as one uppercase hex run.
pub fn encode_hex_range(data: &Vec<u8>, from: usize, to: usize) -> (r: String)
    requires
        from <= to <= data@.len(),
    ensures
        r@ == spec_hex_encode(data@.subrange(from as int, to as int)),
{
    let mut r = String::new();
    let mut i: usize = from;
    proof {
        assert(r@ + spec_hex_encode(data@.subrange(from as int, to as int)) =~= spec_hex_encode(
            data@.subrange(from as int, to as int),
        ));
    }
    while i < to
        invariant
            from <= i <= to <= data@.len(),
            spec_hex_encode(data@.subrange(from as int, to as int)) == r@ + spec_hex_encode(
                data@.subrange(i as int, to as int),
            ),
        decreases to - i,
    {
        let b = data[i];
        let hi = nibble_text(b / 16);
        let lo = nibble_text(b % 16);
        let ghost before = r@;
        let ghost mid = data@.subrange(i as int, to as int);
        r.append(hi);
        r.append(lo);
        proof {
            assert(mid[0] == data@[i as int]);
            assert(mid.skip(1) =~= data@.subrange(i as int + 1, to as int));
            assert(spec_hex_encode(mid) == seq![
                hex_char(b as int / 16),
                hex_char(b as int % 16),
            ] + spec_hex_encode(mid.skip(1)));
            assert(r@ =~= before + seq![hex_char(b as int / 16), hex_char(b as int % 16)]);
            assert(r@ + spec_hex_encode(data@.subrange(i as int + 1, to as int)) =~= before
                + spec_hex_encode(mid));
        }
        i = i + 1;
    }
    proof {
        assert(data@.subrange(i as int, to as int) =~= Seq::<u8>::empty());
        assert(r@ + Seq::<char>::empty() =~= r@);
    }
    r
}

} // verus!
