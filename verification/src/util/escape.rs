//! Undoing udev's escaping of device strings.
//!
//! udev writes a byte that it considers unsafe in a device string as `\xHH`, with two hexadecimal
//! digits. The backslash itself is always written that way.
use crate::text;
use vstd::prelude::*;

verus! {

pub const BACKSLASH: u8 = 92;

pub const LOWER_X: u8 = 120;

/// The value of a hexadecimal digit.
pub open spec fn hex_value(b: u8) -> Option<u8> {
    if 48 <= b <= 57 {
        Some((b - 48) as u8)
    } else if 97 <= b <= 102 {
        Some((b - 87) as u8)
    } else if 65 <= b <= 70 {
        Some((b - 55) as u8)
    } else {
        None
    }
}

/// The bytes that an escaped sequence of bytes stands for, if every backslash in it starts an
/// escape.
pub open spec fn unescaped_bytes(b: Seq<u8>) -> Option<Seq<u8>>
    decreases b.len(),
{
    if b.len() == 0 {
        Some(seq![])
    } else if b[0] != BACKSLASH {
        match unescaped_bytes(b.skip(1)) {
            Some(rest) => Some(seq![b[0]] + rest),
            None => None,
        }
    } else if 4 <= b.len() && b[1] == LOWER_X && hex_value(b[2]) is Some && hex_value(b[3]) is Some {
        match unescaped_bytes(b.skip(4)) {
            Some(rest) => Some(
                seq![(hex_value(b[2])->0 * 16 + hex_value(b[3])->0) as u8] + rest,
            ),
            None => None,
        }
    } else {
        None
    }
}

/// The text that an escaped text stands for, if it is well-formed and the bytes it stands for are
/// valid UTF-8.
pub open spec fn unescaped(s: Seq<char>) -> Option<Seq<char>> {
    match unescaped_bytes(vstd::utf8::encode_utf8(s)) {
        Some(b) => if vstd::utf8::valid_utf8(b) {
            Some(vstd::utf8::decode_utf8(b))
        } else {
            None
        },
        None => None,
    }
}

/// The text is not one that udev's escaping gives.
#[derive(Debug, Clone, Copy, PartialEq, Eq, Structural)]
pub struct InvalidEscape;

fn hex(b: u8) -> (r: Option<u8>)
    ensures
        r == hex_value(b),
        r matches Some(v) ==> v < 16,
{
    if 48 <= b && b <= 57 {
        Some(b - 48)
    } else if 97 <= b && b <= 102 {
        Some(b - 87)
    } else if 65 <= b && b <= 70 {
        Some(b - 55)
    } else {
        None
    }
}

/// `rest` behind what has been read already.
spec fn behind(head: Seq<u8>, rest: Option<Seq<u8>>) -> Option<Seq<u8>> {
    match rest {
        Some(rest) => Some(head + rest),
        None => None,
    }
}

fn unescape_bytes(b: &[u8]) -> (r: Option<Vec<u8>>)
    ensures
        match r {
            Some(v) => unescaped_bytes(b@) == Some(v@),
            None => unescaped_bytes(b@) is None,
        },
{
    let mut v: Vec<u8> = Vec::new();
    let mut i: usize = 0;
    assert(b@.skip(0) == b@);
    assert(behind(v@, unescaped_bytes(b@)) == unescaped_bytes(b@)) by {
        if let Some(rest) = unescaped_bytes(b@) {
            assert(v@ + rest =~= rest);
        }
    }
    while i < b.len()
        invariant
            i <= b@.len(),
            behind(v@, unescaped_bytes(b@.skip(i as int))) == unescaped_bytes(b@),
        decreases b@.len() - i,
    {
        let ghost rest = b@.skip(i as int);
        let ghost head = v@;
        let c = b[i];
        assert(rest[0] == c);
        if c != BACKSLASH {
            assert(rest.skip(1) == b@.skip(i + 1));
            v.push(c);
            i = i + 1;
            proof {
                if let Some(tail) = unescaped_bytes(b@.skip(i as int)) {
                    assert(head + (seq![c] + tail) =~= v@ + tail);
                }
            }
        } else {
            if b.len() - i < 4 || b[i + 1] != LOWER_X {
                return None;
            }
            assert(rest[1] == b@[i + 1] && rest[2] == b@[i + 2] && rest[3] == b@[i + 3]);
            match (hex(b[i + 2]), hex(b[i + 3])) {
                (Some(h), Some(l)) => {
                    assert(rest.skip(4) == b@.skip(i + 4));
                    v.push(h * 16 + l);
                    i = i + 4;
                    proof {
                        if let Some(tail) = unescaped_bytes(b@.skip(i as int)) {
                            assert(head + (seq![(h * 16 + l) as u8] + tail) =~= v@ + tail);
                        }
                    }
                },
                _ => {
                    return None;
                },
            }
        }
    }
    assert(v@ + Seq::<u8>::empty() =~= v@);
    Some(v)
}

/// Undo the escaping of a device string.
pub fn unescape_devnode(s: &str) -> (r: Result<String, InvalidEscape>)
    ensures
        match r {
            Ok(t) => unescaped(s@) == Some(t@),
            Err(_) => unescaped(s@) is None,
        },
{
    match unescape_bytes(s.as_bytes()) {
        None => Err(InvalidEscape),
        Some(b) => match text::from_utf8(b) {
            None => Err(InvalidEscape),
            Some(t) => Ok(t),
        },
    }
}

/// The lower-case hexadecimal digit with value `d`.
pub open spec fn hex_digit(d: u8) -> u8 {
    if d < 10 {
        (48 + d) as u8
    } else {
        (87 + d) as u8
    }
}

/// How udev writes `b`, where `safe` says which bytes may stand for themselves.
pub open spec fn escaped_bytes(b: Seq<u8>, safe: spec_fn(u8) -> bool) -> Seq<u8>
    decreases b.len(),
{
    if b.len() == 0 {
        seq![]
    } else if safe(b[0]) && b[0] != BACKSLASH {
        seq![b[0]] + escaped_bytes(b.skip(1), safe)
    } else {
        seq![BACKSLASH, LOWER_X, hex_digit(b[0] / 16), hex_digit(b[0] % 16)] + escaped_bytes(
            b.skip(1),
            safe,
        )
    }
}

/// Unescaping undoes escaping, whatever the set of bytes that may stand for themselves.
pub proof fn unescaping_undoes_escaping(b: Seq<u8>, safe: spec_fn(u8) -> bool)
    ensures
        unescaped_bytes(escaped_bytes(b, safe)) == Some(b),
    decreases b.len(),
{
    if b.len() > 0 {
        let rest = escaped_bytes(b.skip(1), safe);
        unescaping_undoes_escaping(b.skip(1), safe);
        let e = escaped_bytes(b, safe);
        if safe(b[0]) && b[0] != BACKSLASH {
            assert(e.skip(1) =~= rest);
        } else {
            assert(e.skip(4) =~= rest);
        }
        assert(seq![b[0]] + b.skip(1) =~= b);
    } else {
        assert(b =~= seq![]);
    }
}

/// The value of a hexadecimal digit is below sixteen and is the same in either case, and every such
/// value has a digit. No other byte is one.
pub proof fn hex_values_are_below_sixteen(b: u8)
    ensures
        hex_value(b) matches Some(v) ==> v < 16 && (hex_digit(v) == b || hex_digit(v) == b + 32),
        b < 16 ==> hex_value(hex_digit(b)) == Some(b),
        65 <= b <= 70 ==> hex_value(b) == hex_value((b + 32) as u8),
        hex_value(b) is Some <==> 48 <= b <= 57 || 65 <= b <= 70 || 97 <= b <= 102,
        hex_value(48) == Some(0u8) && hex_value(57) == Some(9u8) && hex_value(102) == Some(15u8),
{
}

/// Bytes other than a backslash stand for themselves. A backslash stands for the byte that the two
/// hexadecimal digits behind its `x` give, and is an error if there are none.
pub proof fn backslashes_start_escapes(byte: u8, high: u8, low: u8, rest: Seq<u8>)
    ensures
        unescaped_bytes(Seq::<u8>::empty()) == Some(Seq::<u8>::empty()),
        byte != 92 ==> unescaped_bytes(seq![byte] + rest) == match unescaped_bytes(rest) {
            Some(tail) => Some(seq![byte] + tail),
            None => None,
        },
        hex_value(high) is Some && hex_value(low) is Some ==> unescaped_bytes(
            seq![92u8, 120u8, high, low] + rest,
        ) == match unescaped_bytes(rest) {
            Some(tail) => Some(
                seq![(16 * hex_value(high)->0 + hex_value(low)->0) as u8] + tail,
            ),
            None => None,
        },
        hex_value(high) is None || hex_value(low) is None ==> unescaped_bytes(
            seq![92u8, 120u8, high, low] + rest,
        ) is None,
        byte != 120 ==> unescaped_bytes(seq![92u8, byte] + rest) is None,
        rest.len() < 3 ==> unescaped_bytes(seq![92u8] + rest) is None,
{
    let plain = seq![byte] + rest;
    assert(plain[0] == byte);
    assert(plain.skip(1) =~= rest);
    let escape = seq![92u8, 120u8, high, low] + rest;
    assert(escape[0] == 92 && escape[1] == 120 && escape[2] == high && escape[3] == low);
    assert(escape.skip(4) =~= rest);
    let odd = seq![92u8, byte] + rest;
    assert(odd[0] == 92 && odd[1] == byte);
    let short = seq![92u8] + rest;
    assert(short[0] == 92);
}

/// A text without a backslash stands for itself.
pub proof fn plain_text_stands_for_itself(s: Seq<char>)
    requires
        !vstd::utf8::encode_utf8(s).contains(92u8),
    ensures
        unescaped(s) == Some(s),
{
    let b = vstd::utf8::encode_utf8(s);
    lemma_plain_bytes(b);
    vstd::utf8::encode_utf8_valid_utf8(s);
    vstd::utf8::encode_utf8_decode_utf8(s);
}

proof fn lemma_plain_bytes(b: Seq<u8>)
    requires
        !b.contains(92u8),
    ensures
        unescaped_bytes(b) == Some(b),
    decreases b.len(),
{
    if b.len() > 0 {
        let rest = b.skip(1);
        assert(b[0] != 92) by {
            if b[0] == 92 {
                assert(b.contains(92u8));
            }
        }
        assert(!rest.contains(92u8)) by {
            if rest.contains(92u8) {
                let i = choose|i: int| 0 <= i < rest.len() && rest[i] == 92u8;
                assert(b[i + 1] == 92u8);
            }
        }
        lemma_plain_bytes(rest);
        assert(seq![b[0]] + rest =~= b);
    } else {
        assert(b =~= Seq::empty());
    }
}

/// A text is what its unescaped bytes spell, and there is none if they spell none.
pub proof fn unescaped_text_is_spelled_by_its_bytes(s: Seq<char>, t: Seq<char>)
    ensures
        unescaped(s) == Some(t) <==> unescaped_bytes(vstd::utf8::encode_utf8(s)) == Some(
            vstd::utf8::encode_utf8(t),
        ),
{
    vstd::utf8::encode_utf8_valid_utf8(t);
    vstd::utf8::encode_utf8_decode_utf8(t);
    if let Some(b) = unescaped_bytes(vstd::utf8::encode_utf8(s)) {
        if vstd::utf8::valid_utf8(b) {
            vstd::utf8::decode_utf8_encode_utf8(b);
        }
    }
}

} // verus!
