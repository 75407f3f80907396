//! Percent-encoding of path segments for forge API routes.
use vstd::prelude::*;
use vstd::string::*;
use vstd::utf8::encode_utf8;

verus! {

/// Bytes left as they are: ASCII letters and digits and `-`, `_`, `.`, `~`.
pub open spec fn unreserved(b: u8) -> bool {
    (48 <= b && b <= 57) || (65 <= b && b <= 90) || (97 <= b && b <= 122) || b == 45 || b == 95 || b
        == 46 || b == 126
}

/// An upper-case hexadecimal digit.
pub open spec fn hex_digit(d: u8) -> char {
    if d < 10 {
        (48 + d) as char
    } else {
        (55 + d) as char
    }
}

/// One byte, encoded.
pub open spec fn encode_byte(b: u8) -> Seq<char> {
    if unreserved(b) {
        seq![b as char]
    } else {
        seq!['%', hex_digit(b / 16), hex_digit(b % 16)]
    }
}

/// Bytes, each encoded.
pub open spec fn percent_bytes(bs: Seq<u8>) -> Seq<char>
    decreases bs.len(),
{
    if bs.len() == 0 {
        Seq::empty()
    } else {
        percent_bytes(bs.drop_last()) + encode_byte(bs.last())
    }
}

/// The UTF-8 bytes of a text, percent-encoded.
pub open spec fn spec_percent_encode(value: Seq<char>) -> Seq<char> {
    percent_bytes(encode_utf8(value))
}

fn hex_char(d: u8) -> (c: char)
    requires
        d < 16,
    ensures
        c == hex_digit(d),
{
    if d < 10 {
        (48 + d) as char
    } else {
        (55 + d) as char
    }
}

/// Percent-encodes the UTF-8 bytes of `value`.
pub fn percent_encode(value: &str) -> (r: String)
    ensures
        r@ == spec_percent_encode(value@),
{
    let bytes = value.as_bytes();
    let ghost bs = bytes@;
    let mut out = String::new();
    let mut i: usize = 0;
    while i < bytes.len()
        invariant
            bs == bytes@,
            i <= bs.len(),
            out@ == percent_bytes(bs.take(i as int)),
        decreases bs.len() - i,
    {
        let b = bytes[i];
        proof {
            assert(bs.take(i + 1).drop_last() =~= bs.take(i as int));
            assert(bs.take(i + 1).last() == b);
        }
        let keep = (48 <= b && b <= 57) || (65 <= b && b <= 90) || (97 <= b && b <= 122) || b == 45 || b
            == 95 || b == 46 || b == 126;
        if keep {
            crate::text::push_char(&mut out, b as char);
        } else {
            crate::text::push_char(&mut out, '%');
            crate::text::push_char(&mut out, hex_char(b / 16));
            crate::text::push_char(&mut out, hex_char(b % 16));
        }
        proof {
            assert(out@ =~= percent_bytes(bs.take(i as int)) + encode_byte(b));
        }
        i += 1;
    }
    proof {
        assert(bs.take(bs.len() as int) =~= bs);
    }
    out
}

} // verus!
