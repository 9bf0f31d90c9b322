//! Protocol engine for the CH347 USB debug bridge.
//!
//! The bridge exposes a raw bulk pipe; this crate turns high-level debug
//! operations (JTAG scan-chain work, SWD register access) into the exact
//! byte batches the bridge understands, and interprets the bytes it sends
//! back.  Everything here is pure computation over plain values: the USB
//! transfers themselves live outside the crate, in the thin shell that
//! owns the device handle.

use vstd::prelude::*;

pub mod bits;
pub mod command;
pub mod jtag;
pub mod swd;
pub mod transport;

verus! {

/// The ASCII code of the hexadecimal digit `n`, for `n` below 16:
/// `'0'` through `'9'`, then `'a'` through `'f'`.
pub open spec fn hex_digit(n: u8) -> u8 {
    if n < 10 {
        (48 + n) as u8
    } else {
        (87 + n) as u8
    }
}

/// The four ASCII bytes `0xhh` of one formatted byte.
pub open spec fn byte_entry(b: u8) -> Seq<u8> {
    seq![48u8, 120u8, hex_digit(b / 16), hex_digit(b % 16)]
}

/// The formatted bytes of a sequence, separated by `, `.
pub open spec fn entries_bytes(s: Seq<u8>) -> Seq<u8>
    decreases s.len(),
{
    if s.len() == 0 {
        Seq::empty()
    } else if s.len() == 1 {
        byte_entry(s[0])
    } else {
        entries_bytes(s.drop_last()) + seq![44u8, 32u8] + byte_entry(s.last())
    }
}

/// The full rendering: the entries in square brackets.
pub open spec fn format_bytes_spec(s: Seq<u8>) -> Seq<u8> {
    seq![91u8] + entries_bytes(s) + seq![93u8]
}

/// A byte sequence read as the characters of its ASCII codes.
pub open spec fn ascii_chars(s: Seq<u8>) -> Seq<char> {
    s.map_values(|b: u8| b as char)
}

/// Relies on `String::from_utf8`: a vector of ASCII bytes converts to
/// the string of exactly those characters.
#[verifier::external_body]
fn ascii_string(bytes: Vec<u8>) -> (r: String)
    requires
        forall|i: int| 0 <= i < bytes@.len() ==> bytes@[i] < 128,
    ensures
        r@.len() == bytes@.len(),
        forall|i: int| 0 <= i < bytes@.len() ==> r@[i] == bytes@[i] as char,
{
    String::from_utf8(bytes).unwrap_or_default()
}

/// Renders a byte array the way it is logged: each byte as `0xhh`,
/// comma-separated, in square brackets.
pub fn format_u8_array(arr: &[u8]) -> (r: String)
    ensures
        r@ == ascii_chars(format_bytes_spec(arr@)),
{
    let mut out: Vec<u8> = Vec::new();
    out.push(91);
    proof {
        assert(arr@.take(0) =~= Seq::<u8>::empty());
        assert(out@ =~= seq![91u8] + entries_bytes(arr@.take(0)));
    }
    let mut i: usize = 0;
    while i < arr.len()
        invariant
            i <= arr@.len(),
            out@ == seq![91u8] + entries_bytes(arr@.take(i as int)),
            forall|k: int| 0 <= k < out@.len() ==> out@[k] < 128,
        decreases arr@.len() - i,
    {
        if i > 0 {
            out.push(44);
            out.push(32);
        }
        let b = arr[i];
        out.push(48);
        out.push(120);
        let hi = b / 16;
        let lo = b % 16;
        out.push(
            if hi < 10 {
                48 + hi
            } else {
                87 + hi
            },
        );
        out.push(
            if lo < 10 {
                48 + lo
            } else {
                87 + lo
            },
        );
        proof {
            let taken = arr@.take(i as int + 1);
            assert(taken.last() == arr@[i as int]);
            if i == 0 {
                assert(taken.len() == 1);
                assert(taken[0] == arr@[0]);
            } else {
                assert(taken.drop_last() =~= arr@.take(i as int));
            }
            assert(out@ =~= seq![91u8] + entries_bytes(taken));
        }
        i = i + 1;
    }
    out.push(93);
    proof {
        assert(arr@.take(arr@.len() as int) =~= arr@);
        assert(out@ =~= format_bytes_spec(arr@));
    }
    let s = ascii_string(out);
    proof {
        assert(s@ =~= ascii_chars(format_bytes_spec(arr@)));
    }
    s
}

/// A blocking delay provider.  The sleeping itself is the shell's work;
/// the engines only ever hand this token around.
pub struct Delay;

impl Delay {
    /// The delay provider.
    pub fn new() -> Delay {
        Delay
    }
}

} // verus!
