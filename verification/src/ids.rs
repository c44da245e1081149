//! Tunnel identifiers: random version-4 UUIDs, held as their 128-bit value
//! (whose integer order is the UUIDs' byte order).
use crate::text::push_char;
use vstd::prelude::*;

verus! {

/// A version-4 UUID's fixed bits: the version nibble is 4 and the variant bits are `10`.
pub open spec fn is_v4_id(id: u128) -> bool {
    &&& (id >> 76u128) & 0xf == 4
    &&& (id >> 62u128) & 0x3 == 2
}

/// `Uuid::new_v4().as_u128()`: a fresh random UUID. Of every outcome only the
/// fixed bits are stated, and nothing of the random ones.
#[verifier::external_body]
pub(crate) fn new_tunnel_id() -> (id: u128)
    ensures
        is_v4_id(id),
{
    uuid::Uuid::new_v4().as_u128()
}


/// The lower-case hexadecimal digit of `n` (`n < 16`).
pub open spec fn hex_digit(n: u128) -> char {
    if n < 10 {
        (48 + n) as char
    } else {
        (87 + n) as char
    }
}

/// Which of the 32 hex digits stands at position `i` of the hyphenated form.
pub open spec fn nibble_at(i: int) -> int {
    if i < 8 {
        i
    } else if i < 13 {
        i - 1
    } else if i < 18 {
        i - 2
    } else if i < 23 {
        i - 3
    } else {
        i - 4
    }
}

pub open spec fn is_hyphen_position(i: int) -> bool {
    i == 8 || i == 13 || i == 18 || i == 23
}

/// The hyphenated lower-case form of a UUID, as `Uuid`'s `Display` writes it:
/// 32 hex digits, most significant first, grouped 8-4-4-4-12.
pub open spec fn uuid_text(id: u128) -> Seq<char> {
    Seq::new(
        36,
        |i: int|
            if is_hyphen_position(i) {
                '-'
            } else {
                hex_digit((id >> ((124 - 4 * nibble_at(i)) as u128)) & 0xf)
            },
    )
}

/// The hyphenated form of the UUID whose value is `id`.
pub fn uuid_string(id: u128) -> (s: String)
    ensures
        s@ == uuid_text(id),
{
    let mut s = String::new();
    let mut i: usize = 0;
    while i < 36
        invariant
            i <= 36,
            s@ == uuid_text(id).take(i as int),
        decreases 36 - i,
    {
        let c = if i == 8 || i == 13 || i == 18 || i == 23 {
            '-'
        } else {
            let k: u128 = if i < 8 {
                i as u128
            } else if i < 13 {
                (i - 1) as u128
            } else if i < 18 {
                (i - 2) as u128
            } else if i < 23 {
                (i - 3) as u128
            } else {
                (i - 4) as u128
            };
            let sh: u128 = 124 - 4 * k;
            assert(sh == (124 - 4 * nibble_at(i as int)) as u128);
            let n: u128 = (id >> sh) & 0xf;
            assert(n < 16) by (bit_vector)
                requires
                    n == (id >> sh) & 0xf,
            ;
            if n < 10 {
                ((48 + n) as u8) as char
            } else {
                ((87 + n) as u8) as char
            }
        };
        push_char(&mut s, c);
        assert(uuid_text(id).take(i + 1) =~= uuid_text(id).take(i as int).push(c));
        i += 1;
    }
    assert(uuid_text(id).take(36) =~= uuid_text(id));
    s
}

} // verus!
