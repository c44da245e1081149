//! System notifications: how their text is laid out for the Windows shell,
//! which takes fixed-size, NUL-terminated UTF-16 buffers.
use crate::text::chars_of;
use vstd::prelude::*;

verus! {

/// What became of a notification.
#[derive(Debug, PartialEq, Eq)]
pub enum NotificationEvent {
    Shown,
    Failed(String),
}

/// The UTF-16 code units of `c`: one below U+10000, otherwise a surrogate pair.
pub open spec fn utf16_of(c: char) -> Seq<u16> {
    let u = c as u32;
    if u < 0x10000 {
        seq![u as u16]
    } else {
        seq![(0xD800 + (u - 0x10000) / 1024) as u16, (0xDC00 + (u - 0x10000) % 1024) as u16]
    }
}

/// The UTF-16 encoding of `s`.
pub open spec fn utf16(s: Seq<char>) -> Seq<u16>
    decreases s.len(),
{
    if s.len() == 0 {
        Seq::empty()
    } else {
        utf16(s.drop_last()) + utf16_of(s.last())
    }
}

fn encode_char(c: char) -> (units: (u16, Option<u16>))
    ensures
        utf16_of(c) == (match units.1 {
            None => seq![units.0],
            Some(low) => seq![units.0, low],
        }),
{
    let u = c as u32;
    if u < 0x10000 {
        (u as u16, None)
    } else {
        let x = u - 0x10000;
        ((0xD800 + x / 1024) as u16, Some((0xDC00 + x % 1024) as u16))
    }
}

/// `value` in UTF-16 with a terminating NUL.
pub fn wide_null(value: &str) -> (units: Vec<u16>)
    ensures
        units@ == utf16(value@).push(0),
{
    let v = chars_of(value);
    let mut units: Vec<u16> = Vec::new();
    for i in 0..v.len()
        invariant
            units@ == utf16(v@.take(i as int)),
    {
        let (high, low) = encode_char(v[i]);
        units.push(high);
        if let Some(l) = low {
            units.push(l);
        }
        assert(v@.take(i + 1).drop_last() == v@.take(i as int));
        assert(units@ =~= utf16(v@.take(i + 1)));
    }
    assert(v@.take(v.len() as int) == v@);
    units.push(0);
    units
}

/// How many characters of `s`, from index `j` on with `used` units already
/// written, fit into `n` units while leaving room for a terminating NUL; a
/// character that does not fit ends the copy.
pub open spec fn fitting_chars(s: Seq<char>, j: int, used: int, n: int) -> int
    decreases s.len() - j,
{
    if j >= s.len() {
        j
    } else if used + utf16_of(s[j]).len() >= n {
        j
    } else {
        fitting_chars(s, j + 1, used + utf16_of(s[j]).len(), n)
    }
}

/// Copies as many whole characters of `value` into `target` as fit with room
/// left for a NUL; the rest of `target` is left as it was.
pub fn copy_utf16<const N: usize>(target: &mut [u16; N], value: &str)
    ensures
        ({
            let w = utf16(value@.take(fitting_chars(value@, 0, 0, N as int)));
            &&& w.len() < N || (w.len() == 0 && N == 0)
            &&& final(target)@ == w + old(target)@.skip(w.len() as int)
        }),
{
    let v = chars_of(value);
    let mut offset: usize = 0;
    let mut i: usize = 0;
    assert(v@.take(0) =~= Seq::<char>::empty());
    assert(old(target)@.skip(0) == old(target)@);
    while i < v.len()
        invariant
            v@ == value@,
            i <= v.len(),
            target@.len() == N,
            old(target)@.len() == N,
            offset == utf16(v@.take(i as int)).len(),
            offset < N || (offset == 0 && N == 0),
            fitting_chars(v@, 0, 0, N as int) == fitting_chars(v@, i as int, offset as int, N as int),
            target@ == utf16(v@.take(i as int)) + old(target)@.skip(offset as int),
        ensures
            fitting_chars(v@, 0, 0, N as int) == i,
            target@ == utf16(v@.take(i as int)) + old(target)@.skip(offset as int),
            offset == utf16(v@.take(i as int)).len(),
            offset < N || (offset == 0 && N == 0),
        decreases v.len() - i,
    {
        let (high, low) = encode_char(v[i]);
        let width: usize = if low.is_some() { 2 } else { 1 };
        assert(utf16_of(v@[i as int]).len() == width);
        if width >= N - offset {
            break;
        }
        let ghost before = target@;
        target[offset] = high;
        if let Some(l) = low {
            target[offset + 1] = l;
        }
        assert(v@.take(i + 1).drop_last() == v@.take(i as int));
        assert(utf16(v@.take(i + 1)) == utf16(v@.take(i as int)) + utf16_of(v@[i as int]));
        offset = offset + width;
        i += 1;
        assert(target@ =~= utf16(v@.take(i as int)) + old(target)@.skip(offset as int));
    }
}

} // verus!
