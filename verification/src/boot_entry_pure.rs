//! `EFI_LOAD_OPTION` and `BootOrder` byte codecs.
//!
//! `EFI_LOAD_OPTION` layout (UEFI 3.1.3), integers little-endian:
//! `UINT32 Attributes`, `UINT16 FilePathListLength`, `CHAR16 Description[]`
//! (NUL-terminated UTF-16LE), the device path, then optional data.
use vstd::prelude::*;

use crate::text::push_char;

verus! {

/// `LOAD_OPTION_ACTIVE`: the entry is eligible for the boot manager.
pub const LOAD_OPTION_ACTIVE: u32 = 0x0000_0001;

/// Little-endian bytes of a `u16`.
pub open spec fn le16(x: u16) -> Seq<u8> {
    seq![(x % 256) as u8, (x / 256) as u8]
}

/// Little-endian bytes of a `u32`.
pub open spec fn le32(x: u32) -> Seq<u8> {
    seq![
        (x % 256) as u8,
        ((x / 256) % 256) as u8,
        ((x / 65536) % 256) as u8,
        (x / 16777216) as u8,
    ]
}

/// The `u16` two little-endian bytes hold.
pub open spec fn u16_le(lo: u8, hi: u8) -> u16 {
    (lo as int + 256 * (hi as int)) as u16
}

/// The UTF-16 code units of one character.
pub open spec fn utf16_char(c: char) -> Seq<u16> {
    let v = c as u32;
    if v < 0x10000 {
        seq![v as u16]
    } else {
        let w = v - 0x10000;
        seq![(0xD800 + w / 0x400) as u16, (0xDC00 + w % 0x400) as u16]
    }
}

/// UTF-16 encoding of a string (`str::encode_utf16`).
pub open spec fn utf16(s: Seq<char>) -> Seq<u16>
    decreases s.len(),
{
    if s.len() == 0 {
        Seq::empty()
    } else {
        utf16(s.drop_last()) + utf16_char(s.last())
    }
}

pub open spec fn is_high_surrogate(u: u16) -> bool {
    0xD800 <= u <= 0xDBFF
}

pub open spec fn is_low_surrogate(u: u16) -> bool {
    0xDC00 <= u <= 0xDFFF
}

/// Lossy UTF-16 decoding (`String::from_utf16_lossy`): a high surrogate
/// followed by a low surrogate forms one character, any other surrogate
/// becomes U+FFFD, every other unit is its own character.
pub open spec fn utf16_lossy(u: Seq<u16>) -> Seq<char>
    decreases u.len(),
{
    if u.len() == 0 {
        Seq::empty()
    } else if u.len() >= 2 && is_high_surrogate(u[0]) && is_low_surrogate(u[1]) {
        seq![
            (0x10000 + (u[0] - 0xD800) * 0x400 + (u[1] - 0xDC00)) as char,
        ] + utf16_lossy(u.subrange(2, u.len() as int))
    } else if 0xD800 <= u[0] <= 0xDFFF {
        seq!['\u{FFFD}'] + utf16_lossy(u.drop_first())
    } else {
        seq![u[0] as char] + utf16_lossy(u.drop_first())
    }
}

/// Little-endian bytes of a sequence of `u16` units.
pub open spec fn units_le(u: Seq<u16>) -> Seq<u8>
    decreases u.len(),
{
    if u.len() == 0 {
        Seq::empty()
    } else {
        units_le(u.drop_last()) + le16(u.last())
    }
}

/// The `FilePathListLength` field: the device-path length, or `u16::MAX`
/// when it does not fit.
pub open spec fn path_list_len(n: nat) -> u16 {
    if n <= 0xFFFF {
        n as u16
    } else {
        0xFFFF
    }
}

/// The bytes of an `EFI_LOAD_OPTION`.
pub open spec fn load_option_bytes(
    attributes: u32,
    description: Seq<char>,
    device_path: Seq<u8>,
    optional_data: Seq<u8>,
) -> Seq<u8> {
    le32(attributes) + le16(path_list_len(device_path.len())) + units_le(utf16(description))
        + le16(0) + device_path + optional_data
}

/// UTF-16 units of `s` (`str::encode_utf16`).
#[verifier::external_body]
fn encode_utf16_units(s: &str) -> (r: Vec<u16>)
    ensures
        r@ == utf16(s@),
{
    s.encode_utf16().collect()
}

/// Lossy decoding of UTF-16 units (`String::from_utf16_lossy`).
#[verifier::external_body]
fn string_from_utf16_lossy(u: &[u16]) -> (r: String)
    ensures
        r@ == utf16_lossy(u@),
{
    String::from_utf16_lossy(u)
}

fn push_le16(out: &mut Vec<u8>, x: u16)
    ensures
        final(out)@ == old(out)@ + le16(x),
{
    out.push((x % 256) as u8);
    out.push((x / 256) as u8);
    assert(final(out)@ =~= old(out)@ + le16(x));
}

fn push_all(out: &mut Vec<u8>, src: &[u8])
    ensures
        final(out)@ == old(out)@ + src@,
{
    let mut i: usize = 0;
    while i < src.len()
        invariant
            i <= src@.len(),
            out@ == old(out)@ + src@.subrange(0, i as int),
        decreases src@.len() - i,
    {
        out.push(src[i]);
        assert(src@.subrange(0, i + 1) == src@.subrange(0, i as int).push(src@[i as int]));
        i += 1;
    }
    assert(src@.subrange(0, src@.len() as int) == src@);
}

/// Encode an `EFI_LOAD_OPTION` for a `Boot####` variable: attributes, the
/// device-path length (`u16::MAX` when it does not fit), the description as
/// NUL-terminated UTF-16LE, the device path, then the optional data.
pub fn encode_load_option(
    attributes: u32,
    description: &str,
    device_path: &[u8],
    optional_data: &[u8],
) -> (r: Vec<u8>)
    ensures
        r@ == load_option_bytes(attributes, description@, device_path@, optional_data@),
{
    let mut out: Vec<u8> = Vec::new();
    out.push((attributes % 256) as u8);
    out.push(((attributes / 256) % 256) as u8);
    out.push(((attributes / 65536) % 256) as u8);
    out.push((attributes / 16777216) as u8);
    assert(out@ =~= le32(attributes));
    let fpl: u16 = if device_path.len() <= 0xFFFF {
        device_path.len() as u16
    } else {
        0xFFFF
    };
    push_le16(&mut out, fpl);
    let units = encode_utf16_units(description);
    let ghost base = out@;
    let mut i: usize = 0;
    while i < units.len()
        invariant
            i <= units@.len(),
            out@ == base + units_le(units@.subrange(0, i as int)),
        decreases units@.len() - i,
    {
        let ghost before = out@;
        push_le16(&mut out, units[i]);
        proof {
            let s = units@.subrange(0, i + 1);
            assert(s.drop_last() == units@.subrange(0, i as int));
            assert(s.last() == units@[i as int]);
        }
        i += 1;
    }
    assert(units@.subrange(0, units@.len() as int) == units@);
    push_le16(&mut out, 0);
    push_all(&mut out, device_path);
    push_all(&mut out, optional_data);
    out
}

/// The description units of a load option: the `u16` values read from byte
/// 6 on, two bytes at a time, up to (not including) the first zero unit or
/// the last complete unit.
pub open spec fn description_units(bytes: Seq<u8>, i: int) -> Seq<u16>
    decreases bytes.len() - i,
{
    if i < 0 || i + 1 >= bytes.len() {
        Seq::empty()
    } else if u16_le(bytes[i], bytes[i + 1]) == 0 {
        Seq::empty()
    } else {
        seq![u16_le(bytes[i], bytes[i + 1])] + description_units(bytes, i + 2)
    }
}

/// What `parse_load_option_description` returns.
pub open spec fn load_option_description(bytes: Seq<u8>) -> Option<Seq<char>> {
    if bytes.len() < 6 {
        None
    } else {
        Some(utf16_lossy(description_units(bytes, 6)))
    }
}

/// Extract the UTF-16LE description from a `Boot####` variable's bytes.
/// `None` when the buffer is shorter than the 6-byte fixed header.
pub fn parse_load_option_description(bytes: &[u8]) -> (r: Option<String>)
    ensures
        match r {
            Some(s) => load_option_description(bytes@) == Some(s@),
            None => load_option_description(bytes@) is None,
        },
{
    if bytes.len() < 6 {
        return None;
    }
    let mut units: Vec<u16> = Vec::new();
    let mut i: usize = 6;
    while i + 1 < bytes.len()
        invariant_except_break
            6 <= i <= bytes@.len() + 1,
            (i - 6) % 2 == 0,
            description_units(bytes@, 6) == units@ + description_units(bytes@, i as int),
        ensures
            description_units(bytes@, 6) == units@,
        decreases bytes@.len() - i,
    {
        let unit: u16 = (bytes[i] as u16) + 256 * (bytes[i + 1] as u16);
        assert(unit == u16_le(bytes@[i as int], bytes@[i + 1]));
        if unit == 0 {
            assert(units@ + description_units(bytes@, i as int) =~= units@);
            break;
        }
        let ghost before = units@;
        units.push(unit);
        assert(before + description_units(bytes@, i as int) =~= units@ + description_units(
            bytes@,
            i + 2,
        ));
        i += 2;
    }
    Some(string_from_utf16_lossy(&units))
}


/// The `u16` values of a `BootOrder` payload: each complete little-endian
/// pair of bytes, a trailing odd byte ignored.
pub open spec fn boot_order_values(bytes: Seq<u8>) -> Seq<u16> {
    Seq::new(bytes.len() / 2, |k: int| u16_le(bytes[2 * k], bytes[2 * k + 1]))
}

/// Decode a `BootOrder` variable (array of little-endian `u16`).
pub fn decode_boot_order(bytes: &[u8]) -> (r: Vec<u16>)
    ensures
        r@ == boot_order_values(bytes@),
{
    let mut out: Vec<u16> = Vec::new();
    let n = bytes.len() / 2;
    let mut k: usize = 0;
    while k < n
        invariant
            n == bytes@.len() / 2,
            k <= n,
            out@ == boot_order_values(bytes@).subrange(0, k as int),
        decreases n - k,
    {
        assert(2 * k + 1 < bytes.len()) by (nonlinear_arith)
            requires
                k < n,
                n == bytes.len() / 2,
        ;
        let v: u16 = (bytes[2 * k] as u16) + 256 * (bytes[2 * k + 1] as u16);
        out.push(v);
        assert(boot_order_values(bytes@).subrange(0, k + 1) == boot_order_values(bytes@).subrange(
            0,
            k as int,
        ).push(v));
        k += 1;
    }
    assert(boot_order_values(bytes@).subrange(0, n as int) == boot_order_values(bytes@));
    out
}

/// The bytes of a `BootOrder` payload.
pub open spec fn boot_order_bytes(order: Seq<u16>) -> Seq<u8> {
    Seq::new(2 * order.len(), |k: int| if k % 2 == 0 {
        (order[k / 2] % 256) as u8
    } else {
        (order[k / 2] / 256) as u8
    })
}

/// Encode boot numbers into a `BootOrder` payload.
pub fn encode_boot_order(order: &[u16]) -> (r: Vec<u8>)
    ensures
        r@ == boot_order_bytes(order@),
{
    let mut out: Vec<u8> = Vec::new();
    let mut k: usize = 0;
    while k < order.len()
        invariant
            k <= order@.len(),
            out@ == boot_order_bytes(order@).subrange(0, 2 * k),
        decreases order@.len() - k,
    {
        let x = order[k];
        out.push((x % 256) as u8);
        out.push((x / 256) as u8);
        assert(out@ =~= boot_order_bytes(order@).subrange(0, 2 * (k + 1)));
        k += 1;
    }
    assert(boot_order_bytes(order@).subrange(0, 2 * order@.len() as int) == boot_order_bytes(order@));
    out
}

/// Decoding an encoded `BootOrder` gives the boot numbers back.
pub proof fn boot_order_roundtrip(order: Seq<u16>)
    ensures
        boot_order_values(boot_order_bytes(order)) == order,
{
    let b = boot_order_bytes(order);
    assert forall|k: int| 0 <= k < order.len() implies #[trigger] boot_order_values(b)[k]
        == order[k] by {
        assert((2 * k) % 2 == 0);
        assert((2 * k + 1) % 2 == 1);
        assert((2 * k) / 2 == k);
        assert((2 * k + 1) / 2 == k);
    }
    assert(boot_order_values(b) =~= order);
}

/// Encoding the decoded values of an even-length payload gives the payload
/// back.
pub proof fn boot_order_bytes_roundtrip(bytes: Seq<u8>)
    requires
        bytes.len() % 2 == 0,
    ensures
        boot_order_bytes(boot_order_values(bytes)) == bytes,
{
    let v = boot_order_values(bytes);
    assert forall|k: int| 0 <= k < bytes.len() implies #[trigger] boot_order_bytes(v)[k]
        == bytes[k] by {
        let j = k / 2;
        if k % 2 == 0 {
            assert(k == 2 * j);
        } else {
            assert(k == 2 * j + 1);
        }
    }
    assert(boot_order_bytes(v) =~= bytes);
}

/// `order` with `new` at the front, unless it is already present (then
/// unchanged).
pub open spec fn order_with_front(order: Seq<u16>, new: u16) -> Seq<u16> {
    if order.contains(new) {
        order
    } else {
        seq![new] + order
    }
}

/// Return `order` with `new` ensured present at the front; an order that
/// already holds `new` is returned unchanged (no duplicate, no reorder).
pub fn boot_order_with_front(order: &[u16], new: u16) -> (r: Vec<u16>)
    ensures
        r@ == order_with_front(order@, new),
{
    let mut present = false;
    let mut k: usize = 0;
    while k < order.len()
        invariant
            k <= order@.len(),
            present == order@.subrange(0, k as int).contains(new),
        decreases order@.len() - k,
    {
        if order[k] == new {
            present = true;
        }
        proof {
            let s = order@.subrange(0, k + 1);
            assert(s == order@.subrange(0, k as int).push(order@[k as int]));
            if order@.subrange(0, k as int).contains(new) {
                let w = choose|w: int| 0 <= w < k && order@.subrange(0, k as int)[w] == new;
                assert(s[w] == new);
            }
            if order@[k as int] == new {
                assert(s[k as int] == new);
            }
            if s.contains(new) {
                let w = choose|w: int| 0 <= w < k + 1 && s[w] == new;
                if w < k {
                    assert(order@.subrange(0, k as int)[w] == new);
                }
            }
        }
        k += 1;
    }
    assert(order@.subrange(0, order@.len() as int) == order@);
    let mut out: Vec<u16> = Vec::new();
    if !present {
        out.push(new);
    }
    let mut i: usize = 0;
    let ghost base = out@;
    while i < order.len()
        invariant
            i <= order@.len(),
            out@ == base + order@.subrange(0, i as int),
        decreases order@.len() - i,
    {
        out.push(order[i]);
        assert(order@.subrange(0, i + 1) == order@.subrange(0, i as int).push(order@[i as int]));
        i += 1;
    }
    assert(order@.subrange(0, order@.len() as int) == order@);
    assert(out@ =~= order_with_front(order@, new));
    out
}

/// After `boot_order_with_front`, the order contains the new number, and an
/// order without duplicates stays without duplicates.
pub proof fn order_with_front_laws(order: Seq<u16>, new: u16)
    ensures
        order_with_front(order, new).contains(new),
        order.no_duplicates() ==> order_with_front(order, new).no_duplicates(),
        order_with_front(order_with_front(order, new), new) == order_with_front(order, new),
{
    let r = order_with_front(order, new);
    if !order.contains(new) {
        assert(r[0] == new);
        assert forall|k: int| 0 <= k < order.len() implies r[k + 1] == order[k] by {}
        if order.no_duplicates() {
            assert forall|i: int, j: int| 0 <= i < r.len() && 0 <= j < r.len() && i != j implies r[i]
                != r[j] by {
                if i == 0 && j > 0 {
                    assert(r[j] == order[j - 1]);
                } else if j == 0 && i > 0 {
                    assert(r[i] == order[i - 1]);
                } else if i > 0 && j > 0 {
                    assert(r[i] == order[i - 1] && r[j] == order[j - 1]);
                }
            }
        }
    }
    assert(r.contains(new)) by {
        if order.contains(new) {
        } else {
            assert(r[0] == new);
        }
    }
}

/// Lowest `Boot####` number in `0..=max` not present in `used`, or `None`
/// when the range is exhausted.
pub fn first_free_boot_number(used: &[u16], max: u16) -> (r: Option<u16>)
    ensures
        match r {
            Some(n) => n <= max && !used@.contains(n) && forall|m: u16| m < n ==> used@.contains(m),
            None => forall|n: u16| n <= max ==> used@.contains(n),
        },
{
    let mut n: u16 = 0;
    loop
        invariant
            n <= max,
            forall|m: u16| m < n ==> used@.contains(m),
        decreases max - n,
    {
        let mut found = false;
        let mut k: usize = 0;
        while k < used.len()
            invariant
                k <= used@.len(),
                found == exists|w: int| 0 <= w < k && used@[w] == n,
            decreases used@.len() - k,
        {
            if used[k] == n {
                found = true;
            }
            k += 1;
        }
        if !found {
            return Some(n);
        }
        assert(used@.contains(n));
        if n == max {
            assert forall|m: u16| m <= max implies used@.contains(m) by {
                if m < n {
                } else {
                    assert(m == n);
                }
            }
            return None;
        }
        n += 1;
    }
}

fn hex_upper(d: u16) -> (c: char)
    requires
        d < 16,
    ensures
        c == hex_digit(d as int),
{
    if d < 10 {
        ((48 + d) as u8) as char
    } else {
        ((55 + d) as u8) as char
    }
}

/// Uppercase hexadecimal digit of `d` (`0..16`).
pub open spec fn hex_digit(d: int) -> char {
    if d < 10 {
        (48 + d) as char
    } else {
        (55 + d) as char
    }
}

/// `Boot` followed by four uppercase hexadecimal digits.
pub open spec fn boot_var(num: u16) -> Seq<char> {
    seq![
        'B',
        'o',
        'o',
        't',
        hex_digit((num / 4096) as int),
        hex_digit(((num / 256) % 16) as int),
        hex_digit(((num / 16) % 16) as int),
        hex_digit((num % 16) as int),
    ]
}

/// Format a boot number as its `Boot####` variable name.
pub fn boot_var_name(num: u16) -> (r: String)
    ensures
        r@ == boot_var(num),
{
    let mut s = String::new();
    push_char(&mut s, 'B');
    push_char(&mut s, 'o');
    push_char(&mut s, 'o');
    push_char(&mut s, 't');
    push_char(&mut s, hex_upper(num / 4096));
    push_char(&mut s, hex_upper((num / 256) % 16));
    push_char(&mut s, hex_upper((num / 16) % 16));
    push_char(&mut s, hex_upper(num % 16));
    assert(s@ =~= boot_var(num));
    s
}


proof fn lemma_utf16_concat(a: Seq<char>, b: Seq<char>)
    ensures
        utf16(a + b) == utf16(a) + utf16(b),
    decreases b.len(),
{
    if b.len() == 0 {
        assert(a + b =~= a);
        assert(utf16(a) + utf16(b) =~= utf16(a));
    } else {
        lemma_utf16_concat(a, b.drop_last());
        assert((a + b).drop_last() =~= a + b.drop_last());
        assert((a + b).last() == b.last());
        assert(utf16(a + b) =~= utf16(a) + utf16(b));
    }
}

proof fn lemma_utf16_first(s: Seq<char>)
    requires
        s.len() > 0,
    ensures
        utf16(s) == utf16_char(s[0]) + utf16(s.drop_first()),
{
    let head = seq![s[0]];
    lemma_utf16_concat(head, s.drop_first());
    assert(head + s.drop_first() =~= s);
    assert(head.drop_last() =~= Seq::<char>::empty());
    assert(head.last() == s[0]);
    assert(utf16(head.drop_last()) =~= Seq::<u16>::empty());
    assert(utf16(head) =~= utf16_char(s[0]));
}

proof fn lemma_lossy_char(c: char, rest: Seq<u16>)
    ensures
        utf16_lossy(utf16_char(c) + rest) == seq![c] + utf16_lossy(rest),
{
    broadcast use vstd::utf8::char_is_scalar, vstd::utf8::char_u32_cast;

    let v = c as u32;
    let u = utf16_char(c) + rest;
    if v < 0x10000 {
        assert(u[0] == v as u16);
        assert(u.drop_first() =~= rest);
        assert((v as u16) as char == c);
    } else {
        let w = v - 0x10000;
        assert(w / 0x400 <= 0x3FF);
        assert(u[0] == (0xD800 + w / 0x400) as u16);
        assert(u[1] == (0xDC00 + w % 0x400) as u16);
        assert(u.subrange(2, u.len() as int) =~= rest);
        assert((w / 0x400) * 0x400 + w % 0x400 == w);
        assert((0x10000 + (u[0] - 0xD800) * 0x400 + (u[1] - 0xDC00)) == v);
        assert((0x10000 + (u[0] - 0xD800) * 0x400 + (u[1] - 0xDC00)) as char == c);
    }
}

proof fn lemma_lossy_utf16(s: Seq<char>)
    ensures
        utf16_lossy(utf16(s)) == s,
    decreases s.len(),
{
    if s.len() == 0 {
    } else {
        lemma_utf16_first(s);
        lemma_lossy_char(s[0], utf16(s.drop_first()));
        lemma_lossy_utf16(s.drop_first());
        assert(seq![s[0]] + s.drop_first() =~= s);
    }
}

proof fn lemma_utf16_nonzero(s: Seq<char>)
    requires
        forall|i: int| 0 <= i < s.len() ==> s[i] != '\0',
    ensures
        forall|k: int| 0 <= k < utf16(s).len() ==> utf16(s)[k] != 0,
    decreases s.len(),
{
    broadcast use vstd::utf8::char_is_scalar;

    if s.len() > 0 {
        lemma_utf16_nonzero(s.drop_last());
        let c = s.last();
        assert('\0' as u32 == 0);
        if c as u32 == 0 {
            vstd::utf8::char_u32_cast(c, 0u32);
            vstd::utf8::char_u32_cast('\0', 0u32);
        }
        assert(c as u32 != 0);
        let p = utf16(s.drop_last());
        assert(utf16(s) == p + utf16_char(c));
        assert forall|k: int| 0 <= k < utf16(s).len() implies utf16(s)[k] != 0 by {
            if k >= p.len() {
                assert(utf16(s)[k] == utf16_char(c)[k - p.len()]);
                let v = c as u32;
                if v < 0x10000 {
                    assert(utf16_char(c)[0] == v as u16);
                    assert(v as u16 != 0);
                } else {
                    let w = v - 0x10000;
                    vstd::utf8::char_is_scalar(c);
                    assert(v <= 0x10FFFF);
                    assert(w / 0x400 <= 0x3FF);
                    assert(utf16_char(c)[0] == (0xD800 + w / 0x400) as u16);
                    assert(utf16_char(c)[1] == (0xDC00 + w % 0x400) as u16);
                }
                assert(utf16_char(c)[k - p.len()] != 0);
            } else {
                assert(utf16(s)[k] == p[k]);
                assert(p[k] != 0);
            }
        }
    }
}

proof fn lemma_units_le(u: Seq<u16>)
    ensures
        units_le(u).len() == 2 * u.len(),
        forall|k: int|
            0 <= k < u.len() ==> u16_le(#[trigger] units_le(u)[2 * k], units_le(u)[2 * k + 1])
                == u[k],
    decreases u.len(),
{
    if u.len() > 0 {
        lemma_units_le(u.drop_last());
        let x = u.last();
        assert((x % 256) + 256 * (x / 256) == x);
        assert forall|k: int| 0 <= k < u.len() implies u16_le(
            #[trigger] units_le(u)[2 * k],
            units_le(u)[2 * k + 1],
        ) == u[k] by {
            if k < u.len() - 1 {
                assert(units_le(u)[2 * k] == units_le(u.drop_last())[2 * k]);
                assert(units_le(u)[2 * k + 1] == units_le(u.drop_last())[2 * k + 1]);
            }
        }
    }
}

proof fn lemma_description_units(b: Seq<u8>, i: int, u: Seq<u16>)
    requires
        0 <= i,
        i + 2 * u.len() + 1 < b.len(),
        forall|k: int| 0 <= k < u.len() ==> u16_le(b[i + 2 * k], b[i + 2 * k + 1]) == u[k],
        forall|k: int| 0 <= k < u.len() ==> u[k] != 0,
        u16_le(b[i + 2 * u.len()], b[i + 2 * u.len() + 1]) == 0,
    ensures
        description_units(b, i) == u,
    decreases u.len(),
{
    if u.len() == 0 {
    } else {
        assert(u16_le(b[i + 2 * 0], b[i + 2 * 0 + 1]) == u[0]);
        let t = u.drop_first();
        assert forall|k: int| 0 <= k < t.len() implies u16_le(b[i + 2 + 2 * k], b[i + 2 + 2 * k + 1])
            == t[k] by {
            assert(u16_le(b[i + 2 * (k + 1)], b[i + 2 * (k + 1) + 1]) == u[k + 1]);
        }
        lemma_description_units(b, i + 2, t);
        assert(seq![u[0]] + t =~= u);
    }
}

/// Reading the description back from an encoded load option gives the
/// description that was written, for any description without a NUL
/// character: this is what lets the boot-entry scan recognise an entry it
/// wrote earlier.
pub proof fn load_option_description_roundtrip(
    attributes: u32,
    description: Seq<char>,
    device_path: Seq<u8>,
    optional_data: Seq<u8>,
)
    requires
        forall|i: int| 0 <= i < description.len() ==> description[i] != '\0',
    ensures
        load_option_description(
            load_option_bytes(attributes, description, device_path, optional_data),
        ) == Some(description),
{
    let u = utf16(description);
    let b = load_option_bytes(attributes, description, device_path, optional_data);
    lemma_units_le(u);
    lemma_utf16_nonzero(description);
    lemma_lossy_utf16(description);
    let head = le32(attributes) + le16(path_list_len(device_path.len()));
    assert(head.len() == 6);
    let ul = units_le(u);
    assert(b == head + ul + le16(0) + device_path + optional_data);
    assert forall|k: int| 0 <= k < u.len() implies u16_le(b[6 + 2 * k], b[6 + 2 * k + 1]) == u[k] by {
        assert(b[6 + 2 * k] == ul[2 * k]);
        assert(b[6 + 2 * k + 1] == ul[2 * k + 1]);
    }
    assert(b[6 + 2 * u.len() as int] == 0);
    assert(b[6 + 2 * u.len() as int + 1] == 0);
    lemma_description_units(b, 6, u);
}

} // verus!
