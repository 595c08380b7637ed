//! The paged atlas wire format.
//!
//! An atlas file is a MessagePack array-length header followed by one
//! record per page; each record is a two-entry map holding the encoded
//! canvas bytes under `data` and the placement list under `mapping`,
//! each placement a five-entry map with the id as its lowercase
//! hyphenated text form. Bulk responses use the same framing: an
//! array-length header, then per slot either nil or a binary blob.

use vstd::arithmetic::div_mod::lemma_div_denominator;
use vstd::prelude::*;

use crate::pack::AtlasMapping;

verus! {

/// Big-endian bytes of a 16-bit value.
pub open spec fn be16(n: int) -> Seq<u8> {
    seq![((n / 256) % 256) as u8, (n % 256) as u8]
}

/// Big-endian bytes of a 32-bit value.
pub open spec fn be32(n: int) -> Seq<u8> {
    seq![
        ((n / 16777216) % 256) as u8,
        ((n / 65536) % 256) as u8,
        ((n / 256) % 256) as u8,
        (n % 256) as u8,
    ]
}

/// Big-endian bytes of a 64-bit value.
pub open spec fn be64(n: int) -> Seq<u8> {
    be32(n / 4294967296) + be32(n % 4294967296)
}

/// The most efficient MessagePack array-length header.
pub open spec fn msg_array_header(n: int) -> Seq<u8> {
    if n < 16 {
        seq![(0x90 + n) as u8]
    } else if n < 65536 {
        seq![0xdcu8] + be16(n)
    } else {
        seq![0xddu8] + be32(n)
    }
}

/// The most efficient MessagePack binary-length header.
pub open spec fn msg_bin_header(n: int) -> Seq<u8> {
    if n < 256 {
        seq![0xc4u8, n as u8]
    } else if n < 65536 {
        seq![0xc5u8] + be16(n)
    } else {
        seq![0xc6u8] + be32(n)
    }
}

/// The MessagePack nil byte.
pub open spec fn msg_nil() -> Seq<u8> {
    seq![0xc0u8]
}

/// The most efficient MessagePack unsigned-integer encoding.
pub open spec fn msg_uint(n: int) -> Seq<u8> {
    if n < 128 {
        seq![n as u8]
    } else if n < 256 {
        seq![0xccu8, n as u8]
    } else if n < 65536 {
        seq![0xcdu8] + be16(n)
    } else if n < 4294967296 {
        seq![0xceu8] + be32(n)
    } else {
        seq![0xcfu8] + be64(n)
    }
}

/// The most efficient MessagePack string-length header.
pub open spec fn msg_str_header(n: int) -> Seq<u8> {
    if n < 32 {
        seq![(0xa0 + n) as u8]
    } else {
        seq![0xd9u8, n as u8]
    }
}

/// The MessagePack fixmap header for up to 15 entries.
pub open spec fn msg_map_header(n: int) -> Seq<u8> {
    seq![(0x80 + n) as u8]
}

/// Relies on rmp's `write_array_len`: appends the most efficient
/// MessagePack array-length header to the buffer. Writing to a byte
/// vector cannot fail.
#[verifier::external_body]
fn rmp_write_array_len(buf: &mut Vec<u8>, n: u32)
    ensures
        final(buf)@ == old(buf)@ + msg_array_header(n as int),
{
    let _ = rmp::encode::write_array_len(buf, n).unwrap();
}

/// Relies on rmp's `write_bin_len`: appends the most efficient
/// MessagePack binary-length header to the buffer.
#[verifier::external_body]
fn rmp_write_bin_len(buf: &mut Vec<u8>, n: u32)
    ensures
        final(buf)@ == old(buf)@ + msg_bin_header(n as int),
{
    let _ = rmp::encode::write_bin_len(buf, n).unwrap();
}

/// Relies on rmp's `write_nil`: appends the MessagePack nil byte.
#[verifier::external_body]
fn rmp_write_nil(buf: &mut Vec<u8>)
    ensures
        final(buf)@ == old(buf)@ + msg_nil(),
{
    rmp::encode::write_nil(buf).unwrap();
}

/// Appends the big-endian bytes of a 16-bit value.
fn push_be16(buf: &mut Vec<u8>, v: u16)
    ensures
        final(buf)@ == old(buf)@ + be16(v as int),
{
    buf.push((v / 256) as u8);
    buf.push((v % 256) as u8);
    proof {
        assert(final(buf)@ =~= old(buf)@ + be16(v as int));
    }
}

/// Appends the big-endian bytes of a 32-bit value.
fn push_be32(buf: &mut Vec<u8>, v: u32)
    ensures
        final(buf)@ == old(buf)@ + be32(v as int),
{
    buf.push((v / 16777216) as u8);
    buf.push((v / 65536 % 256) as u8);
    buf.push((v / 256 % 256) as u8);
    buf.push((v % 256) as u8);
    proof {
        assert(final(buf)@ =~= old(buf)@ + be32(v as int));
    }
}

/// Appends the most efficient MessagePack unsigned-integer encoding.
pub fn push_uint(buf: &mut Vec<u8>, v: u64)
    ensures
        final(buf)@ == old(buf)@ + msg_uint(v as int),
{
    if v < 128 {
        buf.push(v as u8);
        proof {
            assert(final(buf)@ =~= old(buf)@ + msg_uint(v as int));
        }
    } else if v < 256 {
        buf.push(0xcc);
        buf.push(v as u8);
        proof {
            assert(final(buf)@ =~= old(buf)@ + msg_uint(v as int));
        }
    } else if v < 65536 {
        buf.push(0xcd);
        push_be16(buf, v as u16);
        proof {
            assert(final(buf)@ =~= old(buf)@ + msg_uint(v as int));
        }
    } else if v < 4294967296 {
        buf.push(0xce);
        push_be32(buf, v as u32);
        proof {
            assert(final(buf)@ =~= old(buf)@ + msg_uint(v as int));
        }
    } else {
        buf.push(0xcf);
        push_be32(buf, (v / 4294967296) as u32);
        push_be32(buf, (v % 4294967296) as u32);
        proof {
            assert(final(buf)@ =~= old(buf)@ + msg_uint(v as int));
        }
    }
}

/// Appends the most efficient MessagePack string-length header (up to the
/// 8-bit form, enough for every string this format carries).
pub fn push_str_header(buf: &mut Vec<u8>, n: u8)
    ensures
        final(buf)@ == old(buf)@ + msg_str_header(n as int),
{
    if n < 32 {
        buf.push(0xa0 + n);
    } else {
        buf.push(0xd9);
        buf.push(n);
    }
    proof {
        assert(final(buf)@ =~= old(buf)@ + msg_str_header(n as int));
    }
}

/// The hex digit byte of a nibble: `0`–`9` then `a`–`f`.
pub open spec fn hex_byte(n: int) -> u8 {
    if n < 10 {
        (48 + n) as u8
    } else {
        (87 + n) as u8
    }
}

/// Sixteen to the `k`-th power.
pub open spec fn pow16(k: nat) -> int
    decreases k,
{
    if k == 0 {
        1
    } else {
        16 * pow16((k - 1) as nat)
    }
}

/// The `k` trailing hex digits of `x`, most significant first.
pub open spec fn hex_digits(x: int, k: nat) -> Seq<u8>
    decreases k,
{
    if k == 0 {
        Seq::empty()
    } else {
        hex_digits(x / 16, (k - 1) as nat).push(hex_byte(x % 16))
    }
}

/// The 36 ASCII bytes of an id: 32 hex digits in big-endian order with
/// hyphens after the 8th, 12th, 16th and 20th.
pub open spec fn uuid_bytes(id: u128) -> Seq<u8> {
    let d = hex_digits(id as int, 32);
    d.subrange(0, 8) + seq![45u8] + d.subrange(8, 12) + seq![45u8] + d.subrange(12, 16)
        + seq![45u8] + d.subrange(16, 20) + seq![45u8] + d.subrange(20, 32)
}

/// Digit `j` of the `k`-digit expansion reads the matching power of 16.
proof fn lemma_hex_digit_at(x: int, k: nat, j: int)
    requires
        x >= 0,
        0 <= j < k,
    ensures
        hex_digits(x, k).len() == k,
        hex_digits(x, k)[j] == hex_byte((x / pow16((k - 1 - j) as nat)) % 16),
    decreases k,
{
    lemma_hex_digits_len(x, k);
    if j == k - 1 {
        assert(pow16(0) == 1);
    } else {
        lemma_hex_digit_at(x / 16, (k - 1) as nat, j);
        let e = (k - 2 - j) as nat;
        vstd::arithmetic::div_mod::lemma_div_pos_is_pos(x, 16);
        lemma_pow16_pos(e);
        lemma_div_denominator(x, 16, pow16(e));
        assert(pow16((e + 1) as nat) == 16 * pow16(e));
    }
}

/// The digit expansion has exactly `k` digits.
proof fn lemma_hex_digits_len(x: int, k: nat)
    ensures
        hex_digits(x, k).len() == k,
    decreases k,
{
    if k > 0 {
        lemma_hex_digits_len(x / 16, (k - 1) as nat);
    }
}

/// Powers of 16 are positive.
proof fn lemma_pow16_pos(k: nat)
    ensures
        pow16(k) >= 1,
    decreases k,
{
    if k > 0 {
        lemma_pow16_pos((k - 1) as nat);
    }
}

/// The 36 ASCII bytes of an id's lowercase hyphenated text form.
pub fn uuid_ascii(id: u128) -> (r: Vec<u8>)
    ensures
        r@ == uuid_bytes(id),
        r@.len() == 36,
{
    let mut digits: Vec<u8> = Vec::new();
    let mut t: usize = 0;
    while t < 32
        invariant
            t <= 32,
            digits@.len() == t,
        decreases 32 - t,
    {
        digits.push(0);
        t += 1;
    }
    let mut x: u128 = id;
    let mut t: usize = 0;
    while t < 32
        invariant
            t <= 32,
            digits@.len() == 32,
            x as int == (id as int) / pow16(t as nat),
            forall|u: int|
                0 <= u < t ==> digits@[31 - u] == hex_byte(((id as int) / #[trigger] pow16(
                    u as nat,
                )) % 16),
        decreases 32 - t,
    {
        let d: u8 = (x % 16) as u8;
        let h: u8 = if d < 10 {
            48 + d
        } else {
            87 + d
        };
        digits.set(31 - t, h);
        proof {
            lemma_pow16_pos(t as nat);
            lemma_div_denominator(id as int, pow16(t as nat), 16);
            assert(pow16((t + 1) as nat) == 16 * pow16(t as nat)) by {
                lemma_pow16_unfold((t + 1) as nat);
            }
            assert(pow16(t as nat) * 16 == 16 * pow16(t as nat)) by (nonlinear_arith);
        }
        x = x / 16;
        t += 1;
    }
    proof {
        assert forall|j: int| 0 <= j < 32 implies digits@[j] == hex_digits(id as int, 32)[j] by {
            lemma_hex_digit_at(id as int, 32, j);
            assert(digits@[j] == hex_byte(((id as int) / pow16((31 - j) as nat)) % 16));
        }
        lemma_hex_digits_len(id as int, 32);
        assert(digits@ =~= hex_digits(id as int, 32));
    }

    let mut out: Vec<u8> = Vec::new();
    let mut t: usize = 0;
    while t < 36
        invariant
            t <= 36,
            out@.len() == t,
            digits@ == hex_digits(id as int, 32),
            digits@.len() == 32,
            forall|j: int| 0 <= j < t ==> out@[j] == uuid_bytes(id)[j],
        decreases 36 - t,
    {
        proof {
            assert(uuid_bytes(id).len() == 36);
        }
        let b: u8 = if t < 8 {
            digits[t]
        } else if t == 8 {
            45
        } else if t < 13 {
            digits[t - 1]
        } else if t == 13 {
            45
        } else if t < 18 {
            digits[t - 2]
        } else if t == 18 {
            45
        } else if t < 23 {
            digits[t - 3]
        } else if t == 23 {
            45
        } else {
            digits[t - 4]
        };
        out.push(b);
        t += 1;
    }
    proof {
        assert(out@ =~= uuid_bytes(id));
    }
    out
}

/// Unfolds one power of sixteen.
proof fn lemma_pow16_unfold(k: nat)
    requires
        k >= 1,
    ensures
        pow16(k) == 16 * pow16((k - 1) as nat),
{
}

/// The characters of an id's lowercase hyphenated text form.
pub open spec fn uuid_chars(id: u128) -> Seq<char> {
    uuid_bytes(id).map_values(|b: u8| b as char)
}

/// Every hex digit byte is plain ASCII.
proof fn lemma_hex_digits_ascii(x: int, k: nat)
    requires
        x >= 0,
    ensures
        hex_digits(x, k).len() == k,
        forall|j: int| 0 <= j < k ==> #[trigger] hex_digits(x, k)[j] < 128,
    decreases k,
{
    lemma_hex_digits_len(x, k);
    if k > 0 {
        lemma_hex_digits_ascii(x / 16, (k - 1) as nat);
    }
}

/// The whole id text form is plain ASCII.
proof fn lemma_uuid_bytes_ascii(id: u128)
    ensures
        forall|j: int| 0 <= j < uuid_bytes(id).len() ==> #[trigger] uuid_bytes(id)[j] < 128,
{
    lemma_hex_digits_ascii(id as int, 32);
}

/// Relies on `String::from_utf8`: ASCII bytes decode to the same
/// characters, and cannot fail.
#[verifier::external_body]
fn ascii_to_string(bytes: Vec<u8>) -> (r: String)
    requires
        forall|i: int| 0 <= i < bytes@.len() ==> bytes@[i] < 128,
    ensures
        r@ == bytes@.map_values(|b: u8| b as char),
{
    String::from_utf8(bytes).unwrap_or_default()
}

/// The lowercase hyphenated text form of an id.
pub fn uuid_to_string(id: u128) -> (r: String)
    ensures
        r@ == uuid_chars(id),
        r@.len() == 36,
{
    let bytes = uuid_ascii(id);
    proof {
        lemma_uuid_bytes_ascii(id);
    }
    ascii_to_string(bytes)
}

/// The decimal digit bytes of a nonnegative value, no leading zeros.
pub open spec fn dec_digits(n: int) -> Seq<u8>
    decreases n,
{
    if n < 10 {
        seq![(48 + (if n >= 0 {
            n
        } else {
            0
        })) as u8]
    } else {
        dec_digits(n / 10).push((48 + n % 10) as u8)
    }
}

/// The decimal digit characters of a value.
pub open spec fn dec_chars(n: int) -> Seq<char> {
    dec_digits(n).map_values(|b: u8| b as char)
}

/// The decimal digit bytes of a value.
pub fn dec_ascii(n: u32) -> (r: Vec<u8>)
    ensures
        r@ == dec_digits(n as int),
    decreases n,
{
    if n < 10 {
        let mut v: Vec<u8> = Vec::new();
        v.push(48 + n as u8);
        proof {
            assert(v@ =~= dec_digits(n as int));
        }
        v
    } else {
        let mut v = dec_ascii(n / 10);
        v.push(48 + (n % 10) as u8);
        v
    }
}

/// Decimal digit bytes are plain ASCII.
pub proof fn lemma_dec_digits_ascii(n: int)
    ensures
        forall|j: int| 0 <= j < dec_digits(n).len() ==> #[trigger] dec_digits(n)[j] < 128,
    decreases n,
{
    if n >= 10 {
        lemma_dec_digits_ascii(n / 10);
    }
    assert forall|j: int| 0 <= j < dec_digits(n).len() implies #[trigger] dec_digits(n)[j]
        < 128 by {
        if n >= 10 && j < dec_digits(n).len() - 1 {
            assert(dec_digits(n)[j] == dec_digits(n / 10)[j]);
        }
    }
}

/// The decimal text of a value.
pub fn dec_to_string(n: u32) -> (r: String)
    ensures
        r@ == dec_chars(n as int),
{
    let bytes = dec_ascii(n);
    proof {
        lemma_dec_digits_ascii(n as int);
    }
    ascii_to_string(bytes)
}

/// The bytes of one placement record: a five-entry map carrying the id's
/// text form and the rectangle, keys in declaration order.
pub open spec fn mapping_bytes(m: AtlasMapping) -> Seq<u8> {
    msg_map_header(5) + msg_str_header(2) + seq![105u8, 100u8]  // "id"
     + msg_str_header(36) + uuid_bytes(m.id) + msg_str_header(5) + seq![
        119u8,
        105u8,
        100u8,
        116u8,
        104u8,
    ]  // "width"
     + msg_uint(m.width as int) + msg_str_header(6) + seq![
        104u8,
        101u8,
        105u8,
        103u8,
        104u8,
        116u8,
    ]  // "height"
     + msg_uint(m.height as int) + msg_str_header(1) + seq![120u8]  // "x"
     + msg_uint(m.x as int) + msg_str_header(1) + seq![121u8]  // "y"
     + msg_uint(m.y as int)
}

/// The concatenated bytes of the first `k` placement records.
pub open spec fn mappings_bytes(s: Seq<AtlasMapping>, k: int) -> Seq<u8>
    decreases k,
{
    if k <= 0 {
        Seq::empty()
    } else {
        mappings_bytes(s, k - 1) + mapping_bytes(s[k - 1])
    }
}

/// The bytes of one atlas page record: a two-entry map of the canvas
/// bytes and the placement list.
pub open spec fn page_bytes(data: Seq<u8>, mapping: Seq<AtlasMapping>) -> Seq<u8> {
    msg_map_header(2) + msg_str_header(4) + seq![100u8, 97u8, 116u8, 97u8]  // "data"
     + msg_bin_header(data.len() as int) + data + msg_str_header(7) + seq![
        109u8,
        97u8,
        112u8,
        112u8,
        105u8,
        110u8,
        103u8,
    ]  // "mapping"
     + msg_array_header(mapping.len() as int) + mappings_bytes(mapping, mapping.len() as int)
}

/// Appends the ASCII bytes of a short literal.
fn push_bytes(buf: &mut Vec<u8>, s: &[u8])
    ensures
        final(buf)@ == old(buf)@ + s@,
{
    let mut i: usize = 0;
    while i < s.len()
        invariant
            i <= s@.len(),
            buf@ == old(buf)@ + s@.subrange(0, i as int),
        decreases s@.len() - i,
    {
        buf.push(s[i]);
        proof {
            assert(old(buf)@ + s@.subrange(0, i as int) + seq![s@[i as int]] =~= old(buf)@
                + s@.subrange(0, i as int + 1));
        }
        i += 1;
    }
    proof {
        assert(s@.subrange(0, s@.len() as int) =~= s@);
    }
}

/// Appends one placement record.
fn push_mapping(buf: &mut Vec<u8>, m: &AtlasMapping)
    ensures
        final(buf)@ == old(buf)@ + mapping_bytes(*m),
{
    buf.push(0x85);
    push_str_header(buf, 2);
    push_bytes(buf, &[105, 100]);
    push_str_header(buf, 36);
    let uid = uuid_ascii(m.id);
    push_bytes(buf, uid.as_slice());
    push_str_header(buf, 5);
    push_bytes(buf, &[119, 105, 100, 116, 104]);
    push_uint(buf, m.width as u64);
    push_str_header(buf, 6);
    push_bytes(buf, &[104, 101, 105, 103, 104, 116]);
    push_uint(buf, m.height as u64);
    push_str_header(buf, 1);
    push_bytes(buf, &[120]);
    push_uint(buf, m.x as u64);
    push_str_header(buf, 1);
    push_bytes(buf, &[121]);
    push_uint(buf, m.y as u64);
    proof {
        assert(final(buf)@ =~= old(buf)@ + mapping_bytes(*m));
    }
}

/// Encodes one atlas page record: the canvas bytes plus its placement
/// map, exactly as the paged wire format lays them out.
pub fn encode_atlas_page(data: &Vec<u8>, mapping: &Vec<AtlasMapping>) -> (r: Vec<u8>)
    requires
        data@.len() <= u32::MAX,
        mapping@.len() <= u32::MAX,
    ensures
        r@ == page_bytes(data@, mapping@),
{
    let mut buf: Vec<u8> = Vec::new();
    buf.push(0x82);
    push_str_header(&mut buf, 4);
    push_bytes(&mut buf, &[100, 97, 116, 97]);
    rmp_write_bin_len(&mut buf, data.len() as u32);
    push_bytes(&mut buf, data.as_slice());
    push_str_header(&mut buf, 7);
    push_bytes(&mut buf, &[109, 97, 112, 112, 105, 110, 103]);
    rmp_write_array_len(&mut buf, mapping.len() as u32);
    let ghost before_maps = buf@;
    let mut k: usize = 0;
    while k < mapping.len()
        invariant
            k <= mapping@.len(),
            buf@ == before_maps + mappings_bytes(mapping@, k as int),
        decreases mapping@.len() - k,
    {
        push_mapping(&mut buf, &mapping[k]);
        proof {
            assert(before_maps + mappings_bytes(mapping@, k as int) + mapping_bytes(
                mapping@[k as int],
            ) =~= before_maps + mappings_bytes(mapping@, k as int + 1));
        }
        k += 1;
    }
    proof {
        assert(buf@ =~= page_bytes(data@, mapping@));
    }
    buf
}

/// One dynamic-path response: the encoded canvas bytes plus the
/// placement map, the record that goes out length-prefixed on the wire.
pub struct AtlasResponse {
    pub data: Vec<u8>,
    pub mapping: Vec<AtlasMapping>,
}

impl AtlasResponse {
    /// Encodes the response as the page record.
    pub fn encode(&self) -> (r: Vec<u8>)
        requires
            self.data@.len() <= u32::MAX,
            self.mapping@.len() <= u32::MAX,
        ensures
            r@ == page_bytes(self.data@, self.mapping@),
    {
        encode_atlas_page(&self.data, &self.mapping)
    }
}

/// The bytes of a whole atlas file: a page count, then each page record.
pub open spec fn file_pages_bytes(pages: Seq<(Seq<u8>, Seq<AtlasMapping>)>, k: int) -> Seq<u8>
    decreases k,
{
    if k <= 0 {
        Seq::empty()
    } else {
        file_pages_bytes(pages, k - 1) + page_bytes(pages[k - 1].0, pages[k - 1].1)
    }
}

/// Encodes the sequential atlas file: the page count header followed by
/// every page record.
pub fn encode_atlas_file(pages: &Vec<(Vec<u8>, Vec<AtlasMapping>)>) -> (r: Vec<u8>)
    requires
        pages@.len() <= u32::MAX,
        forall|i: int|
            0 <= i < pages@.len() ==> (#[trigger] pages@[i]).0@.len() <= u32::MAX
                && pages@[i].1@.len() <= u32::MAX,
    ensures
        r@ == msg_array_header(pages@.len() as int) + file_pages_bytes(
            pages@.map_values(|p: (Vec<u8>, Vec<AtlasMapping>)| (p.0@, p.1@)),
            pages@.len() as int,
        ),
{
    let ghost ps = pages@.map_values(|p: (Vec<u8>, Vec<AtlasMapping>)| (p.0@, p.1@));
    let mut buf: Vec<u8> = Vec::new();
    rmp_write_array_len(&mut buf, pages.len() as u32);
    let ghost header = buf@;
    let mut k: usize = 0;
    while k < pages.len()
        invariant
            k <= pages@.len(),
            header == msg_array_header(pages@.len() as int),
            ps == pages@.map_values(|p: (Vec<u8>, Vec<AtlasMapping>)| (p.0@, p.1@)),
            forall|i: int|
                0 <= i < pages@.len() ==> (#[trigger] pages@[i]).0@.len() <= u32::MAX
                    && pages@[i].1@.len() <= u32::MAX,
            buf@ == header + file_pages_bytes(ps, k as int),
        decreases pages@.len() - k,
    {
        let page = encode_atlas_page(&pages[k].0, &pages[k].1);
        let mut page = page;
        buf.append(&mut page);
        proof {
            assert(ps[k as int] == (pages@[k as int].0@, pages@[k as int].1@));
            assert(header + file_pages_bytes(ps, k as int) + page_bytes(
                ps[k as int].0,
                ps[k as int].1,
            ) =~= header + file_pages_bytes(ps, k as int + 1));
        }
        k += 1;
    }
    buf
}

/// Encodes one bulk-response slot: nil when no stored thumbnail fit the
/// request, else the blob under a binary header.
pub fn encode_bulk_slot(found: Option<&Vec<u8>>) -> (r: Vec<u8>)
    requires
        found is Some ==> found->0@.len() <= u32::MAX,
    ensures
        found is None ==> r@ == msg_nil(),
        found is Some ==> r@ == msg_bin_header(found->0@.len() as int) + found->0@,
{
    let mut buf: Vec<u8> = Vec::new();
    match found {
        None => {
            rmp_write_nil(&mut buf);
        },
        Some(data) => {
            rmp_write_bin_len(&mut buf, data.len() as u32);
            push_bytes(&mut buf, data.as_slice());
            proof {
                assert(buf@ =~= msg_bin_header(data@.len() as int) + data@);
            }
        },
    }
    buf
}

} // verus!
