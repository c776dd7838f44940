//! The little-endian header and image file directory of a 32-bit float grayscale TIFF.
use byteorder::{ByteOrder, LittleEndian};
use vstd::prelude::*;

verus! {

/// The TIFF file header.
#[derive(Debug, Clone, Copy, PartialEq, Eq, Structural)]
pub struct TiffHeader {
    pub byte_order: u16,
    pub magic_number: u16,
    pub ifd_offset: u32,
}

/// One entry of a TIFF image file directory.
#[derive(Debug, Clone, Copy, PartialEq, Eq, Structural)]
pub struct IfdEntry {
    pub tag: u16,
    pub field_type: u16,
    pub count: u32,
    pub value_offset: u32,
}

/// The two bytes of `v`, least significant first.
pub open spec fn le16(v: u16) -> Seq<u8> {
    seq![(v % 256) as u8, (v / 256) as u8]
}

/// The four bytes of `v`, least significant first.
pub open spec fn le32(v: u32) -> Seq<u8> {
    seq![(v % 256) as u8, ((v / 256) % 256) as u8, ((v / 65536) % 256) as u8, (v / 16777216) as u8]
}

/// Encoding of a header: byte order mark, magic number, offset of the first directory.
pub open spec fn header_bytes(h: TiffHeader) -> Seq<u8> {
    le16(h.byte_order) + le16(h.magic_number) + le32(h.ifd_offset)
}

/// Encoding of a directory entry: tag, field type, count, value or offset.
pub open spec fn entry_bytes(e: IfdEntry) -> Seq<u8> {
    le16(e.tag) + le16(e.field_type) + le32(e.count) + le32(e.value_offset)
}

/// Encodings of `entries`, one after the other.
pub open spec fn entries_bytes(entries: Seq<IfdEntry>) -> Seq<u8>
    decreases entries.len(),
{
    if entries.len() == 0 {
        Seq::empty()
    } else {
        entries_bytes(entries.drop_last()) + entry_bytes(entries.last())
    }
}

/// Relies on byteorder's `LittleEndian::write_u16`: writes `v` least significant byte first.
#[verifier::external_body]
fn le_u16_bytes(v: u16) -> (r: [u8; 2])
    ensures
        r@ == le16(v),
{
    let mut buf = [0u8; 2];
    LittleEndian::write_u16(&mut buf, v);
    buf
}

/// Relies on byteorder's `LittleEndian::write_u32`: writes `v` least significant byte first.
#[verifier::external_body]
fn le_u32_bytes(v: u32) -> (r: [u8; 4])
    ensures
        r@ == le32(v),
{
    let mut buf = [0u8; 4];
    LittleEndian::write_u32(&mut buf, v);
    buf
}

/// Appends `v` in little-endian order.
pub fn push_u16(out: &mut Vec<u8>, v: u16)
    ensures
        final(out)@ == old(out)@ + le16(v),
{
    let b = le_u16_bytes(v);
    out.push(b[0]);
    out.push(b[1]);
    assert(out@ =~= old(out)@ + le16(v));
}

/// Appends `v` in little-endian order.
pub fn push_u32(out: &mut Vec<u8>, v: u32)
    ensures
        final(out)@ == old(out)@ + le32(v),
{
    let b = le_u32_bytes(v);
    out.push(b[0]);
    out.push(b[1]);
    out.push(b[2]);
    out.push(b[3]);
    assert(out@ =~= old(out)@ + le32(v));
}

} // verus!

verus! {

/// The little-endian byte order mark, `II`.
pub const LITTLE_ENDIAN_MARK: u16 = 0x4949;

/// The TIFF magic number.
pub const TIFF_MAGIC: u16 = 42;

/// Offset at which the pixel strip is declared to start.
pub const STRIP_OFFSET: u32 = 0x100;

/// Appends a little-endian header whose first directory starts at `ifd_offset`.
pub fn write_tiff_header(out: &mut Vec<u8>, ifd_offset: u32)
    ensures
        final(out)@ == old(out)@ + header_bytes(
            TiffHeader { byte_order: LITTLE_ENDIAN_MARK, magic_number: TIFF_MAGIC, ifd_offset },
        ),
{
    push_u16(out, LITTLE_ENDIAN_MARK);
    push_u16(out, TIFF_MAGIC);
    push_u32(out, ifd_offset);
    assert(out@ =~= old(out)@ + header_bytes(
        TiffHeader { byte_order: LITTLE_ENDIAN_MARK, magic_number: TIFF_MAGIC, ifd_offset },
    ));
}

/// Appends one directory entry.
pub fn write_ifd_entry(out: &mut Vec<u8>, ifd_entry: &IfdEntry)
    ensures
        final(out)@ == old(out)@ + entry_bytes(*ifd_entry),
{
    push_u16(out, ifd_entry.tag);
    push_u16(out, ifd_entry.field_type);
    push_u32(out, ifd_entry.count);
    push_u32(out, ifd_entry.value_offset);
    assert(out@ =~= old(out)@ + entry_bytes(*ifd_entry));
}

/// An entry with a count of one.
pub open spec fn single(tag: u16, field_type: u16, value: u32) -> IfdEntry {
    IfdEntry { tag, field_type, count: 1, value_offset: value }
}

/// The directory of an uncompressed `size` by `size` image of 32-bit float samples in
/// one strip: width, height, bits per sample, sample format, compression,
/// photometric interpretation, strip offset, samples per pixel, rows per strip,
/// strip byte count (modulo 2^32) and the two resolutions.
pub open spec fn grayscale_entries(size: u32) -> Seq<IfdEntry> {
    seq![
        single(256, 4, size),
        single(257, 4, size),
        single(258, 3, 32),
        single(339, 3, 3),
        single(259, 3, 1),
        single(262, 3, 1),
        single(273, 4, STRIP_OFFSET),
        single(277, 3, 1),
        single(278, 4, size),
        single(279, 4, ((size * size * 4) % 0x1_0000_0000) as u32),
        single(282, 5, size),
        single(283, 5, size),
    ]
}

/// See `grayscale_entries`.
pub fn grayscale_ifd_entries(size: u32) -> (r: Vec<IfdEntry>)
    ensures
        r@ == grayscale_entries(size),
{
    proof {
        assert(size * size <= 0xffff_ffff * 0xffff_ffffu64) by (nonlinear_arith)
            requires size <= 0xffff_ffffu32;
    }
    let bytes: u128 = size as u128 * size as u128 * 4;
    let strip_bytes: u32 = (bytes % 0x1_0000_0000) as u32;
    let r = vec![
        IfdEntry { tag: 256, field_type: 4, count: 1, value_offset: size },
        IfdEntry { tag: 257, field_type: 4, count: 1, value_offset: size },
        IfdEntry { tag: 258, field_type: 3, count: 1, value_offset: 32 },
        IfdEntry { tag: 339, field_type: 3, count: 1, value_offset: 3 },
        IfdEntry { tag: 259, field_type: 3, count: 1, value_offset: 1 },
        IfdEntry { tag: 262, field_type: 3, count: 1, value_offset: 1 },
        IfdEntry { tag: 273, field_type: 4, count: 1, value_offset: STRIP_OFFSET },
        IfdEntry { tag: 277, field_type: 3, count: 1, value_offset: 1 },
        IfdEntry { tag: 278, field_type: 4, count: 1, value_offset: size },
        IfdEntry { tag: 279, field_type: 4, count: 1, value_offset: strip_bytes },
        IfdEntry { tag: 282, field_type: 5, count: 1, value_offset: size },
        IfdEntry { tag: 283, field_type: 5, count: 1, value_offset: size },
    ];
    assert(r@ =~= grayscale_entries(size));
    r
}

/// Everything before the pixel data: a header pointing at offset 8, the entry count,
/// the entries of `grayscale_entries(size)`, and a zero next-directory offset.
pub open spec fn preamble_bytes(size: u32) -> Seq<u8> {
    let entries = grayscale_entries(size);
    header_bytes(TiffHeader { byte_order: LITTLE_ENDIAN_MARK, magic_number: TIFF_MAGIC, ifd_offset: 8 })
        + le16(entries.len() as u16) + entries_bytes(entries) + le32(0)
}

/// See `preamble_bytes`.
pub fn grayscale_tiff_preamble(size: u32) -> (r: Vec<u8>)
    ensures
        r@ == preamble_bytes(size),
{
    let mut out: Vec<u8> = Vec::new();
    write_tiff_header(&mut out, 8);
    let entries = grayscale_ifd_entries(size);
    let n = entries.len();
    push_u16(&mut out, n as u16);
    let ghost start = out@;
    let mut i: usize = 0;
    while i < n
        invariant
            n == entries@.len(),
            i <= n,
            out@ == start + entries_bytes(entries@.subrange(0, i as int)),
        decreases n - i,
    {
        write_ifd_entry(&mut out, &entries[i]);
        proof {
            let next = entries@.subrange(0, i + 1);
            assert(next.drop_last() =~= entries@.subrange(0, i as int));
            assert(next.last() == entries@[i as int]);
        }
        i += 1;
    }
    assert(entries@.subrange(0, n as int) =~= entries@);
    push_u32(&mut out, 0);
    assert(out@ =~= preamble_bytes(size));
    out
}

} // verus!
