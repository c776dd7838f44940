use hexfield::naming::stem_builder;
use hexfield::tiff::{
    grayscale_ifd_entries, grayscale_tiff_preamble, push_u16, push_u32, write_ifd_entry,
    write_tiff_header, IfdEntry, TiffHeader,
};

#[test]
fn integers_are_written_little_endian() {
    let mut out = vec![7u8];
    push_u16(&mut out, 0x1234);
    push_u32(&mut out, 0xdead_beef);
    assert_eq!(out, vec![7, 0x34, 0x12, 0xef, 0xbe, 0xad, 0xde]);
}

#[test]
fn header_bytes() {
    let mut out = Vec::new();
    write_tiff_header(&mut out, 8);
    assert_eq!(out, vec![0x49, 0x49, 42, 0, 8, 0, 0, 0]);
    let h = TiffHeader { byte_order: 0x4949, magic_number: 42, ifd_offset: 8 };
    assert_eq!(h.ifd_offset, 8);
}

#[test]
fn entry_bytes() {
    let mut out = Vec::new();
    let e = IfdEntry { tag: 256, field_type: 4, count: 1, value_offset: 0x0102_0304 };
    write_ifd_entry(&mut out, &e);
    assert_eq!(out, vec![0, 1, 4, 0, 1, 0, 0, 0, 4, 3, 2, 1]);
}

#[test]
fn grayscale_directory() {
    let entries = grayscale_ifd_entries(4);
    assert_eq!(entries.len(), 12);
    let tags: Vec<u16> = entries.iter().map(|e| e.tag).collect();
    assert_eq!(tags, vec![256, 257, 258, 339, 259, 262, 273, 277, 278, 279, 282, 283]);
    assert_eq!(entries[0].value_offset, 4);
    assert_eq!(entries[2].value_offset, 32);
    assert_eq!(entries[3].value_offset, 3);
    assert_eq!(entries[6].value_offset, 0x100);
    assert_eq!(entries[9].value_offset, 64);
    assert_eq!(grayscale_ifd_entries(0x1_0000)[9].value_offset, 0);
}

#[test]
fn grayscale_preamble() {
    let p = grayscale_tiff_preamble(8192);
    assert_eq!(p.len(), 8 + 2 + 12 * 12 + 4);
    assert_eq!(&p[0..8], &[0x49, 0x49, 42, 0, 8, 0, 0, 0]);
    assert_eq!(&p[8..10], &[12, 0]);
    // First entry: image width 8192.
    assert_eq!(&p[10..22], &[0, 1, 4, 0, 1, 0, 0, 0, 0, 0x20, 0, 0]);
    assert_eq!(&p[154..158], &[0, 0, 0, 0]);
}

#[test]
fn product_names() {
    assert_eq!(stem_builder("FractalTerraces", "hex"), "FractalTerraces_hex");
    assert_eq!(stem_builder("", "sobel"), "_sobel");
}
