use exe_packer::icon::{IconError, IconExtractor};

fn put16(d: &mut [u8], at: usize, v: u16) {
    d[at..at + 2].copy_from_slice(&v.to_le_bytes());
}

fn put32(d: &mut [u8], at: usize, v: u32) {
    d[at..at + 4].copy_from_slice(&v.to_le_bytes());
}

const RSO: usize = 0x200;
const VA: u32 = 0x1000;

/// A PE image with one ".rsrc" section holding two icons and one group
/// whose entries are (width, height, bytes, id).
fn pe_with_icons(group: &[(u8, u8, u32, u16)], section_name: &[u8; 8]) -> Vec<u8> {
    let mut d = vec![0u8; 0x600];
    d[0] = b'M';
    d[1] = b'Z';
    put32(&mut d, 0x3C, 0x40);
    d[0x40..0x44].copy_from_slice(b"PE\0\0");
    put16(&mut d, 0x46, 1); // one section
    put16(&mut d, 0x54, 0); // no optional header
    let sh = 0x58;
    d[sh..sh + 8].copy_from_slice(section_name);
    put32(&mut d, sh + 8, 0x1000);
    put32(&mut d, sh + 12, VA);
    put32(&mut d, sh + 20, RSO as u32);
    // root: two id entries
    put16(&mut d, RSO + 14, 2);
    put32(&mut d, RSO + 16, 3);
    put32(&mut d, RSO + 20, 0x8000_0030);
    put32(&mut d, RSO + 24, 14);
    put32(&mut d, RSO + 28, 0x8000_0060);
    // icon type directory: ids 1 and 2
    put16(&mut d, RSO + 0x30 + 14, 2);
    put32(&mut d, RSO + 0x40, 1);
    put32(&mut d, RSO + 0x44, 0x8000_0090);
    put32(&mut d, RSO + 0x48, 2);
    put32(&mut d, RSO + 0x4C, 0x8000_00A8);
    // group type directory: one group
    put16(&mut d, RSO + 0x60 + 14, 1);
    put32(&mut d, RSO + 0x70, 1);
    put32(&mut d, RSO + 0x74, 0x8000_00C0);
    // language directories
    put16(&mut d, RSO + 0x90 + 14, 1);
    put32(&mut d, RSO + 0xA4, 0xF0);
    put16(&mut d, RSO + 0xA8 + 14, 1);
    put32(&mut d, RSO + 0xBC, 0x100);
    put16(&mut d, RSO + 0xC0 + 14, 1);
    put32(&mut d, RSO + 0xD4, 0x110);
    // data entries
    put32(&mut d, RSO + 0xF0, VA + 0x200);
    put32(&mut d, RSO + 0xF4, 4);
    put32(&mut d, RSO + 0x100, VA + 0x210);
    put32(&mut d, RSO + 0x104, 6);
    put32(&mut d, RSO + 0x110, VA + 0x220);
    put32(&mut d, RSO + 0x114, 6 + 14 * group.len() as u32);
    // icon images
    d[RSO + 0x200..RSO + 0x204].copy_from_slice(&[1, 2, 3, 4]);
    d[RSO + 0x210..RSO + 0x216].copy_from_slice(&[9, 8, 7, 6, 5, 4]);
    // group data
    let g = RSO + 0x220;
    put16(&mut d, g + 2, 1);
    put16(&mut d, g + 4, group.len() as u16);
    for (i, (w, h, bytes, id)) in group.iter().enumerate() {
        let b = g + 6 + 14 * i;
        d[b] = *w;
        d[b + 1] = *h;
        put16(&mut d, b + 4, 1);
        put16(&mut d, b + 6, 32);
        put32(&mut d, b + 8, *bytes);
        put16(&mut d, b + 12, *id);
    }
    d
}

#[test]
fn largest_icon_by_bytes() {
    let d = pe_with_icons(&[(16, 16, 4, 1), (32, 32, 6, 2)], b".rsrc\0\0\0");
    let ico = IconExtractor::new(d).unwrap().extract_largest_icon().unwrap();
    assert_eq!(
        ico,
        vec![0, 0, 1, 0, 1, 0, 32, 32, 0, 0, 1, 0, 32, 0, 6, 0, 0, 0, 22, 0, 0, 0, 9, 8, 7, 6, 5, 4]
    );
}

#[test]
fn ties_broken_by_area() {
    let d = pe_with_icons(&[(48, 48, 6, 1), (16, 16, 6, 2)], b".rsrc\0\0\0");
    let ico = IconExtractor::new(d).unwrap().extract_largest_icon().unwrap();
    assert_eq!(&ico[6..8], &[48, 48]);
    assert_eq!(&ico[22..], &[1, 2, 3, 4]);
}

#[test]
fn full_ties_take_the_last() {
    let d = pe_with_icons(&[(16, 16, 6, 1), (16, 16, 6, 2)], b".rsrc\0\0\0");
    let ico = IconExtractor::new(d).unwrap().extract_largest_icon().unwrap();
    assert_eq!(&ico[22..], &[9, 8, 7, 6, 5, 4]);
}

#[test]
fn section_name_any_case() {
    let d = pe_with_icons(&[(16, 16, 4, 1)], b".RSRC\0\0\0");
    let ico = IconExtractor::new(d).unwrap().extract_largest_icon().unwrap();
    assert_eq!(&ico[22..], &[1, 2, 3, 4]);
}

#[test]
fn not_a_pe() {
    assert_eq!(IconExtractor::new(b"ZM not an exe".to_vec()).err(), Some(IconError::NotAPe));
    let mut d = pe_with_icons(&[(16, 16, 4, 1)], b".rsrc\0\0\0");
    d[0x41] = b'X';
    assert_eq!(IconExtractor::new(d).err(), Some(IconError::NotAPe));
}

#[test]
fn truncated_image() {
    assert_eq!(IconExtractor::new(b"M".to_vec()).err(), Some(IconError::Truncated));
    let d = pe_with_icons(&[(16, 16, 4, 1)], b".rsrc\0\0\0");
    assert_eq!(IconExtractor::new(d[..0x50].to_vec()).err(), Some(IconError::Truncated));
}

#[test]
fn no_resource_section() {
    // no ".rsrc" name and no optional header magic to fall back on
    let d = pe_with_icons(&[(16, 16, 4, 1)], b".text\0\0\0");
    assert_eq!(IconExtractor::new(d).err(), Some(IconError::NotAPe));
}

#[test]
fn empty_group_has_no_icon() {
    let d = pe_with_icons(&[], b".rsrc\0\0\0");
    let r = IconExtractor::new(d).unwrap().extract_largest_icon();
    assert_eq!(r, Err(IconError::NoIconResource));
}

#[test]
fn missing_icon_id() {
    let d = pe_with_icons(&[(16, 16, 4, 7)], b".rsrc\0\0\0");
    let r = IconExtractor::new(d).unwrap().extract_largest_icon();
    assert_eq!(r, Err(IconError::NoIconResource));
}
