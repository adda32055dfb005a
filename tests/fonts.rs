use hex_ln::font::Font;

fn be16(out: &mut Vec<u8>, v: u16) {
    out.extend_from_slice(&v.to_be_bytes());
}

fn be32(out: &mut Vec<u8>, v: u32) {
    out.extend_from_slice(&v.to_be_bytes());
}

/// A TrueType file with glyphs for 'A' and the space, and no outlines.
fn tiny_font() -> Vec<u8> {
    let mut cmap = Vec::new();
    be16(&mut cmap, 0);
    be16(&mut cmap, 1);
    be16(&mut cmap, 0); // Unicode platform
    be16(&mut cmap, 3);
    be32(&mut cmap, 12);
    be16(&mut cmap, 0); // format 0
    be16(&mut cmap, 262);
    be16(&mut cmap, 0);
    let mut ids = [0u8; 256];
    ids[b'A' as usize] = 1;
    ids[b' ' as usize] = 2;
    cmap.extend_from_slice(&ids);

    let mut head = Vec::new();
    be32(&mut head, 0x0001_0000);
    be32(&mut head, 0);
    be32(&mut head, 0);
    be32(&mut head, 0x5F0F_3CF5);
    be16(&mut head, 0);
    be16(&mut head, 1000); // units per em
    head.extend_from_slice(&[0u8; 16]);
    head.extend_from_slice(&[0u8; 8]);
    be16(&mut head, 0);
    be16(&mut head, 8);
    be16(&mut head, 2);
    be16(&mut head, 0);
    be16(&mut head, 0);
    assert_eq!(head.len(), 54);

    let mut hhea = Vec::new();
    be32(&mut hhea, 0x0001_0000);
    be16(&mut hhea, 800);
    be16(&mut hhea, (-200i16) as u16);
    be16(&mut hhea, 0);
    hhea.extend_from_slice(&[0u8; 24]);
    be16(&mut hhea, 3);
    assert_eq!(hhea.len(), 36);

    let mut hmtx = Vec::new();
    for (adv, lsb) in [(500u16, 0i16), (600, 50), (250, 0)] {
        be16(&mut hmtx, adv);
        be16(&mut hmtx, lsb as u16);
    }

    let mut maxp = Vec::new();
    be32(&mut maxp, 0x0000_5000);
    be16(&mut maxp, 3);

    let tables: [(&[u8; 4], Vec<u8>); 5] =
        [(b"cmap", cmap), (b"head", head), (b"hhea", hhea), (b"hmtx", hmtx), (b"maxp", maxp)];
    let mut out = Vec::new();
    be32(&mut out, 0x0001_0000);
    be16(&mut out, tables.len() as u16);
    be16(&mut out, 0);
    be16(&mut out, 0);
    be16(&mut out, 0);
    let mut offset = 12 + 16 * tables.len();
    for (tag, data) in tables.iter() {
        out.extend_from_slice(&tag[..]);
        be32(&mut out, 0);
        be32(&mut out, offset as u32);
        be32(&mut out, data.len() as u32);
        offset += data.len();
    }
    for (_, data) in tables.iter() {
        out.extend_from_slice(data);
    }
    out
}

#[test]
fn loads_a_minimal_font() {
    let font = Font::load(&tiny_font()).unwrap();
    assert_eq!(font.units_per_em(), 1000);
    assert_eq!(font.line_height(), 1000);
    let a = font.get(b'A').unwrap();
    assert_eq!(a.h_advance, 600);
    assert_eq!(a.bearing, [50, 0]);
    assert!(a.tex.is_none());
    assert_eq!(a.size, [0, 0]);
    assert!(font.get(b'B').is_none());
    assert!(font.get(0).is_none());
    assert!(font.get(127).is_none());
}

#[test]
fn space_has_advance_but_no_texture() {
    let font = Font::load(&tiny_font()).unwrap();
    let space = font.get(b' ').unwrap();
    assert!(space.tex.is_none());
    assert_eq!(space.size, [0, 0]);
    assert_eq!(space.h_advance, 250);
    assert_ne!(space.h_advance, 0);
}

#[test]
fn mapped_codes_are_exactly_the_cached_ones() {
    let font = Font::load(&tiny_font()).unwrap();
    for code in 0..128u8 {
        let mapped = code == b'A' || code == b' ';
        assert_eq!(font.get(code).is_some(), mapped);
        assert_eq!(font.get(code).is_some(), mapped);
    }
}

#[test]
fn empty_input_is_rejected() {
    assert!(Font::load(&[]).is_err());
}

#[test]
fn truncated_font_is_rejected() {
    let bytes = tiny_font();
    for len in [3usize, 4, 12, 40, 100, bytes.len() - 1] {
        assert!(Font::load(&bytes[..len]).is_err(), "length {}", len);
    }
}

#[test]
fn corrupted_font_is_rejected() {
    let mut bytes = tiny_font();
    bytes[0] = 0x7f;
    assert!(Font::load(&bytes).is_err());
    let mut bytes = tiny_font();
    // units per em of 0 is outside the accepted range
    let head_at = 12 + 16 * 5 + 12 + 262;
    bytes[head_at + 18] = 0;
    bytes[head_at + 19] = 0;
    assert!(Font::load(&bytes).is_err());
}
