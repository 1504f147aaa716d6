use source_assets::bsp::{DHeaderT, HEADER_SIZE, PROP_STATIC_ID};

fn header_with(lumps: &[(usize, i32, i32, i32, [u8; 4])], version: i32, rev: i32) -> Vec<u8> {
    let mut d = vec![0u8; HEADER_SIZE];
    d[0..4].copy_from_slice(b"VBSP");
    d[4..8].copy_from_slice(&version.to_le_bytes());
    for &(i, ofs, len, ver, tag) in lumps {
        let o = 8 + 16 * i;
        d[o..o + 4].copy_from_slice(&ofs.to_le_bytes());
        d[o + 4..o + 8].copy_from_slice(&len.to_le_bytes());
        d[o + 8..o + 12].copy_from_slice(&ver.to_le_bytes());
        d[o + 12..o + 16].copy_from_slice(&tag);
    }
    d[1032..1036].copy_from_slice(&rev.to_le_bytes());
    d
}

#[test]
fn header_fields_round_trip() {
    let d = header_with(
        &[(0, 2000, 321, 5, *b"ABCD"), (63, 7, 8, 9, *b"WXYZ")],
        20,
        7,
    );
    let h = DHeaderT::new(d).expect("full-size header must decode");
    assert_eq!(h.ident(), *b"VBSP");
    assert_eq!(h.version(), 20);
    assert_eq!(h.map_revision(), 7);
    let l0 = h.get_lump_info(0).unwrap();
    assert_eq!(l0.file_ofs, 2000);
    assert_eq!(l0.file_len, 321);
    assert_eq!(l0.version, 5);
    assert_eq!(l0.four_cc, *b"ABCD");
    let l63 = h.get_lump_info(63).unwrap();
    assert_eq!(l63.file_ofs, 7);
    assert_eq!(l63.file_len, 8);
    assert_eq!(l63.version, 9);
    assert_eq!(l63.four_cc, *b"WXYZ");
    assert!(h.get_lump_info(64).is_none());
}

#[test]
fn header_decode_is_deterministic() {
    let d = header_with(&[(3, 11, 22, 33, *b"tagX")], 19, 1);
    let h1 = DHeaderT::new(d.clone()).unwrap();
    let h2 = DHeaderT::new(d).unwrap();
    let a = h1.get_lump_info(3).unwrap();
    let b = h2.get_lump_info(3).unwrap();
    assert_eq!(a.file_ofs, b.file_ofs);
    assert_eq!(a.file_len, b.file_len);
    assert_eq!(a.version, b.version);
    assert_eq!(a.four_cc, b.four_cc);
}

#[test]
fn short_header_rejected() {
    let d = vec![0u8; HEADER_SIZE - 1];
    assert!(DHeaderT::new(d).is_none());
}

#[test]
fn lump_bytes_exact_range() {
    let payload = b"PAYLOAD!";
    let mut d = header_with(&[(5, HEADER_SIZE as i32 + 2, 5, 0, [0; 4])], 20, 0);
    d.extend_from_slice(b"..");
    d.extend_from_slice(payload);
    let h = DHeaderT::new(d).unwrap();
    let v = h.lump_bytes(5).unwrap();
    assert_eq!(v.len(), 5);
    assert_eq!(&v, b"PAYLO");
}

#[test]
fn lump_bytes_out_of_range() {
    let d = header_with(
        &[(1, HEADER_SIZE as i32, 100, 0, [0; 4]), (2, -4, 4, 0, [0; 4]), (3, 0, -1, 0, [0; 4])],
        20,
        0,
    );
    let h = DHeaderT::new(d).unwrap();
    assert!(h.lump_bytes(1).is_none());
    assert!(h.lump_bytes(2).is_none());
    assert!(h.lump_bytes(3).is_none());
    assert!(h.lump_bytes(64).is_none());
    assert!(h.lump_bytes(0).is_some());
}

#[test]
fn entities_block_count_and_last_wins() {
    let text = b"{\"a\" \"1\" \"b\" \"2\"}\njunk\n{\"a\" \"x\" \"a\" \"y\"}";
    let mut d = header_with(&[(0, HEADER_SIZE as i32, text.len() as i32, 0, [0; 4])], 20, 0);
    d.extend_from_slice(text);
    let h = DHeaderT::new(d).unwrap();
    let ents = h.get_lump_0().expect("entity lump must decode");
    assert_eq!(ents.len(), 2);
    assert_eq!(ents[0].get("a"), Some(&String::from("1")));
    assert_eq!(ents[0].get("b"), Some(&String::from("2")));
    assert_eq!(ents[1].get("a"), Some(&String::from("y")));
    assert!(ents[0].get("missing").is_none());
}

#[test]
fn entities_bad_utf8_rejected() {
    let text = [b'{', 0xff, 0xfe, b'}'];
    let mut d = header_with(&[(0, HEADER_SIZE as i32, 4, 0, [0; 4])], 20, 0);
    d.extend_from_slice(&text);
    let h = DHeaderT::new(d).unwrap();
    assert!(h.get_lump_0().is_none());
}

fn game_lump_rec(id: i32, flags: u16, version: u16, ofs: i32, len: i32) -> Vec<u8> {
    let mut r = Vec::new();
    r.extend_from_slice(&id.to_le_bytes());
    r.extend_from_slice(&flags.to_le_bytes());
    r.extend_from_slice(&version.to_le_bytes());
    r.extend_from_slice(&ofs.to_le_bytes());
    r.extend_from_slice(&len.to_le_bytes());
    r
}

#[test]
fn game_lump_directory_duplicate_id_last_wins() {
    let base = HEADER_SIZE as i32;
    let mut dir = Vec::new();
    dir.extend_from_slice(&2i32.to_le_bytes());
    dir.extend_from_slice(&game_lump_rec(77, 1, 2, 100, 200));
    dir.extend_from_slice(&game_lump_rec(77, 3, 4, 300, 400));
    let mut d = header_with(&[(35, base, dir.len() as i32, 0, [0; 4])], 20, 0);
    d.extend_from_slice(&dir);
    let h = DHeaderT::new(d).unwrap();
    let g = h.get_lump_35().expect("directory must decode");
    let e = g.get(77).unwrap();
    assert_eq!(e.flags, 3);
    assert_eq!(e.version, 4);
    assert_eq!(e.file_ofs, 300);
    assert_eq!(e.file_len, 400);
    assert!(g.get(78).is_none());
}

#[test]
fn prop_static_names_decoded() {
    let base = HEADER_SIZE as i32;
    // game-lump directory: one entry, the static-prop tag, whose data
    // follows the directory
    let dict_ofs = base + 4 + 16;
    let mut dir = Vec::new();
    dir.extend_from_slice(&1i32.to_le_bytes());
    dir.extend_from_slice(&game_lump_rec(PROP_STATIC_ID, 0, 4, dict_ofs, 4 + 2 * 128));
    let mut dict = Vec::new();
    dict.extend_from_slice(&2i32.to_le_bytes());
    let mut n1 = vec![0u8; 128];
    n1[..16].copy_from_slice(b"models/a_one.mdl");
    let mut n2 = vec![0u8; 128];
    n2[..16].copy_from_slice(b"models/b_two.mdl");
    dict.extend_from_slice(&n1);
    dict.extend_from_slice(&n2);
    let mut d = header_with(&[(35, base, (dir.len() + dict.len()) as i32, 0, [0; 4])], 20, 0);
    d.extend_from_slice(&dir);
    d.extend_from_slice(&dict);
    let h = DHeaderT::new(d).unwrap();
    let names = h.get_prop_static().expect("dictionary must decode");
    assert_eq!(names.len(), 2);
    assert_eq!(names[0], "models/a_one.mdl");
    assert_eq!(names[1], "models/b_two.mdl");
    assert!(names.iter().all(|n| n.len() <= 128));
}

#[test]
fn prop_static_absent_without_tag() {
    let base = HEADER_SIZE as i32;
    let mut dir = Vec::new();
    dir.extend_from_slice(&1i32.to_le_bytes());
    dir.extend_from_slice(&game_lump_rec(42, 0, 0, 0, 0));
    let mut d = header_with(&[(35, base, dir.len() as i32, 0, [0; 4])], 20, 0);
    d.extend_from_slice(&dir);
    let h = DHeaderT::new(d).unwrap();
    assert!(h.get_prop_static().is_none());
}

#[test]
fn material_name_list_lowercased_and_suffixed() {
    let text = b"DIR/Mat1\0other/m2\0";
    let mut d = header_with(&[(43, HEADER_SIZE as i32, text.len() as i32, 0, [0; 4])], 20, 0);
    d.extend_from_slice(text);
    let h = DHeaderT::new(d).unwrap();
    let names = h.get_lump_43().expect("material list must decode");
    assert_eq!(names, vec![String::from("dir/mat1.vmt"), String::from("other/m2.vmt")]);
}

#[test]
fn material_name_list_empty_segments() {
    let text = b"a\0\0b";
    let mut d = header_with(&[(43, HEADER_SIZE as i32, text.len() as i32, 0, [0; 4])], 20, 0);
    d.extend_from_slice(text);
    let h = DHeaderT::new(d).unwrap();
    let names = h.get_lump_43().unwrap();
    assert_eq!(names, vec![String::from("a.vmt"), String::from(".vmt"), String::from("b.vmt")]);
}

#[test]
fn material_name_list_bad_utf8_rejected() {
    let text = [b'a', 0, 0xff, 0xfe];
    let mut d = header_with(&[(43, HEADER_SIZE as i32, 4, 0, [0; 4])], 20, 0);
    d.extend_from_slice(&text);
    let h = DHeaderT::new(d).unwrap();
    assert!(h.get_lump_43().is_none());
}
