use source_assets::mdl::{null_term_str, sibling_matches, Texture, TexturesInfo, OFS_TO_TEX};
use source_assets::vmt::{chain_key, VMTInfo};

fn put_i32(d: &mut Vec<u8>, off: usize, v: i32) {
    d[off..off + 4].copy_from_slice(&v.to_le_bytes());
}

fn put_str(d: &mut Vec<u8>, off: usize, s: &str) {
    d[off..off + s.len()].copy_from_slice(s.as_bytes());
}

/// A model file with a name, two texture records and one directory.
fn model_file() -> Vec<u8> {
    let mut d = vec![0u8; 600];
    put_str(&mut d, 12, "props/chair01.mdl");
    let tex_ofs = 300usize;
    let texdir_ofs = 450usize;
    put_i32(&mut d, OFS_TO_TEX, 2);
    put_i32(&mut d, OFS_TO_TEX + 4, tex_ofs as i32);
    put_i32(&mut d, OFS_TO_TEX + 8, 2);
    put_i32(&mut d, OFS_TO_TEX + 12, texdir_ofs as i32);
    // texture record 0: its name lies 160 bytes past the record start
    put_i32(&mut d, tex_ofs, 160);
    put_str(&mut d, tex_ofs + 160, "chair01_diffuse");
    // texture record 1
    put_i32(&mut d, tex_ofs + 64, 120);
    put_str(&mut d, tex_ofs + 64 + 120, "chair01_normal");
    // directory entries: consecutive absolute 16-bit string offsets
    let dir_str_0 = 500usize;
    let dir_str_1 = 520usize;
    d[texdir_ofs..texdir_ofs + 2].copy_from_slice(&(dir_str_0 as u16).to_le_bytes());
    d[texdir_ofs + 2..texdir_ofs + 4].copy_from_slice(&(dir_str_1 as u16).to_le_bytes());
    put_str(&mut d, dir_str_0, "models/props");
    put_str(&mut d, dir_str_1, "models/other");
    d
}

#[test]
fn textures_info_decoded() {
    let d = model_file();
    let t = TexturesInfo::new(&d).expect("model tables must decode");
    assert_eq!(t.name, "props/chair01.mdl");
    assert_eq!(t.dirs, vec![String::from("models/props"), String::from("models/other")]);
    assert_eq!(
        t.textures,
        vec![String::from("chair01_diffuse"), String::from("chair01_normal")]
    );
}

#[test]
fn model_too_short_rejected() {
    let d = vec![0u8; OFS_TO_TEX + 15];
    assert!(TexturesInfo::new(&d).is_none());
}

#[test]
fn texture_name_outside_file_is_empty() {
    let mut d = vec![0u8; 200];
    put_i32(&mut d, 100, -100000);
    let t = Texture::new(&d, 0, 100).expect("record inside the file decodes");
    assert_eq!(t.name, "");
    assert!(Texture::new(&d, 100, 100).is_none());
}

#[test]
fn candidate_cross_product_in_order() {
    let t = TexturesInfo {
        name: String::from("props/chair01.mdl"),
        dirs: vec![String::from("da"), String::from("db")],
        textures: vec![String::from("t1"), String::from("t2")],
    };
    let c = t.material_candidates();
    assert_eq!(
        c,
        vec![
            String::from("da/t1.vmt"),
            String::from("da/t2.vmt"),
            String::from("db/t1.vmt"),
            String::from("db/t2.vmt"),
        ]
    );
    assert_eq!(c.len(), t.dirs.len() * t.textures.len());
    let row = t.dir_candidates(&String::from("dx"));
    assert_eq!(row, vec![String::from("dx/t1.vmt"), String::from("dx/t2.vmt")]);
}

#[test]
fn null_term_str_reads_until_nul_or_end() {
    let d: Vec<u8> = b"ab\0cd".to_vec();
    assert_eq!(null_term_str(&d, 0), Some(String::from("ab")));
    assert_eq!(null_term_str(&d, 3), Some(String::from("cd")));
    assert_eq!(null_term_str(&d, 99), Some(String::from("")));
    let bad: Vec<u8> = vec![0xff, 0xfe];
    assert!(null_term_str(&bad, 0).is_none());
}

#[test]
fn sibling_match_is_case_blind() {
    assert!(sibling_matches("Chair01", "chair01_lod1.vvd"));
    assert!(sibling_matches("chair01", "CHAIR01.phy"));
    assert!(!sibling_matches("chair01", "table02.phy"));
}

#[test]
fn vmt_single_bitmap_dependency() {
    let mats = String::from("find/materials");
    let out = String::from("out/materials");
    let rel = String::from("x/y.vmt");
    let v = VMTInfo::new(&rel, &mats, "\"$basetexture\" \"foo/bar\"").expect("descriptor parses");
    let plan = v.download_with_def_keys(&mats, &out);
    assert_eq!(plan.vmt_from, "find/materials/x/y.vmt");
    assert_eq!(plan.vmt_to, "out/materials/x/y.vmt");
    assert_eq!(plan.vtfs.len(), 1);
    assert_eq!(plan.vtfs[0].from, "find/materials/foo/bar.vtf");
    assert_eq!(plan.vtfs[0].to, "out/materials/foo/bar.vtf");
    assert!(plan.chain_rel.is_none());
}

#[test]
fn vmt_keys_lowercased_and_last_wins() {
    let mats = String::from("m");
    let rel = String::from("a.vmt");
    let v = VMTInfo::new(&rel, &mats, "\"$BaseTexture\" \"first\" \"$basetexture\" \"second\"")
        .unwrap();
    assert_eq!(v.get("$basetexture"), Some(&String::from("second")));
    let plan = v.download_with_def_keys(&mats, &String::from("o"));
    assert_eq!(plan.vtfs.len(), 1);
    assert_eq!(plan.vtfs[0].from, "m/second.vtf");
}

#[test]
fn vmt_unset_keys_contribute_nothing() {
    let mats = String::from("m");
    let rel = String::from("a.vmt");
    let v = VMTInfo::new(&rel, &mats, "junk \"$bumpmap\" \"n/p\" more junk").unwrap();
    assert!(v.get("$basetexture").is_none());
    let plan = v.download_with_def_keys(&mats, &String::from("o"));
    assert_eq!(plan.vtfs.len(), 1);
    assert_eq!(plan.vtfs[0].from, "m/n/p.vtf");
}

#[test]
fn parse_is_present_for_any_text() {
    let t = source_assets::kv::parse_vmt("no pairs at all").unwrap();
    assert!(t.get("$basetexture").is_none());
}

#[test]
fn vmt_wrong_extension_rejected() {
    let mats = String::from("m");
    let rel = String::from("a.txt");
    assert!(VMTInfo::new(&rel, &mats, "\"$basetexture\" \"x\"").is_none());
    let noext = String::from("a");
    assert!(VMTInfo::new(&noext, &mats, "\"$basetexture\" \"x\"").is_none());
}

#[test]
fn vmt_chain_strips_leading_component() {
    let mats = String::from("m");
    let rel = String::from("a.vmt");
    let text = format!("\"{}\" \"materials/x/y.vmt\"", chain_key());
    let v = VMTInfo::new(&rel, &mats, &text).unwrap();
    let plan = v.download_with_def_keys(&mats, &String::from("o"));
    assert_eq!(plan.chain_rel, Some(String::from("x/y.vmt")));
}

#[test]
fn vmt_ordering_of_bitmap_keys() {
    let mats = String::from("m");
    let rel = String::from("a.vmt");
    let v = VMTInfo::new(&rel, &mats, "\"$bumpmap\" \"b\" \"$basetexture\" \"a\"").unwrap();
    let plan = v.download_with_def_keys(&mats, &String::from("o"));
    // the default key order decides, not the text order
    assert_eq!(plan.vtfs.len(), 2);
    assert_eq!(plan.vtfs[0].from, "m/a.vtf");
    assert_eq!(plan.vtfs[1].from, "m/b.vtf");
}
