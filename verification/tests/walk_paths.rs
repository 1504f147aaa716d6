use source_assets::kv::parse_entities;
use source_assets::paths::{join_path, path_ext, path_parent, path_stem, path_strip_first};
use source_assets::text::{contains_sub, str_eq};
use source_assets::vmt::{chain_key, VMTInfo};
use source_assets::walk::{classify, collect_paths, dedup_paths, entity_refs_of, RefKind, Visited};

#[test]
fn scenario_model_enqueued_once_and_dispatched() {
    let ents =
        parse_entities("{\"classname\" \"prop_static\" \"model\" \"models/foo.mdl\"}").unwrap();
    assert_eq!(ents.len(), 1);
    let raw = collect_paths(&ents, &Vec::new(), &Vec::new());
    assert_eq!(raw, vec![String::from("models/foo.mdl")]);
    let (unique, _vis) = dedup_paths(&raw, Visited::new());
    assert_eq!(unique, vec![String::from("models/foo.mdl")]);
    assert_eq!(classify("models/foo.mdl"), RefKind::Model);
}

#[test]
fn star_model_never_queued() {
    let ents = parse_entities("{\"model\" \"*4\"}").unwrap();
    let raw = collect_paths(&ents, &Vec::new(), &Vec::new());
    assert!(raw.is_empty());
    let ents2 = parse_entities("{\"message\" \"snd/a.wav\" \"model\" \"*2\"}").unwrap();
    let raw2 = collect_paths(&ents2, &Vec::new(), &Vec::new());
    assert_eq!(raw2, vec![String::from("snd/a.wav")]);
}

#[test]
fn entity_refs_order_and_optional_keys() {
    let ents = parse_entities(
        "{\"noise2\" \"n2.mp3\" \"message\" \"m.wav\" \"model\" \"models/x.mdl\" \"noise1\" \"n1.ogg\"}",
    )
    .unwrap();
    let refs = entity_refs_of(&ents[0]);
    assert_eq!(
        refs,
        vec![
            String::from("m.wav"),
            String::from("n1.ogg"),
            String::from("n2.mp3"),
            String::from("models/x.mdl"),
        ]
    );
    let only_noise = parse_entities("{\"noise1\" \"s.wav\"}").unwrap();
    assert_eq!(entity_refs_of(&only_noise[0]), vec![String::from("s.wav")]);
}

#[test]
fn queue_order_entities_props_materials() {
    let ents = parse_entities("{\"model\" \"models/e.mdl\"}").unwrap();
    let props = vec![String::from("models/p.mdl")];
    let mats = vec![String::from("m/a.vmt")];
    let raw = collect_paths(&ents, &props, &mats);
    assert_eq!(
        raw,
        vec![
            String::from("models/e.mdl"),
            String::from("models/p.mdl"),
            String::from("m/a.vmt"),
        ]
    );
}

#[test]
fn dedup_keeps_first_seen_order() {
    let paths = vec![
        String::from("a"),
        String::from("b"),
        String::from("a"),
        String::from("c"),
        String::from("b"),
    ];
    let (unique, vis) = dedup_paths(&paths, Visited::new());
    assert_eq!(unique, vec![String::from("a"), String::from("b"), String::from("c")]);
    assert!(vis.contains("a"));
    assert!(vis.contains("c"));
    assert!(!vis.contains("d"));
}

#[test]
fn dedup_respects_earlier_visits() {
    let mut vis = Visited::new();
    let (v2, added) = vis.insert(String::from("b"));
    assert!(added);
    vis = v2;
    let paths = vec![String::from("a"), String::from("b")];
    let (unique, _) = dedup_paths(&paths, vis);
    assert_eq!(unique, vec![String::from("a")]);
}

#[test]
fn visited_accepts_a_path_only_once() {
    let vis = Visited::new();
    let (vis, first) = vis.insert(String::from("x/y.vmt"));
    let (vis, second) = vis.insert(String::from("x/y.vmt"));
    assert!(first);
    assert!(!second);
    assert!(vis.contains("x/y.vmt"));
}

#[test]
fn classify_by_extension() {
    assert_eq!(classify("a/b.vmt"), RefKind::Material);
    assert_eq!(classify("a/b.mdl"), RefKind::Model);
    assert_eq!(classify("s.mp3"), RefKind::Sound);
    assert_eq!(classify("s.wav"), RefKind::Sound);
    assert_eq!(classify("s.ogg"), RefKind::Sound);
    assert_eq!(classify("n.txt"), RefKind::Other);
    assert_eq!(classify("no_extension"), RefKind::Other);
    assert_eq!(classify("*4"), RefKind::Other);
    assert_eq!(classify("s.MP3"), RefKind::Other);
}

/// Two material descriptors that chain to each other: the walk must
/// end, visiting each at most once.
#[test]
fn chained_materials_cycle_ends() {
    let mats = String::from("m");
    let out = String::from("o");
    let text_a = format!("\"$basetexture\" \"ta\" \"{}\" \"materials/b.vmt\"", chain_key());
    let text_b = format!("\"$basetexture\" \"tb\" \"{}\" \"materials/a.vmt\"", chain_key());
    let mut vis = Visited::new();
    let mut processed: Vec<String> = Vec::new();
    let mut cur = Some(String::from("a.vmt"));
    let mut fuel = 10;
    while let Some(rel) = cur {
        cur = None;
        assert!(fuel > 0, "the chained walk must end");
        fuel -= 1;
        let (v2, fresh) = vis.insert(rel.clone());
        vis = v2;
        if !fresh {
            continue;
        }
        let text = if rel == "a.vmt" {
            &text_a
        } else {
            &text_b
        };
        if let Some(info) = VMTInfo::new(&rel, &mats, text) {
            let plan = info.download_with_def_keys(&mats, &out);
            processed.push(rel);
            cur = plan.chain_rel;
        }
    }
    assert_eq!(processed, vec![String::from("a.vmt"), String::from("b.vmt")]);
}

/// A candidate material path that does not exist is skipped silently:
/// nothing is parsed or copied for it, and the walk goes on.
#[test]
fn missing_candidate_skipped() {
    let mats = String::from("m");
    let out = String::from("o");
    let candidates = vec![String::from("models/props/a.vmt"), String::from("models/props/b.vmt")];
    let existing_text = "\"$basetexture\" \"tb\"";
    let exists = |p: &str| p == "models/props/b.vmt";
    let mut copies: Vec<String> = Vec::new();
    for cand in &candidates {
        if !exists(cand.as_str()) {
            continue;
        }
        if let Some(info) = VMTInfo::new(cand, &mats, existing_text) {
            let plan = info.download_with_def_keys(&mats, &out);
            copies.push(plan.vmt_from);
            for job in &plan.vtfs {
                copies.push(job.from.clone());
            }
        }
    }
    assert_eq!(copies, vec![String::from("m/models/props/b.vmt"), String::from("m/tb.vtf")]);
}

#[test]
fn path_helpers() {
    assert_eq!(join_path("a/b", "c.vmt"), "a/b/c.vmt");
    assert_eq!(path_ext("a/b.tar.gz"), Some(String::from("gz")));
    assert_eq!(path_ext("a/b"), None);
    assert_eq!(path_ext(".hidden"), None);
    assert_eq!(path_stem("props/chair01.mdl"), Some(String::from("chair01")));
    assert_eq!(path_stem(".hidden"), Some(String::from(".hidden")));
    assert_eq!(path_stem("a/"), None);
    assert_eq!(path_parent("props/chair01.mdl"), Some(String::from("props")));
    assert_eq!(path_parent("chair01.mdl"), Some(String::from("")));
    assert_eq!(path_parent(""), None);
    assert_eq!(path_strip_first("materials/x/y.vmt"), "x/y.vmt");
    assert_eq!(path_strip_first("alone.vmt"), "");
}

#[test]
fn text_helpers() {
    assert!(str_eq("abc", "abc"));
    assert!(!str_eq("abc", "abd"));
    assert!(contains_sub("chair01_lod1", "chair01"));
    assert!(contains_sub("abc", ""));
    assert!(!contains_sub("ab", "abc"));
}

#[test]
fn entity_text_without_blocks_is_empty() {
    let ents = parse_entities("no braces here").unwrap();
    assert!(ents.is_empty());
    let open_only = parse_entities("{\"a\" \"b\"").unwrap();
    assert!(open_only.is_empty());
}
