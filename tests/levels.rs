use bundle_tree::classify::{artifact_file_name, config_from_json, is_buildable, select_config};
use bundle_tree::descriptor::{after_artifact, after_step, build_start, descriptor_from_json, BuildAction};
use bundle_tree::error::BundleError;
use bundle_tree::json::Json;
use bundle_tree::pack::{encode_level, Child, Config};
use bundle_tree::unpack::{decode_level, item_bytes, Item};

fn s(t: &str) -> String {
    t.to_string()
}

fn text(t: &str) -> Json {
    Json::Str(s(t))
}

fn num(n: u64) -> Json {
    Json::Num(serde_json::Number::from(n))
}

fn entries(j: &Json) -> &Vec<(String, Json)> {
    match j {
        Json::Obj(es) => es,
        _ => panic!("not an object"),
    }
}

fn get<'a>(j: &'a Json, k: &str) -> Option<&'a Json> {
    entries(j).iter().find(|e| e.0 == k).map(|e| &e.1)
}

fn str_of(j: &Json) -> &str {
    match j {
        Json::Str(t) => t.as_str(),
        _ => panic!("not a string"),
    }
}

fn is_num(j: &Json, n: u64) -> bool {
    matches!(j, Json::Num(x) if x.as_u64() == Some(n))
}

#[test]
fn file_child_is_base64_with_kind() {
    let kids = vec![Child::File { name: s("a.txt"), bytes: b"hi".to_vec() }];
    let j = encode_level(None, kids, false).unwrap();
    assert_eq!(entries(&j).len(), 2);
    assert_eq!(str_of(get(&j, "a.txt").unwrap()), "aGk=");
    let meta = get(&j, "__META__").unwrap();
    assert_eq!(entries(meta).len(), 1);
    let tree = get(meta, "tree").unwrap();
    assert_eq!(str_of(get(tree, "a.txt").unwrap()), "file");
}

#[test]
fn empty_level_has_no_meta() {
    let j = encode_level(None, vec![], false).unwrap();
    assert!(entries(&j).is_empty());
}

#[test]
fn config_hoisting_round_trip() {
    let config = Config { name: s("dna.json"), fields: vec![(s("a"), num(1))] };
    let j = encode_level(Some(config), vec![], false).unwrap();
    assert!(is_num(get(&j, "a").unwrap(), 1));
    let meta = get(&j, "__META__").unwrap();
    assert_eq!(str_of(get(meta, "config_file").unwrap()), "dna.json");
    assert!(get(meta, "tree").is_none());
    let level = decode_level(j).unwrap();
    assert!(level.items.is_empty());
    let c = level.config.unwrap();
    assert_eq!(c.name, "dna.json");
    assert_eq!(c.fields.len(), 1);
    assert_eq!(c.fields[0].0, "a");
    assert!(is_num(&c.fields[0].1, 1));
}

#[test]
fn build_substitution_embeds_code() {
    let bytes: Vec<u8> = vec![0, 97, 115, 109, 1];
    let kids = vec![Child::Built { name: s("zome"), artifact: bytes.clone() }];
    let j = encode_level(None, kids, false).unwrap();
    let z = get(&j, "zome").unwrap();
    assert_eq!(entries(z).len(), 1);
    assert_eq!(str_of(get(z, "code").unwrap()), "AGFzbQE=");
    let tree = get(get(&j, "__META__").unwrap(), "tree").unwrap();
    assert_eq!(str_of(get(tree, "zome").unwrap()), "bin");
    let level = decode_level(j).unwrap();
    match &level.items[0] {
        Item::Bin { name, .. } => assert_eq!(name, "zome"),
        _ => panic!("expected a built artifact"),
    }
    assert_eq!(item_bytes(&level.items[0]), Ok(bytes));
}

#[test]
fn round_trip_of_files_dirs_and_config() {
    let sub = encode_level(None, vec![Child::File { name: s("x"), bytes: vec![1, 2, 3] }], false)
        .unwrap();
    let config = Config { name: s("app.json"), fields: vec![(s("name"), text("demo"))] };
    let kids = vec![
        Child::File { name: s("readme"), bytes: b"hello".to_vec() },
        Child::Dir { name: s("sub"), tree: sub },
    ];
    let j = encode_level(Some(config), kids, false).unwrap();
    let level = decode_level(j).unwrap();
    assert_eq!(level.items.len(), 2);
    let mut items = level.items.into_iter();
    let first = items.next().unwrap();
    match &first {
        Item::File { name, .. } => assert_eq!(name, "readme"),
        _ => panic!("expected a file"),
    }
    assert_eq!(item_bytes(&first), Ok(b"hello".to_vec()));
    match items.next().unwrap() {
        Item::Dir { name, tree } => {
            assert_eq!(name, "sub");
            let inner = decode_level(tree).unwrap();
            match &inner.items[0] {
                Item::File { name, .. } => assert_eq!(name, "x"),
                _ => panic!("expected a file"),
            }
            assert_eq!(item_bytes(&inner.items[0]), Ok(vec![1, 2, 3]));
        },
        _ => panic!("expected a directory"),
    }
    let c = level.config.unwrap();
    assert_eq!(c.name, "app.json");
    assert_eq!(c.fields.len(), 1);
    assert_eq!(str_of(&c.fields[0].1), "demo");
}

#[test]
fn stripped_bundle_restores_nothing() {
    let config = Config { name: s("dna.json"), fields: vec![(s("a"), num(1))] };
    let kids = vec![Child::File { name: s("f"), bytes: vec![7] }];
    let j = encode_level(Some(config), kids, true).unwrap();
    assert!(get(&j, "__META__").is_none());
    assert_eq!(entries(&j).len(), 2);
    let level = decode_level(j).unwrap();
    assert!(level.items.is_empty());
    assert!(level.config.is_none());
}

#[test]
fn dir_kind_with_string_value_is_rejected() {
    let tree = Json::Obj(vec![(s("x"), text("dir"))]);
    let meta = Json::Obj(vec![(s("tree"), tree)]);
    let j = Json::Obj(vec![(s("x"), text("abc")), (s("__META__"), meta)]);
    assert!(matches!(decode_level(j), Err(BundleError::Format)));
}

#[test]
fn missing_tree_entry_is_rejected() {
    let tree = Json::Obj(vec![(s("gone"), text("file"))]);
    let meta = Json::Obj(vec![(s("tree"), tree)]);
    let j = Json::Obj(vec![(s("__META__"), meta)]);
    assert!(matches!(decode_level(j), Err(BundleError::Format)));
}

#[test]
fn config_name_must_be_a_string() {
    let meta = Json::Obj(vec![(s("config_file"), num(3))]);
    let j = Json::Obj(vec![(s("a"), num(1)), (s("__META__"), meta)]);
    assert!(matches!(decode_level(j), Err(BundleError::Format)));
}

#[test]
fn non_object_bundle_is_rejected() {
    assert!(matches!(decode_level(text("x")), Err(BundleError::Format)));
}

#[test]
fn reserved_name_is_rejected() {
    let kids = vec![Child::File { name: s("__META__"), bytes: vec![] }];
    assert!(matches!(encode_level(None, kids, false), Err(BundleError::Format)));
}

#[test]
fn child_name_equal_to_config_field_is_rejected() {
    let config = Config { name: s("c.json"), fields: vec![(s("f"), num(1))] };
    let kids = vec![Child::File { name: s("f"), bytes: vec![] }];
    assert!(matches!(encode_level(Some(config), kids, false), Err(BundleError::Format)));
}

#[test]
fn config_selection() {
    assert_eq!(select_config(&vec![s("a.txt"), s("b")]), Ok(None));
    assert_eq!(select_config(&vec![s("a.txt"), s("dna.json")]), Ok(Some(1)));
    assert_eq!(select_config(&vec![s("json"), s(".json")]), Ok(Some(1)));
    assert_eq!(select_config(&vec![s("a.json"), s("b.json")]), Err(BundleError::Parse));
}

#[test]
fn buildable_needs_descriptor() {
    assert!(is_buildable(&vec![s("src"), s(".build")]));
    assert!(!is_buildable(&vec![s("src"), s("x.build")]));
    assert!(!is_buildable(&vec![]));
}

#[test]
fn artifact_gets_wasm_suffix() {
    assert_eq!(artifact_file_name(&s("zome")), "zome.wasm");
    assert_eq!(artifact_file_name(&s("a.b")), "a.b.wasm");
}

#[test]
fn config_must_be_object() {
    assert!(matches!(config_from_json(s("a.json"), num(1)), Err(BundleError::Parse)));
    let c = config_from_json(s("a.json"), Json::Obj(vec![(s("k"), Json::Null)])).unwrap();
    assert_eq!(c.name, "a.json");
    assert_eq!(c.fields.len(), 1);
}

#[test]
fn descriptor_reading() {
    let steps = Json::Obj(vec![(s("cargo"), Json::Arr(vec![text("build"), text("--release")]))]);
    let d = Json::Obj(vec![(s("steps"), steps), (s("artifact"), text("out.bin"))]);
    let bd = descriptor_from_json(&d).unwrap();
    assert_eq!(bd.steps.len(), 1);
    assert_eq!(bd.steps[0].0, "cargo");
    assert_eq!(bd.steps[0].1, vec![s("build"), s("--release")]);
    assert_eq!(bd.artifact, "out.bin");
    let bad = Json::Obj(vec![(s("steps"), Json::Obj(vec![(s("true"), num(1))])), (s("artifact"), text("o"))]);
    assert!(matches!(descriptor_from_json(&bad), Err(BundleError::Parse)));
    let no_artifact = Json::Obj(vec![(s("steps"), Json::Obj(vec![]))]);
    assert!(matches!(descriptor_from_json(&no_artifact), Err(BundleError::Parse)));
}

#[test]
fn payload_decoding() {
    let file = Item::File { name: s("f"), payload: s("aGVsbG8=") };
    assert_eq!(item_bytes(&file), Ok(b"hello".to_vec()));
    let bad = Item::Bin { name: s("b"), payload: s("*not base64*") };
    assert_eq!(item_bytes(&bad), Err(BundleError::Format));
    let dir = Item::Dir { name: s("d"), tree: Json::Obj(vec![]) };
    assert_eq!(item_bytes(&dir), Err(BundleError::Format));
}

#[test]
fn failed_step_ends_build() {
    assert!(matches!(build_start(2), BuildAction::RunStep(0)));
    assert!(matches!(build_start(0), BuildAction::ReadArtifact));
    assert!(matches!(after_step(2, 0, true), BuildAction::RunStep(1)));
    assert!(matches!(after_step(2, 1, true), BuildAction::ReadArtifact));
    assert!(matches!(after_step(2, 0, false), BuildAction::Done(Err(BundleError::Build))));
    assert!(matches!(after_artifact(None), BuildAction::Done(Err(BundleError::Build))));
    match after_artifact(Some(vec![9, 8])) {
        BuildAction::Done(Ok(b)) => assert_eq!(b, vec![9, 8]),
        _ => panic!("expected the artifact"),
    }
}

#[test]
fn config_choice_ignores_listing_order() {
    let a = vec![s("readme"), s("dna.json"), s("x.txt")];
    let b = vec![s("x.txt"), s("readme"), s("dna.json")];
    let ia = select_config(&a).unwrap().unwrap();
    let ib = select_config(&b).unwrap().unwrap();
    assert_eq!(a[ia], b[ib]);
    let two_a = vec![s("a.json"), s("z"), s("b.json")];
    let two_b = vec![s("b.json"), s("a.json"), s("z")];
    assert_eq!(select_config(&two_a), Err(BundleError::Parse));
    assert_eq!(select_config(&two_b), Err(BundleError::Parse));
}

#[test]
fn packing_twice_gives_the_same_object() {
    let pack = || {
        let config = Config { name: s("dna.json"), fields: vec![(s("a"), num(1))] };
        let kids = vec![Child::File { name: s("f"), bytes: vec![1, 2] }];
        encode_level(Some(config), kids, false).unwrap()
    };
    let (x, y) = (pack(), pack());
    let (ex, ey) = (entries(&x), entries(&y));
    assert_eq!(ex.len(), ey.len());
    for (p, q) in ex.iter().zip(ey.iter()) {
        assert_eq!(p.0, q.0);
    }
    assert_eq!(str_of(get(&x, "f").unwrap()), str_of(get(&y, "f").unwrap()));
}
