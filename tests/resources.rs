use aidocplus_manager::import_plan::{plan_import, should_extract, top_level_names};
use aidocplus_manager::json::JsonValue;
use aidocplus_manager::resource_ops::{
    assign_new_order, highest_order, manifest_name, reindex_category, touch_category,
    touch_enabled, touch_order,
};
use aidocplus_manager::scan::{is_hidden_name, scan_resources, ManifestFile, ResourceDir, TopEntry};
use aidocplus_manager::state::{parse_launch_args, DataDirState};
use aidocplus_manager::types::{default_builtin, default_max_tokens, default_meta, default_true, GenericManifest};

fn s(t: &str) -> String {
    t.to_string()
}

fn obj(members: Vec<(&str, JsonValue)>) -> JsonValue {
    JsonValue::Object(members.into_iter().map(|(k, v)| (s(k), v)).collect())
}

fn text(v: Option<&JsonValue>) -> Option<String> {
    match v {
        Some(JsonValue::Str(t)) => Some(t.clone()),
        _ => None,
    }
}

fn manifest(id: &str, name: &str, category: &str, order: i64) -> JsonValue {
    obj(vec![
        ("id", JsonValue::Str(s(id))),
        ("name", JsonValue::Str(s(name))),
        ("majorCategory", JsonValue::Str(s(category))),
        ("order", JsonValue::Int(order)),
    ])
}

fn dir(path: &str, file: ManifestFile) -> ResourceDir {
    ResourceDir { path: s(path), is_dir: true, manifest: file }
}

#[test]
fn scan_keeps_valid_resources_sorted() {
    let entries = vec![
        TopEntry {
            name: s("writing"),
            dir: dir("/d/writing", ManifestFile::Missing),
            children: vec![
                dir("/d/writing/z", ManifestFile::Parsed(manifest("z", "Zeta", "writing", 2))),
                dir("/d/writing/bad", ManifestFile::Parsed(obj(vec![("name", JsonValue::Str(s("no id")))]))),
                dir("/d/writing/broken", ManifestFile::Unreadable),
                dir("/d/writing/a", ManifestFile::Parsed(manifest("a", "Alpha", "writing", 2))),
                dir("/d/writing/first", ManifestFile::Parsed(manifest("f", "First", "writing", 0))),
                dir("/d/writing/wrong", ManifestFile::Parsed(obj(vec![("id", JsonValue::Str(s("w"))), ("order", JsonValue::Str(s("x")))]))),
            ],
        },
        TopEntry {
            name: s("flat"),
            dir: dir("/d/flat", ManifestFile::Parsed(manifest("flat", "Flat", "art", 7))),
            children: vec![dir("/d/flat/inner", ManifestFile::Parsed(manifest("inner", "Inner", "art", 0)))],
        },
        TopEntry {
            name: s("_meta.json"),
            dir: ResourceDir { path: s("/d/_meta.json"), is_dir: false, manifest: ManifestFile::Missing },
            children: vec![],
        },
        TopEntry {
            name: s(".hidden"),
            dir: dir("/d/.hidden", ManifestFile::Parsed(manifest("h", "Hidden", "art", 0))),
            children: vec![],
        },
    ];
    let r = scan_resources(entries);
    let ids: Vec<&str> = r.iter().map(|x| x.id.as_str()).collect();
    assert_eq!(ids, vec!["flat", "f", "a", "z"]);
    assert_eq!(r[0].path, "/d/flat");
    assert_eq!(r[1].path, "/d/writing/first");
    assert!(r.iter().all(|x| x.enabled && x.source == "builtin"));
}

#[test]
fn scan_of_empty_listing_is_empty() {
    assert!(scan_resources(vec![]).is_empty());
}

#[test]
fn reindex_orders_by_name() {
    let mut docs = vec![
        Some(manifest("b", "b", "c", 5)),
        Some(manifest("a", "a", "c", 5)),
        Some(manifest("c", "c", "c", 5)),
    ];
    let ranks = reindex_category(&mut docs);
    assert_eq!(ranks, vec![1, 0, 2]);
    let orders: Vec<Option<i64>> = docs
        .iter()
        .map(|d| match d.as_ref().and_then(|d| d.get("order")) {
            Some(JsonValue::Int(n)) => Some(*n),
            _ => None,
        })
        .collect();
    assert_eq!(orders, vec![Some(1), Some(0), Some(2)]);
    assert_eq!(text(docs[0].as_ref().unwrap().get("name")), Some(s("b")));
}

#[test]
fn reindex_keeps_unreadable_in_place() {
    let mut docs = vec![Some(manifest("b", "b", "c", 9)), None];
    let ranks = reindex_category(&mut docs);
    assert_eq!(ranks, vec![1, 0]);
    assert!(docs[1].is_none());
    assert!(matches!(docs[0].as_ref().unwrap().get("order"), Some(JsonValue::Int(1))));
}

#[test]
fn new_resource_order_follows_highest() {
    let siblings = vec![
        ManifestFile::Parsed(manifest("a", "a", "c", 1)),
        ManifestFile::Parsed(manifest("b", "b", "c", 3)),
        ManifestFile::Unreadable,
        ManifestFile::Missing,
        ManifestFile::Parsed(manifest("c", "c", "c", 2)),
    ];
    let mut m = obj(vec![("id", JsonValue::Str(s("new")))]);
    assert_eq!(assign_new_order(&mut m, &siblings), Ok(4));
    assert!(matches!(m.get("order"), Some(JsonValue::Int(4))));
    assert_eq!(text(m.get("id")), Some(s("new")));
}

#[test]
fn new_resource_in_empty_category_gets_zero() {
    let mut m = obj(vec![("id", JsonValue::Str(s("new"))), ("order", JsonValue::Int(8))]);
    assert_eq!(highest_order(&vec![]), -1);
    assert_eq!(assign_new_order(&mut m, &vec![]), Ok(0));
    assert!(matches!(m.get("order"), Some(JsonValue::Int(0))));
}

#[test]
fn new_resource_order_overflow_is_refused() {
    let siblings = vec![ManifestFile::Parsed(manifest("a", "a", "c", i64::MAX))];
    let mut m = obj(vec![("id", JsonValue::Str(s("new")))]);
    assert!(assign_new_order(&mut m, &siblings).is_err());
    assert!(m.get("order").is_none());
}

#[test]
fn manifest_without_order_counts_as_zero() {
    let siblings = vec![ManifestFile::Parsed(obj(vec![("id", JsonValue::Str(s("x")))]))];
    let mut m = obj(vec![]);
    assert_eq!(assign_new_order(&mut m, &siblings), Ok(1));
}

#[test]
fn manifest_round_trip_keeps_fields() {
    let m = GenericManifest {
        id: s("poem"),
        name: s("Poem"),
        description: s("A poem"),
        icon: s("P"),
        version: s("1.2"),
        author: obj(vec![("name", JsonValue::Str(s("Ann")))]),
        resource_type: s("template"),
        major_category: s("writing"),
        sub_category: s("verse"),
        tags: vec![s("x"), s("y")],
        order: -3,
        enabled: false,
        source: s("user"),
        roles: vec![s("editor")],
        created_at: s("2024-01-01T00:00:00Z"),
        updated_at: s("2024-02-01T00:00:00Z"),
    };
    let before = m.to_summary(s("/old"));
    let back = GenericManifest::from_json(m.to_json()).unwrap();
    assert_eq!(back.author_name(), "Ann");
    assert_eq!(back.version, "1.2");
    assert_eq!(back.roles, vec![s("editor")]);
    assert_eq!(back.created_at, "2024-01-01T00:00:00Z");
    let after = back.to_summary(s("/new"));
    assert_eq!(after.id, before.id);
    assert_eq!(after.name, before.name);
    assert_eq!(after.description, before.description);
    assert_eq!(after.icon, before.icon);
    assert_eq!(after.major_category, before.major_category);
    assert_eq!(after.sub_category, before.sub_category);
    assert_eq!(after.tags, before.tags);
    assert_eq!(after.order, before.order);
    assert_eq!(after.enabled, before.enabled);
    assert_eq!(after.source, before.source);
    assert_eq!(after.path, "/new");
}

#[test]
fn manifest_defaults_apply() {
    let m = GenericManifest::from_json(obj(vec![("id", JsonValue::Str(s("only")))])).unwrap();
    assert_eq!(m.name, "");
    assert_eq!(m.order, 0);
    assert!(m.enabled);
    assert_eq!(m.source, "builtin");
    assert!(m.tags.is_empty());
    assert!(matches!(m.author, JsonValue::Null));
    assert_eq!(m.author_name(), "");
}

#[test]
fn manifest_errors() {
    assert!(GenericManifest::from_json(obj(vec![("name", JsonValue::Str(s("x")))])).is_err());
    assert!(GenericManifest::from_json(JsonValue::Array(vec![])).is_err());
    assert!(GenericManifest::from_json(obj(vec![("id", JsonValue::Int(3))])).is_err());
    assert!(GenericManifest::from_json(obj(vec![
        ("id", JsonValue::Str(s("x"))),
        ("order", JsonValue::Int(1i64 << 40)),
    ]))
    .is_err());
    assert!(GenericManifest::from_json(obj(vec![
        ("id", JsonValue::Str(s("x"))),
        ("tags", JsonValue::Array(vec![JsonValue::Str(s("a")), JsonValue::Int(1)])),
    ]))
    .is_err());
    assert!(GenericManifest::from_json(obj(vec![("id", JsonValue::Str(s("x"))), ("enabled", JsonValue::Null)])).is_err());
}

#[test]
fn author_name_from_string_or_object() {
    let mut m = GenericManifest::from_json(obj(vec![
        ("id", JsonValue::Str(s("x"))),
        ("author", JsonValue::Str(s("Bo"))),
    ]))
    .unwrap();
    assert_eq!(m.author_name(), "Bo");
    m.author = obj(vec![("mail", JsonValue::Str(s("b@x")))]);
    assert_eq!(m.author_name(), "");
    m.author = JsonValue::Int(4);
    assert_eq!(m.author_name(), "");
}

#[test]
fn touch_sets_member_and_time() {
    let mut d = manifest("a", "A", "c", 1);
    touch_order(&mut d, 9);
    assert!(matches!(d.get("order"), Some(JsonValue::Int(9))));
    let stamp = text(d.get("updatedAt")).unwrap();
    assert!(stamp.len() >= 25);
    assert_eq!(&stamp[4..5], "-");
    touch_enabled(&mut d, false);
    assert!(matches!(d.get("enabled"), Some(JsonValue::Bool(false))));
    touch_category(&mut d, "other");
    assert_eq!(text(d.get("majorCategory")), Some(s("other")));
    assert_eq!(text(d.get("name")), Some(s("A")));
    let mut not_object = JsonValue::Int(1);
    touch_order(&mut not_object, 2);
    assert!(matches!(not_object, JsonValue::Int(1)));
}

#[test]
fn manifest_name_reads_text_only() {
    assert_eq!(manifest_name(&manifest("a", "Alpha", "c", 0)), Some(s("Alpha")));
    assert_eq!(manifest_name(&obj(vec![("name", JsonValue::Int(1))])), None);
}

#[test]
fn import_into_empty_target_takes_everything() {
    let names = vec![s("poems/index.md"), s("poems/a/b.md"), s("notes/index.md"), s("poems/c.md")];
    let tops = top_level_names(&names);
    assert_eq!(tops, vec![s("poems"), s("notes")]);
    let plan = plan_import(tops, &vec![false, false]);
    assert_eq!(plan.imported, vec![s("poems"), s("notes")]);
    assert!(plan.skipped.is_empty());
    assert!(plan.failed.is_empty());
    assert!(names.iter().all(|n| should_extract(n, &plan.imported)));
}

#[test]
fn reimport_skips_existing_folder() {
    let names = vec![s("poems/index.md"), s("notes/index.md"), s("notes/x.md")];
    let tops = top_level_names(&names);
    let plan = plan_import(tops, &vec![true, false]);
    assert_eq!(plan.imported, vec![s("notes")]);
    assert_eq!(plan.skipped, vec![s("poems")]);
    assert!(!should_extract("poems/index.md", &plan.imported));
    assert!(should_extract("notes/x.md", &plan.imported));
}

#[test]
fn top_level_names_skip_empty_components() {
    let names = vec![s("/abs"), s("plain"), s("plain/x")];
    assert_eq!(top_level_names(&names), vec![s("plain")]);
}

#[test]
fn data_dir_state_records_last_value() {
    let mut st = DataDirState::new();
    assert_eq!(st.get(), None);
    st.set(s("/a"));
    st.set(s("/b"));
    assert_eq!(st.get(), Some(s("/b")));
}

#[test]
fn launch_args_are_read() {
    let args = vec![s("app"), s("--data-dir"), s("/data"), s("--resource-type"), s("roles"), s("--x")];
    let r = parse_launch_args(&args);
    assert_eq!(r.data_dir, Some(s("/data")));
    assert_eq!(r.resource_type, "roles");
    let r = parse_launch_args(&vec![s("app"), s("--data-dir")]);
    assert_eq!(r.data_dir, None);
    assert_eq!(r.resource_type, "");
}

#[test]
fn defaults_have_their_values() {
    assert!(default_true());
    assert_eq!(default_builtin(), "builtin");
    assert_eq!(default_max_tokens(), 0);
    let m = default_meta();
    assert_eq!(m.schema_version, "1.0");
    assert!(m.categories.is_empty());
}

#[test]
fn hidden_names() {
    assert!(is_hidden_name("_meta.json"));
    assert!(is_hidden_name(".git"));
    assert!(!is_hidden_name("writing"));
    assert!(!is_hidden_name(""));
}
