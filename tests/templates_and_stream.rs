use aidocplus_manager::ai::{build_request_body, completions_url};
use aidocplus_manager::json::JsonValue;
use aidocplus_manager::json_file_ops::{
    append_json_template, batch_delete_json_templates, create_json_template, delete_json_template,
    move_json_template, new_category_file, read_json_categories, read_json_template,
    reorder_json_templates, reorder_json_templates_in_category, save_json_category,
    save_json_template, scan_json_resources, split_template_path, take_json_template,
    template_categories, template_ids_in, CategoryJsonFile, JsonTemplateEntry,
};
use aidocplus_manager::stream::{delta_content, message_content, StreamDecoder, StreamEvent};

fn s(t: &str) -> String {
    t.to_string()
}

fn obj(members: Vec<(&str, JsonValue)>) -> JsonValue {
    JsonValue::Object(members.into_iter().map(|(k, v)| (s(k), v)).collect())
}

fn entry(id: &str, name: &str, order: i32) -> JsonTemplateEntry {
    JsonTemplateEntry {
        id: s(id),
        name: s(name),
        description: s("d"),
        content: s("c"),
        variables: vec![],
        order,
    }
}

fn file(key: &str, icon: &str, order: i32, templates: Vec<JsonTemplateEntry>) -> CategoryJsonFile {
    CategoryJsonFile { key: s(key), name: s(key), icon: s(icon), order, templates }
}

fn delta_payload(text: &str) -> JsonValue {
    obj(vec![(
        "choices",
        JsonValue::Array(vec![obj(vec![("delta", obj(vec![("content", JsonValue::Str(s(text)))]))])]),
    )])
}

/// Stands in for the JSON parser: the two payloads of the scenario.
fn parse(p: &str) -> Option<JsonValue> {
    match p {
        r#"{"choices":[{"delta":{"content":"Hi"}}]}"# => Some(delta_payload("Hi")),
        r#"{"choices":[{"delta":{"content":"!"}}]}"# => Some(delta_payload("!")),
        _ => None,
    }
}

#[test]
fn stream_yields_deltas_then_done() {
    let mut d = StreamDecoder::new();
    let text = "data: {\"choices\":[{\"delta\":{\"content\":\"Hi\"}}]}\ndata: {\"choices\":[{\"delta\":{\"content\":\"!\"}}]}\ndata: [DONE]\n";
    let mut events = Vec::new();
    for p in d.feed(text) {
        if let Some(e) = d.accept(parse(&p)) {
            events.push(e);
        }
    }
    assert!(d.finished);
    let done = d.finish();
    let deltas: Vec<String> = events
        .into_iter()
        .map(|e| match e {
            StreamEvent::Delta(t) => t,
            StreamEvent::Done(_) => panic!("unexpected done"),
        })
        .collect();
    assert_eq!(deltas, vec![s("Hi"), s("!")]);
    match done {
        StreamEvent::Done(t) => assert_eq!(t, "Hi!"),
        StreamEvent::Delta(_) => panic!("expected done"),
    }
}

#[test]
fn stream_lines_span_chunks() {
    let mut d = StreamDecoder::new();
    assert!(d.feed("data: {\"a\"").is_empty());
    assert_eq!(d.buffer, "data: {\"a\"");
    let ps = d.feed(":1}\r\n: comment\n\n  data: x  \ndata: [DO");
    assert_eq!(ps, vec![s("{\"a\":1}"), s("x")]);
    assert!(!d.finished);
    assert!(d.feed("NE]\ndata: after\n").is_empty());
    assert!(d.finished);
    assert!(d.feed("data: more\n").is_empty());
}

#[test]
fn stream_skips_payloads_without_content() {
    let mut d = StreamDecoder::new();
    assert!(d.accept(None).is_none());
    assert!(d.accept(Some(obj(vec![("choices", JsonValue::Array(vec![]))]))).is_none());
    assert_eq!(d.content, "");
    assert!(delta_content(&delta_payload("z")).is_some());
}

#[test]
fn event_json_shape() {
    let v = StreamEvent::Delta(s("Hi")).to_json();
    assert!(matches!(v.get("type"), Some(JsonValue::Str(t)) if t == "delta"));
    assert!(matches!(v.get("content"), Some(JsonValue::Str(t)) if t == "Hi"));
    let v = StreamEvent::Done(s("Hi!")).to_json();
    assert!(matches!(v.get("type"), Some(JsonValue::Str(t)) if t == "done"));
}

#[test]
fn complete_response_content() {
    let ok = obj(vec![(
        "choices",
        JsonValue::Array(vec![obj(vec![("message", obj(vec![("content", JsonValue::Str(s("text")))]))])]),
    )]);
    assert_eq!(message_content(&ok), Ok(s("text")));
    assert!(message_content(&obj(vec![])).is_err());
}

#[test]
fn request_body_and_url() {
    assert_eq!(completions_url("https://api.example.com/v1//"), "https://api.example.com/v1/chat/completions");
    assert_eq!(completions_url("http://h"), "http://h/chat/completions");
    let b = build_request_body("m", JsonValue::Number(s("0.5")), 0, "sys", "usr", true);
    assert!(b.get("max_tokens").is_none());
    assert!(matches!(&b, JsonValue::Object(m) if m.len() == 4));
    assert!(matches!(b.get("stream"), Some(JsonValue::Bool(true))));
    match b.get("messages") {
        Some(JsonValue::Array(ms)) => {
            assert_eq!(ms.len(), 2);
            assert!(matches!(ms[1].get("content"), Some(JsonValue::Str(t)) if t == "usr"));
            assert!(matches!(ms[0].get("role"), Some(JsonValue::Str(t)) if t == "system"));
        }
        _ => panic!("no messages"),
    }
    let b = build_request_body("m", JsonValue::Number(s("0.5")), 256, "sys", "usr", false);
    assert!(matches!(b.get("max_tokens"), Some(JsonValue::Int(256))));
}

#[test]
fn create_template_assigns_next_order() {
    let mut f = file("writing", "W", 1, vec![entry("a", "A", 3), entry("b", "B", 1)]);
    let p = create_json_template(&mut f, "writing", "c", "C", "desc", "body", vec![s("v")]).unwrap();
    assert_eq!(p, "writing::c");
    assert_eq!(f.templates.len(), 3);
    assert_eq!(f.templates[2].order, 4);
    assert_eq!(f.templates[2].variables, vec![s("v")]);
    assert!(create_json_template(&mut f, "writing", "a", "A2", "", "", vec![]).is_err());
    assert_eq!(f.templates.len(), 3);
}

#[test]
fn create_template_in_new_file() {
    let mut f = new_category_file("fresh");
    assert_eq!(f.name, "fresh");
    assert_eq!(f.icon, "📋");
    assert_eq!(f.order, 999);
    create_json_template(&mut f, "fresh", "t", "T", "", "", vec![]).unwrap();
    assert_eq!(f.templates[0].order, 0);
}

#[test]
fn read_save_and_delete_template() {
    let mut f = file("k", "", 0, vec![entry("a", "A", 0), entry("b", "B", 1)]);
    let d = read_json_template(&f, "b").unwrap();
    assert_eq!(d.name, "B");
    assert_eq!(d.category_key, "k");
    assert!(read_json_template(&f, "zz").is_err());
    save_json_template(&mut f, "a", "A2", "D2", "C2", vec![s("x")]).unwrap();
    assert_eq!(f.templates[0].name, "A2");
    assert_eq!(f.templates[0].content, "C2");
    assert_eq!(f.templates[0].order, 0);
    assert!(save_json_template(&mut f, "zz", "", "", "", vec![]).is_err());
    delete_json_template(&mut f, "a").unwrap();
    assert_eq!(f.templates.len(), 1);
    assert!(delete_json_template(&mut f, "a").is_err());
}

#[test]
fn move_template_between_files() {
    let mut from = file("a", "", 0, vec![entry("x", "X", 0), entry("y", "Y", 1)]);
    let mut to = file("b", "", 0, vec![entry("z", "Z", 5)]);
    move_json_template(&mut from, "x", &mut to).unwrap();
    assert_eq!(from.templates.len(), 1);
    assert_eq!(to.templates[1].id, "x");
    assert_eq!(to.templates[1].order, 6);
    assert!(move_json_template(&mut from, "x", &mut to).is_err());
    let t = take_json_template(&mut from, "y").unwrap();
    assert!(from.templates.is_empty());
    append_json_template(&mut from, t).unwrap();
    assert_eq!(from.templates[0].order, 0);
}

#[test]
fn reorder_templates_in_file() {
    let mut f = file("k", "", 0, vec![entry("a", "A", 0), entry("b", "B", 1)]);
    reorder_json_templates_in_category(&mut f, &vec![(s("b"), 0), (s("a"), 1), (s("q"), 9)]).unwrap();
    assert_eq!(f.templates[0].order, 1);
    assert_eq!(f.templates[1].order, 0);
    assert!(reorder_json_templates(vec![(s("k::a"), 3)]).is_ok());
}

#[test]
fn batch_delete_by_paths() {
    let paths = vec![s("k::a"), s("other::b"), s("k::c"), s("bad")];
    assert_eq!(template_categories(&paths), vec![s("k"), s("other")]);
    assert_eq!(template_ids_in(&paths, "k"), vec![s("a"), s("c")]);
    let mut f = file("k", "", 0, vec![entry("a", "A", 0), entry("b", "B", 1), entry("c", "C", 2)]);
    assert_eq!(batch_delete_json_templates(&mut f, "k", &paths), 2);
    assert_eq!(f.templates.len(), 1);
    assert_eq!(f.templates[0].id, "b");
    assert_eq!(split_template_path("a::b::c"), Some((s("a"), s("b::c"))));
    assert_eq!(split_template_path("a:b"), None);
}

#[test]
fn scan_json_lists_templates_sorted() {
    let files = vec![
        file("zeta", "Z", 0, vec![entry("t1", "B", 1), entry("t2", "A", 1)]),
        file("alpha", "", 1, vec![entry("t3", "C", 0)]),
    ];
    let r = scan_json_resources(&files);
    let paths: Vec<&str> = r.iter().map(|x| x.path.as_str()).collect();
    assert_eq!(paths, vec!["alpha::t3", "zeta::t2", "zeta::t1"]);
    assert_eq!(r[1].icon, "Z");
    assert!(r[0].enabled);
}

#[test]
fn categories_sorted_by_order() {
    let files = vec![file("b", "", 2, vec![]), file("a", "A", 1, vec![]), file("c", "C", 2, vec![])];
    let cats = read_json_categories(&files);
    let keys: Vec<&str> = cats.iter().map(|c| c.key.as_str()).collect();
    assert_eq!(keys, vec!["a", "b", "c"]);
    assert_eq!(cats[1].icon, Some(s("📋")));
    assert_eq!(cats[0].icon, Some(s("A")));
}

#[test]
fn save_category_new_or_existing() {
    let f = save_json_category(None, "k", "Name", "I", 4);
    assert_eq!(f.key, "k");
    assert_eq!(f.order, 4);
    let g = save_json_category(Some(file("old", "x", 1, vec![entry("a", "A", 0)])), "k", "N", "", 2);
    assert_eq!(g.key, "old");
    assert_eq!(g.templates.len(), 1);
    assert_eq!(g.icon, "");
}

#[test]
fn template_order_overflow_is_refused() {
    let mut f = file("k", "", 0, vec![entry("a", "A", i32::MAX)]);
    assert!(create_json_template(&mut f, "k", "b", "B", "", "", vec![]).is_err());
    assert_eq!(f.templates.len(), 1);
    let mut from = file("x", "", 0, vec![entry("m", "M", 0)]);
    assert!(move_json_template(&mut from, "m", &mut f).is_err());
    assert_eq!(from.templates.len(), 1);
    assert_eq!(f.templates.len(), 1);
    assert!(append_json_template(&mut f, entry("n", "N", 0)).is_err());
}
