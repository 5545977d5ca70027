use prettylog::colors::{color_for, get_colors, Color};
use prettylog::fields::get_fields;
use prettylog::level::get_level;
use prettylog::record::{FieldValue, Record};
use prettylog::render::{display, display_parsed, Rendering};

fn record_parts(r: &Rendering) -> (Color, Color, Vec<(String, String)>) {
    match r {
        Rendering::Record { key_color, value_color, fields } => (
            *key_color,
            *value_color,
            fields.iter().map(|f| (f.key.clone(), f.value.clone())).collect(),
        ),
        Rendering::Raw(s) => panic!("expected fields, got raw line {:?}", s),
    }
}

fn raw_text(r: &Rendering) -> String {
    match r {
        Rendering::Raw(s) => s.clone(),
        Rendering::Record { .. } => panic!("expected a raw line"),
    }
}

fn pairs(items: &[(&str, &str)]) -> Vec<(String, String)> {
    items.iter().map(|(k, v)| (k.to_string(), v.to_string())).collect()
}

fn record_of(items: &[(&str, FieldValue)]) -> Record {
    let mut r = Record::new();
    for (k, v) in items {
        let v = match v {
            FieldValue::Str(s) => FieldValue::Str(s.clone()),
            FieldValue::Json(s) => FieldValue::Json(s.clone()),
        };
        r.push(k.to_string(), v);
    }
    r
}

#[test]
fn end_to_end_example() {
    let r = display(r#"{"time":"12:00","level":"warn","message":"disk full","code":42}"#);
    let (kc, vc, fields) = record_parts(&r);
    assert_eq!(kc, Color::Yellow);
    assert_eq!(vc, Color::Default);
    assert_eq!(fields, pairs(&[("time", "12:00"), ("code", "42"), ("message", "disk full")]));
}

#[test]
fn empty_object_renders_no_fields() {
    let (kc, vc, fields) = record_parts(&display("{}"));
    assert_eq!((kc, vc), (Color::Default, Color::Default));
    assert!(fields.is_empty());
}

#[test]
fn malformed_json_passes_through() {
    assert_eq!(raw_text(&display("hello world")), "hello world");
    assert_eq!(raw_text(&display(r#"{"a": 1"#)), r#"{"a": 1"#);
    assert_eq!(raw_text(&display("")), "");
}

#[test]
fn non_object_json_passes_through() {
    assert_eq!(raw_text(&display("[1,2,3]")), "[1,2,3]");
    assert_eq!(raw_text(&display("42")), "42");
    assert_eq!(raw_text(&display("\"text\"")), "\"text\"");
    assert_eq!(raw_text(&display("null")), "null");
    assert_eq!(raw_text(&display("true")), "true");
}

#[test]
fn blacklisted_keys_are_never_rendered() {
    let line = r#"{"a":"1","level":"info","type":"x","lineno":3,"function":"f","env":"prod","tag":"t","b":2}"#;
    let (_, _, fields) = record_parts(&display(line));
    let mut keys: Vec<String> = fields.into_iter().map(|(k, _)| k).collect();
    keys.sort();
    assert_eq!(keys, vec!["a".to_string(), "b".to_string()]);
}

#[test]
fn middle_keys_keep_input_order() {
    let (_, _, fields) = record_parts(&display(r#"{"zeta":1,"alpha":2,"mid":3}"#));
    assert_eq!(fields, pairs(&[("zeta", "1"), ("alpha", "2"), ("mid", "3")]));
}

#[test]
fn time_first_and_message_last() {
    let line = r#"{"message":"m","x":1,"y":"two","time":"t0"}"#;
    let (_, _, fields) = record_parts(&display(line));
    assert_eq!(fields, pairs(&[("time", "t0"), ("x", "1"), ("y", "two"), ("message", "m")]));
}

#[test]
fn severity_case_insensitive() {
    for s in ["ERROR", "Error", "error"] {
        assert_eq!(get_colors(Some(s.to_string())), (Color::Red, Color::Default));
        let line = format!(r#"{{"level":"{}","message":"x"}}"#, s);
        let (kc, vc, _) = record_parts(&display(&line));
        assert_eq!((kc, vc), (Color::Red, Color::Default));
    }
}

#[test]
fn first_alias_wins() {
    let line = r#"{"type":"error","lvl":"info","message":"x"}"#;
    let (kc, vc, fields) = record_parts(&display(line));
    assert_eq!((kc, vc), (Color::Cyan, Color::Default));
    assert_eq!(fields, pairs(&[("lvl", "info"), ("message", "x")]));
    let r = record_of(&[
        ("type", FieldValue::Str("error".to_string())),
        ("lvl", FieldValue::Str("info".to_string())),
    ]);
    assert_eq!(get_level(&r), Some("info".to_string()));
}

#[test]
fn non_string_level_gives_no_color() {
    let (kc, vc, fields) = record_parts(&display(r#"{"level": 5, "message": "x"}"#));
    assert_eq!((kc, vc), (Color::Default, Color::Default));
    assert_eq!(fields, pairs(&[("message", "x")]));
}

#[test]
fn non_string_alias_stops_the_scan() {
    let r = record_of(&[
        ("lev", FieldValue::Json("true".to_string())),
        ("type", FieldValue::Str("error".to_string())),
    ]);
    assert_eq!(get_level(&r), None);
    let r = record_of(&[("l", FieldValue::Str("W".to_string()))]);
    assert_eq!(get_level(&r), Some("W".to_string()));
    assert_eq!(get_level(&Record::new()), None);
}

#[test]
fn severity_palette() {
    let cases = [
        ("debug", Color::Magenta),
        ("dbg", Color::Magenta),
        ("d", Color::Magenta),
        ("info", Color::Cyan),
        ("inf", Color::Cyan),
        ("i", Color::Cyan),
        ("warning", Color::Yellow),
        ("warn", Color::Yellow),
        ("wrn", Color::Yellow),
        ("w", Color::Yellow),
        ("error", Color::Red),
        ("err", Color::Red),
        ("e", Color::Red),
        ("fatal", Color::Red),
        ("f", Color::Red),
        ("trace", Color::Default),
        ("", Color::Default),
        ("warnings", Color::Default),
    ];
    for (word, key_color) in cases {
        assert_eq!(color_for(&word.to_string()), (key_color, Color::Default), "{}", word);
        assert_eq!(get_colors(Some(word.to_string())), (key_color, Color::Default), "{}", word);
    }
    assert_eq!(get_colors(None), (Color::Default, Color::Default));
}

#[test]
fn upper_case_severity_is_folded() {
    assert_eq!(get_colors(Some("WARN".to_string())), (Color::Yellow, Color::Default));
    assert_eq!(get_colors(Some("DeBuG".to_string())), (Color::Magenta, Color::Default));
    assert_eq!(color_for(&"WARN".to_string()), (Color::Default, Color::Default));
}

#[test]
fn values_render_as_text() {
    let line = r#"{"s":"quoted \"x\"","n":-1.5,"b":true,"z":null,"a":[1,"two"],"o":{"k":"v"}}"#;
    let (_, _, fields) = record_parts(&display(line));
    assert_eq!(
        fields,
        pairs(&[
            ("s", "quoted \"x\""),
            ("n", "-1.5"),
            ("b", "true"),
            ("z", "null"),
            ("a", "[1,\"two\"]"),
            ("o", "{\"k\":\"v\"}"),
        ])
    );
}

#[test]
fn field_order_of_a_record() {
    let r = record_of(&[
        ("message", FieldValue::Str("m".to_string())),
        ("tag", FieldValue::Str("t".to_string())),
        ("b", FieldValue::Json("1".to_string())),
        ("time", FieldValue::Str("now".to_string())),
        ("a", FieldValue::Json("2".to_string())),
    ]);
    assert_eq!(get_fields(&r), vec!["time", "b", "a", "message"]);
    assert!(get_fields(&Record::new()).is_empty());
}

#[test]
fn repeated_key_keeps_last_value() {
    let (_, _, fields) = record_parts(&display(r#"{"a":1,"b":2,"a":3}"#));
    assert_eq!(fields, pairs(&[("a", "3"), ("b", "2")]));
}

#[test]
fn rendering_from_a_decoded_record() {
    assert_eq!(raw_text(&display_parsed("not json", None)), "not json");
    let r = record_of(&[
        ("msg", FieldValue::Str("hi".to_string())),
        ("level", FieldValue::Str("Fatal".to_string())),
        ("n", FieldValue::Json("7".to_string())),
    ]);
    let (kc, vc, fields) = record_parts(&display_parsed("ignored", Some(r)));
    assert_eq!((kc, vc), (Color::Red, Color::Default));
    assert_eq!(fields, pairs(&[("msg", "hi"), ("n", "7")]));
}
