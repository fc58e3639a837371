use es_system::generate_features::TranslationComment;
use es_system::requirements::NameSet;
use es_system::translate::add_translation;
use es_system::translations::{
    collect_key_texts, key_descriptions, keys_header_from_files, keys_header_text, JsonDoc, JsonMember, parse_blacklist, remove_blacklisted, translations_header_text, KeysAction,
    KeysDevice, KeysFile,
};
use indexmap::IndexMap;

const HEAD: &str = "// file generated automatically by es-system, don't modify it\n\n";

fn record(entries: &[(&str, &str, Option<&str>)]) -> IndexMap<String, Vec<TranslationComment>> {
    let mut m = IndexMap::new();
    for (text, emu, core) in entries {
        add_translation(&mut m, text, emu, *core);
    }
    m
}

#[test]
fn add_translation_appends_places_in_order() {
    let m = record(&[("A", "e1", None), ("B", "e2", Some("c")), ("A", "e3", Some("d"))]);
    let keys: Vec<&String> = m.keys().collect();
    assert_eq!(keys, vec!["A", "B"]);
    assert_eq!(m["A"].len(), 2);
    assert_eq!(m["A"][0].emulator, "e1");
    assert_eq!(m["A"][1].emulator, "e3");
    assert_eq!(m["A"][1].core, Some("d".to_string()));
}

#[test]
fn header_numbers_kept_texts_and_escapes_quotes() {
    let m = record(&[
        ("Say \"hi\"", "libretro", Some("snes9x")),
        ("", "libretro", None),
        ("1080p", "libretro", None),
        ("Blocked", "libretro", None),
        ("Shader", "libretro", Some("libretro")),
    ]);
    let mut blacklist = NameSet::new();
    blacklist.insert("Blocked".to_string());
    let text = translations_header_text(&m, &blacklist);
    let expected = format!("{}{}",
        HEAD,
        [
            "/* TRANSLATION: libretro/snes9x */\n#define fake_gettext_external_1 pgettext(\"game_options\", \"Say \\\"hi\\\"\")\n",
            "/* TRANSLATION: libretro */\n#define fake_gettext_external_2 pgettext(\"game_options\", \"Shader\")\n",
        ].concat()
    );
    assert_eq!(text, expected);
}

#[test]
fn header_skips_numeric_texts() {
    for t in ["42", "42+", "1.5", "4:3", "16/9", "-3", "+2x", "50%", "640x480", "x2 (1280x960)"] {
        let m = record(&[(t, "e", None)]);
        assert_eq!(translations_header_text(&m, &NameSet::new()), HEAD, "text {}", t);
    }
    for t in ["Auto", "4K TV", "x", "1.5.2", "(720p)"] {
        let m = record(&[(t, "e", None)]);
        assert_ne!(translations_header_text(&m, &NameSet::new()), HEAD, "text {}", t);
    }
}

#[test]
fn header_comment_lists_five_places_then_ellipsis() {
    let m = record(&[
        ("T", "a", None),
        ("T", "b", None),
        ("T", "c", None),
        ("T", "d", None),
        ("T", "e", None),
        ("T", "f", None),
        ("T", "g", None),
    ]);
    let text = translations_header_text(&m, &NameSet::new());
    let expected = format!(
        "{}/* TRANSLATION: a, b, c, d, e, ... */\n#define fake_gettext_external_1 pgettext(\"game_options\", \"T\")\n",
        HEAD
    );
    assert_eq!(text, expected);
}

#[test]
fn header_empty_record() {
    assert_eq!(translations_header_text(&IndexMap::new(), &NameSet::new()), HEAD);
}

#[test]
fn remove_blacklisted_keeps_order_of_rest() {
    let mut m = record(&[("A", "e", None), ("B", "e", None), ("C", "e", None)]);
    let mut blacklist = NameSet::new();
    blacklist.insert("B".to_string());
    blacklist.insert("Z".to_string());
    remove_blacklisted(&mut m, &blacklist);
    let keys: Vec<&String> = m.keys().collect();
    assert_eq!(keys, vec!["A", "C"]);
    let header_after = translations_header_text(&m, &NameSet::new());
    let m2 = record(&[("A", "e", None), ("B", "e", None), ("C", "e", None)]);
    assert_eq!(header_after, translations_header_text(&m2, &blacklist));
}

#[test]
fn blacklist_lines() {
    let set = parse_blacklist("Auto\r\n\nOn\nOff\r\r\n");
    assert!(set.contains("Auto"));
    assert!(set.contains("On"));
    assert!(set.contains("Off"));
    assert!(!set.contains(""));
    assert!(!set.contains("Auto\r"));
}

fn action(d: Option<&str>) -> KeysAction {
    KeysAction { description: d.map(|s| s.to_string()) }
}

#[test]
fn keys_texts_and_header() {
    let files = vec![
        KeysFile {
            file_name: "a.keys".to_string(),
            devices: vec![
                KeysDevice { actions: Some(vec![action(Some("Exit")), action(None), action(Some("Menu"))]) },
                KeysDevice { actions: None },
            ],
        },
        KeysFile {
            file_name: "b.keys".to_string(),
            devices: vec![KeysDevice { actions: Some(vec![action(Some("Exit")), action(Some("Say \"x\""))]) }],
        },
    ];
    let vals = collect_key_texts(&files);
    let keys: Vec<&String> = vals.keys().collect();
    assert_eq!(keys, vec!["Exit", "Menu", "Say \"x\""]);
    let exit_sources: Vec<&String> = vals["Exit"].keys().collect();
    assert_eq!(exit_sources, vec!["a.keys", "b.keys"]);

    let text = keys_header_text(&vals);
    let expected = format!("{}{}",
        HEAD,
        [
            "/* TRANSLATION: a.keys, b.keys */\n#define fake_gettext_external_0 pgettext(\"keys_files\", \"Exit\")\n",
            "/* TRANSLATION: a.keys */\n#define fake_gettext_external_1 pgettext(\"keys_files\", \"Menu\")\n",
            "/* TRANSLATION: b.keys */\n#define fake_gettext_external_2 pgettext(\"keys_files\", \"Say \\\"x\\\"\")\n",
        ].concat()
    );
    assert_eq!(text, expected);
}

#[test]
fn keys_same_file_counted_once() {
    let files = vec![KeysFile {
        file_name: "a.keys".to_string(),
        devices: vec![
            KeysDevice { actions: Some(vec![action(Some("Exit"))]) },
            KeysDevice { actions: Some(vec![action(Some("Exit"))]) },
        ],
    }];
    let vals = collect_key_texts(&files);
    assert_eq!(vals.len(), 1);
    assert_eq!(vals["Exit"].len(), 1);
}

#[test]
fn keys_header_empty() {
    assert_eq!(keys_header_text(&IndexMap::new()), HEAD);
    assert!(collect_key_texts(&Vec::new()).is_empty());
}

fn file(name: &str, content: &str) -> (String, String) {
    (name.to_string(), content.to_string())
}

#[test]
fn keys_header_from_json_files() {
    let files = vec![
        file(
            "b.keys",
            r#"{"zpad": [{"description": "Exit"}, {"trigger": "x"}, {"description": 3}], "apad": [{"description": "Menu"}], "other": 5}"#,
        ),
        file("a.keys", r#"{"pad": [{"description": "Exit"}, {"description": "Say \"x\""}]}"#),
        file("broken.keys", "not json"),
        file("list.keys", r#"[{"description": "Ignored"}]"#),
    ];
    let text = keys_header_from_files(&files);
    let expected = format!("{}{}",
        HEAD,
        [
            "/* TRANSLATION: b.keys */\n#define fake_gettext_external_0 pgettext(\"keys_files\", \"Menu\")\n",
            "/* TRANSLATION: b.keys, a.keys */\n#define fake_gettext_external_1 pgettext(\"keys_files\", \"Exit\")\n",
            "/* TRANSLATION: a.keys */\n#define fake_gettext_external_2 pgettext(\"keys_files\", \"Say \\\"x\\\"\")\n",
        ].concat()
    );
    assert_eq!(text, expected);
}

#[test]
fn keys_header_from_no_files() {
    assert_eq!(keys_header_from_files(&Vec::new()), HEAD);
    assert_eq!(keys_header_from_files(&vec![file("e.keys", "{}")]), HEAD);
}

fn member(key: &str, value: JsonDoc) -> JsonMember {
    JsonMember { key: key.to_string(), value }
}

#[test]
fn key_descriptions_read_from_document() {
    let doc = JsonDoc::Object(vec![
        member(
            "pad",
            JsonDoc::Array(vec![
                JsonDoc::Object(vec![member("name", JsonDoc::Str("N".to_string())), member("description", JsonDoc::Str("D".to_string()))]),
                JsonDoc::Object(vec![member("description", JsonDoc::Number("3".to_string()))]),
                JsonDoc::Str("description".to_string()),
            ]),
        ),
        member("other", JsonDoc::Bool(true)),
    ]);
    let devices = key_descriptions(&Some(doc));
    assert_eq!(devices.len(), 2);
    let actions = devices[0].actions.as_ref().unwrap();
    assert_eq!(actions.len(), 3);
    assert_eq!(actions[0].description, Some("D".to_string()));
    assert_eq!(actions[1].description, None);
    assert_eq!(actions[2].description, None);
    assert!(devices[1].actions.is_none());
    assert!(key_descriptions(&None).is_empty());
    assert!(key_descriptions(&Some(JsonDoc::Array(vec![]))).is_empty());
}
