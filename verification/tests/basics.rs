use es_system::config::parse_config;
use es_system::models::{yaml_value_to_string, CustomFeature, RequirementItem, YamlValue};
use es_system::requirements::{arch_valid, is_valid, list_contains, NameSet};
use es_system::text::{
    chars_of, i64_to_string, join, make_spaces, parse_i64, sort_strings, str_lt, string_of, trim_chars,
    u64_to_string,
};
use es_system::xml::escape;
use indexmap::IndexMap;

fn names(list: &[&str]) -> NameSet {
    let mut set = NameSet::new();
    for s in list {
        set.insert(s.to_string());
    }
    set
}

fn feature(allowed: Vec<&str>, denied: Vec<&str>) -> CustomFeature {
    CustomFeature {
        prompt: "Prompt".to_string(),
        description: None,
        group: None,
        submenu: None,
        order: None,
        preset: None,
        preset_parameters: None,
        choices: IndexMap::new(),
        archs_include: allowed.into_iter().map(String::from).collect(),
        archs_exclude: denied.into_iter().map(String::from).collect(),
    }
}

#[test]
fn escape_all_special_characters() {
    assert_eq!(escape("a&b<c>d\"e\nf"), "a&amp;b&lt;c&gt;d&quot;e&#x0a;f");
}

#[test]
fn escape_plain_text_unchanged() {
    assert_eq!(escape("plain text 123"), "plain text 123");
    assert_eq!(escape(""), "");
}

#[test]
fn escape_ampersand_first() {
    assert_eq!(escape("&lt;"), "&amp;lt;");
}

#[test]
fn requirements_empty_is_met() {
    assert!(is_valid(&NameSet::new(), &[]));
}

#[test]
fn requirements_single_and_group() {
    let config = names(&["BR2_A", "BR2_C"]);
    assert!(is_valid(&config, &[RequirementItem::Single("BR2_A".to_string())]));
    assert!(!is_valid(&config, &[RequirementItem::Single("BR2_B".to_string())]));
    assert!(is_valid(
        &config,
        &[
            RequirementItem::Single("BR2_B".to_string()),
            RequirementItem::Group(vec!["BR2_X".to_string(), "BR2_C".to_string()]),
        ]
    ));
    assert!(!is_valid(&config, &[RequirementItem::Group(vec![])]));
}

#[test]
fn requirements_fail_closed_without_config() {
    assert!(!is_valid(&NameSet::new(), &[RequirementItem::Single("BR2_A".to_string())]));
}

#[test]
fn requirements_monotone_example() {
    let reqs = [RequirementItem::Single("BR2_A".to_string())];
    assert!(is_valid(&names(&["BR2_A"]), &reqs));
    assert!(is_valid(&names(&["BR2_A", "BR2_B"]), &reqs));
}

#[test]
fn arch_filters() {
    assert!(arch_valid("x86_64", &feature(vec![], vec![])));
    assert!(arch_valid("x86_64", &feature(vec!["x86_64", "rk3588"], vec![])));
    assert!(!arch_valid("bcm2711", &feature(vec!["x86_64"], vec![])));
    assert!(!arch_valid("x86_64", &feature(vec![], vec!["x86_64"])));
    assert!(!arch_valid("x86_64", &feature(vec!["x86_64"], vec!["x86_64"])));
    assert!(arch_valid("rk3588", &feature(vec![], vec!["x86_64"])));
}

#[test]
fn list_contains_finds_exact() {
    let v = vec!["a".to_string(), "bc".to_string()];
    assert!(list_contains(&v, "bc"));
    assert!(!list_contains(&v, "b"));
}

#[test]
fn config_keeps_only_enabled_keys() {
    let config = parse_config("BR2_A=y\nBR2_B=n\n  BR2_C=y  \nBR2 D=y\n=y\n# BR2_E is not set\nBR2_F=y\r\n");
    assert!(config.contains("BR2_A"));
    assert!(!config.contains("BR2_B"));
    assert!(config.contains("BR2_C"));
    assert!(!config.contains("BR2 D"));
    assert!(!config.contains(""));
    assert!(!config.contains("BR2_E"));
    assert!(config.contains("BR2_F"));
}

#[test]
fn config_empty_text() {
    let config = parse_config("");
    assert!(!config.contains("BR2_A"));
}

#[test]
fn name_set_insert_and_contains() {
    let mut s = NameSet::new();
    assert!(!s.contains("x"));
    s.insert("x".to_string());
    assert!(s.contains("x"));
    assert!(!s.contains("y"));
}

#[test]
fn yaml_values_display_text() {
    assert_eq!(yaml_value_to_string(&YamlValue::Null), "None");
    assert_eq!(yaml_value_to_string(&YamlValue::Bool(true)), "True");
    assert_eq!(yaml_value_to_string(&YamlValue::Bool(false)), "False");
    assert_eq!(yaml_value_to_string(&YamlValue::Int(-42)), "-42");
    assert_eq!(yaml_value_to_string(&YamlValue::Int(243)), "243");
    assert_eq!(yaml_value_to_string(&YamlValue::Str("abc".to_string())), "abc");
    assert_eq!(yaml_value_to_string(&YamlValue::Rendered("1.5".to_string())), "1.5");
}

#[test]
fn integers_to_text() {
    assert_eq!(u64_to_string(0), "0");
    assert_eq!(u64_to_string(18446744073709551615), "18446744073709551615");
    assert_eq!(i64_to_string(-9223372036854775808), "-9223372036854775808");
    assert_eq!(i64_to_string(1988), "1988");
}

#[test]
fn parse_integers() {
    assert_eq!(parse_i64("42"), Some(42));
    assert_eq!(parse_i64("-7"), Some(-7));
    assert_eq!(parse_i64("+7"), Some(7));
    assert_eq!(parse_i64("9223372036854775807"), Some(9223372036854775807));
    assert_eq!(parse_i64("-9223372036854775808"), Some(-9223372036854775808));
    assert_eq!(parse_i64("9223372036854775808"), None);
    assert_eq!(parse_i64(""), None);
    assert_eq!(parse_i64("-"), None);
    assert_eq!(parse_i64("1.5"), None);
    assert_eq!(parse_i64(" 1"), None);
}

#[test]
fn decimal_round_trip_example() {
    for n in [0i64, 5, -5, 1000, i64::MAX, i64::MIN] {
        assert_eq!(parse_i64(&i64_to_string(n)), Some(n));
    }
}

#[test]
fn join_with_separator() {
    let parts = vec!["a".to_string(), "b".to_string(), "c".to_string()];
    assert_eq!(join(&parts, ", "), "a, b, c");
    assert_eq!(join(&Vec::new(), ", "), "");
}

#[test]
fn spaces_of_length() {
    assert_eq!(make_spaces(0), "");
    assert_eq!(make_spaces(4), "    ");
}

#[test]
fn sorting_strings_by_code_point() {
    let v = vec!["snes".to_string(), "Zx".to_string(), "nes".to_string(), "n".to_string(), "nes".to_string()];
    assert_eq!(sort_strings(v), vec!["Zx", "n", "nes", "nes", "snes"]);
    assert!(str_lt("a", "b"));
    assert!(str_lt("a", "ab"));
    assert!(!str_lt("ab", "ab"));
    assert!(str_lt("Z", "a"));
}

#[test]
fn trimming_characters() {
    let cs = chars_of(" \t ab c \r\n");
    assert_eq!(string_of(&trim_chars(&cs)), "ab c");
    assert_eq!(string_of(&trim_chars(&chars_of("   "))), "");
}

#[test]
fn escape_distinct_texts_stay_distinct() {
    let texts = ["&lt;", "<", "&", "&amp;", ";", "\n", "&#x0a;", "\"", "&quot;", "a<b", "a&lt;b", ""];
    for a in texts {
        for b in texts {
            assert_eq!(escape(a) == escape(b), a == b, "{:?} {:?}", a, b);
        }
    }
}
