use es_system::generate_json::generate_systems;
use es_system::generate_systems::generate;
use es_system::models::{CoreReq, RequirementItem, System, SystemDefault, YamlValue};
use es_system::requirements::NameSet;
use indexmap::IndexMap;

fn base(name: &str, extensions: Vec<&str>) -> System {
    System {
        name: name.to_string(),
        manufacturer: "Nintendo".to_string(),
        release: YamlValue::Rendered("1990.0".to_string()),
        hardware: "console".to_string(),
        extensions: extensions.into_iter().map(String::from).collect(),
        platform: None,
        theme: None,
        group: None,
        path: None,
        command: None,
        force: false,
        emulators: IndexMap::new(),
        comment_en: None,
        comment_fr: None,
        comment_br: None,
    }
}

fn req(packages: &[&str], incompatible: &[&str]) -> CoreReq {
    CoreReq {
        require_any_of: packages.iter().map(|p| RequirementItem::Single(p.to_string())).collect(),
        incompatible_extensions: incompatible.iter().map(|s| s.to_string()).collect(),
    }
}

#[test]
fn json_system_list_exact_fields() {
    let mut snes = base("Super Nintendo", vec!["SMC", "sfc"]);
    let mut libretro = IndexMap::new();
    libretro.insert("snes9x".to_string(), req(&["BR2_SNES9X"], &["ZIP"]));
    libretro.insert("bsnes".to_string(), req(&["BR2_BSNES"], &[]));
    snes.emulators.insert("libretro".to_string(), libretro);
    let mut other = IndexMap::new();
    other.insert("core".to_string(), req(&["BR2_MISSING"], &[]));
    snes.emulators.insert("aaa".to_string(), other);
    snes.group = Some("nintendo".to_string());

    let mut systems = IndexMap::new();
    systems.insert("snes".to_string(), snes);
    systems.insert("empty".to_string(), base("Empty", vec![]));

    let mut config = NameSet::new();
    config.insert("BR2_SNES9X".to_string());
    config.insert("BR2_BSNES".to_string());
    let mut defaults = IndexMap::new();
    defaults.insert("snes".to_string(), SystemDefault { emulator: Some("libretro".to_string()), core: Some("snes9x".to_string()) });

    let doc = generate_systems(&systems, &config, &defaults, &IndexMap::new());
    assert_eq!(doc.system_list.len(), 1);
    let s = &doc.system_list[0];
    assert_eq!(s.name, "snes");
    assert_eq!(s.fullname, "Super Nintendo");
    assert_eq!(s.manufacturer, "Nintendo");
    assert_eq!(s.release, "1990.0");
    assert_eq!(s.hardware, "console");
    assert_eq!(s.path, Some("/userdata/roms/snes".to_string()));
    assert_eq!(s.extension, Some(vec![".smc".to_string(), ".sfc".to_string()]));
    assert_eq!(
        s.command,
        Some("emulatorlauncher %CONTROLLERSCONFIG% -system %SYSTEM% -rom %ROM% -gameinfoxml %GAMEINFOXML% -systemname %SYSTEMNAME%".to_string())
    );
    assert_eq!(s.platform, Some("snes".to_string()));
    assert_eq!(s.theme, "snes");
    assert_eq!(s.group, Some("nintendo".to_string()));
    let emus = s.emulators.as_ref().unwrap();
    assert_eq!(emus.len(), 1);
    assert_eq!(emus[0].name, "libretro");
    assert_eq!(emus[0].cores.len(), 2);
    assert_eq!(emus[0].cores[0].name, "bsnes");
    assert!(!emus[0].cores[0].default);
    assert!(emus[0].cores[0].incompatible_extensions.is_none());
    assert_eq!(emus[0].cores[1].name, "snes9x");
    assert!(emus[0].cores[1].default);
    assert_eq!(emus[0].cores[1].incompatible_extensions, Some(vec![".zip".to_string()]));
}

#[test]
fn json_forced_system_without_extensions() {
    let mut forced = base("Forced", vec![]);
    forced.force = true;
    forced.release = YamlValue::Bool(false);
    forced.theme = Some("t".to_string());
    let mut systems = IndexMap::new();
    systems.insert("forced".to_string(), forced);
    let empty = IndexMap::new();
    let doc = generate_systems(&systems, &NameSet::new(), &empty, &empty);
    assert_eq!(doc.system_list.len(), 1);
    let s = &doc.system_list[0];
    assert_eq!(s.release, "False");
    assert!(s.path.is_none());
    assert!(s.extension.is_none());
    assert!(s.command.is_none());
    assert_eq!(s.platform, Some("forced".to_string()));
    assert_eq!(s.theme, "t");
    assert!(s.group.is_none());
    assert!(s.emulators.is_none());
}

#[test]
fn json_systems_sorted_by_name() {
    let mut systems = IndexMap::new();
    for key in ["zx", "amiga", "nes"] {
        let mut s = base(key, vec!["bin"]);
        s.force = true;
        s.path = Some("/roms".to_string());
        systems.insert(key.to_string(), s);
    }
    let empty = IndexMap::new();
    let doc = generate_systems(&systems, &NameSet::new(), &empty, &empty);
    let names: Vec<&str> = doc.system_list.iter().map(|s| s.name.as_str()).collect();
    assert_eq!(names, vec!["amiga", "nes", "zx"]);
    assert_eq!(doc.system_list[0].path, Some("/roms".to_string()));
}

#[test]
fn json_lists_the_systems_xml_writes() {
    let mut systems = IndexMap::new();
    let mut met = base("Met", vec!["a"]);
    let mut cores = IndexMap::new();
    cores.insert("c".to_string(), req(&["BR2_ON"], &[]));
    met.emulators.insert("e".to_string(), cores);
    let mut unmet = base("Unmet", vec!["a"]);
    let mut cores = IndexMap::new();
    cores.insert("c".to_string(), req(&["BR2_OFF"], &[]));
    unmet.emulators.insert("e".to_string(), cores);
    let mut forced = base("Forced", vec!["a"]);
    forced.force = true;
    systems.insert("met".to_string(), met);
    systems.insert("unmet".to_string(), unmet);
    systems.insert("forced".to_string(), forced);
    let mut config = NameSet::new();
    config.insert("BR2_ON".to_string());
    let empty = IndexMap::new();
    let doc = generate_systems(&systems, &config, &empty, &empty);
    let json_names: Vec<String> = doc.system_list.iter().map(|s| s.name.clone()).collect();
    let xml = generate(&systems, &config, &empty, &empty);
    let xml_names: Vec<String> = xml
        .lines()
        .filter_map(|l| l.trim().strip_prefix("<name>").and_then(|r| r.strip_suffix("</name>")))
        .map(|s| s.to_string())
        .collect();
    assert_eq!(json_names, vec!["forced", "met"]);
    assert_eq!(json_names, xml_names);
}

#[test]
fn json_and_xml_list_the_same_emulators_and_cores() {
    let mut sys = base("Multi", vec!["bin"]);
    let mut b = IndexMap::new();
    b.insert("z".to_string(), req(&["BR2_ON"], &[]));
    b.insert("off".to_string(), req(&["BR2_OFF"], &[]));
    b.insert("a".to_string(), req(&[], &[]));
    sys.emulators.insert("bemu".to_string(), b);
    let mut a = IndexMap::new();
    a.insert("c".to_string(), req(&["BR2_OFF"], &[]));
    sys.emulators.insert("aemu".to_string(), a);
    let mut c = IndexMap::new();
    c.insert("k".to_string(), req(&["BR2_ON"], &[]));
    sys.emulators.insert("cemu".to_string(), c);
    let mut systems = IndexMap::new();
    systems.insert("multi".to_string(), sys);
    let mut config = NameSet::new();
    config.insert("BR2_ON".to_string());
    let empty = IndexMap::new();
    let doc = generate_systems(&systems, &config, &empty, &empty);
    let json: Vec<(String, Vec<String>)> = doc.system_list[0]
        .emulators
        .as_ref()
        .unwrap()
        .iter()
        .map(|e| (e.name.clone(), e.cores.iter().map(|c| c.name.clone()).collect()))
        .collect();
    assert_eq!(
        json,
        vec![("bemu".to_string(), vec!["a".to_string(), "z".to_string()]), ("cemu".to_string(), vec!["k".to_string()])]
    );
    let xml = generate(&systems, &config, &empty, &empty);
    assert!(xml.contains(
        "            <emulator name=\"bemu\">\n                <cores>\n                    <core>a</core>\n                    <core>z</core>\n                </cores>\n            </emulator>\n            <emulator name=\"cemu\">\n"
    ));
    assert!(!xml.contains("aemu"));
}
