use es_system::config::parse_config;
use es_system::generate_systems::{folder_plan, generate, list_extensions, need_folder, system_sub_roms_dir};
use es_system::models::{CoreReq, RequirementItem, System, SystemDefault, YamlValue};
use es_system::requirements::NameSet;
use es_system::roms::system_info;
use indexmap::IndexMap;

fn core_req(reqs: Vec<RequirementItem>, incompatible: Vec<&str>) -> CoreReq {
    CoreReq {
        require_any_of: reqs,
        incompatible_extensions: incompatible.into_iter().map(String::from).collect(),
    }
}

fn system(name: &str, extensions: Vec<&str>) -> System {
    System {
        name: name.to_string(),
        manufacturer: "Sega".to_string(),
        release: YamlValue::Int(1988),
        hardware: "console".to_string(),
        extensions: extensions.into_iter().map(String::from).collect(),
        platform: None,
        theme: None,
        group: None,
        path: None,
        command: None,
        force: false,
        emulators: IndexMap::new(),
        comment_en: None,
        comment_fr: None,
        comment_br: None,
    }
}

fn names(list: &[&str]) -> NameSet {
    let mut set = NameSet::new();
    for s in list {
        set.insert(s.to_string());
    }
    set
}

fn one_core(sys: &mut System, emulator: &str, core: &str, req: CoreReq) {
    let mut cores = IndexMap::new();
    cores.insert(core.to_string(), req);
    sys.emulators.insert(emulator.to_string(), cores);
}

#[test]
fn list_extensions_lowercase_only() {
    let sys = system("Mega Drive", vec!["BIN", "Zip"]);
    assert_eq!(list_extensions(&sys, false), ".bin .zip");
}

#[test]
fn list_extensions_with_uppercase() {
    let sys = system("Mega Drive", vec!["Zip", "7z"]);
    assert_eq!(list_extensions(&sys, true), ".zip .ZIP .7z .7Z");
}

#[test]
fn list_extensions_empty() {
    let sys = system("Nothing", vec![]);
    assert_eq!(list_extensions(&sys, true), "");
}

#[test]
fn sub_roms_dir_defaults_to_name() {
    let sys = system("Mega Drive", vec!["bin"]);
    assert_eq!(system_sub_roms_dir("megadrive", &sys), Some("megadrive".to_string()));
}

#[test]
fn sub_roms_dir_relative_path() {
    let mut sys = system("Mega Drive", vec!["bin"]);
    sys.path = Some("sega/md".to_string());
    assert_eq!(system_sub_roms_dir("megadrive", &sys), Some("sega/md".to_string()));
}

#[test]
fn sub_roms_dir_absolute_path_is_none() {
    let mut sys = system("Mega Drive", vec!["bin"]);
    sys.path = Some("/media/md".to_string());
    assert_eq!(system_sub_roms_dir("megadrive", &sys), None);
}

#[test]
fn need_folder_follows_requirements() {
    let mut sys = system("Mega Drive", vec!["bin"]);
    assert!(!need_folder(&sys, &names(&["BR2_A"])));
    one_core(
        &mut sys,
        "libretro",
        "genesisplusgx",
        core_req(vec![RequirementItem::Single("BR2_GPGX".to_string())], vec![]),
    );
    assert!(need_folder(&sys, &names(&["BR2_GPGX"])));
    assert!(!need_folder(&sys, &names(&["BR2_OTHER"])));
}

#[test]
fn need_folder_empty_requirements_always_met() {
    let mut sys = system("Mega Drive", vec!["bin"]);
    one_core(&mut sys, "libretro", "picodrive", core_req(vec![], vec![]));
    assert!(need_folder(&sys, &NameSet::new()));
}

#[test]
fn folder_plan_is_sorted_and_flags_need() {
    let mut systems = IndexMap::new();
    let mut snes = system("Super Nintendo", vec!["smc"]);
    one_core(&mut snes, "libretro", "snes9x", core_req(vec![], vec![]));
    let nes = system("NES", vec!["nes"]);
    systems.insert("snes".to_string(), snes);
    systems.insert("nes".to_string(), nes);
    let plan = folder_plan(&systems, &NameSet::new());
    assert_eq!(plan, vec![("nes".to_string(), false), ("snes".to_string(), true)]);
}

#[test]
fn generate_one_system_exact() {
    let mut systems = IndexMap::new();
    let mut md = system("Mega Drive & <Genesis>", vec!["BIN", "md"]);
    one_core(
        &mut md,
        "libretro",
        "genesisplusgx",
        core_req(vec![RequirementItem::Group(vec!["BR2_X".to_string(), "BR2_GPGX".to_string()])], vec!["ZIP"]),
    );
    systems.insert("megadrive".to_string(), md);
    let mut defaults = IndexMap::new();
    defaults.insert(
        "megadrive".to_string(),
        SystemDefault { emulator: Some("libretro".to_string()), core: Some("genesisplusgx".to_string()) },
    );
    let xml = generate(&systems, &names(&["BR2_GPGX"]), &defaults, &IndexMap::new());
    let expected = [
        "<?xml version=\"1.0\" encoding=\"UTF-8\" ?>\n",
        "<systemList>\n  <system>\n",
        "        <fullname>Mega Drive &amp; &lt;Genesis&gt;</fullname>\n",
        "        <name>megadrive</name>\n",
        "        <manufacturer>Sega</manufacturer>\n",
        "        <release>1988</release>\n",
        "        <hardware>console</hardware>\n",
        "        <path>/userdata/roms/megadrive</path>\n",
        "        <extension>.bin .md</extension>\n",
        "        <command>emulatorlauncher %CONTROLLERSCONFIG% -system %SYSTEM% -rom %ROM% -gameinfoxml %GAMEINFOXML% -systemname %SYSTEMNAME%</command>\n",
        "        <platform>megadrive</platform>\n",
        "        <theme>megadrive</theme>\n",
        "        <emulators>\n",
        "            <emulator name=\"libretro\">\n",
        "                <cores>\n",
        "                    <core default=\"true\" incompatible_extensions=\".zip\">genesisplusgx</core>\n",
        "                </cores>\n",
        "            </emulator>\n",
        "        </emulators>\n  </system>\n</systemList>\n",
    ].concat();
    assert_eq!(xml, expected);
}

#[test]
fn generate_skips_system_without_cores_unless_forced() {
    let mut systems = IndexMap::new();
    let mut ports = system("Ports", vec![]);
    systems.insert("ports".to_string(), system("Ports", vec![]));
    let empty = IndexMap::new();
    let xml = generate(&systems, &NameSet::new(), &empty, &empty);
    assert_eq!(xml, "<?xml version=\"1.0\" encoding=\"UTF-8\" ?>\n<systemList>\n</systemList>\n");

    ports.force = true;
    ports.group = Some("misc".to_string());
    ports.theme = Some("ports-theme".to_string());
    ports.release = YamlValue::Null;
    systems.insert("ports".to_string(), ports);
    let xml = generate(&systems, &NameSet::new(), &empty, &empty);
    let expected = [
        "<?xml version=\"1.0\" encoding=\"UTF-8\" ?>\n",
        "<systemList>\n  <system>\n",
        "        <fullname>Ports</fullname>\n",
        "        <name>ports</name>\n",
        "        <manufacturer>Sega</manufacturer>\n",
        "        <release>None</release>\n",
        "        <hardware>console</hardware>\n",
        "        <platform>ports</platform>\n",
        "        <theme>ports-theme</theme>\n",
        "        <group>misc</group>\n  </system>\n</systemList>\n",
    ].concat();
    assert_eq!(xml, expected);
}

#[test]
fn generate_arch_default_overrides_global_and_sorts() {
    let mut systems = IndexMap::new();
    let mut b = system("B", vec!["b"]);
    let mut cores = IndexMap::new();
    cores.insert("zcore".to_string(), core_req(vec![], vec![]));
    cores.insert("acore".to_string(), core_req(vec![], vec![]));
    b.emulators.insert("emu".to_string(), cores);
    b.path = Some("/abs/b".to_string());
    b.command = Some("run".to_string());
    b.platform = Some("plat".to_string());
    systems.insert("bsys".to_string(), b);
    let mut global = IndexMap::new();
    global.insert("bsys".to_string(), SystemDefault { emulator: Some("emu".to_string()), core: Some("acore".to_string()) });
    let mut arch = IndexMap::new();
    arch.insert("bsys".to_string(), SystemDefault { emulator: None, core: Some("zcore".to_string()) });
    let xml = generate(&systems, &NameSet::new(), &global, &arch);
    let expected = [
        "<?xml version=\"1.0\" encoding=\"UTF-8\" ?>\n",
        "<systemList>\n  <system>\n",
        "        <fullname>B</fullname>\n",
        "        <name>bsys</name>\n",
        "        <manufacturer>Sega</manufacturer>\n",
        "        <release>1988</release>\n",
        "        <hardware>console</hardware>\n",
        "        <path>/abs/b</path>\n",
        "        <extension>.b</extension>\n",
        "        <command>run</command>\n",
        "        <platform>plat</platform>\n",
        "        <theme>bsys</theme>\n",
        "        <emulators>\n",
        "            <emulator name=\"emu\">\n",
        "                <cores>\n",
        "                    <core>acore</core>\n",
        "                    <core default=\"true\">zcore</core>\n",
        "                </cores>\n",
        "            </emulator>\n",
        "        </emulators>\n  </system>\n</systemList>\n",
    ].concat();
    assert_eq!(xml, expected);
}

#[test]
fn system_info_text() {
    let mut sys = system("Mega Drive", vec!["bin", "MD"]);
    sys.comment_en = Some("Hello\n".to_string());
    let (dir, text) = system_info("megadrive", &sys).unwrap();
    assert_eq!(dir, "megadrive");
    let line = "-------------------------------------------------------------------------------\n";
    let expected = format!(
        "## SYSTEM MEGA DRIVE ##\n{}ROM files extensions accepted: \".bin .md\"\n\nHello\n{}Extensions des fichiers ROMs permises: \".bin .md\"\n",
        line, line
    );
    assert_eq!(text, expected);
}

#[test]
fn system_info_absent_for_absolute_path() {
    let mut sys = system("Mega Drive", vec!["bin"]);
    sys.path = Some("/media".to_string());
    assert!(system_info("megadrive", &sys).is_none());
}

#[test]
fn config_from_text_feeds_generation() {
    let config = parse_config("BR2_GPGX=y\n# BR2_X is not set\n");
    let mut sys = system("Mega Drive", vec!["bin"]);
    one_core(
        &mut sys,
        "libretro",
        "genesisplusgx",
        core_req(vec![RequirementItem::Single("BR2_GPGX".to_string())], vec![]),
    );
    assert!(need_folder(&sys, &config));
}

#[test]
fn folder_needed_exactly_when_emulators_listed() {
    let empty = IndexMap::new();
    for (package, listed) in [("BR2_GPGX", true), ("BR2_OTHER", false)] {
        let mut sys = system("Mega Drive", vec!["bin"]);
        one_core(
            &mut sys,
            "libretro",
            "genesisplusgx",
            core_req(vec![RequirementItem::Single("BR2_GPGX".to_string())], vec![]),
        );
        sys.force = true;
        let config = names(&[package]);
        assert_eq!(need_folder(&sys, &config), listed);
        let mut systems = IndexMap::new();
        systems.insert("megadrive".to_string(), sys);
        let xml = generate(&systems, &config, &empty, &empty);
        assert_eq!(xml.contains("<emulators>"), listed);
    }
}
