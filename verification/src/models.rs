//! The data that the YAML inputs describe: systems (es_systems.yml), emulator
//! features (es_features.yml) and per-system defaults (configgen-defaults.yml).
use indexmap::IndexMap;
use vstd::prelude::*;
use vstd::string::*;

use crate::text::decimal;
use crate::text::i64_to_string;
use crate::text::owned;

verus! {

/// A scalar read from YAML, as far as the generators look at it.
///
/// `Rendered` holds a value whose display text was computed where it was read:
/// floating-point numbers, integers beyond `i64`, sequences and mappings.
pub enum YamlValue {
    Null,
    Bool(bool),
    Int(i64),
    Str(String),
    Rendered(String),
}

/// One system of es_systems.yml.
pub struct System {
    pub name: String,
    pub manufacturer: String,
    pub release: YamlValue,
    pub hardware: String,
    pub extensions: Vec<String>,
    pub platform: Option<String>,
    pub theme: Option<String>,
    pub group: Option<String>,
    pub path: Option<String>,
    pub command: Option<String>,
    pub force: bool,
    pub emulators: IndexMap<String, IndexMap<String, CoreReq>>,
    pub comment_en: Option<String>,
    pub comment_fr: Option<String>,
    pub comment_br: Option<String>,
}

/// The packages one core needs, and the extensions it cannot run.
pub struct CoreReq {
    pub require_any_of: Vec<RequirementItem>,
    pub incompatible_extensions: Vec<String>,
}

/// requireAnyOf items can be either a plain string or a nested list of strings.
pub enum RequirementItem {
    Single(String),
    Group(Vec<String>),
}

/// The features of one emulator (or of the `global` / `shared` sections).
pub struct EmulatorFeatures {
    pub features: Vec<String>,
    pub shared: Vec<String>,
    pub cfeatures: IndexMap<String, CustomFeature>,
    pub cores: IndexMap<String, CoreFeatures>,
    pub systems: IndexMap<String, SystemFeatures>,
}

/// The features of one core of an emulator.
pub struct CoreFeatures {
    pub features: Vec<String>,
    pub shared: Vec<String>,
    pub cfeatures: IndexMap<String, CustomFeature>,
    pub systems: IndexMap<String, SystemFeatures>,
}

/// The features of one system within an emulator or a core.
pub struct SystemFeatures {
    pub features: Vec<String>,
    pub shared: Vec<String>,
    pub cfeatures: IndexMap<String, CustomFeature>,
}

/// A custom feature: a setting with a prompt and a list of choices.
pub struct CustomFeature {
    pub prompt: String,
    pub description: Option<String>,
    pub group: Option<String>,
    pub submenu: Option<String>,
    pub order: Option<YamlValue>,
    pub preset: Option<String>,
    pub preset_parameters: Option<String>,
    pub choices: IndexMap<String, YamlValue>,
    pub archs_include: Vec<String>,
    pub archs_exclude: Vec<String>,
}

/// The default emulator and core of a system.
pub struct SystemDefault {
    pub emulator: Option<String>,
    pub core: Option<String>,
}

/// The view of an optional string.
pub open spec fn opt_view(o: Option<String>) -> Option<Seq<char>> {
    match o {
        Some(s) => Some(s@),
        None => None,
    }
}

/// The display text of a YAML scalar: `None`, `True` or `False`, a decimal
/// integer, or the text itself.
pub open spec fn yaml_text(v: YamlValue) -> Seq<char> {
    match v {
        YamlValue::Null => "None"@,
        YamlValue::Bool(b) => if b { "True"@ } else { "False"@ },
        YamlValue::Int(i) => decimal(i as int),
        YamlValue::Str(s) => s@,
        YamlValue::Rendered(s) => s@,
    }
}

/// The display text of a YAML value.
pub fn yaml_value_to_string(v: &YamlValue) -> (r: String)
    ensures
        r@ == yaml_text(*v),
{
    match v {
        YamlValue::Null => owned("None"),
        YamlValue::Bool(b) => if *b { owned("True") } else { owned("False") },
        YamlValue::Int(i) => i64_to_string(*i),
        YamlValue::Str(s) => s.clone(),
        YamlValue::Rendered(s) => s.clone(),
    }
}

} // verus!
