//! es_systems.cfg: the XML list of systems with the emulators and cores that
//! the enabled packages provide.
use indexmap::IndexMap;
use vstd::prelude::*;
use vstd::string::*;

use crate::models::opt_view;
use crate::models::yaml_text;
use crate::models::yaml_value_to_string;
use crate::models::CoreReq;
use crate::models::System;
use crate::models::SystemDefault;
use crate::ordered::core_req_entries;
use crate::ordered::core_reqs_get;
use crate::ordered::core_reqs_get_index;
use crate::ordered::core_reqs_len;
use crate::ordered::default_entries;
use crate::ordered::defaults_get;
use crate::ordered::emulator_req_entries;
use crate::ordered::emulator_reqs_get;
use crate::ordered::emulator_reqs_get_index;
use crate::ordered::emulator_reqs_len;
use crate::ordered::lookup;
use crate::ordered::system_entries;
use crate::ordered::systems_get;
use crate::ordered::systems_get_index;
use crate::ordered::systems_len;
use crate::requirements::is_valid;
use crate::requirements::requirements_met;
use crate::requirements::NameSet;
use crate::text::join;
use crate::text::lowercase;
use crate::text::owned;
use crate::text::push_char;
use crate::text::sort_strings;
use crate::text::sorted_strs;
use crate::text::spec_join;
use crate::text::starts_with_char;
use crate::text::str_eq;
use crate::text::to_lower;
use crate::text::to_upper;
use crate::text::uppercase;
use crate::text::views;
use crate::xml::escape;
use crate::xml::spec_escape;

use crate::laws::lemma_listed_emulators_need_folder;
use crate::laws::lemma_met_core_lists_emulators;

verus! {

/// The keys of a sequence of entries, in order.
pub open spec fn entry_keys<V>(e: Seq<(Seq<char>, V)>) -> Seq<Seq<char>> {
    e.map_values(|x: (Seq<char>, V)| x.0)
}

/// The keys of the systems, as strings.
pub(crate) fn system_names(m: &IndexMap<String, System>) -> (r: Vec<String>)
    ensures
        views(r@) == entry_keys(system_entries(*m)),
{
    let ghost e = system_entries(*m);
    let n = systems_len(m);
    let mut r: Vec<String> = Vec::new();
    let mut i: usize = 0;
    while i < n
        invariant
            i <= n,
            n == e.len(),
            e == system_entries(*m),
            views(r@) == entry_keys(e.take(i as int)),
            r.len() == i,
        decreases n - i,
    {
        let (k, _) = systems_get_index(m, i).unwrap();
        let ghost before = r@;
        r.push(k.clone());
        proof {
            assert(r@ == before.push(r@[i as int]));
            assert(r@[i as int]@ == e[i as int].0);
            assert forall|j: int| 0 <= j < i + 1 implies #[trigger] views(r@)[j] == entry_keys(e.take(i + 1))[j] by {
                if j < i {
                    assert(views(before)[j] == entry_keys(e.take(i as int))[j]);
                }
            }
            assert(views(r@) =~= entry_keys(e.take(i + 1)));
        }
        i = i + 1;
    }
    assert(e.take(n as int) =~= e);
    r
}

/// The names of the emulators of a system, as strings.
pub(crate) fn emulator_names(m: &IndexMap<String, IndexMap<String, CoreReq>>) -> (r: Vec<String>)
    ensures
        views(r@) == entry_keys(emulator_req_entries(*m)),
{
    let ghost e = emulator_req_entries(*m);
    let n = emulator_reqs_len(m);
    let mut r: Vec<String> = Vec::new();
    let mut i: usize = 0;
    while i < n
        invariant
            i <= n,
            n == e.len(),
            e == emulator_req_entries(*m),
            views(r@) == entry_keys(e.take(i as int)),
            r.len() == i,
        decreases n - i,
    {
        let (k, _) = emulator_reqs_get_index(m, i).unwrap();
        let ghost before = r@;
        r.push(k.clone());
        proof {
            assert(r@ == before.push(r@[i as int]));
            assert(r@[i as int]@ == e[i as int].0);
            assert forall|j: int| 0 <= j < i + 1 implies #[trigger] views(r@)[j] == entry_keys(e.take(i + 1))[j] by {
                if j < i {
                    assert(views(before)[j] == entry_keys(e.take(i as int))[j]);
                }
            }
            assert(views(r@) =~= entry_keys(e.take(i + 1)));
        }
        i = i + 1;
    }
    assert(e.take(n as int) =~= e);
    r
}

/// The names of the cores of an emulator, as strings.
pub(crate) fn core_names(m: &IndexMap<String, CoreReq>) -> (r: Vec<String>)
    ensures
        views(r@) == entry_keys(core_req_entries(*m)),
{
    let ghost e = core_req_entries(*m);
    let n = core_reqs_len(m);
    let mut r: Vec<String> = Vec::new();
    let mut i: usize = 0;
    while i < n
        invariant
            i <= n,
            n == e.len(),
            e == core_req_entries(*m),
            views(r@) == entry_keys(e.take(i as int)),
            r.len() == i,
        decreases n - i,
    {
        let (k, _) = core_reqs_get_index(m, i).unwrap();
        let ghost before = r@;
        r.push(k.clone());
        proof {
            assert(r@ == before.push(r@[i as int]));
            assert(r@[i as int]@ == e[i as int].0);
            assert forall|j: int| 0 <= j < i + 1 implies #[trigger] views(r@)[j] == entry_keys(e.take(i + 1))[j] by {
                if j < i {
                    assert(views(before)[j] == entry_keys(e.take(i as int))[j]);
                }
            }
            assert(views(r@) =~= entry_keys(e.take(i + 1)));
        }
        i = i + 1;
    }
    assert(e.take(n as int) =~= e);
    r
}

/// The ROM path of a system: its own absolute path, or one under /userdata/roms.
pub open spec fn system_path_text(name: Seq<char>, data: System) -> Seq<char> {
    match data.path {
        Some(p) => if p@.len() > 0 && p@[0] == '/' {
            p@
        } else {
            "/userdata/roms/"@ + p@
        },
        None => "/userdata/roms/"@ + name,
    }
}

pub(crate) fn system_path(name: &str, data: &System) -> (r: String)
    ensures
        r@ == system_path_text(name@, *data),
{
    match &data.path {
        Some(p) => {
            if starts_with_char(p.as_str(), '/') {
                p.clone()
            } else {
                let mut r = owned("/userdata/roms/");
                r.append(p.as_str());
                r
            }
        },
        None => {
            let mut r = owned("/userdata/roms/");
            r.append(name);
            r
        },
    }
}

/// The subdirectory of the ROM folders of a system; none for an absolute path.
pub open spec fn sub_roms_dir(name: Seq<char>, data: System) -> Option<Seq<char>> {
    match data.path {
        Some(p) => if p@.len() > 0 && p@[0] == '/' {
            None
        } else {
            Some(p@)
        },
        None => Some(name),
    }
}

/// Returns the subdirectory for ROM folders (relative), or None if no dir needed.
pub fn system_sub_roms_dir(name: &str, data: &System) -> (r: Option<String>)
    ensures
        opt_view(r) == sub_roms_dir(name@, *data),
{
    match &data.path {
        Some(p) => {
            if starts_with_char(p.as_str(), '/') {
                None
            } else {
                Some(p.clone())
            }
        },
        None => Some(owned(name)),
    }
}

/// An optional text, or `default` when absent.
pub open spec fn or_default(o: Option<String>, default: Seq<char>) -> Seq<char> {
    match o {
        Some(s) => s@,
        None => default,
    }
}

pub(crate) fn text_or(o: &Option<String>, default: &str) -> (r: String)
    ensures
        r@ == or_default(*o, default@),
{
    match o {
        Some(s) => s.clone(),
        None => owned(default),
    }
}

/// The default command that launches a game.
pub open spec fn default_command() -> Seq<char> {
    "emulatorlauncher %CONTROLLERSCONFIG% -system %SYSTEM% -rom %ROM% -gameinfoxml %GAMEINFOXML% -systemname %SYSTEMNAME%"@
}

/// The extensions of a system as ".ext1 .ext2 ...", each also in upper case
/// when `upper`.
pub open spec fn extensions_text(exts: Seq<String>, upper: bool) -> Seq<char>
    decreases exts.len(),
{
    if exts.len() == 0 {
        Seq::empty()
    } else {
        let prev = extensions_text(exts.drop_last(), upper);
        let sep = if exts.len() > 1 { seq![' '] } else { Seq::empty() };
        prev + sep + seq!['.'] + lowercase(exts.last()@) + (if upper {
            " ."@ + uppercase(exts.last()@)
        } else {
            Seq::empty()
        })
    }
}

/// List extensions as ".ext1 .ext2 ..." string.
pub fn list_extensions(data: &System, uppercase: bool) -> (r: String)
    ensures
        r@ == extensions_text(data.extensions@, uppercase),
{
    let exts = &data.extensions;
    let mut result = String::new();
    let mut i: usize = 0;
    while i < exts.len()
        invariant
            i <= exts.len(),
            result@ == extensions_text(exts@.take(i as int), uppercase),
        decreases exts.len() - i,
    {
        proof {
            assert(exts@.take(i + 1).drop_last() =~= exts@.take(i as int));
            assert(exts@.take(i + 1).last() == exts@[i as int]);
        }
        let ghost before = result@;
        if i > 0 {
            push_char(&mut result, ' ');
        }
        push_char(&mut result, '.');
        let lower = to_lower(exts[i].as_str());
        result.append(lower.as_str());
        if uppercase {
            result.append(" .");
            result.append(to_upper(exts[i].as_str()).as_str());
        }
        proof {
            let sep = if i + 1 > 1 { seq![' '] } else { Seq::<char>::empty() };
            assert(result@ =~= before + sep + seq!['.'] + lowercase(exts@[i as int]@) + (if uppercase {
                " ."@ + crate::text::uppercase(exts@[i as int]@)
            } else {
                Seq::<char>::empty()
            }));
        }
        i = i + 1;
    }
    assert(exts@.take(exts.len() as int) =~= exts@);
    result
}

/// Incompatible extensions as ".a .b", lower case.
pub open spec fn dotted_lower(exts: Seq<String>) -> Seq<Seq<char>>
    decreases exts.len(),
{
    if exts.len() == 0 {
        Seq::empty()
    } else {
        dotted_lower(exts.drop_last()).push(seq!['.'] + lowercase(exts.last()@))
    }
}

pub(crate) fn dotted_lower_list(exts: &Vec<String>) -> (r: Vec<String>)
    ensures
        views(r@) == dotted_lower(exts@),
{
    let mut r: Vec<String> = Vec::new();
    let mut i: usize = 0;
    while i < exts.len()
        invariant
            i <= exts.len(),
            views(r@) == dotted_lower(exts@.take(i as int)),
        decreases exts.len() - i,
    {
        proof {
            assert(exts@.take(i + 1).drop_last() =~= exts@.take(i as int));
            assert(exts@.take(i + 1).last() == exts@[i as int]);
        }
        let mut s = String::new();
        push_char(&mut s, '.');
        s.append(to_lower(exts[i].as_str()).as_str());
        r.push(s);
        assert(views(r@) =~= dotted_lower(exts@.take(i + 1)));
        i = i + 1;
    }
    assert(exts@.take(exts.len() as int) =~= exts@);
    r
}

/// The incompatible_extensions attribute of a core, empty when it has none.
pub open spec fn incompatible_text(c: CoreReq) -> Seq<char> {
    if c.incompatible_extensions@.len() > 0 {
        " incompatible_extensions=\""@ + spec_join(dotted_lower(c.incompatible_extensions@), " "@) + "\""@
    } else {
        Seq::empty()
    }
}

/// Whether `emulator`/`core` is the system's default.
pub open spec fn is_default_core(
    emulator: Seq<char>,
    core: Seq<char>,
    default_emulator: Option<Seq<char>>,
    default_core: Option<Seq<char>>,
) -> bool {
    default_emulator == Some(emulator) && default_core == Some(core)
}

/// The `<core>` line of a core whose requirements are met.
pub open spec fn core_line(c: CoreReq, core: Seq<char>, is_default: bool) -> Seq<char> {
    if is_default {
        "                    <core default=\"true\""@ + incompatible_text(c) + ">"@ + core + "</core>\n"@
    } else {
        "                    <core"@ + incompatible_text(c) + ">"@ + core + "</core>\n"@
    }
}

/// The `<core>` lines of the cores named by `names` (in that order) whose
/// requirements `config` meets.
pub open spec fn core_lines(
    names: Seq<Seq<char>>,
    cores: Seq<(Seq<char>, CoreReq)>,
    config: Set<Seq<char>>,
    emulator: Seq<char>,
    default_emulator: Option<Seq<char>>,
    default_core: Option<Seq<char>>,
) -> Seq<char>
    decreases names.len(),
{
    if names.len() == 0 {
        Seq::empty()
    } else {
        let prev = core_lines(names.drop_last(), cores, config, emulator, default_emulator, default_core);
        match lookup(cores, names.last()) {
            Some(c) => if requirements_met(config, c.require_any_of@) {
                prev + core_line(c, names.last(), is_default_core(emulator, names.last(), default_emulator, default_core))
            } else {
                prev
            },
            None => prev,
        }
    }
}

/// The `<core>` lines of one emulator, cores in name order.
pub open spec fn emulator_core_lines(
    cores: Seq<(Seq<char>, CoreReq)>,
    config: Set<Seq<char>>,
    emulator: Seq<char>,
    default_emulator: Option<Seq<char>>,
    default_core: Option<Seq<char>>,
) -> Seq<char> {
    core_lines(sorted_strs(entry_keys(cores)), cores, config, emulator, default_emulator, default_core)
}

/// The `<emulator>` element of one emulator; empty when none of its cores is offered.
pub open spec fn emulator_block(
    cores: Seq<(Seq<char>, CoreReq)>,
    config: Set<Seq<char>>,
    emulator: Seq<char>,
    default_emulator: Option<Seq<char>>,
    default_core: Option<Seq<char>>,
) -> Seq<char> {
    let lines = emulator_core_lines(cores, config, emulator, default_emulator, default_core);
    if lines.len() == 0 {
        Seq::empty()
    } else {
        "            <emulator name=\""@ + emulator + "\">\n"@ + "                <cores>\n"@ + lines
            + "                </cores>\n"@ + "            </emulator>\n"@
    }
}

/// The `<emulator>` elements of the emulators named by `names`, in that order.
pub open spec fn emulator_blocks(
    names: Seq<Seq<char>>,
    emulators: Seq<(Seq<char>, IndexMap<String, CoreReq>)>,
    config: Set<Seq<char>>,
    default_emulator: Option<Seq<char>>,
    default_core: Option<Seq<char>>,
) -> Seq<char>
    decreases names.len(),
{
    if names.len() == 0 {
        Seq::empty()
    } else {
        let prev = emulator_blocks(names.drop_last(), emulators, config, default_emulator, default_core);
        match lookup(emulators, names.last()) {
            Some(m) => prev + emulator_block(core_req_entries(m), config, names.last(), default_emulator, default_core),
            None => prev,
        }
    }
}

/// The `<emulators>` block of a system; empty when it offers no emulator.
pub open spec fn emulators_text(
    data: System,
    config: Set<Seq<char>>,
    default_emulator: Option<Seq<char>>,
    default_core: Option<Seq<char>>,
) -> Seq<char> {
    let e = emulator_req_entries(data.emulators);
    let blocks = emulator_blocks(sorted_strs(entry_keys(e)), e, config, default_emulator, default_core);
    if blocks.len() == 0 {
        Seq::empty()
    } else {
        "        <emulators>\n"@ + blocks + "        </emulators>\n"@
    }
}

pub(crate) fn opt_ref_view_eq(o: Option<&String>, s: &str) -> (r: bool)
    ensures
        r == (match o {
            Some(x) => x@ == s@,
            None => false,
        }),
{
    match o {
        Some(x) => str_eq(x.as_str(), s),
        None => false,
    }
}

/// The view of an optional string reference.
pub open spec fn opt_ref_view(o: Option<&String>) -> Option<Seq<char>> {
    match o {
        Some(s) => Some(s@),
        None => None,
    }
}

fn gen_core_lines(
    cores: &IndexMap<String, CoreReq>,
    config: &NameSet,
    emulator: &str,
    default_emulator: Option<&String>,
    default_core: Option<&String>,
) -> (r: String)
    ensures
        r@ == emulator_core_lines(
            core_req_entries(*cores),
            config@,
            emulator@,
            opt_ref_view(default_emulator),
            opt_ref_view(default_core),
        ),
{
    let ghost ce = core_req_entries(*cores);
    let ghost de = opt_ref_view(default_emulator);
    let ghost dc = opt_ref_view(default_core);
    let names = sort_strings(core_names(cores));
    let ghost ns = sorted_strs(entry_keys(ce));
    let mut txt = String::new();
    let mut i: usize = 0;
    while i < names.len()
        invariant
            i <= names.len(),
            views(names@) == ns,
            ns == sorted_strs(entry_keys(ce)),
            ce == core_req_entries(*cores),
            de == opt_ref_view(default_emulator),
            dc == opt_ref_view(default_core),
            txt@ == core_lines(ns.take(i as int), ce, config@, emulator@, de, dc),
        decreases names.len() - i,
    {
        proof {
            assert(ns.take(i + 1).drop_last() =~= ns.take(i as int));
            assert(ns.take(i + 1).last() == ns[i as int]);
            assert(ns[i as int] == names@[i as int]@);
        }
        let core = &names[i];
        match core_reqs_get(cores, core.as_str()) {
            Some(core_data) => {
                if is_valid(config, core_data.require_any_of.as_slice()) {
                    let ghost before = txt@;
                    let mut incompatible = String::new();
                    if core_data.incompatible_extensions.len() > 0 {
                        let exts = dotted_lower_list(&core_data.incompatible_extensions);
                        incompatible.append(" incompatible_extensions=\"");
                        incompatible.append(join(&exts, " ").as_str());
                        incompatible.append("\"");
                    }
                    assert(incompatible@ =~= incompatible_text(*core_data));
                    let is_default = opt_ref_view_eq(default_emulator, emulator) && opt_ref_view_eq(
                        default_core,
                        core.as_str(),
                    );
                    if is_default {
                        txt.append("                    <core default=\"true\"");
                    } else {
                        txt.append("                    <core");
                    }
                    txt.append(incompatible.as_str());
                    txt.append(">");
                    txt.append(core.as_str());
                    txt.append("</core>\n");
                    proof {
                        assert(is_default == is_default_core(emulator@, core@, de, dc));
                        assert(txt@ =~= before + core_line(*core_data, core@, is_default));
                    }
                }
            },
            None => {},
        }
        i = i + 1;
    }
    assert(ns.take(names.len() as int) =~= ns);
    txt
}

/// Generate the <emulators> XML block for a system.
pub fn list_emulators(
    data: &System,
    config: &NameSet,
    default_emulator: Option<&String>,
    default_core: Option<&String>,
) -> (r: String)
    ensures
        r@ == emulators_text(*data, config@, opt_ref_view(default_emulator), opt_ref_view(default_core)),
{
    let ghost ee = emulator_req_entries(data.emulators);
    let ghost de = opt_ref_view(default_emulator);
    let ghost dc = opt_ref_view(default_core);
    let names = sort_strings(emulator_names(&data.emulators));
    let ghost ns = sorted_strs(entry_keys(ee));
    let mut emulators_txt = String::new();
    let mut i: usize = 0;
    while i < names.len()
        invariant
            i <= names.len(),
            views(names@) == ns,
            ns == sorted_strs(entry_keys(ee)),
            ee == emulator_req_entries(data.emulators),
            de == opt_ref_view(default_emulator),
            dc == opt_ref_view(default_core),
            emulators_txt@ == emulator_blocks(ns.take(i as int), ee, config@, de, dc),
        decreases names.len() - i,
    {
        proof {
            assert(ns.take(i + 1).drop_last() =~= ns.take(i as int));
            assert(ns.take(i + 1).last() == ns[i as int]);
            assert(ns[i as int] == names@[i as int]@);
        }
        let emulator = &names[i];
        match emulator_reqs_get(&data.emulators, emulator.as_str()) {
            Some(emulator_data) => {
                let cores_txt = gen_core_lines(emulator_data, config, emulator.as_str(), default_emulator, default_core);
                let ghost before = emulators_txt@;
                if cores_txt.as_str().is_empty() {
                    assert(emulators_txt@ =~= before + emulator_block(core_req_entries(*emulator_data), config@, emulator@, de, dc));
                } else {
                    emulators_txt.append("            <emulator name=\"");
                    emulators_txt.append(emulator.as_str());
                    emulators_txt.append("\">\n");
                    emulators_txt.append("                <cores>\n");
                    emulators_txt.append(cores_txt.as_str());
                    emulators_txt.append("                </cores>\n");
                    emulators_txt.append("            </emulator>\n");
                    assert(emulators_txt@ =~= before + emulator_block(core_req_entries(*emulator_data), config@, emulator@, de, dc));
                }
            },
            None => {},
        }
        i = i + 1;
    }
    assert(ns.take(names.len() as int) =~= ns);
    if emulators_txt.as_str().is_empty() {
        return String::new();
    }
    let mut result = owned("        <emulators>\n");
    result.append(emulators_txt.as_str());
    result.append("        </emulators>\n");
    result
}

/// Check if any emulator/core in this system has valid requirements.
pub open spec fn needs_folder(data: System, config: Set<Seq<char>>) -> bool {
    exists|i: int, j: int|
        0 <= i < emulator_req_entries(data.emulators).len() && 0 <= j < core_req_entries(
            #[trigger] emulator_req_entries(data.emulators)[i].1,
        ).len() && requirements_met(
            config,
            (#[trigger] core_req_entries(emulator_req_entries(data.emulators)[i].1)[j]).1.require_any_of@,
        )
}

/// Check if any emulator/core in this system has valid requirements.
///
/// A system gets a ROM folder exactly when its `<emulators>` block lists an
/// emulator, whatever its default emulator and core.
pub fn need_folder(data: &System, config: &NameSet) -> (r: bool)
    ensures
        r == needs_folder(*data, config@),
        forall|de: Option<Seq<char>>, dc: Option<Seq<char>>|
            r == (#[trigger] emulators_text(*data, config@, de, dc).len() > 0),
{
    let ghost ee = emulator_req_entries(data.emulators);
    let n = emulator_reqs_len(&data.emulators);
    let mut i: usize = 0;
    while i < n
        invariant
            i <= n,
            n == ee.len(),
            ee == emulator_req_entries(data.emulators),
            forall|a: int, b: int|
                0 <= a < i && 0 <= b < core_req_entries(#[trigger] ee[a].1).len() ==> !requirements_met(
                    config@,
                    (#[trigger] core_req_entries(ee[a].1)[b]).1.require_any_of@,
                ),
        decreases n - i,
    {
        let (_, emulator_data) = emulator_reqs_get_index(&data.emulators, i).unwrap();
        assert(forall|k: int| 0 <= k < ee.len() && k != i ==> ee[k].0 != ee[i as int].0);
        let ghost ce = core_req_entries(*emulator_data);
        let m = core_reqs_len(emulator_data);
        let mut j: usize = 0;
        while j < m
            invariant
                j <= m,
                m == ce.len(),
                i < n,
                *emulator_data == ee[i as int].1,
                n == ee.len(),
                forall|k: int| 0 <= k < ee.len() && k != i ==> ee[k].0 != ee[i as int].0,
                ee == emulator_req_entries(data.emulators),
                ce == core_req_entries(ee[i as int].1),
                forall|a: int, b: int|
                    0 <= a < i && 0 <= b < core_req_entries(#[trigger] ee[a].1).len() ==> !requirements_met(
                        config@,
                        (#[trigger] core_req_entries(ee[a].1)[b]).1.require_any_of@,
                    ),
                forall|b: int| 0 <= b < j ==> !requirements_met(config@, (#[trigger] ce[b]).1.require_any_of@),
            decreases m - j,
        {
            let (_, core_data) = core_reqs_get_index(emulator_data, j).unwrap();
            if is_valid(config, core_data.require_any_of.as_slice()) {
                assert(requirements_met(config@, core_req_entries(ee[i as int].1)[j as int].1.require_any_of@));
                proof {
                    assert forall|de: Option<Seq<char>>, dc: Option<Seq<char>>|
                        #[trigger] emulators_text(*data, config@, de, dc).len() > 0 by {
                        lemma_met_core_lists_emulators(*data, config@, de, dc, i as int, j as int);
                    }
                }
                return true;
            }
            j = j + 1;
        }
        i = i + 1;
    }
    proof {
        assert forall|de: Option<Seq<char>>, dc: Option<Seq<char>>|
            !(#[trigger] emulators_text(*data, config@, de, dc).len() > 0) by {
            lemma_listed_emulators_need_folder(*data, config@, de, dc);
        }
    }
    false
}


/// The lines of a system's element from `<fullname>` to `<hardware>`.
pub open spec fn system_head_text(name: Seq<char>, data: System) -> Seq<char> {
    "        <fullname>"@ + spec_escape(data.name@) + "</fullname>\n"@ + "        <name>"@ + name + "</name>\n"@
        + "        <manufacturer>"@ + spec_escape(data.manufacturer@) + "</manufacturer>\n"@ + "        <release>"@
        + spec_escape(yaml_text(data.release)) + "</release>\n"@ + "        <hardware>"@ + spec_escape(data.hardware@)
        + "</hardware>\n"@
}

/// The `<path>`, `<extension>` and `<command>` lines; none for a system
/// without extensions.
pub open spec fn launch_text(name: Seq<char>, data: System) -> Seq<char> {
    let path = system_path_text(name, data);
    let extensions = extensions_text(data.extensions@, false);
    if extensions.len() > 0 {
        (if path.len() > 0 {
            "        <path>"@ + path + "</path>\n"@
        } else {
            Seq::empty()
        }) + "        <extension>"@ + extensions + "</extension>\n"@ + "        <command>"@ + or_default(
            data.command,
            default_command(),
        ) + "</command>\n"@
    } else {
        Seq::empty()
    }
}

/// The group of a system, empty when it has none.
pub open spec fn group_of(data: System) -> Seq<char> {
    match data.group {
        Some(g) => g@,
        None => Seq::empty(),
    }
}

/// The `<platform>`, `<theme>` and `<group>` lines.
pub open spec fn look_text(name: Seq<char>, data: System) -> Seq<char> {
    let platform = or_default(data.platform, name);
    (if platform.len() > 0 {
        "        <platform>"@ + spec_escape(platform) + "</platform>\n"@
    } else {
        Seq::empty()
    }) + "        <theme>"@ + or_default(data.theme, name) + "</theme>\n"@ + (if group_of(data).len() > 0 {
        "        <group>"@ + spec_escape(group_of(data)) + "</group>\n"@
    } else {
        Seq::empty()
    })
}

/// The `<system>` element of a system; empty when it offers no emulator and
/// is not forced.
pub open spec fn system_text(
    name: Seq<char>,
    data: System,
    config: Set<Seq<char>>,
    default_emulator: Option<Seq<char>>,
    default_core: Option<Seq<char>>,
) -> Seq<char> {
    let emulators = emulators_text(data, config, default_emulator, default_core);
    if emulators.len() == 0 && !data.force {
        Seq::empty()
    } else {
        "  <system>\n"@ + system_head_text(name, data) + launch_text(name, data) + look_text(name, data) + emulators
            + "  </system>\n"@
    }
}

fn gen_system_head(name: &str, data: &System) -> (r: String)
    ensures
        r@ == system_head_text(name@, *data),
{
    let mut txt = String::new();
    txt.append("        <fullname>");
    txt.append(escape(data.name.as_str()).as_str());
    txt.append("</fullname>\n");
    txt.append("        <name>");
    txt.append(name);
    txt.append("</name>\n");
    txt.append("        <manufacturer>");
    txt.append(escape(data.manufacturer.as_str()).as_str());
    txt.append("</manufacturer>\n");
    txt.append("        <release>");
    txt.append(escape(yaml_value_to_string(&data.release).as_str()).as_str());
    txt.append("</release>\n");
    txt.append("        <hardware>");
    txt.append(escape(data.hardware.as_str()).as_str());
    txt.append("</hardware>\n");
    assert(txt@ =~= system_head_text(name@, *data));
    txt
}

fn gen_launch(name: &str, data: &System) -> (r: String)
    ensures
        r@ == launch_text(name@, *data),
{
    let path_value = system_path(name, data);
    let extensions = list_extensions(data, false);
    let mut txt = String::new();
    if !extensions.as_str().is_empty() {
        if !path_value.as_str().is_empty() {
            txt.append("        <path>");
            txt.append(path_value.as_str());
            txt.append("</path>\n");
        }
        let ghost t0 = txt@;
        let command = text_or(
            &data.command,
            "emulatorlauncher %CONTROLLERSCONFIG% -system %SYSTEM% -rom %ROM% -gameinfoxml %GAMEINFOXML% -systemname %SYSTEMNAME%",
        );
        txt.append("        <extension>");
        txt.append(extensions.as_str());
        txt.append("</extension>\n");
        txt.append("        <command>");
        txt.append(command.as_str());
        txt.append("</command>\n");
        assert(txt@ =~= t0 + "        <extension>"@ + extensions@ + "</extension>\n"@ + "        <command>"@ + command@
            + "</command>\n"@);
    }
    assert(txt@ =~= launch_text(name@, *data));
    txt
}

fn gen_look(name: &str, data: &System) -> (r: String)
    ensures
        r@ == look_text(name@, *data),
{
    let platform_value = text_or(&data.platform, name);
    let group_value = match &data.group {
        Some(g) => g.clone(),
        None => String::new(),
    };
    let mut txt = String::new();
    if !platform_value.as_str().is_empty() {
        txt.append("        <platform>");
        txt.append(escape(platform_value.as_str()).as_str());
        txt.append("</platform>\n");
    }
    let ghost t0 = txt@;
    txt.append("        <theme>");
    txt.append(text_or(&data.theme, name).as_str());
    txt.append("</theme>\n");
    let ghost t1 = txt@;
    if !group_value.as_str().is_empty() {
        txt.append("        <group>");
        txt.append(escape(group_value.as_str()).as_str());
        txt.append("</group>\n");
    }
    assert(txt@ =~= look_text(name@, *data));
    txt
}

/// Generate a single <system> XML block.
pub fn gen_system(
    name: &str,
    data: &System,
    config: &NameSet,
    default_emulator: Option<&String>,
    default_core: Option<&String>,
) -> (r: String)
    ensures
        r@ == system_text(name@, *data, config@, opt_ref_view(default_emulator), opt_ref_view(default_core)),
{
    let emulators_txt = list_emulators(data, config, default_emulator, default_core);
    if emulators_txt.as_str().is_empty() && !data.force {
        return String::new();
    }
    let mut txt = owned("  <system>\n");
    txt.append(gen_system_head(name, data).as_str());
    txt.append(gen_launch(name, data).as_str());
    txt.append(gen_look(name, data).as_str());
    txt.append(emulators_txt.as_str());
    txt.append("  </system>\n");
    assert(txt@ =~= system_text(name@, *data, config@, opt_ref_view(default_emulator), opt_ref_view(default_core)));
    txt
}

/// The default emulator of a system: the architecture's when it names one,
/// else the global one.
pub open spec fn default_emulator_of(
    name: Seq<char>,
    global: Seq<(Seq<char>, SystemDefault)>,
    arch: Seq<(Seq<char>, SystemDefault)>,
) -> Option<Seq<char>> {
    match lookup(arch, name) {
        Some(d) if d.emulator is Some => opt_view(d.emulator),
        _ => match lookup(global, name) {
            Some(d) => opt_view(d.emulator),
            None => None,
        },
    }
}

/// The default core of a system: the architecture's when it names one, else
/// the global one.
pub open spec fn default_core_of(
    name: Seq<char>,
    global: Seq<(Seq<char>, SystemDefault)>,
    arch: Seq<(Seq<char>, SystemDefault)>,
) -> Option<Seq<char>> {
    match lookup(arch, name) {
        Some(d) if d.core is Some => opt_view(d.core),
        _ => match lookup(global, name) {
            Some(d) => opt_view(d.core),
            None => None,
        },
    }
}

/// The `<system>` elements of the systems named by `names`, in that order.
pub open spec fn systems_text(
    names: Seq<Seq<char>>,
    systems: Seq<(Seq<char>, System)>,
    config: Set<Seq<char>>,
    global: Seq<(Seq<char>, SystemDefault)>,
    arch: Seq<(Seq<char>, SystemDefault)>,
) -> Seq<char>
    decreases names.len(),
{
    if names.len() == 0 {
        Seq::empty()
    } else {
        let prev = systems_text(names.drop_last(), systems, config, global, arch);
        let name = names.last();
        match lookup(systems, name) {
            Some(data) => prev + system_text(
                name,
                data,
                config,
                default_emulator_of(name, global, arch),
                default_core_of(name, global, arch),
            ),
            None => prev,
        }
    }
}

/// The es_systems.cfg document: systems in name order.
pub open spec fn systems_doc_text(
    systems: Seq<(Seq<char>, System)>,
    config: Set<Seq<char>>,
    global: Seq<(Seq<char>, SystemDefault)>,
    arch: Seq<(Seq<char>, SystemDefault)>,
) -> Seq<char> {
    "<?xml version=\"1.0\" encoding=\"UTF-8\" ?>\n"@ + "<systemList>\n"@ + systems_text(
        sorted_strs(entry_keys(systems)),
        systems,
        config,
        global,
        arch,
    ) + "</systemList>\n"@
}

pub(crate) fn pick_default<'a>(
    arch_default: Option<&'a SystemDefault>,
    global_default: Option<&'a SystemDefault>,
    want_core: bool,
) -> (r: Option<&'a String>)
    ensures
        opt_ref_view(r) == (match arch_default {
            Some(d) if (if want_core { d.core is Some } else { d.emulator is Some }) => if want_core {
                opt_view(d.core)
            } else {
                opt_view(d.emulator)
            },
            _ => match global_default {
                Some(d) => if want_core {
                    opt_view(d.core)
                } else {
                    opt_view(d.emulator)
                },
                None => None,
            },
        }),
{
    let from_arch = match arch_default {
        Some(d) => if want_core {
            d.core.as_ref()
        } else {
            d.emulator.as_ref()
        },
        None => None,
    };
    match from_arch {
        Some(v) => Some(v),
        None => match global_default {
            Some(d) => if want_core {
                d.core.as_ref()
            } else {
                d.emulator.as_ref()
            },
            None => None,
        },
    }
}

/// Generate the complete es_systems.cfg XML content.
pub fn generate(
    systems: &IndexMap<String, System>,
    config: &NameSet,
    systems_config: &IndexMap<String, SystemDefault>,
    arch_systems_config: &IndexMap<String, SystemDefault>,
) -> (r: String)
    ensures
        r@ == systems_doc_text(
            system_entries(*systems),
            config@,
            default_entries(*systems_config),
            default_entries(*arch_systems_config),
        ),
{
    let ghost se = system_entries(*systems);
    let ghost ge = default_entries(*systems_config);
    let ghost ae = default_entries(*arch_systems_config);
    let mut xml = String::new();
    xml.append("<?xml version=\"1.0\" encoding=\"UTF-8\" ?>\n");
    xml.append("<systemList>\n");
    let ghost head = xml@;
    let names = sort_strings(system_names(systems));
    let ghost ns = sorted_strs(entry_keys(se));
    let mut i: usize = 0;
    while i < names.len()
        invariant
            i <= names.len(),
            views(names@) == ns,
            ns == sorted_strs(entry_keys(se)),
            se == system_entries(*systems),
            ge == default_entries(*systems_config),
            ae == default_entries(*arch_systems_config),
            xml@ == head + systems_text(ns.take(i as int), se, config@, ge, ae),
        decreases names.len() - i,
    {
        proof {
            assert(ns.take(i + 1).drop_last() =~= ns.take(i as int));
            assert(ns.take(i + 1).last() == ns[i as int]);
            assert(ns[i as int] == names@[i as int]@);
        }
        let name = &names[i];
        match systems_get(systems, name.as_str()) {
            Some(data) => {
                let arch_default = defaults_get(arch_systems_config, name.as_str());
                let global_default = defaults_get(systems_config, name.as_str());
                let default_emulator = pick_default(arch_default, global_default, false);
                let default_core = pick_default(arch_default, global_default, true);
                proof {
                    assert(opt_ref_view(default_emulator) == default_emulator_of(name@, ge, ae));
                    assert(opt_ref_view(default_core) == default_core_of(name@, ge, ae));
                }
                let t = gen_system(name.as_str(), data, config, default_emulator, default_core);
                xml.append(t.as_str());
                proof {
                    assert(xml@ =~= head + systems_text(ns.take(i + 1), se, config@, ge, ae));
                }
            },
            None => {},
        }
        i = i + 1;
    }
    xml.append("</systemList>\n");
    proof {
        assert(ns.take(names.len() as int) =~= ns);
        assert(xml@ =~= systems_doc_text(se, config@, ge, ae));
    }
    xml
}


/// Each system in name order, with whether it gets a ROM folder.
pub open spec fn folder_plan_spec(
    names: Seq<Seq<char>>,
    systems: Seq<(Seq<char>, System)>,
    config: Set<Seq<char>>,
) -> Seq<(Seq<char>, bool)>
    decreases names.len(),
{
    if names.len() == 0 {
        Seq::empty()
    } else {
        let prev = folder_plan_spec(names.drop_last(), systems, config);
        match lookup(systems, names.last()) {
            Some(data) => prev.push((names.last(), needs_folder(data, config))),
            None => prev,
        }
    }
}

/// The systems in name order, each with whether it needs a ROM folder.
pub fn folder_plan(systems: &IndexMap<String, System>, config: &NameSet) -> (r: Vec<(String, bool)>)
    ensures
        r@.map_values(|x: (String, bool)| (x.0@, x.1)) == folder_plan_spec(
            sorted_strs(entry_keys(system_entries(*systems))),
            system_entries(*systems),
            config@,
        ),
{
    let ghost se = system_entries(*systems);
    let names = sort_strings(system_names(systems));
    let ghost ns = sorted_strs(entry_keys(se));
    let mut plan: Vec<(String, bool)> = Vec::new();
    let mut i: usize = 0;
    while i < names.len()
        invariant
            i <= names.len(),
            views(names@) == ns,
            ns == sorted_strs(entry_keys(se)),
            se == system_entries(*systems),
            plan@.map_values(|x: (String, bool)| (x.0@, x.1)) == folder_plan_spec(ns.take(i as int), se, config@),
        decreases names.len() - i,
    {
        proof {
            assert(ns.take(i + 1).drop_last() =~= ns.take(i as int));
            assert(ns.take(i + 1).last() == ns[i as int]);
            assert(ns[i as int] == names@[i as int]@);
        }
        let name = &names[i];
        match systems_get(systems, name.as_str()) {
            Some(data) => {
                let need = need_folder(data, config);
                let ghost before = plan@;
                plan.push((name.clone(), need));
                proof {
                    assert(plan@.map_values(|x: (String, bool)| (x.0@, x.1)) =~= before.map_values(
                        |x: (String, bool)| (x.0@, x.1),
                    ).push((name@, need)));
                }
            },
            None => {},
        }
        i = i + 1;
    }
    assert(ns.take(names.len() as int) =~= ns);
    plan
}

} // verus!
