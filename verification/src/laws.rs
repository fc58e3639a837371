//! Properties of the library as a whole, proved over the spec functions that
//! the generators' contracts use.
use vstd::prelude::*;

use crate::ordered::without_listed;
use crate::requirements::item_met;
use crate::requirements::requirements_met;
use crate::models::RequirementItem;
use crate::translate::Record;
use crate::translations::translation_body;
use crate::translations::translations_header;
use crate::xml::escape_char;
use crate::xml::spec_escape;
use crate::generate_systems::core_line;
use crate::generate_systems::core_lines;
use crate::generate_systems::emulator_block;
use crate::generate_systems::emulator_blocks;
use crate::generate_systems::emulator_core_lines;
use crate::generate_systems::emulators_text;
use crate::generate_systems::entry_keys;
use crate::generate_systems::is_default_core;
use crate::generate_systems::needs_folder;
use crate::models::CoreReq;
use crate::models::System;
use crate::ordered::core_req_entries;
use crate::ordered::emulator_req_entries;
use crate::ordered::key_position;
use crate::ordered::lemma_key_position;
use crate::ordered::lookup;
use crate::text::insert_sorted;
use crate::text::sorted_strs;
use indexmap::IndexMap;
use crate::generate_json::order_ok;
use crate::generate_json::OrderJson;
use crate::models::YamlValue;
use crate::generate_json::met_cores;
use crate::generate_features::opt_attr;
use crate::generate_features::order_attr;
use crate::generate_json::offered;
use crate::generate_json::defs_opt_ok;
use crate::generate_json::defs_ok;
use crate::generate_json::emulator_json_ok;
use crate::generate_json::core_json_ok;
use crate::generate_json::system_json_ok;
use crate::generate_json::EmulatorFeaturesJson;
use crate::generate_json::CoreFeaturesJson;
use crate::generate_json::SystemFeaturesJson;
use crate::generate_systems::sub_roms_dir;
use crate::generate_systems::system_path_text;
use crate::roms::info_text;
use crate::text::uppercase;
use crate::generate_systems::system_head_text;
use crate::generate_systems::launch_text;
use crate::generate_systems::look_text;
use crate::generate_systems::extensions_text;
use crate::generate_systems::dotted_lower;
use crate::generate_json::system_json_entry_ok;
use crate::generate_json::SystemJson;
use crate::generate_json::offered_cores;
use crate::generate_json::feature_json_ok;
use crate::generate_json::FeatureJson;
use crate::generate_features::choices_text;
use crate::generate_features::feature_open_text;
use crate::generate_features::feature_text;
use crate::text::spaces;
use crate::generate_json::offering_emulators;
use crate::generate_systems::system_text;
use crate::text::all_digits;
use crate::text::decimal;
use crate::text::digit_char;
use crate::text::digits_value;
use crate::text::nat_digits;
use crate::text::parse_i64_spec;
use crate::generate_features::cfeatures_uses;
use crate::generate_features::choice_uses;
use crate::generate_features::core_has_content;
use crate::generate_features::core_uses;
use crate::generate_features::cores_uses;
use crate::generate_features::description_of;
use crate::generate_features::emulator_has_content;
use crate::generate_features::emulator_uses;
use crate::generate_features::emulators_uses;
use crate::generate_features::feature_uses;
use crate::generate_features::systems_uses;
use crate::models::CoreFeatures;
use crate::models::CustomFeature;
use crate::models::EmulatorFeatures;
use crate::models::SystemFeatures;
use crate::ordered::cfeature_entries;
use crate::ordered::choice_entries;
use crate::ordered::core_feature_entries;
use crate::ordered::system_feature_entries;
use crate::requirements::arch_ok;
use crate::translate::add_use;
use crate::translate::add_uses;
use crate::translate::Place;
use crate::translations::all_uses;
use crate::translations::cfeatures_all_uses;
use crate::translations::core_all_uses;
use crate::translations::cores_all_uses;
use crate::translations::emulator_all_uses;
use crate::translations::feature_all_uses;
use crate::translations::opt_use;
use crate::translations::systems_all_uses;

verus! {

proof fn lemma_escape_char_safe(c: char)
    ensures
        !escape_char(c).contains('<'),
        !escape_char(c).contains('>'),
        !escape_char(c).contains('"'),
        !escape_char(c).contains('\n'),
{
    reveal_strlit("&amp;");
    reveal_strlit("&lt;");
    reveal_strlit("&gt;");
    reveal_strlit("&quot;");
    reveal_strlit("&#x0a;");
    let e = escape_char(c);
    assert forall|i: int| 0 <= i < e.len() implies e[i] != '<' && e[i] != '>' && e[i] != '"' && e[i] != '\n' by {}
}

/// Escaped text holds no `<`, `>`, `"` or line feed, so it can stand in an
/// XML element or a quoted attribute.
pub proof fn lemma_escape_is_safe(s: Seq<char>)
    ensures
        !spec_escape(s).contains('<'),
        !spec_escape(s).contains('>'),
        !spec_escape(s).contains('"'),
        !spec_escape(s).contains('\n'),
    decreases s.len(),
{
    if s.len() > 0 {
        lemma_escape_is_safe(s.drop_last());
        lemma_escape_char_safe(s.last());
        let a = spec_escape(s.drop_last());
        let b = escape_char(s.last());
        assert forall|i: int| 0 <= i < (a + b).len() implies (a + b)[i] != '<' && (a + b)[i] != '>' && (a + b)[i]
            != '"' && (a + b)[i] != '\n' by {
            if i < a.len() {
                assert((a + b)[i] == a[i]);
            } else {
                assert((a + b)[i] == b[i - a.len()]);
            }
        }
    }
}

/// Text without `&`, `<`, `>`, `"` or line feeds is left as it is.
pub proof fn lemma_escape_keeps_plain_text(s: Seq<char>)
    requires
        forall|i: int|
            0 <= i < s.len() ==> #[trigger] s[i] != '&' && s[i] != '<' && s[i] != '>' && s[i] != '"' && s[i] != '\n',
    ensures
        spec_escape(s) == s,
    decreases s.len(),
{
    if s.len() > 0 {
        lemma_escape_keeps_plain_text(s.drop_last());
        assert(s.drop_last().push(s.last()) =~= s);
    } else {
        assert(s =~= Seq::<char>::empty());
    }
}

proof fn lemma_escape_append(a: Seq<char>, b: Seq<char>)
    ensures
        spec_escape(a + b) == spec_escape(a) + spec_escape(b),
    decreases b.len(),
{
    if b.len() == 0 {
        assert(a + b =~= a);
        assert(spec_escape(a) + spec_escape(b) =~= spec_escape(a));
    } else {
        lemma_escape_append(a, b.drop_last());
        assert((a + b).drop_last() =~= a + b.drop_last());
        assert((a + b).last() == b.last());
        assert(spec_escape(a + b) =~= spec_escape(a) + spec_escape(b.drop_last()) + escape_char(b.last()));
    }
}

proof fn lemma_escape_front(s: Seq<char>)
    requires
        s.len() > 0,
    ensures
        spec_escape(s) == escape_char(s[0]) + spec_escape(s.drop_first()),
{
    assert(s =~= seq![s[0]] + s.drop_first());
    lemma_escape_append(seq![s[0]], s.drop_first());
    let one = seq![s[0]];
    assert(one.drop_last() =~= Seq::<char>::empty());
    assert(one.last() == s[0]);
    assert(spec_escape(one.drop_last()) =~= Seq::<char>::empty());
    assert(spec_escape(one) == spec_escape(one.drop_last()) + escape_char(one.last()));
    assert(spec_escape(one) =~= escape_char(s[0]));
}

proof fn lemma_escape_char_prefix(c1: char, c2: char, t: Seq<char>)
    requires
        escape_char(c1).len() <= t.len(),
        escape_char(c2).len() <= t.len(),
        t.take(escape_char(c1).len() as int) == escape_char(c1),
        t.take(escape_char(c2).len() as int) == escape_char(c2),
    ensures
        c1 == c2,
{
    reveal_strlit("&amp;");
    reveal_strlit("&lt;");
    reveal_strlit("&gt;");
    reveal_strlit("&quot;");
    reveal_strlit("&#x0a;");
    let e1 = escape_char(c1);
    let e2 = escape_char(c2);
    assert(t[0] == e1[0]);
    assert(t[0] == e2[0]);
    if e1.len() > 1 && e2.len() > 1 {
        assert(t[1] == e1[1]);
        assert(t[1] == e2[1]);
    }
}

/// Escaping loses nothing: two texts with the same escaped form are equal.
pub proof fn lemma_escape_injective(a: Seq<char>, b: Seq<char>)
    requires
        spec_escape(a) == spec_escape(b),
    ensures
        a == b,
    decreases a.len(),
{
    reveal_strlit("&amp;");
    reveal_strlit("&lt;");
    reveal_strlit("&gt;");
    reveal_strlit("&quot;");
    reveal_strlit("&#x0a;");
    if a.len() == 0 {
        if b.len() > 0 {
            lemma_escape_front(b);
            assert(escape_char(b[0]).len() > 0);
            assert(false);
        }
        assert(a =~= b);
    } else {
        lemma_escape_front(a);
        if b.len() == 0 {
            assert(escape_char(a[0]).len() > 0);
            assert(spec_escape(a).len() > 0);
            assert(false);
        }
        lemma_escape_front(b);
        let t = spec_escape(a);
        let e1 = escape_char(a[0]);
        let e2 = escape_char(b[0]);
        assert(t.take(e1.len() as int) =~= e1);
        assert(t.take(e2.len() as int) =~= e2);
        lemma_escape_char_prefix(a[0], b[0], t);
        assert(spec_escape(a.drop_first()) =~= t.skip(e1.len() as int));
        assert(spec_escape(b.drop_first()) =~= t.skip(e2.len() as int));
        lemma_escape_injective(a.drop_first(), b.drop_first());
        assert(a =~= seq![a[0]] + a.drop_first());
        assert(b =~= seq![b[0]] + b.drop_first());
    }
}

/// Enabling more packages never turns a core off: requirements met by a set
/// of packages are met by any larger set.
pub proof fn lemma_requirements_monotone(small: Set<Seq<char>>, large: Set<Seq<char>>, reqs: Seq<RequirementItem>)
    requires
        small.subset_of(large),
        requirements_met(small, reqs),
    ensures
        requirements_met(large, reqs),
{
    if reqs.len() > 0 {
        let i = choose|i: int| 0 <= i < reqs.len() && item_met(small, #[trigger] reqs[i]);
        match reqs[i] {
            RequirementItem::Single(s) => {
                assert(item_met(large, reqs[i]));
            },
            RequirementItem::Group(g) => {
                let j = choose|j: int| 0 <= j < g@.len() && small.contains(#[trigger] g@[j]@);
                assert(large.contains(g@[j]@));
                assert(item_met(large, reqs[i]));
            },
        }
    }
}

/// Without any enabled package every requirement gate fails closed: only a
/// core that requires nothing is offered.
pub proof fn lemma_requirements_fail_closed(reqs: Seq<RequirementItem>)
    ensures
        requirements_met(Set::empty(), reqs) <==> reqs.len() == 0,
{
    if reqs.len() > 0 && requirements_met(Set::empty(), reqs) {
        let i = choose|i: int| 0 <= i < reqs.len() && item_met(Set::empty(), #[trigger] reqs[i]);
        match reqs[i] {
            RequirementItem::Single(s) => {},
            RequirementItem::Group(g) => {
                let j = choose|j: int| 0 <= j < g@.len() && Set::<Seq<char>>::empty().contains(#[trigger] g@[j]@);
            },
        }
    }
}

proof fn lemma_body_without_listed(e: Record, blacklist: Set<Seq<char>>)
    ensures
        translation_body(without_listed(e, blacklist), blacklist) == translation_body(e, blacklist),
    decreases e.len(),
{
    if e.len() > 0 {
        lemma_body_without_listed(e.drop_last(), blacklist);
        if !blacklist.contains(e.last().0) {
            let w = without_listed(e.drop_last(), blacklist);
            assert(without_listed(e, blacklist).drop_last() =~= w);
        }
    }
}

/// Removing the blacklisted texts first does not change the translations
/// header, which leaves them out anyway.
pub proof fn lemma_header_ignores_removed(e: Record, blacklist: Set<Seq<char>>)
    ensures
        translations_header(without_listed(e, blacklist), blacklist) == translations_header(e, blacklist),
{
    lemma_body_without_listed(e, blacklist);
}


proof fn lemma_insert_sorted_contains(s: Seq<Seq<char>>, x: Seq<char>, y: Seq<char>)
    ensures
        insert_sorted(s, x).contains(y) <==> (y == x || s.contains(y)),
    decreases s.len(),
{
    if s.len() > 0 {
        lemma_insert_sorted_contains(s.drop_first(), x, y);
        let r = insert_sorted(s, x);
        if crate::text::seq_lt(s[0], x) {
            let t = insert_sorted(s.drop_first(), x);
            assert(r == seq![s[0]] + t);
            if t.contains(y) {
                let k = choose|k: int| 0 <= k < t.len() && t[k] == y;
                assert(r[k + 1] == y);
            }
            if r.contains(y) {
                let k = choose|k: int| 0 <= k < r.len() && r[k] == y;
                if k > 0 {
                    assert(t[k - 1] == y);
                } else {
                    assert(s[0] == y);
                }
            }
            if s.contains(y) {
                let k = choose|k: int| 0 <= k < s.len() && s[k] == y;
                if k > 0 {
                    assert(s.drop_first()[k - 1] == y);
                } else {
                    assert(r[0] == y);
                }
            }
            if s.drop_first().contains(y) {
                let k = choose|k: int| 0 <= k < s.drop_first().len() && s.drop_first()[k] == y;
                assert(s[k + 1] == y);
            }
        } else {
            assert(r == seq![x] + s);
            if r.contains(y) {
                let k = choose|k: int| 0 <= k < r.len() && r[k] == y;
                if k > 0 {
                    assert(s[k - 1] == y);
                }
            }
            if s.contains(y) {
                let k = choose|k: int| 0 <= k < s.len() && s[k] == y;
                assert(r[k + 1] == y);
            }
            assert(r[0] == x);
        }
    } else {
        assert(insert_sorted(s, x) == seq![x]);
        assert(seq![x][0] == x);
    }
}

/// Sorting keeps exactly the elements it was given.
pub proof fn lemma_sorted_contains(s: Seq<Seq<char>>, y: Seq<char>)
    ensures
        sorted_strs(s).contains(y) <==> s.contains(y),
    decreases s.len(),
{
    if s.len() > 0 {
        lemma_sorted_contains(s.drop_last(), y);
        lemma_insert_sorted_contains(sorted_strs(s.drop_last()), s.last(), y);
        if s.contains(y) {
            let k = choose|k: int| 0 <= k < s.len() && s[k] == y;
            if k < s.len() - 1 {
                assert(s.drop_last()[k] == y);
            }
        }
        if s.drop_last().contains(y) {
            let k = choose|k: int| 0 <= k < s.drop_last().len() && s.drop_last()[k] == y;
            assert(s[k] == y);
        }
    }
}

proof fn lemma_lookup_of_key<V>(e: Seq<(Seq<char>, V)>, i: int)
    requires
        0 <= i < e.len(),
        forall|j: int| 0 <= j < e.len() && j != i ==> e[j].0 != e[i].0,
    ensures
        lookup(e, e[i].0) == Some(e[i].1),
{
    let k = e[i].0;
    lemma_key_position(e, k);
    let p = key_position(e, k);
    assert(p >= 0);
    assert(e[p].0 == k);
}

proof fn lemma_lookup_is_entry<V>(e: Seq<(Seq<char>, V)>, k: Seq<char>)
    requires
        lookup(e, k) is Some,
    ensures
        exists|i: int| 0 <= i < e.len() && e[i].0 == k && lookup(e, k) == Some(#[trigger] e[i].1),
{
    lemma_key_position(e, k);
    let p = key_position(e, k);
    assert(e[p].0 == k);
}

/// Whether the core `n` of `cores` is offered with the packages `config`.
pub open spec fn core_offered(cores: Seq<(Seq<char>, CoreReq)>, config: Set<Seq<char>>, n: Seq<char>) -> bool {
    match lookup(cores, n) {
        Some(c) => requirements_met(config, c.require_any_of@),
        None => false,
    }
}

proof fn lemma_core_lines_nonempty(
    names: Seq<Seq<char>>,
    cores: Seq<(Seq<char>, CoreReq)>,
    config: Set<Seq<char>>,
    emulator: Seq<char>,
    de: Option<Seq<char>>,
    dc: Option<Seq<char>>,
)
    ensures
        core_lines(names, cores, config, emulator, de, dc).len() > 0 <==> exists|k: int|
            0 <= k < names.len() && core_offered(cores, config, #[trigger] names[k]),
    decreases names.len(),
{
    if names.len() > 0 {
        let prev = names.drop_last();
        lemma_core_lines_nonempty(prev, cores, config, emulator, de, dc);
        reveal_strlit("</core>\n");
        if exists|k: int| 0 <= k < prev.len() && core_offered(cores, config, #[trigger] prev[k]) {
            let k = choose|k: int| 0 <= k < prev.len() && core_offered(cores, config, #[trigger] prev[k]);
            assert(names[k] == prev[k]);
        }
        if exists|k: int| 0 <= k < names.len() && core_offered(cores, config, #[trigger] names[k]) {
            let k = choose|k: int| 0 <= k < names.len() && core_offered(cores, config, #[trigger] names[k]);
            if k < prev.len() {
                assert(prev[k] == names[k]);
            }
        }
        match lookup(cores, names.last()) {
            Some(c) => {
                let line = core_line(c, names.last(), is_default_core(emulator, names.last(), de, dc));
                assert(line.len() > 0);
            },
            None => {},
        }
    }
}

/// Whether the emulator `n` of a system offers a core with the packages `config`.
pub open spec fn emulator_offered(
    emus: Seq<(Seq<char>, IndexMap<String, CoreReq>)>,
    config: Set<Seq<char>>,
    n: Seq<char>,
) -> bool {
    match lookup(emus, n) {
        Some(m) => cores_offered(m, config),
        None => false,
    }
}

/// Whether one of the cores `m` is offered with the packages `config`.
pub open spec fn cores_offered(m: IndexMap<String, CoreReq>, config: Set<Seq<char>>) -> bool {
    exists|k: int|
        0 <= k < entry_keys(core_req_entries(m)).len() && core_offered(
            core_req_entries(m),
            config,
            #[trigger] entry_keys(core_req_entries(m))[k],
        )
}

proof fn lemma_emulator_blocks_nonempty(
    names: Seq<Seq<char>>,
    emus: Seq<(Seq<char>, IndexMap<String, CoreReq>)>,
    config: Set<Seq<char>>,
    de: Option<Seq<char>>,
    dc: Option<Seq<char>>,
)
    ensures
        emulator_blocks(names, emus, config, de, dc).len() > 0 <==> exists|k: int|
            0 <= k < names.len() && emulator_offered(emus, config, #[trigger] names[k]),
    decreases names.len(),
{
    if names.len() > 0 {
        let prev = names.drop_last();
        lemma_emulator_blocks_nonempty(prev, emus, config, de, dc);
        if exists|k: int| 0 <= k < prev.len() && emulator_offered(emus, config, #[trigger] prev[k]) {
            let k = choose|k: int| 0 <= k < prev.len() && emulator_offered(emus, config, #[trigger] prev[k]);
            assert(names[k] == prev[k]);
        }
        if exists|k: int| 0 <= k < names.len() && emulator_offered(emus, config, #[trigger] names[k]) {
            let k = choose|k: int| 0 <= k < names.len() && emulator_offered(emus, config, #[trigger] names[k]);
            if k < prev.len() {
                assert(prev[k] == names[k]);
            }
        }
        let n = names.last();
        match lookup(emus, n) {
            Some(m) => {
                let ce = core_req_entries(m);
                let sorted = sorted_strs(entry_keys(ce));
                lemma_core_lines_nonempty(sorted, ce, config, n, de, dc);
                reveal_strlit("            </emulator>\n");
                if exists|k: int| 0 <= k < sorted.len() && core_offered(ce, config, #[trigger] sorted[k]) {
                    let k = choose|k: int| 0 <= k < sorted.len() && core_offered(ce, config, #[trigger] sorted[k]);
                    lemma_sorted_contains(entry_keys(ce), sorted[k]);
                    assert(sorted.contains(sorted[k]));
                    let j = choose|j: int| 0 <= j < entry_keys(ce).len() && entry_keys(ce)[j] == sorted[k];
                    assert(core_offered(ce, config, entry_keys(ce)[j]));
                }
                if exists|k: int| 0 <= k < entry_keys(ce).len() && core_offered(ce, config, #[trigger] entry_keys(ce)[k]) {
                    let k = choose|k: int| 0 <= k < entry_keys(ce).len() && core_offered(ce, config, #[trigger] entry_keys(ce)[k]);
                    lemma_sorted_contains(entry_keys(ce), entry_keys(ce)[k]);
                    assert(entry_keys(ce).contains(entry_keys(ce)[k]));
                    let j = choose|j: int| 0 <= j < sorted.len() && sorted[j] == entry_keys(ce)[k];
                    assert(core_offered(ce, config, sorted[j]));
                }
                let lines = emulator_core_lines(ce, config, n, de, dc);
                assert(lines.len() > 0 ==> emulator_block(ce, config, n, de, dc).len() > 0);
            },
            None => {},
        }
    }
}

/// A core whose requirements `config` meets makes the system's `<emulators>`
/// block list an emulator, when its emulator's name and its own name each
/// occur once in their maps (as in any map).
pub proof fn lemma_met_core_lists_emulators(
    data: System,
    config: Set<Seq<char>>,
    default_emulator: Option<Seq<char>>,
    default_core: Option<Seq<char>>,
    i: int,
    j: int,
)
    requires
        0 <= i < emulator_req_entries(data.emulators).len(),
        forall|k: int|
            0 <= k < emulator_req_entries(data.emulators).len() && k != i ==> emulator_req_entries(data.emulators)[k].0
                != emulator_req_entries(data.emulators)[i].0,
        0 <= j < core_req_entries(emulator_req_entries(data.emulators)[i].1).len(),
        forall|k: int|
            0 <= k < core_req_entries(emulator_req_entries(data.emulators)[i].1).len() && k != j ==> core_req_entries(
                emulator_req_entries(data.emulators)[i].1,
            )[k].0 != core_req_entries(emulator_req_entries(data.emulators)[i].1)[j].0,
        requirements_met(config, core_req_entries(emulator_req_entries(data.emulators)[i].1)[j].1.require_any_of@),
    ensures
        emulators_text(data, config, default_emulator, default_core).len() > 0,
{
    let ee = emulator_req_entries(data.emulators);
    let sorted = sorted_strs(entry_keys(ee));
    lemma_emulator_blocks_nonempty(sorted, ee, config, default_emulator, default_core);
    reveal_strlit("        </emulators>\n");
    let ce = core_req_entries(ee[i].1);
    lemma_lookup_of_key(ee, i);
    lemma_lookup_of_key(ce, j);
    assert(entry_keys(ce).len() == ce.len());
    assert(entry_keys(ce)[j] == ce[j].0);
    assert(core_offered(ce, config, entry_keys(ce)[j]));
    assert(lookup(ee, ee[i].0) == Some(ee[i].1));
    assert(cores_offered(ee[i].1, config));
    assert(emulator_offered(ee, config, ee[i].0));
    lemma_sorted_contains(entry_keys(ee), ee[i].0);
    assert(entry_keys(ee)[i] == ee[i].0);
    let k = choose|k: int| 0 <= k < sorted.len() && sorted[k] == ee[i].0;
    assert(emulator_offered(ee, config, sorted[k]));
}

/// An `<emulators>` block that lists an emulator comes from a core whose
/// requirements `config` meets, so the system gets a ROM folder.
pub proof fn lemma_listed_emulators_need_folder(
    data: System,
    config: Set<Seq<char>>,
    default_emulator: Option<Seq<char>>,
    default_core: Option<Seq<char>>,
)
    ensures
        emulators_text(data, config, default_emulator, default_core).len() > 0 ==> needs_folder(data, config),
{
    let ee = emulator_req_entries(data.emulators);
    let sorted = sorted_strs(entry_keys(ee));
    lemma_emulator_blocks_nonempty(sorted, ee, config, default_emulator, default_core);
    reveal_strlit("        </emulators>\n");
    if emulators_text(data, config, default_emulator, default_core).len() > 0 {
        let k = choose|k: int| 0 <= k < sorted.len() && emulator_offered(ee, config, #[trigger] sorted[k]);
        let n = sorted[k];
        lemma_lookup_is_entry(ee, n);
        let i = choose|i: int| 0 <= i < ee.len() && ee[i].0 == n && lookup(ee, n) == Some(#[trigger] ee[i].1);
        let ce = core_req_entries(ee[i].1);
        let k2 = choose|k2: int| 0 <= k2 < entry_keys(ce).len() && core_offered(ce, config, #[trigger] entry_keys(ce)[k2]);
        let cn = entry_keys(ce)[k2];
        lemma_lookup_is_entry(ce, cn);
        let j = choose|j: int| 0 <= j < ce.len() && ce[j].0 == cn && lookup(ce, cn) == Some(#[trigger] ce[j].1);
        assert(requirements_met(config, core_req_entries(ee[i].1)[j].1.require_any_of@));
    }
}

/// Every use in `a` with a non-empty text is also in `b`.
pub open spec fn covered(a: Seq<(Seq<char>, Place)>, b: Seq<(Seq<char>, Place)>) -> bool {
    forall|i: int| 0 <= i < a.len() ==> (#[trigger] a[i]).0.len() == 0 || b.contains(a[i])
}

proof fn lemma_covered_concat(
    a1: Seq<(Seq<char>, Place)>,
    b1: Seq<(Seq<char>, Place)>,
    a2: Seq<(Seq<char>, Place)>,
    b2: Seq<(Seq<char>, Place)>,
)
    requires
        covered(a1, b1),
        covered(a2, b2),
    ensures
        covered(a1 + a2, b1 + b2),
{
    assert forall|i: int| 0 <= i < (a1 + a2).len() implies (#[trigger] (a1 + a2)[i]).0.len() == 0 || (b1
        + b2).contains((a1 + a2)[i]) by {
        if i < a1.len() {
            assert((a1 + a2)[i] == a1[i]);
            if b1.contains(a1[i]) {
                let k = choose|k: int| 0 <= k < b1.len() && b1[k] == a1[i];
                assert((b1 + b2)[k] == b1[k]);
            }
        } else {
            assert((a1 + a2)[i] == a2[i - a1.len()]);
            if b2.contains(a2[i - a1.len()]) {
                let k = choose|k: int| 0 <= k < b2.len() && b2[k] == a2[i - a1.len()];
                assert((b1 + b2)[k + b1.len()] == b2[k]);
            }
        }
    }
}

proof fn lemma_covered_empty(b: Seq<(Seq<char>, Place)>)
    ensures
        covered(Seq::empty(), b),
{
}

proof fn lemma_feature_covered(f: CustomFeature, place: Place)
    ensures
        covered(feature_uses(f, place), feature_all_uses(f, place)),
{
    let all = feature_all_uses(f, place);
    let head = opt_use(f.description, place) + opt_use(f.submenu, place) + opt_use(f.group, place);
    let choices = choice_uses(choice_entries(f.choices), place);
    assert(all == head + seq![(f.prompt@, place)] + choices);
    let p: int = head.len() as int;
    assert(all[p] == (f.prompt@, place));
    let u = feature_uses(f, place);
    assert forall|i: int| 0 <= i < u.len() implies (#[trigger] u[i]).0.len() == 0 || all.contains(u[i]) by {
        if i == 0 {
            assert(u[0] == (f.prompt@, place));
        } else if i == 1 {
            match f.description {
                Some(d) => {
                    assert(u[1] == (d@, place));
                    assert(all[0] == (d@, place));
                },
                None => {
                    assert(description_of(f).len() == 0);
                },
            }
        } else {
            assert(f.preset is None);
            assert(u[i] == choices[i - 2]);
            assert(all[p + 1 + (i - 2)] == choices[i - 2]);
        }
    }
}

proof fn lemma_cfeatures_covered(e: Seq<(Seq<char>, CustomFeature)>, arch: Seq<char>, place: Place)
    ensures
        covered(cfeatures_uses(e, arch, place), cfeatures_all_uses(e, place)),
    decreases e.len(),
{
    if e.len() > 0 {
        lemma_cfeatures_covered(e.drop_last(), arch, place);
        lemma_feature_covered(e.last().1, place);
        if arch_ok(arch, e.last().1) {
            lemma_covered_concat(
                cfeatures_uses(e.drop_last(), arch, place),
                cfeatures_all_uses(e.drop_last(), place),
                feature_uses(e.last().1, place),
                feature_all_uses(e.last().1, place),
            );
        } else {
            lemma_covered_empty(feature_all_uses(e.last().1, place));
            lemma_covered_concat(
                cfeatures_uses(e.drop_last(), arch, place),
                cfeatures_all_uses(e.drop_last(), place),
                Seq::empty(),
                feature_all_uses(e.last().1, place),
            );
            assert(cfeatures_uses(e.drop_last(), arch, place) + Seq::<(Seq<char>, Place)>::empty()
                =~= cfeatures_uses(e.drop_last(), arch, place));
        }
    }
}

proof fn lemma_systems_covered(e: Seq<(Seq<char>, SystemFeatures)>, arch: Seq<char>, place: Place)
    ensures
        covered(systems_uses(e, arch, place), systems_all_uses(e, place)),
    decreases e.len(),
{
    if e.len() > 0 {
        lemma_systems_covered(e.drop_last(), arch, place);
        lemma_cfeatures_covered(cfeature_entries(e.last().1.cfeatures), arch, place);
        lemma_covered_concat(
            systems_uses(e.drop_last(), arch, place),
            systems_all_uses(e.drop_last(), place),
            cfeatures_uses(cfeature_entries(e.last().1.cfeatures), arch, place),
            cfeatures_all_uses(cfeature_entries(e.last().1.cfeatures), place),
        );
    }
}

proof fn lemma_core_covered(c: CoreFeatures, arch: Seq<char>, place: Place)
    ensures
        covered(core_uses(c, arch, place), core_all_uses(c, place)),
{
    let a1 = cfeatures_uses(cfeature_entries(c.cfeatures), arch, place);
    let b1 = cfeatures_all_uses(cfeature_entries(c.cfeatures), place);
    let a2 = systems_uses(system_feature_entries(c.systems), arch, place);
    let b2 = systems_all_uses(system_feature_entries(c.systems), place);
    lemma_cfeatures_covered(cfeature_entries(c.cfeatures), arch, place);
    lemma_systems_covered(system_feature_entries(c.systems), arch, place);
    lemma_covered_empty(b2);
    if core_has_content(c) {
        if system_feature_entries(c.systems).len() > 0 {
            lemma_covered_concat(a1, b1, a2, b2);
        } else {
            lemma_covered_concat(a1, b1, Seq::empty(), b2);
        }
    } else {
        lemma_covered_empty(b1 + b2);
    }
}

proof fn lemma_cores_covered(e: Seq<(Seq<char>, CoreFeatures)>, arch: Seq<char>, emulator: Seq<char>)
    ensures
        covered(cores_uses(e, arch, emulator), cores_all_uses(e, emulator)),
    decreases e.len(),
{
    if e.len() > 0 {
        lemma_cores_covered(e.drop_last(), arch, emulator);
        lemma_core_covered(e.last().1, arch, (emulator, Some(e.last().0)));
        lemma_covered_concat(
            cores_uses(e.drop_last(), arch, emulator),
            cores_all_uses(e.drop_last(), emulator),
            core_uses(e.last().1, arch, (emulator, Some(e.last().0))),
            core_all_uses(e.last().1, (emulator, Some(e.last().0))),
        );
    }
}

proof fn lemma_emulator_covered(name: Seq<char>, d: EmulatorFeatures, arch: Seq<char>)
    ensures
        covered(emulator_uses(name, d, arch), emulator_all_uses(name, d)),
{
    let a1 = cores_uses(core_feature_entries(d.cores), arch, name);
    let b1 = cores_all_uses(core_feature_entries(d.cores), name);
    let a2 = systems_uses(system_feature_entries(d.systems), arch, (name, None));
    let b2 = systems_all_uses(system_feature_entries(d.systems), (name, None));
    let a3 = cfeatures_uses(cfeature_entries(d.cfeatures), arch, (name, None));
    let b3 = cfeatures_all_uses(cfeature_entries(d.cfeatures), (name, None));
    if emulator_has_content(d) {
        lemma_cores_covered(core_feature_entries(d.cores), arch, name);
        lemma_systems_covered(system_feature_entries(d.systems), arch, (name, None));
        lemma_cfeatures_covered(cfeature_entries(d.cfeatures), arch, (name, None));
        lemma_covered_concat(a1, b1, a2, b2);
        lemma_covered_concat(a1 + a2, b1 + b2, a3, b3);
    } else {
        lemma_covered_empty(b1 + b2 + b3);
    }
}

proof fn lemma_emulators_covered(e: Seq<(Seq<char>, EmulatorFeatures)>, arch: Seq<char>)
    ensures
        covered(emulators_uses(e, arch), all_uses(e)),
    decreases e.len(),
{
    if e.len() > 0 {
        lemma_emulators_covered(e.drop_last(), arch);
        lemma_emulator_covered(e.last().0, e.last().1, arch);
        lemma_covered_concat(
            emulators_uses(e.drop_last(), arch),
            all_uses(e.drop_last()),
            emulator_uses(e.last().0, e.last().1, arch),
            emulator_all_uses(e.last().0, e.last().1),
        );
    }
}

/// Whether the record has an entry for `t`.
pub open spec fn records(e: Record, t: Seq<char>) -> bool {
    exists|i: int| 0 <= i < e.len() && (#[trigger] e[i]).0 == t
}

proof fn lemma_add_use_records(e: Record, text: Seq<char>, place: Place, t: Seq<char>)
    ensures
        records(add_use(e, text, place), t) <==> (records(e, t) || t == text),
{
    let p = key_position(e, text);
    lemma_key_position(e, text);
    let r = add_use(e, text, place);
    if p < 0 {
        assert(r[e.len() as int].0 == text);
        if records(e, t) {
            let i = choose|i: int| 0 <= i < e.len() && (#[trigger] e[i]).0 == t;
            assert(r[i] == e[i]);
        }
        if records(r, t) {
            let i = choose|i: int| 0 <= i < r.len() && (#[trigger] r[i]).0 == t;
            if i < e.len() {
                assert(r[i] == e[i]);
            }
        }
    } else {
        assert(r[p].0 == text);
        if records(e, t) {
            let i = choose|i: int| 0 <= i < e.len() && (#[trigger] e[i]).0 == t;
            assert(r[i].0 == e[i].0);
        }
        if records(r, t) {
            let i = choose|i: int| 0 <= i < r.len() && (#[trigger] r[i]).0 == t;
            assert(r[i].0 == e[i].0);
        }
    }
}

/// A record holds a text exactly when it held it before or one of the uses names it.
pub proof fn lemma_add_uses_records(e: Record, uses: Seq<(Seq<char>, Place)>, t: Seq<char>)
    ensures
        records(add_uses(e, uses), t) <==> (records(e, t) || exists|j: int| 0 <= j < uses.len() && (#[trigger] uses[j]).0 == t),
    decreases uses.len(),
{
    if uses.len() > 0 {
        let prev = uses.drop_last();
        lemma_add_uses_records(e, prev, t);
        lemma_add_use_records(add_uses(e, prev), uses.last().0, uses.last().1, t);
        if exists|j: int| 0 <= j < prev.len() && (#[trigger] prev[j]).0 == t {
            let j = choose|j: int| 0 <= j < prev.len() && (#[trigger] prev[j]).0 == t;
            assert(uses[j] == prev[j]);
        }
        if exists|j: int| 0 <= j < uses.len() && (#[trigger] uses[j]).0 == t {
            let j = choose|j: int| 0 <= j < uses.len() && (#[trigger] uses[j]).0 == t;
            if j < prev.len() {
                assert(prev[j] == uses[j]);
            }
        }
    }
}

/// The texts that es_features.cfg records for one architecture are all found
/// by the architecture-independent search, at the same places (but for the
/// empty description that a feature without one records).
pub proof fn lemma_find_all_covers_generate(all: Seq<(Seq<char>, EmulatorFeatures)>, arch: Seq<char>, t: Seq<char>)
    ensures
        covered(emulators_uses(all, arch), all_uses(all)),
        t.len() > 0 && records(add_uses(Seq::empty(), emulators_uses(all, arch)), t) ==> records(
            add_uses(Seq::empty(), all_uses(all)),
            t,
        ),
{
    lemma_emulators_covered(all, arch);
    let u = emulators_uses(all, arch);
    let a = all_uses(all);
    lemma_add_uses_records(Seq::empty(), u, t);
    lemma_add_uses_records(Seq::empty(), a, t);
    if t.len() > 0 && records(add_uses(Seq::empty(), u), t) {
        let j = choose|j: int| 0 <= j < u.len() && (#[trigger] u[j]).0 == t;
        assert(a.contains(u[j]));
        let k = choose|k: int| 0 <= k < a.len() && a[k] == u[j];
        assert(a[k].0 == t);
    }
}


proof fn lemma_digit_char(d: nat)
    requires
        d < 10,
    ensures
        '0' <= digit_char(d) <= '9',
        (digit_char(d) as u32 - '0' as u32) as nat == d,
{
}

proof fn lemma_nat_digits(n: nat)
    ensures
        nat_digits(n).len() > 0,
        all_digits(nat_digits(n)),
        digits_value(nat_digits(n)) == n,
    decreases n,
{
    if n < 10 {
        lemma_digit_char(n);
        assert(nat_digits(n).drop_last() =~= Seq::<char>::empty());
        assert(digits_value(nat_digits(n).drop_last()) == 0);
        assert(nat_digits(n).last() == digit_char(n));
        assert(digits_value(nat_digits(n)) == n);
    } else {
        lemma_nat_digits(n / 10);
        lemma_digit_char(n % 10);
        let s = nat_digits(n / 10);
        let t = nat_digits(n);
        assert(t == s.push(digit_char(n % 10)));
        assert(t.drop_last() =~= s);
        assert(t.last() == digit_char(n % 10));
        assert((n / 10) * 10 + n % 10 == n) by (nonlinear_arith);
        assert(digits_value(t) == digits_value(s) * 10 + ((t.last() as u32 - '0' as u32) as nat));
        assert(digits_value(t) == n);
        assert forall|i: int| 0 <= i < t.len() implies '0' <= #[trigger] t[i] <= '9' by {
            if i < s.len() {
                assert(t[i] == s[i]);
            }
        }
    }
}

/// The decimal form of an `i64` reads back as the same number.
pub proof fn lemma_decimal_parses_back(i: i64)
    ensures
        parse_i64_spec(decimal(i as int)) == Some(i),
{
    if i < 0 {
        let n = (-(i as int)) as nat;
        lemma_nat_digits(n);
        let s = decimal(i as int);
        assert(s == seq!['-'] + nat_digits(n));
        assert(s[0] == '-');
        assert(s.drop_first() =~= nat_digits(n));
    } else {
        let n = i as nat;
        lemma_nat_digits(n);
        let s = nat_digits(n);
        assert('0' <= s[0] <= '9');
    }
}

/// An integer `order` stays a number in es_features.json.
pub proof fn lemma_integer_order_stays_integer(i: i64, o: Option<OrderJson>)
    requires
        order_ok(o, Some(YamlValue::Int(i))),
    ensures
        o == Some(OrderJson::Int(i)),
{
    lemma_decimal_parses_back(i);
    lemma_nat_digits(if i < 0 { (-(i as int)) as nat } else { i as nat });
}

proof fn lemma_core_lines_iff_met(
    names: Seq<Seq<char>>,
    cores: Seq<(Seq<char>, CoreReq)>,
    config: Set<Seq<char>>,
    emulator: Seq<char>,
    default_emulator: Option<Seq<char>>,
    default_core: Option<Seq<char>>,
)
    ensures
        core_lines(names, cores, config, emulator, default_emulator, default_core).len() > 0 <==> met_cores(
            names,
            cores,
            config,
        ).len() > 0,
    decreases names.len(),
{
    if names.len() > 0 {
        lemma_core_lines_iff_met(names.drop_last(), cores, config, emulator, default_emulator, default_core);
        reveal_strlit("</core>\n");
        match lookup(cores, names.last()) {
            Some(c) => {
                let d = is_default_core(emulator, names.last(), default_emulator, default_core);
                assert(core_line(c, names.last(), d).len() >= "</core>\n"@.len());
            },
            None => {},
        }
    }
}

proof fn lemma_blocks_iff_offering(
    names: Seq<Seq<char>>,
    emulators: Seq<(Seq<char>, IndexMap<String, CoreReq>)>,
    config: Set<Seq<char>>,
    default_emulator: Option<Seq<char>>,
    default_core: Option<Seq<char>>,
)
    ensures
        emulator_blocks(names, emulators, config, default_emulator, default_core).len() > 0 <==> offering_emulators(
            names,
            emulators,
            config,
        ).len() > 0,
    decreases names.len(),
{
    if names.len() > 0 {
        lemma_blocks_iff_offering(names.drop_last(), emulators, config, default_emulator, default_core);
        match lookup(emulators, names.last()) {
            Some(m) => {
                let ce = core_req_entries(m);
                lemma_core_lines_iff_met(sorted_strs(entry_keys(ce)), ce, config, names.last(), default_emulator, default_core);
            },
            None => {},
        }
    }
}

/// The `<emulators>` block of a system in es_systems.cfg lists an emulator
/// exactly when es_systems.json gives the system a list of emulators: when one
/// of its emulators offers a core with the packages `config`.
pub proof fn lemma_emulators_text_iff_offering(
    data: System,
    config: Set<Seq<char>>,
    default_emulator: Option<Seq<char>>,
    default_core: Option<Seq<char>>,
)
    ensures
        emulators_text(data, config, default_emulator, default_core).len() > 0 <==> ({
            let ee = emulator_req_entries(data.emulators);
            offering_emulators(sorted_strs(entry_keys(ee)), ee, config).len() > 0
        }),
{
    let ee = emulator_req_entries(data.emulators);
    lemma_blocks_iff_offering(sorted_strs(entry_keys(ee)), ee, config, default_emulator, default_core);
    reveal_strlit("        </emulators>\n");
}

/// es_systems.cfg writes a `<system>` block for a system exactly when
/// es_systems.json lists it: when one of its emulators offers a core with the
/// packages `config`, or when it is forced.
pub proof fn lemma_xml_block_iff_json_listed(
    name: Seq<char>,
    data: System,
    config: Set<Seq<char>>,
    default_emulator: Option<Seq<char>>,
    default_core: Option<Seq<char>>,
)
    ensures
        system_text(name, data, config, default_emulator, default_core).len() > 0 <==> ({
            let ee = emulator_req_entries(data.emulators);
            offering_emulators(sorted_strs(entry_keys(ee)), ee, config).len() > 0 || data.force
        }),
{
    let ee = emulator_req_entries(data.emulators);
    lemma_blocks_iff_offering(sorted_strs(entry_keys(ee)), ee, config, default_emulator, default_core);
    let t = system_text(name, data, config, default_emulator, default_core);
    let em = emulators_text(data, config, default_emulator, default_core);
    if em.len() > 0 || data.force {
        reveal_strlit("  <system>\n");
        assert(t.len() >= "  <system>\n"@.len());
    }
}

proof fn lemma_choices_text_empty(sp: Seq<char>, e: Seq<(Seq<char>, YamlValue)>)
    ensures
        choices_text(sp, e).len() > 0 <==> e.len() > 0,
    decreases e.len(),
{
    if e.len() > 0 {
        lemma_choices_text_empty(sp, e.drop_last());
        reveal_strlit("\" />\n");
        assert(choices_text(sp, e).len() >= "\" />\n"@.len());
    }
}

/// es_features.json gives a custom feature choices exactly when es_features.cfg
/// writes `<choice>` lines in its `<feature>` element: when it has no preset
/// and has choices.
pub proof fn lemma_json_choices_iff_xml_choices(j: FeatureJson, indent: nat, key: Seq<char>, cf: CustomFeature)
    requires
        feature_json_ok(j, key, cf),
    ensures
        feature_text(indent, key, cf) == feature_open_text(spaces(indent), key, cf) + (if j.choices is Some {
            choices_text(spaces(indent), choice_entries(cf.choices))
        } else {
            Seq::empty()
        }) + spaces(indent) + "</feature>\n"@,
        j.choices is Some <==> (cf.preset is None && choices_text(spaces(indent), choice_entries(cf.choices)).len() > 0),
{
    lemma_choices_text_empty(spaces(indent), choice_entries(cf.choices));
}

proof fn lemma_extensions_text_empty(exts: Seq<String>)
    ensures
        extensions_text(exts, false).len() > 0 <==> exts.len() > 0,
    decreases exts.len(),
{
    if exts.len() > 0 {
        lemma_extensions_text_empty(exts.drop_last());
    }
}

/// A system's `<system>` block in es_systems.cfg is empty exactly when its
/// `<emulators>` block is and the system is not forced. Otherwise it opens with
/// `  <system>`, ends with the `<emulators>` block and `  </system>`, and holds
/// the `<path>`, `<extension>` and `<command>` lines exactly when the system
/// has extensions.
pub proof fn lemma_system_block_shape(
    name: Seq<char>,
    data: System,
    config: Set<Seq<char>>,
    default_emulator: Option<Seq<char>>,
    default_core: Option<Seq<char>>,
)
    ensures
        system_text(name, data, config, default_emulator, default_core).len() == 0 <==> (emulators_text(
            data,
            config,
            default_emulator,
            default_core,
        ).len() == 0 && !data.force),
        system_text(name, data, config, default_emulator, default_core).len() > 0 ==> system_text(
            name,
            data,
            config,
            default_emulator,
            default_core,
        ) == "  <system>\n"@ + system_head_text(name, data) + launch_text(name, data) + look_text(name, data)
            + emulators_text(data, config, default_emulator, default_core) + "  </system>\n"@,
        launch_text(name, data).len() > 0 <==> data.extensions@.len() > 0,
{
    reveal_strlit("  <system>\n");
    reveal_strlit("</command>\n");
    lemma_extensions_text_empty(data.extensions@);
    let t = system_text(name, data, config, default_emulator, default_core);
    if emulators_text(data, config, default_emulator, default_core).len() > 0 || data.force {
        assert(t.len() >= "  <system>\n"@.len());
    }
    if data.extensions@.len() > 0 {
        assert(launch_text(name, data).len() >= "</command>\n"@.len());
    }
}

/// The `<core>` lines of the cores `cores` of `emulator`, in that order.
pub open spec fn core_lines_of(
    cores: Seq<(Seq<char>, CoreReq)>,
    emulator: Seq<char>,
    default_emulator: Option<Seq<char>>,
    default_core: Option<Seq<char>>,
) -> Seq<char>
    decreases cores.len(),
{
    if cores.len() == 0 {
        Seq::empty()
    } else {
        core_lines_of(cores.drop_last(), emulator, default_emulator, default_core) + core_line(
            cores.last().1,
            cores.last().0,
            is_default_core(emulator, cores.last().0, default_emulator, default_core),
        )
    }
}

/// The `<emulator>` element of `emulator` holding the lines `lines`.
pub open spec fn emulator_element(emulator: Seq<char>, lines: Seq<char>) -> Seq<char> {
    "            <emulator name=\""@ + emulator + "\">\n"@ + "                <cores>\n"@ + lines
        + "                </cores>\n"@ + "            </emulator>\n"@
}

/// The `<emulator>` elements of the emulators `emus`, each with its offered cores.
pub open spec fn emulator_elements(
    emus: Seq<(Seq<char>, IndexMap<String, CoreReq>)>,
    config: Set<Seq<char>>,
    default_emulator: Option<Seq<char>>,
    default_core: Option<Seq<char>>,
) -> Seq<char>
    decreases emus.len(),
{
    if emus.len() == 0 {
        Seq::empty()
    } else {
        let n = emus.last().0;
        emulator_elements(emus.drop_last(), config, default_emulator, default_core) + emulator_element(
            n,
            core_lines_of(offered_cores(core_req_entries(emus.last().1), config), n, default_emulator, default_core),
        )
    }
}

proof fn lemma_core_lines_are_met_cores(
    names: Seq<Seq<char>>,
    cores: Seq<(Seq<char>, CoreReq)>,
    config: Set<Seq<char>>,
    emulator: Seq<char>,
    default_emulator: Option<Seq<char>>,
    default_core: Option<Seq<char>>,
)
    ensures
        core_lines(names, cores, config, emulator, default_emulator, default_core) == core_lines_of(
            met_cores(names, cores, config),
            emulator,
            default_emulator,
            default_core,
        ),
    decreases names.len(),
{
    if names.len() > 0 {
        lemma_core_lines_are_met_cores(names.drop_last(), cores, config, emulator, default_emulator, default_core);
        let prev = met_cores(names.drop_last(), cores, config);
        match lookup(cores, names.last()) {
            Some(c) => if requirements_met(config, c.require_any_of@) {
                assert(met_cores(names, cores, config).drop_last() =~= prev);
            },
            None => {},
        }
    }
}

proof fn lemma_blocks_are_offering(
    names: Seq<Seq<char>>,
    emulators: Seq<(Seq<char>, IndexMap<String, CoreReq>)>,
    config: Set<Seq<char>>,
    default_emulator: Option<Seq<char>>,
    default_core: Option<Seq<char>>,
)
    ensures
        emulator_blocks(names, emulators, config, default_emulator, default_core) == emulator_elements(
            offering_emulators(names, emulators, config),
            config,
            default_emulator,
            default_core,
        ),
    decreases names.len(),
{
    if names.len() > 0 {
        lemma_blocks_are_offering(names.drop_last(), emulators, config, default_emulator, default_core);
        let n = names.last();
        match lookup(emulators, n) {
            Some(m) => {
                let ce = core_req_entries(m);
                let sorted = sorted_strs(entry_keys(ce));
                lemma_core_lines_are_met_cores(sorted, ce, config, n, default_emulator, default_core);
                lemma_core_lines_iff_met(sorted, ce, config, n, default_emulator, default_core);
                let prev = offering_emulators(names.drop_last(), emulators, config);
                if offered_cores(ce, config).len() > 0 {
                    assert(offering_emulators(names, emulators, config).drop_last() =~= prev);
                }
            },
            None => {},
        }
    }
}

/// The `<emulators>` block of a system in es_systems.cfg holds one
/// `<emulator>` element for each emulator that es_systems.json lists, in the
/// same (name) order, each with the `<core>` lines of the same cores, in name
/// order, a core marked default exactly when it is the default emulator's
/// default core.
pub proof fn lemma_emulators_block_structure(
    data: System,
    config: Set<Seq<char>>,
    default_emulator: Option<Seq<char>>,
    default_core: Option<Seq<char>>,
)
    ensures
        ({
            let ee = emulator_req_entries(data.emulators);
            let emus = offering_emulators(sorted_strs(entry_keys(ee)), ee, config);
            &&& emus.len() == 0 ==> emulators_text(data, config, default_emulator, default_core) == Seq::<char>::empty()
            &&& emus.len() > 0 ==> emulators_text(data, config, default_emulator, default_core) == "        <emulators>\n"@
                + emulator_elements(emus, config, default_emulator, default_core) + "        </emulators>\n"@
        }),
{
    let ee = emulator_req_entries(data.emulators);
    lemma_blocks_are_offering(sorted_strs(entry_keys(ee)), ee, config, default_emulator, default_core);
    lemma_blocks_iff_offering(sorted_strs(entry_keys(ee)), ee, config, default_emulator, default_core);
}

proof fn lemma_dotted_lower_len(exts: Seq<String>)
    ensures
        dotted_lower(exts).len() == exts.len(),
    decreases exts.len(),
{
    if exts.len() > 0 {
        lemma_dotted_lower_len(exts.drop_last());
    }
}

/// A system's entry in es_systems.json has a path, an extension list and a
/// command exactly when the system has extensions (the path also needing to
/// be non-empty), and an emulator list exactly when es_systems.cfg lists an
/// emulator for it.
pub proof fn lemma_system_entry_shape(
    j: SystemJson,
    name: Seq<char>,
    data: System,
    config: Set<Seq<char>>,
    default_emulator: Option<Seq<char>>,
    default_core: Option<Seq<char>>,
)
    requires
        system_json_entry_ok(j, name, data, config, default_emulator, default_core),
    ensures
        j.extension is Some <==> data.extensions@.len() > 0,
        j.command is Some <==> data.extensions@.len() > 0,
        j.path is Some ==> data.extensions@.len() > 0,
        j.emulators is Some <==> emulators_text(data, config, default_emulator, default_core).len() > 0,
{
    lemma_dotted_lower_len(data.extensions@);
    lemma_emulators_text_iff_offering(data, config, default_emulator, default_core);
}

/// What follows the name and submenu attributes of a `<feature>` line.
spec fn after_submenu(key: Seq<char>, f: CustomFeature) -> Seq<char> {
    opt_attr(" group=\""@, f.group) + (order_attr(f.order) + (" value=\""@ + spec_escape(key) + "\" description=\""@
        + spec_escape(description_of(f)) + "\""@ + opt_attr(" preset=\""@, f.preset) + opt_attr(
        " preset-parameters=\""@,
        f.preset_parameters,
    ) + ">\n"@))
}

proof fn lemma_after_submenu(key: Seq<char>, f: CustomFeature)
    ensures
        after_submenu(key, f).len() >= 2,
        after_submenu(key, f)[0] == ' ',
        after_submenu(key, f)[1] != 's',
{
    reveal_strlit(" group=\"");
    reveal_strlit(" order=\"");
    reveal_strlit(" value=\"");
    let x = opt_attr(" group=\""@, f.group);
    let y = order_attr(f.order);
    let z = " value=\""@ + spec_escape(key) + "\" description=\""@ + spec_escape(description_of(f)) + "\""@
        + opt_attr(" preset=\""@, f.preset) + opt_attr(" preset-parameters=\""@, f.preset_parameters) + ">\n"@;
    let v = " value=\""@;
    assert(z.len() >= v.len());
    assert(z[0] == v[0]);
    assert(z[1] == v[1]);
    let r = after_submenu(key, f);
    assert(r == x + (y + z));
    match f.group {
        Some(g) => {
            assert(x.len() >= 8);
            assert(r[0] == x[0]);
            assert(r[1] == x[1]);
        },
        None => {
            assert(x.len() == 0);
            assert(r =~= y + z);
            match f.order {
                Some(o) => {
                    assert(y.len() >= 8);
                    assert(r[0] == y[0]);
                    assert(r[1] == y[1]);
                },
                None => {
                    assert(y.len() == 0);
                    assert(r =~= z);
                },
            }
        },
    }
}

proof fn lemma_prefix_concat(a: Seq<char>, b: Seq<char>)
    ensures
        a.is_prefix_of(a + b),
{
    assert(a =~= (a + b).subrange(0, a.len() as int));
}

proof fn lemma_prefix_trans(a: Seq<char>, b: Seq<char>, c: Seq<char>)
    requires
        a.is_prefix_of(b),
        b.is_prefix_of(c),
    ensures
        a.is_prefix_of(c),
{
    assert forall|i: int| 0 <= i < a.len() implies a[i] == c[i] by {
        assert(a[i] == b.subrange(0, a.len() as int)[i]);
        assert(b[i] == c.subrange(0, b.len() as int)[i]);
    }
    assert(a =~= c.subrange(0, a.len() as int));
}

#[verifier::spinoff_prover]
#[verifier::rlimit(50)]
proof fn lemma_open_split(sp: Seq<char>, key: Seq<char>, f: CustomFeature)
    ensures
        feature_open_text(sp, key, f) == (sp + "<feature name=\""@ + spec_escape(f.prompt@) + "\""@ + opt_attr(
            " submenu=\""@,
            f.submenu,
        )) + after_submenu(key, f),
{
    assert(feature_open_text(sp, key, f) =~= (sp + "<feature name=\""@ + spec_escape(f.prompt@) + "\""@ + opt_attr(
        " submenu=\""@,
        f.submenu,
    )) + after_submenu(key, f));
}

proof fn lemma_open_is_prefix(indent: nat, key: Seq<char>, f: CustomFeature)
    ensures
        feature_open_text(spaces(indent), key, f).is_prefix_of(feature_text(indent, key, f)),
{
    let sp = spaces(indent);
    let o = feature_open_text(sp, key, f);
    let c = if f.preset is None {
        crate::generate_features::choices_text(sp, choice_entries(f.choices))
    } else {
        Seq::empty()
    };
    lemma_prefix_concat(o, c);
    lemma_prefix_concat(o + c, sp);
    lemma_prefix_concat(o + c + sp, "</feature>\n"@);
    lemma_prefix_trans(o, o + c, o + c + sp);
    lemma_prefix_trans(o, o + c + sp, o + c + sp + "</feature>\n"@);
}

/// The `<feature>` line of a custom feature names its submenu right after its
/// name: ` submenu="` and the escaped submenu when it has one, and no submenu
/// attribute when it has none.
pub proof fn lemma_feature_line_submenu(indent: nat, key: Seq<char>, f: CustomFeature)
    ensures
        ({
            let head = spaces(indent) + "<feature name=\""@ + spec_escape(f.prompt@) + "\""@;
            let t = feature_text(indent, key, f);
            match f.submenu {
                Some(s) => (head + " submenu=\""@ + spec_escape(s@) + "\""@).is_prefix_of(t),
                None => head.is_prefix_of(t) && !(head + " submenu=\""@).is_prefix_of(t),
            }
        }),
{
    reveal_strlit(" submenu=\"");
    let sp = spaces(indent);
    let head = sp + "<feature name=\""@ + spec_escape(f.prompt@) + "\""@;
    let t = feature_text(indent, key, f);
    let o = feature_open_text(sp, key, f);
    let rest = after_submenu(key, f);
    let m = opt_attr(" submenu=\""@, f.submenu);
    lemma_open_split(sp, key, f);
    lemma_open_is_prefix(indent, key, f);
    lemma_after_submenu(key, f);
    lemma_prefix_concat(head + m, rest);
    lemma_prefix_trans(head + m, o, t);
    match f.submenu {
        Some(s) => {
            assert(head + m =~= head + " submenu=\""@ + spec_escape(s@) + "\""@);
        },
        None => {
            assert(head + m =~= head);
            let n: int = head.len() as int;
            assert(o[n + 1] == rest[1]);
            assert(t[n + 1] == o[n + 1]) by {
                assert(o[n + 1] == t.subrange(0, o.len() as int)[n + 1]);
            }
            if (head + " submenu=\""@).is_prefix_of(t) {
                assert((head + " submenu=\""@)[n + 1] == " submenu=\""@[1]);
                assert(t[n + 1] == t.subrange(0, (head + " submenu=\""@).len() as int)[n + 1]);
            }
        },
    }
}

proof fn lemma_offered_members(e: Seq<(Seq<char>, CustomFeature)>, arch: Seq<char>)
    ensures
        offered(e, arch).len() == 0 <==> forall|k: int| 0 <= k < e.len() ==> !arch_ok(arch, #[trigger] e[k].1),
        forall|k: int| 0 <= k < e.len() && arch_ok(arch, e[k].1) ==> offered(e, arch).contains(#[trigger] e[k]),
        forall|m: int|
            0 <= m < offered(e, arch).len() ==> e.contains(#[trigger] offered(e, arch)[m]) && arch_ok(
                arch,
                offered(e, arch)[m].1,
            ),
    decreases e.len(),
{
    if e.len() > 0 {
        let d = e.drop_last();
        lemma_offered_members(d, arch);
        let o = offered(e, arch);
        let od = offered(d, arch);
        assert forall|k: int| 0 <= k < e.len() && arch_ok(arch, e[k].1) implies o.contains(#[trigger] e[k]) by {
            if k < d.len() {
                assert(d[k] == e[k]);
                assert(od.contains(d[k]));
                let m = choose|m: int| 0 <= m < od.len() && od[m] == d[k];
                if arch_ok(arch, e.last().1) {
                    assert(o[m] == od[m]);
                } else {
                    assert(o[m] == od[m]);
                }
            } else {
                assert(o[od.len() as int] == e[k]);
            }
        }
        assert forall|m: int| 0 <= m < o.len() implies e.contains(#[trigger] o[m]) && arch_ok(arch, o[m].1) by {
            if m < od.len() {
                assert(o[m] == od[m]);
                assert(d.contains(od[m]));
                let k = choose|k: int| 0 <= k < d.len() && d[k] == od[m];
                assert(e[k] == d[k]);
            } else {
                assert(o[m] == e.last());
                assert(e[e.len() - 1] == e.last());
            }
        }
        if o.len() == 0 {
            assert forall|k: int| 0 <= k < e.len() implies !arch_ok(arch, #[trigger] e[k].1) by {
                if arch_ok(arch, e[k].1) {
                    assert(o.contains(e[k]));
                }
            }
        }
        if forall|k: int| 0 <= k < e.len() ==> !arch_ok(arch, #[trigger] e[k].1) {
            assert forall|k: int| 0 <= k < d.len() implies !arch_ok(arch, #[trigger] d[k].1) by {
                assert(d[k] == e[k]);
            }
            assert(!arch_ok(arch, e[e.len() - 1].1));
        }
    }
}

/// JSON definitions that stand for the custom features `e` offered on `arch`
/// hold a definition of each feature of `e` offered on `arch`, and only of
/// those; they are absent exactly when none is offered.
pub proof fn lemma_defs_are_offered_features(o: Option<Vec<FeatureJson>>, e: Seq<(Seq<char>, CustomFeature)>, arch: Seq<char>)
    requires
        defs_opt_ok(o, offered(e, arch)),
    ensures
        o is None <==> (forall|k: int| 0 <= k < e.len() ==> !arch_ok(arch, #[trigger] e[k].1)),
        forall|k: int|
            0 <= k < e.len() && arch_ok(arch, #[trigger] e[k].1) ==> (o matches Some(v) && exists|m: int|
                0 <= m < v@.len() && feature_json_ok(#[trigger] v@[m], e[k].0, e[k].1)),
        o matches Some(v) ==> forall|m: int|
            0 <= m < v@.len() ==> exists|k: int|
                0 <= k < e.len() && arch_ok(arch, e[k].1) && feature_json_ok(#[trigger] v@[m], #[trigger] e[k].0, e[k].1),
{
    lemma_offered_members(e, arch);
    let f = offered(e, arch);
    assert forall|k: int| 0 <= k < e.len() && arch_ok(arch, #[trigger] e[k].1) implies (o matches Some(v) && exists|m: int|
        0 <= m < v@.len() && feature_json_ok(#[trigger] v@[m], e[k].0, e[k].1)) by {
        assert(f.contains(e[k]));
        let m = choose|m: int| 0 <= m < f.len() && f[m] == e[k];
        let v = o->Some_0;
        assert(defs_ok(v@, f));
        assert(feature_json_ok(v@[m], f[m].0, f[m].1));
    }
    if o is Some {
        let v = o->Some_0;
        assert forall|m: int| 0 <= m < v@.len() implies exists|k: int|
            0 <= k < e.len() && arch_ok(arch, e[k].1) && feature_json_ok(#[trigger] v@[m], #[trigger] e[k].0, e[k].1) by {
            assert(feature_json_ok(v@[m], f[m].0, f[m].1));
            assert(e.contains(f[m]));
            let k = choose|k: int| 0 <= k < e.len() && e[k] == f[m];
            assert(feature_json_ok(v@[m], e[k].0, e[k].1));
        }
    }
}

/// An emulator of es_features.json defines exactly its own custom features
/// offered on `arch`: each of them, and no other; `customFeatures` is absent
/// exactly when none is offered.
pub proof fn lemma_emulator_json_defines_own_features(
    j: EmulatorFeaturesJson,
    name: Seq<char>,
    d: EmulatorFeatures,
    arch: Seq<char>,
    all: Seq<(Seq<char>, EmulatorFeatures)>,
)
    requires
        emulator_json_ok(j, name, d, arch, all),
    ensures
        ({
            let e = cfeature_entries(d.cfeatures);
            &&& j.custom_features is None <==> (forall|k: int| 0 <= k < e.len() ==> !arch_ok(arch, #[trigger] e[k].1))
            &&& forall|k: int|
                0 <= k < e.len() && arch_ok(arch, #[trigger] e[k].1) ==> (j.custom_features matches Some(v) && exists|m: int|
                    0 <= m < v@.len() && feature_json_ok(#[trigger] v@[m], e[k].0, e[k].1))
            &&& j.custom_features matches Some(v) ==> forall|m: int|
                0 <= m < v@.len() ==> exists|k: int|
                    0 <= k < e.len() && arch_ok(arch, e[k].1) && feature_json_ok(#[trigger] v@[m], #[trigger] e[k].0, e[k].1)
        }),
{
    lemma_defs_are_offered_features(j.custom_features, cfeature_entries(d.cfeatures), arch);
}

/// A core of es_features.json defines exactly its own custom features offered
/// on `arch`; `customFeatures` is absent exactly when none is offered.
pub proof fn lemma_core_json_defines_own_features(
    j: CoreFeaturesJson,
    name: Seq<char>,
    c: CoreFeatures,
    arch: Seq<char>,
    all: Seq<(Seq<char>, EmulatorFeatures)>,
)
    requires
        core_json_ok(j, name, c, arch, all),
    ensures
        ({
            let e = cfeature_entries(c.cfeatures);
            &&& j.custom_features is None <==> (forall|k: int| 0 <= k < e.len() ==> !arch_ok(arch, #[trigger] e[k].1))
            &&& forall|k: int|
                0 <= k < e.len() && arch_ok(arch, #[trigger] e[k].1) ==> (j.custom_features matches Some(v) && exists|m: int|
                    0 <= m < v@.len() && feature_json_ok(#[trigger] v@[m], e[k].0, e[k].1))
            &&& j.custom_features matches Some(v) ==> forall|m: int|
                0 <= m < v@.len() ==> exists|k: int|
                    0 <= k < e.len() && arch_ok(arch, e[k].1) && feature_json_ok(#[trigger] v@[m], #[trigger] e[k].0, e[k].1)
        }),
{
    lemma_defs_are_offered_features(j.custom_features, cfeature_entries(c.cfeatures), arch);
}

/// A system of es_features.json defines exactly its own custom features
/// offered on `arch`; `customFeatures` is absent exactly when none is offered.
pub proof fn lemma_system_json_defines_own_features(
    j: SystemFeaturesJson,
    name: Seq<char>,
    sys: SystemFeatures,
    arch: Seq<char>,
    all: Seq<(Seq<char>, EmulatorFeatures)>,
)
    requires
        system_json_ok(j, name, sys, arch, all),
    ensures
        ({
            let e = cfeature_entries(sys.cfeatures);
            &&& j.custom_features is None <==> (forall|k: int| 0 <= k < e.len() ==> !arch_ok(arch, #[trigger] e[k].1))
            &&& forall|k: int|
                0 <= k < e.len() && arch_ok(arch, #[trigger] e[k].1) ==> (j.custom_features matches Some(v) && exists|m: int|
                    0 <= m < v@.len() && feature_json_ok(#[trigger] v@[m], e[k].0, e[k].1))
            &&& j.custom_features matches Some(v) ==> forall|m: int|
                0 <= m < v@.len() ==> exists|k: int|
                    0 <= k < e.len() && arch_ok(arch, e[k].1) && feature_json_ok(#[trigger] v@[m], #[trigger] e[k].0, e[k].1)
        }),
{
    lemma_defs_are_offered_features(j.custom_features, cfeature_entries(sys.cfeatures), arch);
}

/// The path of a system in es_systems.cfg and es_systems.json is where its ROM
/// folder is made: `/userdata/roms/` followed by its ROM sub-directory; a
/// system without a ROM sub-directory has an absolute path, given as is.
pub proof fn lemma_path_is_rom_folder(name: Seq<char>, data: System)
    ensures
        sub_roms_dir(name, data) matches Some(d) ==> system_path_text(name, data) == "/userdata/roms/"@ + d,
        sub_roms_dir(name, data) is None ==> (data.path matches Some(p) && p@.len() > 0 && p@[0] == '/'
            && system_path_text(name, data) == p@),
{
}

/// The _info.txt of a system gives, after each extensions line, the comment
/// in that language when there is one: the English comment before the
/// separator line, the French one at the end of the text.
pub proof fn lemma_info_comments(data: System)
    ensures
        ({
            let exts = extensions_text(data.extensions@, false);
            let sep = "-------------------------------------------------------------------------------\n"@;
            let en = match data.comment_en {
                Some(c) => "\n"@ + c@,
                None => Seq::empty(),
            };
            let fr = match data.comment_fr {
                Some(c) => "\n"@ + c@,
                None => Seq::empty(),
            };
            &&& ("Extensions des fichiers ROMs permises: \""@ + exts + "\"\n"@ + fr).is_suffix_of(info_text(data))
            &&& ("## SYSTEM "@ + uppercase(data.name@) + " ##\n"@ + sep + "ROM files extensions accepted: \""@ + exts
                + "\"\n"@ + en + sep).is_prefix_of(info_text(data))
        }),
{
    let exts = extensions_text(data.extensions@, false);
    let sep = "-------------------------------------------------------------------------------\n"@;
    let en = match data.comment_en {
        Some(c) => "\n"@ + c@,
        None => Seq::empty(),
    };
    let fr = match data.comment_fr {
        Some(c) => "\n"@ + c@,
        None => Seq::empty(),
    };
    let a = "## SYSTEM "@ + uppercase(data.name@) + " ##\n"@ + sep + "ROM files extensions accepted: \""@ + exts
        + "\"\n"@ + en + sep;
    let b = "Extensions des fichiers ROMs permises: \""@ + exts + "\"\n"@ + fr;
    let t = info_text(data);
    assert(t =~= a + b);
    assert(a =~= t.subrange(0, a.len() as int));
    assert(b =~= t.subrange(t.len() - b.len(), t.len() as int));
}

proof fn lemma_in_left(a: Seq<(Seq<char>, Place)>, b: Seq<(Seq<char>, Place)>, x: (Seq<char>, Place))
    requires
        a.contains(x),
    ensures
        (a + b).contains(x),
{
    let k = choose|k: int| 0 <= k < a.len() && a[k] == x;
    assert((a + b)[k] == a[k]);
}

proof fn lemma_in_right(a: Seq<(Seq<char>, Place)>, b: Seq<(Seq<char>, Place)>, x: (Seq<char>, Place))
    requires
        b.contains(x),
    ensures
        (a + b).contains(x),
{
    let k = choose|k: int| 0 <= k < b.len() && b[k] == x;
    assert((a + b)[a.len() + k] == b[k]);
}

/// Whether `t` is one of the texts of the custom feature `f`: its description,
/// submenu, group, prompt or the name of one of its choices.
pub open spec fn is_feature_text(f: CustomFeature, t: Seq<char>) -> bool {
    ||| f.description matches Some(s) && s@ == t
    ||| f.submenu matches Some(s) && s@ == t
    ||| f.group matches Some(s) && s@ == t
    ||| f.prompt@ == t
    ||| exists|k: int| 0 <= k < choice_entries(f.choices).len() && (#[trigger] choice_entries(f.choices)[k]).0 == t
}

proof fn lemma_choice_uses_has(e: Seq<(Seq<char>, YamlValue)>, place: Place, k: int)
    requires
        0 <= k < e.len(),
    ensures
        choice_uses(e, place).contains((e[k].0, place)),
    decreases e.len(),
{
    let u = choice_uses(e, place);
    if k == e.len() - 1 {
        assert(u[u.len() - 1] == (e[k].0, place));
    } else {
        lemma_choice_uses_has(e.drop_last(), place, k);
        let p = choice_uses(e.drop_last(), place);
        let j = choose|j: int| 0 <= j < p.len() && p[j] == (e.drop_last()[k].0, place);
        assert(u[j] == p[j]);
    }
}

proof fn lemma_feature_uses_have_texts(f: CustomFeature, place: Place, t: Seq<char>)
    requires
        is_feature_text(f, t),
    ensures
        feature_all_uses(f, place).contains((t, place)),
{
    let x = (t, place);
    let a = opt_use(f.description, place);
    let b = opt_use(f.submenu, place);
    let c = opt_use(f.group, place);
    let d = seq![(f.prompt@, place)];
    let e = choice_uses(choice_entries(f.choices), place);
    if f.description matches Some(s) && s@ == t {
        assert(a[0] == x);
        lemma_in_left(a, b, x);
        lemma_in_left(a + b, c, x);
        lemma_in_left(a + b + c, d, x);
        lemma_in_left(a + b + c + d, e, x);
    } else if f.submenu matches Some(s) && s@ == t {
        assert(b[0] == x);
        lemma_in_right(a, b, x);
        lemma_in_left(a + b, c, x);
        lemma_in_left(a + b + c, d, x);
        lemma_in_left(a + b + c + d, e, x);
    } else if f.group matches Some(s) && s@ == t {
        assert(c[0] == x);
        lemma_in_right(a + b, c, x);
        lemma_in_left(a + b + c, d, x);
        lemma_in_left(a + b + c + d, e, x);
    } else if f.prompt@ == t {
        assert(d[0] == x);
        lemma_in_right(a + b + c, d, x);
        lemma_in_left(a + b + c + d, e, x);
    } else {
        let k = choose|k: int| 0 <= k < choice_entries(f.choices).len() && (#[trigger] choice_entries(f.choices)[k]).0 == t;
        lemma_choice_uses_has(choice_entries(f.choices), place, k);
        lemma_in_right(a + b + c + d, e, x);
    }
}

proof fn lemma_cfeatures_uses_have(e: Seq<(Seq<char>, CustomFeature)>, place: Place, j: int, x: (Seq<char>, Place))
    requires
        0 <= j < e.len(),
        feature_all_uses(e[j].1, place).contains(x),
    ensures
        cfeatures_all_uses(e, place).contains(x),
    decreases e.len(),
{
    if j == e.len() - 1 {
        lemma_in_right(cfeatures_all_uses(e.drop_last(), place), feature_all_uses(e.last().1, place), x);
    } else {
        assert(e.drop_last()[j] == e[j]);
        lemma_cfeatures_uses_have(e.drop_last(), place, j, x);
        lemma_in_left(cfeatures_all_uses(e.drop_last(), place), feature_all_uses(e.last().1, place), x);
    }
}

proof fn lemma_systems_uses_have(e: Seq<(Seq<char>, SystemFeatures)>, place: Place, j: int, x: (Seq<char>, Place))
    requires
        0 <= j < e.len(),
        cfeatures_all_uses(cfeature_entries(e[j].1.cfeatures), place).contains(x),
    ensures
        systems_all_uses(e, place).contains(x),
    decreases e.len(),
{
    let last = cfeatures_all_uses(cfeature_entries(e.last().1.cfeatures), place);
    if j == e.len() - 1 {
        lemma_in_right(systems_all_uses(e.drop_last(), place), last, x);
    } else {
        assert(e.drop_last()[j] == e[j]);
        lemma_systems_uses_have(e.drop_last(), place, j, x);
        lemma_in_left(systems_all_uses(e.drop_last(), place), last, x);
    }
}

proof fn lemma_cores_uses_have(e: Seq<(Seq<char>, CoreFeatures)>, emulator: Seq<char>, j: int, x: (Seq<char>, Place))
    requires
        0 <= j < e.len(),
        core_all_uses(e[j].1, (emulator, Some(e[j].0))).contains(x),
    ensures
        cores_all_uses(e, emulator).contains(x),
    decreases e.len(),
{
    let last = core_all_uses(e.last().1, (emulator, Some(e.last().0)));
    if j == e.len() - 1 {
        lemma_in_right(cores_all_uses(e.drop_last(), emulator), last, x);
    } else {
        assert(e.drop_last()[j] == e[j]);
        lemma_cores_uses_have(e.drop_last(), emulator, j, x);
        lemma_in_left(cores_all_uses(e.drop_last(), emulator), last, x);
    }
}

proof fn lemma_all_uses_have(all: Seq<(Seq<char>, EmulatorFeatures)>, i: int, x: (Seq<char>, Place))
    requires
        0 <= i < all.len(),
        emulator_all_uses(all[i].0, all[i].1).contains(x),
    ensures
        all_uses(all).contains(x),
    decreases all.len(),
{
    let last = emulator_all_uses(all.last().0, all.last().1);
    if i == all.len() - 1 {
        lemma_in_right(all_uses(all.drop_last()), last, x);
    } else {
        assert(all.drop_last()[i] == all[i]);
        lemma_all_uses_have(all.drop_last(), i, x);
        lemma_in_left(all_uses(all.drop_last()), last, x);
    }
}

/// Whether the record lists `place` among the places of the text `t`.
pub open spec fn recorded_at(e: Record, t: Seq<char>, place: Place) -> bool {
    exists|i: int| 0 <= i < e.len() && (#[trigger] e[i]).0 == t && e[i].1.contains(place)
}

proof fn lemma_add_use_keeps_places(e: Record, text: Seq<char>, place: Place, t: Seq<char>, q: Place)
    ensures
        recorded_at(e, t, q) ==> recorded_at(add_use(e, text, place), t, q),
        recorded_at(add_use(e, text, place), text, place),
{
    let p = key_position(e, text);
    lemma_key_position(e, text);
    let r = add_use(e, text, place);
    if recorded_at(e, t, q) {
        let i = choose|i: int| 0 <= i < e.len() && (#[trigger] e[i]).0 == t && e[i].1.contains(q);
        let k = choose|k: int| 0 <= k < e[i].1.len() && e[i].1[k] == q;
        if p >= 0 && i == p {
            assert(r[i].1 == e[i].1.push(place));
            assert(r[i].1[k] == q);
        } else {
            assert(r[i] == e[i]);
        }
    }
    if p < 0 {
        assert(r[e.len() as int].1[0] == place);
        assert(r[e.len() as int].0 == text);
    } else {
        assert(r[p].1[e[p].1.len() as int] == place);
        assert(r[p].0 == text);
    }
}

proof fn lemma_add_uses_places(e: Record, uses: Seq<(Seq<char>, Place)>, j: int)
    requires
        0 <= j < uses.len(),
    ensures
        recorded_at(add_uses(e, uses), uses[j].0, uses[j].1),
    decreases uses.len(),
{
    let prev = uses.drop_last();
    if j == uses.len() - 1 {
        lemma_add_use_keeps_places(add_uses(e, prev), uses[j].0, uses[j].1, uses[j].0, uses[j].1);
    } else {
        assert(prev[j] == uses[j]);
        lemma_add_uses_places(e, prev, j);
        lemma_add_use_keeps_places(add_uses(e, prev), uses.last().0, uses.last().1, uses[j].0, uses[j].1);
    }
}

proof fn lemma_all_uses_recorded(all: Seq<(Seq<char>, EmulatorFeatures)>, x: (Seq<char>, Place))
    requires
        all_uses(all).contains(x),
    ensures
        recorded_at(add_uses(Seq::empty(), all_uses(all)), x.0, x.1),
{
    let u = all_uses(all);
    let j = choose|j: int| 0 <= j < u.len() && u[j] == x;
    lemma_add_uses_places(Seq::empty(), u, j);
}

/// The record that `find_all` makes lists every text of an emulator's own
/// custom feature (description, submenu, group, prompt, choice names) with the
/// emulator among its places.
pub proof fn lemma_find_all_records_emulator_feature(all: Seq<(Seq<char>, EmulatorFeatures)>, i: int, j: int, t: Seq<char>)
    requires
        0 <= i < all.len(),
        0 <= j < cfeature_entries(all[i].1.cfeatures).len(),
        is_feature_text(cfeature_entries(all[i].1.cfeatures)[j].1, t),
    ensures
        recorded_at(add_uses(Seq::empty(), all_uses(all)), t, (all[i].0, None)),
{
    let name = all[i].0;
    let d = all[i].1;
    let place = (name, None::<Seq<char>>);
    let x = (t, place);
    let e = cfeature_entries(d.cfeatures);
    lemma_feature_uses_have_texts(e[j].1, place, t);
    lemma_cfeatures_uses_have(e, place, j, x);
    lemma_in_right(
        cores_all_uses(core_feature_entries(d.cores), name) + systems_all_uses(system_feature_entries(d.systems), place),
        cfeatures_all_uses(e, place),
        x,
    );
    lemma_all_uses_have(all, i, x);
    lemma_all_uses_recorded(all, x);
}

/// The record that `find_all` makes lists every text of the custom features
/// of an emulator's systems with the emulator among its places.
pub proof fn lemma_find_all_records_system_feature(
    all: Seq<(Seq<char>, EmulatorFeatures)>,
    i: int,
    s: int,
    j: int,
    t: Seq<char>,
)
    requires
        0 <= i < all.len(),
        0 <= s < system_feature_entries(all[i].1.systems).len(),
        0 <= j < cfeature_entries(system_feature_entries(all[i].1.systems)[s].1.cfeatures).len(),
        is_feature_text(cfeature_entries(system_feature_entries(all[i].1.systems)[s].1.cfeatures)[j].1, t),
    ensures
        recorded_at(add_uses(Seq::empty(), all_uses(all)), t, (all[i].0, None)),
{
    let name = all[i].0;
    let d = all[i].1;
    let place = (name, None::<Seq<char>>);
    let x = (t, place);
    let se = system_feature_entries(d.systems);
    let e = cfeature_entries(se[s].1.cfeatures);
    lemma_feature_uses_have_texts(e[j].1, place, t);
    lemma_cfeatures_uses_have(e, place, j, x);
    lemma_systems_uses_have(se, place, s, x);
    lemma_in_right(cores_all_uses(core_feature_entries(d.cores), name), systems_all_uses(se, place), x);
    lemma_in_left(
        cores_all_uses(core_feature_entries(d.cores), name) + systems_all_uses(se, place),
        cfeatures_all_uses(cfeature_entries(d.cfeatures), place),
        x,
    );
    lemma_all_uses_have(all, i, x);
    lemma_all_uses_recorded(all, x);
}

/// The record that `find_all` makes lists every text of a core's custom
/// features, and of those of the core's systems, with the emulator and the
/// core among its places.
pub proof fn lemma_find_all_records_core_feature(
    all: Seq<(Seq<char>, EmulatorFeatures)>,
    i: int,
    c: int,
    f: CustomFeature,
    t: Seq<char>,
)
    requires
        0 <= i < all.len(),
        0 <= c < core_feature_entries(all[i].1.cores).len(),
        ({
            let core = core_feature_entries(all[i].1.cores)[c].1;
            ||| exists|j: int| 0 <= j < cfeature_entries(core.cfeatures).len() && (#[trigger] cfeature_entries(core.cfeatures)[j]).1 == f
            ||| exists|s: int, j: int|
                0 <= s < system_feature_entries(core.systems).len() && 0 <= j < cfeature_entries(
                    system_feature_entries(core.systems)[s].1.cfeatures,
                ).len() && (#[trigger] cfeature_entries(#[trigger] system_feature_entries(core.systems)[s].1.cfeatures)[j]).1 == f
        }),
        is_feature_text(f, t),
    ensures
        recorded_at(add_uses(Seq::empty(), all_uses(all)), t, (all[i].0, Some(core_feature_entries(all[i].1.cores)[c].0))),
{
    let name = all[i].0;
    let d = all[i].1;
    let ce = core_feature_entries(d.cores);
    let core = ce[c].1;
    let place = (name, Some(ce[c].0));
    let x = (t, place);
    lemma_feature_uses_have_texts(f, place, t);
    let a = cfeatures_all_uses(cfeature_entries(core.cfeatures), place);
    let b = systems_all_uses(system_feature_entries(core.systems), place);
    if exists|j: int| 0 <= j < cfeature_entries(core.cfeatures).len() && (#[trigger] cfeature_entries(core.cfeatures)[j]).1 == f {
        let j = choose|j: int| 0 <= j < cfeature_entries(core.cfeatures).len() && (#[trigger] cfeature_entries(core.cfeatures)[j]).1 == f;
        lemma_cfeatures_uses_have(cfeature_entries(core.cfeatures), place, j, x);
        lemma_in_left(a, b, x);
    } else {
        let (s, j) = choose|s: int, j: int|
            0 <= s < system_feature_entries(core.systems).len() && 0 <= j < cfeature_entries(
                system_feature_entries(core.systems)[s].1.cfeatures,
            ).len() && (#[trigger] cfeature_entries(#[trigger] system_feature_entries(core.systems)[s].1.cfeatures)[j]).1 == f;
        let se = system_feature_entries(core.systems);
        lemma_cfeatures_uses_have(cfeature_entries(se[s].1.cfeatures), place, j, x);
        lemma_systems_uses_have(se, place, s, x);
        lemma_in_right(a, b, x);
    }
    lemma_cores_uses_have(ce, name, c, x);
    lemma_in_left(cores_all_uses(ce, name), systems_all_uses(system_feature_entries(d.systems), (name, None)), x);
    lemma_in_left(
        cores_all_uses(ce, name) + systems_all_uses(system_feature_entries(d.systems), (name, None)),
        cfeatures_all_uses(cfeature_entries(d.cfeatures), (name, None)),
        x,
    );
    lemma_all_uses_have(all, i, x);
    lemma_all_uses_recorded(all, x);
}

} // verus!
