//! The translation headers: every translatable text of the features, and the
//! descriptions of the .keys files, as C macros for gettext.
use indexmap::IndexMap;
use vstd::prelude::*;
use vstd::string::*;

use crate::generate_features::choice_uses;
use crate::generate_features::TranslationComment;
use crate::models::CoreFeatures;
use crate::models::CustomFeature;
use crate::models::EmulatorFeatures;
use crate::models::SystemFeatures;
use crate::models::opt_view;
use crate::ordered::cfeature_entries;
use crate::ordered::cfeatures_get_index;
use crate::ordered::cfeatures_len;
use crate::ordered::choice_entries;
use crate::ordered::choices_get_index;
use crate::ordered::choices_len;
use crate::ordered::comment_view;
use crate::ordered::comments_view;
use crate::ordered::core_feature_entries;
use crate::ordered::core_features_get_index;
use crate::ordered::core_features_len;
use crate::ordered::emulator_entries;
use crate::ordered::emulators_get_index;
use crate::ordered::emulators_len;
use crate::ordered::system_feature_entries;
use crate::ordered::system_features_get_index;
use crate::ordered::system_features_len;
use crate::ordered::translation_entries;
use crate::ordered::translations_new;
use crate::translate::add_translation;
use crate::translate::add_uses;
use crate::translate::lemma_add_uses_append;
use crate::translate::Place;
use crate::translate::Record;
use crate::ordered::translations_get_index;
use crate::ordered::translations_len;
use crate::ordered::translations_retain_unlisted;
use crate::ordered::without_listed;
use crate::ordered::key_position;
use crate::ordered::key_text_entries;
use crate::ordered::key_texts_get_index;
use crate::ordered::key_texts_insert;
use crate::ordered::key_texts_len;
use crate::ordered::key_texts_new;
use crate::ordered::lemma_key_position;
use crate::ordered::source_entries;
use crate::ordered::sources_get_index;
use crate::ordered::sources_insert;
use crate::ordered::sources_len;
use crate::ordered::sources_new;
use crate::translate::lemma_position_after_push;
use crate::translate::lemma_position_after_update;
use crate::requirements::NameSet;
use crate::text::lines_of;
use crate::text::nat_digits;
use crate::text::push_char;
use crate::text::split_lines;
use crate::text::string_of;
use crate::text::u64_to_string;
use crate::text::str_eq;

verus! {

/// A use of an optional text at `place`; none when the text is absent.
pub open spec fn opt_use(o: Option<String>, place: Place) -> Seq<(Seq<char>, Place)> {
    match o {
        Some(s) => seq![(s@, place)],
        None => Seq::empty(),
    }
}

/// The texts of a custom feature whatever the architecture: description,
/// submenu, group, prompt, then the names of its choices.
pub open spec fn feature_all_uses(f: CustomFeature, place: Place) -> Seq<(Seq<char>, Place)> {
    opt_use(f.description, place) + opt_use(f.submenu, place) + opt_use(f.group, place) + seq![(f.prompt@, place)]
        + choice_uses(choice_entries(f.choices), place)
}

/// The texts of all the custom features `e`.
pub open spec fn cfeatures_all_uses(e: Seq<(Seq<char>, CustomFeature)>, place: Place) -> Seq<(Seq<char>, Place)>
    decreases e.len(),
{
    if e.len() == 0 {
        Seq::empty()
    } else {
        cfeatures_all_uses(e.drop_last(), place) + feature_all_uses(e.last().1, place)
    }
}

/// The texts of the custom features of the systems `e`.
pub open spec fn systems_all_uses(e: Seq<(Seq<char>, SystemFeatures)>, place: Place) -> Seq<(Seq<char>, Place)>
    decreases e.len(),
{
    if e.len() == 0 {
        Seq::empty()
    } else {
        systems_all_uses(e.drop_last(), place) + cfeatures_all_uses(cfeature_entries(e.last().1.cfeatures), place)
    }
}

/// The texts of a core: its custom features, then those of its systems.
pub open spec fn core_all_uses(c: CoreFeatures, place: Place) -> Seq<(Seq<char>, Place)> {
    cfeatures_all_uses(cfeature_entries(c.cfeatures), place) + systems_all_uses(system_feature_entries(c.systems), place)
}

/// The texts of the cores `e` of `emulator`.
pub open spec fn cores_all_uses(e: Seq<(Seq<char>, CoreFeatures)>, emulator: Seq<char>) -> Seq<(Seq<char>, Place)>
    decreases e.len(),
{
    if e.len() == 0 {
        Seq::empty()
    } else {
        cores_all_uses(e.drop_last(), emulator) + core_all_uses(e.last().1, (emulator, Some(e.last().0)))
    }
}

/// The texts of one emulator: its cores, its systems, its own custom features.
pub open spec fn emulator_all_uses(name: Seq<char>, d: EmulatorFeatures) -> Seq<(Seq<char>, Place)> {
    cores_all_uses(core_feature_entries(d.cores), name) + systems_all_uses(system_feature_entries(d.systems), (name, None))
        + cfeatures_all_uses(cfeature_entries(d.cfeatures), (name, None))
}

/// The texts of all the entries `e`, in order.
pub open spec fn all_uses(e: Seq<(Seq<char>, EmulatorFeatures)>) -> Seq<(Seq<char>, Place)>
    decreases e.len(),
{
    if e.len() == 0 {
        Seq::empty()
    } else {
        all_uses(e.drop_last()) + emulator_all_uses(e.last().0, e.last().1)
    }
}

fn add_opt(
    to_translate: &mut IndexMap<String, Vec<TranslationComment>>,
    o: &Option<String>,
    emulator: &str,
    core: Option<&str>,
)
    ensures
        translation_entries(*final(to_translate)) == add_uses(
            translation_entries(*old(to_translate)),
            opt_use(*o, (emulator@, crate::generate_features::opt_str(core))),
        ),
{
    let ghost e0 = translation_entries(*to_translate);
    match o {
        Some(s) => {
            add_translation(to_translate, s.as_str(), emulator, core);
            proof {
                let u = opt_use(*o, (emulator@, crate::generate_features::opt_str(core)));
                assert(u.drop_last() =~= Seq::<(Seq<char>, Place)>::empty());
                assert(add_uses(e0, u.drop_last()) == e0);
            }
        },
        None => {},
    }
}

fn extract_feature(
    cf: &CustomFeature,
    emulator: &str,
    core: Option<&str>,
    to_translate: &mut IndexMap<String, Vec<TranslationComment>>,
)
    ensures
        translation_entries(*final(to_translate)) == add_uses(
            translation_entries(*old(to_translate)),
            feature_all_uses(*cf, (emulator@, crate::generate_features::opt_str(core))),
        ),
{
    let ghost place = (emulator@, crate::generate_features::opt_str(core));
    let ghost e0 = translation_entries(*to_translate);
    let ghost u1 = opt_use(cf.description, place);
    let ghost u2 = opt_use(cf.submenu, place);
    let ghost u3 = opt_use(cf.group, place);
    let ghost u4 = seq![(cf.prompt@, place)];
    add_opt(to_translate, &cf.description, emulator, core);
    add_opt(to_translate, &cf.submenu, emulator, core);
    proof {
        lemma_add_uses_append(e0, u1, u2);
    }
    add_opt(to_translate, &cf.group, emulator, core);
    proof {
        lemma_add_uses_append(e0, u1 + u2, u3);
    }
    let ghost e3 = translation_entries(*to_translate);
    add_translation(to_translate, cf.prompt.as_str(), emulator, core);
    proof {
        assert(u4.drop_last() =~= Seq::<(Seq<char>, Place)>::empty());
        assert(add_uses(e3, u4.drop_last()) == e3);
        lemma_add_uses_append(e0, u1 + u2 + u3, u4);
    }
    let ghost head = u1 + u2 + u3 + u4;
    let ghost ce = choice_entries(cf.choices);
    let n = choices_len(&cf.choices);
    let mut i: usize = 0;
    while i < n
        invariant
            i <= n,
            n == ce.len(),
            ce == choice_entries(cf.choices),
            place == (emulator@, crate::generate_features::opt_str(core)),
            translation_entries(*to_translate) == add_uses(e0, head + choice_uses(ce.take(i as int), place)),
        decreases n - i,
    {
        let (choice_name, _) = choices_get_index(&cf.choices, i).unwrap();
        proof {
            assert(ce.take(i + 1).drop_last() =~= ce.take(i as int));
            assert(ce.take(i + 1).last() == ce[i as int]);
        }
        add_translation(to_translate, choice_name.as_str(), emulator, core);
        proof {
            let prev = head + choice_uses(ce.take(i as int), place);
            assert(prev.push((ce[i as int].0, place)) =~= head + choice_uses(ce.take(i + 1), place));
            assert(prev.push((ce[i as int].0, place)).drop_last() =~= prev);
        }
        i = i + 1;
    }
    assert(ce.take(n as int) =~= ce);
}

fn extract_cfeatures(
    cfeatures: &IndexMap<String, CustomFeature>,
    emulator: &str,
    core: Option<&str>,
    to_translate: &mut IndexMap<String, Vec<TranslationComment>>,
)
    ensures
        translation_entries(*final(to_translate)) == add_uses(
            translation_entries(*old(to_translate)),
            cfeatures_all_uses(cfeature_entries(*cfeatures), (emulator@, crate::generate_features::opt_str(core))),
        ),
{
    let ghost place = (emulator@, crate::generate_features::opt_str(core));
    let ghost e0 = translation_entries(*to_translate);
    let ghost ce = cfeature_entries(*cfeatures);
    let n = cfeatures_len(cfeatures);
    let mut i: usize = 0;
    while i < n
        invariant
            i <= n,
            n == ce.len(),
            ce == cfeature_entries(*cfeatures),
            place == (emulator@, crate::generate_features::opt_str(core)),
            translation_entries(*to_translate) == add_uses(e0, cfeatures_all_uses(ce.take(i as int), place)),
        decreases n - i,
    {
        let (_, cf) = cfeatures_get_index(cfeatures, i).unwrap();
        proof {
            assert(ce.take(i + 1).drop_last() =~= ce.take(i as int));
            assert(ce.take(i + 1).last() == ce[i as int]);
        }
        extract_feature(cf, emulator, core, to_translate);
        proof {
            lemma_add_uses_append(e0, cfeatures_all_uses(ce.take(i as int), place), feature_all_uses(*cf, place));
        }
        i = i + 1;
    }
    assert(ce.take(n as int) =~= ce);
}

/// The emulator-level custom features, recorded without a core.
fn extract_cfeatures_no_core(
    cfeatures: &IndexMap<String, CustomFeature>,
    emulator: &str,
    to_translate: &mut IndexMap<String, Vec<TranslationComment>>,
)
    ensures
        translation_entries(*final(to_translate)) == add_uses(
            translation_entries(*old(to_translate)),
            cfeatures_all_uses(cfeature_entries(*cfeatures), (emulator@, None)),
        ),
{
    extract_cfeatures(cfeatures, emulator, None, to_translate);
}

fn extract_systems(
    systems: &IndexMap<String, SystemFeatures>,
    emulator: &str,
    core: Option<&str>,
    to_translate: &mut IndexMap<String, Vec<TranslationComment>>,
)
    ensures
        translation_entries(*final(to_translate)) == add_uses(
            translation_entries(*old(to_translate)),
            systems_all_uses(system_feature_entries(*systems), (emulator@, crate::generate_features::opt_str(core))),
        ),
{
    let ghost place = (emulator@, crate::generate_features::opt_str(core));
    let ghost e0 = translation_entries(*to_translate);
    let ghost se = system_feature_entries(*systems);
    let n = system_features_len(systems);
    let mut i: usize = 0;
    while i < n
        invariant
            i <= n,
            n == se.len(),
            se == system_feature_entries(*systems),
            place == (emulator@, crate::generate_features::opt_str(core)),
            translation_entries(*to_translate) == add_uses(e0, systems_all_uses(se.take(i as int), place)),
        decreases n - i,
    {
        let (_, sys_data) = system_features_get_index(systems, i).unwrap();
        proof {
            assert(se.take(i + 1).drop_last() =~= se.take(i as int));
            assert(se.take(i + 1).last() == se[i as int]);
        }
        extract_cfeatures(&sys_data.cfeatures, emulator, core, to_translate);
        proof {
            lemma_add_uses_append(e0, systems_all_uses(se.take(i as int), place), cfeatures_all_uses(cfeature_entries(sys_data.cfeatures), place));
        }
        i = i + 1;
    }
    assert(se.take(n as int) =~= se);
}

fn extract_emulator(
    emulator: &str,
    emu_data: &EmulatorFeatures,
    to_translate: &mut IndexMap<String, Vec<TranslationComment>>,
)
    ensures
        translation_entries(*final(to_translate)) == add_uses(
            translation_entries(*old(to_translate)),
            emulator_all_uses(emulator@, *emu_data),
        ),
{
    let ghost e0 = translation_entries(*to_translate);
    let ghost ce = core_feature_entries(emu_data.cores);
    let n = core_features_len(&emu_data.cores);
    let mut i: usize = 0;
    while i < n
        invariant
            i <= n,
            n == ce.len(),
            ce == core_feature_entries(emu_data.cores),
            translation_entries(*to_translate) == add_uses(e0, cores_all_uses(ce.take(i as int), emulator@)),
        decreases n - i,
    {
        let (core_name, core_data) = core_features_get_index(&emu_data.cores, i).unwrap();
        proof {
            assert(ce.take(i + 1).drop_last() =~= ce.take(i as int));
            assert(ce.take(i + 1).last() == ce[i as int]);
        }
        let ghost place = (emulator@, Some(core_name@));
        let ghost before = translation_entries(*to_translate);
        extract_cfeatures(&core_data.cfeatures, emulator, Some(core_name.as_str()), to_translate);
        extract_systems(&core_data.systems, emulator, Some(core_name.as_str()), to_translate);
        proof {
            lemma_add_uses_append(before, cfeatures_all_uses(cfeature_entries(core_data.cfeatures), place),
                systems_all_uses(system_feature_entries(core_data.systems), place));
            lemma_add_uses_append(e0, cores_all_uses(ce.take(i as int), emulator@), core_all_uses(*core_data, place));
        }
        i = i + 1;
    }
    assert(ce.take(n as int) =~= ce);
    let ghost u1 = cores_all_uses(ce, emulator@);
    let ghost u2 = systems_all_uses(system_feature_entries(emu_data.systems), (emulator@, None));
    let ghost u3 = cfeatures_all_uses(cfeature_entries(emu_data.cfeatures), (emulator@, None));
    extract_systems(&emu_data.systems, emulator, None, to_translate);
    proof {
        lemma_add_uses_append(e0, u1, u2);
    }
    extract_cfeatures_no_core(&emu_data.cfeatures, emulator, to_translate);
    proof {
        lemma_add_uses_append(e0, u1 + u2, u3);
    }
}

/// Find all translatable strings from the features, regardless of arch.
pub fn find_all(features: &IndexMap<String, EmulatorFeatures>) -> (r: IndexMap<String, Vec<TranslationComment>>)
    ensures
        translation_entries(r) == add_uses(Seq::empty(), all_uses(emulator_entries(*features))),
{
    let mut to_translate = translations_new();
    let ghost e0 = translation_entries(to_translate);
    let ghost all = emulator_entries(*features);
    let n = emulators_len(features);
    let mut i: usize = 0;
    while i < n
        invariant
            i <= n,
            n == all.len(),
            all == emulator_entries(*features),
            e0 == Seq::<(Seq<char>, Seq<Place>)>::empty(),
            translation_entries(to_translate) == add_uses(e0, all_uses(all.take(i as int))),
        decreases n - i,
    {
        let (emulator, emu_data) = emulators_get_index(features, i).unwrap();
        proof {
            assert(all.take(i + 1).drop_last() =~= all.take(i as int));
            assert(all.take(i + 1).last() == all[i as int]);
        }
        extract_emulator(emulator.as_str(), emu_data, &mut to_translate);
        proof {
            lemma_add_uses_append(e0, all_uses(all.take(i as int)), emulator_all_uses(emulator@, *emu_data));
        }
        i = i + 1;
    }
    assert(all.take(n as int) =~= all);
    to_translate
}


/// `regex::Regex`, opaque to Verus: a compiled expression is only carried to
/// `Regex::is_match`.
#[verifier::external_type_specification]
#[verifier::external_body]
pub struct ExRegex(regex::Regex);

/// A compiled regular expression, with the pattern it was compiled from.
struct Pattern {
    re: regex::Regex,
    source: Ghost<Seq<char>>,
}

/// Whether `regex::Regex::new` accepts `pattern`.
pub uninterp spec fn regex_compiles(pattern: Seq<char>) -> bool;

/// Whether `Regex::is_match` on the expression compiled from `pattern` finds
/// a match anywhere in `text`.
pub uninterp spec fn regex_matches(pattern: Seq<char>, text: Seq<char>) -> bool;

/// `regex::Regex::new`: a compiled expression exactly when the pattern
/// compiles, which depends on the pattern alone. Nothing is stated of which
/// patterns compile.
#[verifier::external_body]
fn regex_new(pattern: &str) -> (r: Option<Pattern>)
    ensures
        r.is_some() == regex_compiles(pattern@),
        r matches Some(p) ==> p.source@ == pattern@,
{
    match regex::Regex::new(pattern) {
        Ok(re) => Some(Pattern { re, source: Ghost(pattern@) }),
        Err(_) => None,
    }
}

/// `regex::Regex::is_match`: whether the expression matches somewhere in
/// `text`. Nothing is stated of which texts a pattern matches: that is the
/// regex crate's.
#[verifier::external_body]
fn regex_is_match(p: &Pattern, text: &str) -> (r: bool)
    ensures
        r == regex_matches(p.source@, text@),
{
    p.re.is_match(text)
}

/// Whether `pattern` compiles and matches somewhere in `text`.
pub open spec fn pattern_hits(pattern: Seq<char>, text: Seq<char>) -> bool {
    regex_compiles(pattern) && regex_matches(pattern, text)
}

/// Whether a text is numeric (a count, a ratio, a resolution...) and so not
/// worth translating.
pub open spec fn numeric_text(text: Seq<char>) -> bool {
    ||| pattern_hits("^[0-9]+[+]?$"@, text)
    ||| pattern_hits("^[0-9]+\\.[0-9]+[+]?$"@, text)
    ||| pattern_hits("^[0-9]+:[0-9]+$"@, text)
    ||| pattern_hits("^[0-9]+/[0-9]+$"@, text)
    ||| pattern_hits("^[+-]?[0-9]+[%x]?$"@, text)
    ||| pattern_hits("^[0-9]+x[0-9]+$"@, text)
    ||| pattern_hits(
        "^[xX]?[0-9]*[xX]?[ ]*\\(?[0-9]+[x]?[0-9]+[pK]?\\)?[ ]*\\(?[0-9]+[x]?[0-9]+[pK]?\\)?$"@,
        text,
    )
}

/// The pattern of the `i`th numeric form.
pub open spec fn skip_pattern(i: int) -> Seq<char> {
    if i == 0 {
        "^[0-9]+[+]?$"@
    } else if i == 1 {
        "^[0-9]+\\.[0-9]+[+]?$"@
    } else if i == 2 {
        "^[0-9]+:[0-9]+$"@
    } else if i == 3 {
        "^[0-9]+/[0-9]+$"@
    } else if i == 4 {
        "^[+-]?[0-9]+[%x]?$"@
    } else if i == 5 {
        "^[0-9]+x[0-9]+$"@
    } else {
        "^[xX]?[0-9]*[xX]?[ ]*\\(?[0-9]+[x]?[0-9]+[pK]?\\)?[ ]*\\(?[0-9]+[x]?[0-9]+[pK]?\\)?$"@
    }
}

/// Whether `pats` holds the seven numeric forms, compiled where they compile.
spec fn skip_patterns_ok(pats: Seq<Option<Pattern>>) -> bool {
    &&& pats.len() == 7
    &&& forall|i: int|
        0 <= i < 7 ==> ((#[trigger] pats[i]) is Some <==> regex_compiles(skip_pattern(i))) && (pats[i] matches Some(
            q,
        ) ==> q.source@ == skip_pattern(i))
}

fn build_skip_patterns() -> (r: Vec<Option<Pattern>>)
    ensures
        skip_patterns_ok(r@),
{
    let mut r: Vec<Option<Pattern>> = Vec::new();
    r.push(regex_new("^[0-9]+[+]?$"));
    r.push(regex_new("^[0-9]+\\.[0-9]+[+]?$"));
    r.push(regex_new("^[0-9]+:[0-9]+$"));
    r.push(regex_new("^[0-9]+/[0-9]+$"));
    r.push(regex_new("^[+-]?[0-9]+[%x]?$"));
    r.push(regex_new("^[0-9]+x[0-9]+$"));
    r.push(regex_new("^[xX]?[0-9]*[xX]?[ ]*\\(?[0-9]+[x]?[0-9]+[pK]?\\)?[ ]*\\(?[0-9]+[x]?[0-9]+[pK]?\\)?$"));
    r
}

fn hit(p: &Option<Pattern>, text: &str) -> (r: bool)
    ensures
        r == (p matches Some(q) && regex_matches(q.source@, text@)),
{
    match p {
        Some(q) => regex_is_match(q, text),
        None => false,
    }
}

fn should_skip(text: &str, pats: &Vec<Option<Pattern>>) -> (r: bool)
    requires
        skip_patterns_ok(pats@),
    ensures
        r == numeric_text(text@),
{
    let r = hit(&pats[0], text) || hit(&pats[1], text) || hit(&pats[2], text) || hit(&pats[3], text) || hit(
        &pats[4],
        text,
    ) || hit(&pats[5], text) || hit(&pats[6], text);
    proof {
        assert(pats@[0] is Some <==> regex_compiles(skip_pattern(0)));
        assert(pats@[1] is Some <==> regex_compiles(skip_pattern(1)));
        assert(pats@[2] is Some <==> regex_compiles(skip_pattern(2)));
        assert(pats@[3] is Some <==> regex_compiles(skip_pattern(3)));
        assert(pats@[4] is Some <==> regex_compiles(skip_pattern(4)));
        assert(pats@[5] is Some <==> regex_compiles(skip_pattern(5)));
        assert(pats@[6] is Some <==> regex_compiles(skip_pattern(6)));
    }
    r
}

/// How a comment names a place: the emulator, or `emulator/core` when the
/// core has another name.
pub open spec fn place_text(p: Place) -> Seq<char> {
    match p.1 {
        Some(c) => if c == p.0 {
            p.0
        } else {
            p.0 + "/"@ + c
        },
        None => p.0,
    }
}

/// The comment naming the first five places, then ", ..." when there are more.
pub open spec fn comment_text(places: Seq<Place>) -> Seq<char>
    decreases places.len(),
{
    if places.len() == 0 {
        Seq::empty()
    } else {
        let prev = comment_text(places.drop_last());
        let i = places.len() - 1;
        if i < 5 {
            prev + (if prev.len() > 0 {
                ", "@
            } else {
                Seq::empty()
            }) + place_text(places.last())
        } else if i == 5 {
            prev + ", ..."@
        } else {
            prev
        }
    }
}

/// Format comment string for translation header (up to 5 sources).
fn format_comment(comments: &[TranslationComment]) -> (r: String)
    ensures
        r@ == comment_text(comments_view(comments@)),
{
    let ghost cv = comments_view(comments@);
    let mut vcomment = String::new();
    let mut i: usize = 0;
    while i < comments.len()
        invariant
            i <= comments.len(),
            cv == comments_view(comments@),
            vcomment@ == comment_text(cv.take(i as int)),
        decreases comments.len() - i,
    {
        proof {
            assert(cv.take(i + 1).drop_last() =~= cv.take(i as int));
            assert(cv.take(i + 1).last() == comment_view(comments@[i as int]));
        }
        let c = &comments[i];
        if i < 5 {
            let ghost before = vcomment@;
            if !vcomment.as_str().is_empty() {
                vcomment.append(", ");
            }
            let ghost mid = vcomment@;
            match &c.core {
                Some(core) => {
                    if c.emulator.eq(core) {
                        vcomment.append(c.emulator.as_str());
                    } else {
                        vcomment.append(c.emulator.as_str());
                        vcomment.append("/");
                        vcomment.append(core.as_str());
                    }
                },
                None => {
                    vcomment.append(c.emulator.as_str());
                },
            }
            proof {
                assert(vcomment@ =~= before + (if before.len() > 0 {
                    ", "@
                } else {
                    Seq::<char>::empty()
                }) + place_text(comment_view(*c)));
            }
        } else if i == 5 {
            vcomment.append(", ...");
        }
        i = i + 1;
    }
    assert(cv.take(comments.len() as int) =~= cv);
    vcomment
}

/// A text with each `"` preceded by a backslash, as a C string wants it.
pub open spec fn quote_escaped(s: Seq<char>) -> Seq<char>
    decreases s.len(),
{
    if s.len() == 0 {
        Seq::empty()
    } else {
        quote_escaped(s.drop_last()) + (if s.last() == '"' {
            seq!['\\', '"']
        } else {
            seq![s.last()]
        })
    }
}

fn escape_quotes(s: &str) -> (r: String)
    ensures
        r@ == quote_escaped(s@),
{
    let cs = crate::text::chars_of(s);
    let mut r = String::new();
    let mut i: usize = 0;
    while i < cs.len()
        invariant
            i <= cs.len(),
            cs@ == s@,
            r@ == quote_escaped(s@.take(i as int)),
        decreases cs.len() - i,
    {
        assert(s@.take(i + 1).drop_last() =~= s@.take(i as int));
        if cs[i] == '"' {
            push_char(&mut r, '\\');
        }
        push_char(&mut r, cs[i]);
        assert(r@ =~= quote_escaped(s@.take(i + 1)));
        i = i + 1;
    }
    assert(s@.take(cs.len() as int) =~= s@);
    r
}

/// Whether a text stays out of the translations header: empty, blacklisted
/// or numeric.
pub open spec fn skipped(text: Seq<char>, blacklist: Set<Seq<char>>) -> bool {
    text.len() == 0 || blacklist.contains(text) || numeric_text(text)
}

/// The two lines of the `n`th translatable text.
pub open spec fn translation_lines(text: Seq<char>, places: Seq<Place>, n: nat) -> Seq<char> {
    "/* TRANSLATION: "@ + comment_text(places) + " */\n"@ + "#define fake_gettext_external_"@ + nat_digits(n)
        + " pgettext(\"game_options\", \""@ + quote_escaped(text) + "\")\n"@
}

/// The lines of the texts of `e` that are not skipped, numbered from 1, and
/// how many there are.
pub open spec fn translation_body(e: Record, blacklist: Set<Seq<char>>) -> (Seq<char>, nat)
    decreases e.len(),
{
    if e.len() == 0 {
        (Seq::empty(), 0)
    } else {
        let (t, n) = translation_body(e.drop_last(), blacklist);
        if skipped(e.last().0, blacklist) {
            (t, n)
        } else {
            (t + translation_lines(e.last().0, e.last().1, n + 1), n + 1)
        }
    }
}

proof fn lemma_translation_body_count(e: Record, blacklist: Set<Seq<char>>)
    ensures
        translation_body(e, blacklist).1 <= e.len(),
    decreases e.len(),
{
    if e.len() > 0 {
        lemma_translation_body_count(e.drop_last(), blacklist);
    }
}

/// The es_external_translations.h header.
pub open spec fn translations_header(e: Record, blacklist: Set<Seq<char>>) -> Seq<char> {
    "// file generated automatically by es-system, don't modify it\n\n"@ + translation_body(e, blacklist).0
}

/// Generate the es_external_translations.h C header text.
pub fn translations_header_text(
    to_translate: &IndexMap<String, Vec<TranslationComment>>,
    blacklisted_words: &NameSet,
) -> (r: String)
    ensures
        r@ == translations_header(translation_entries(*to_translate), blacklisted_words@),
{
    let ghost e = translation_entries(*to_translate);
    let mut out = String::new();
    out.append("// file generated automatically by es-system, don't modify it\n\n");
    let ghost head = out@;
    let pats = build_skip_patterns();
    let len = translations_len(to_translate);
    let mut count: u64 = 0;
    let mut i: usize = 0;
    while i < len
        invariant
            i <= len,
            len == e.len(),
            e == translation_entries(*to_translate),
            count == translation_body(e.take(i as int), blacklisted_words@).1,
            count <= i,
            out@ == head + translation_body(e.take(i as int), blacklisted_words@).0,
            skip_patterns_ok(pats@),
        decreases len - i,
    {
        let (text, comments) = translations_get_index(to_translate, i).unwrap();
        proof {
            assert(e.take(i + 1).drop_last() =~= e.take(i as int));
            assert(e.take(i + 1).last() == e[i as int]);
            lemma_translation_body_count(e.take(i as int), blacklisted_words@);
        }
        let skip = text.as_str().is_empty() || blacklisted_words.contains(text.as_str()) || should_skip(text.as_str(), &pats);
        if !skip {
            out.append("/* TRANSLATION: ");
            out.append(format_comment(comments.as_slice()).as_str());
            out.append(" */\n");
            out.append("#define fake_gettext_external_");
            out.append(u64_to_string(count + 1).as_str());
            out.append(" pgettext(\"game_options\", \"");
            out.append(escape_quotes(text.as_str()).as_str());
            out.append("\")\n");
            count = count + 1;
        }
        proof {
            assert(out@ =~= head + translation_body(e.take(i + 1), blacklisted_words@).0);
        }
        i = i + 1;
    }
    assert(e.take(len as int) =~= e);
    out
}

/// Removes the blacklisted texts from the record, keeping the order of the rest.
pub fn remove_blacklisted(to_translate: &mut IndexMap<String, Vec<TranslationComment>>, blacklist: &NameSet)
    ensures
        translation_entries(*final(to_translate)) == without_listed(translation_entries(*old(to_translate)), blacklist@),
{
    translations_retain_unlisted(to_translate, blacklist);
}

/// A line of the blacklist without its trailing carriage returns.
pub open spec fn strip_cr(s: Seq<char>) -> Seq<char>
    decreases s.len(),
{
    if s.len() > 0 && s.last() == '\r' {
        strip_cr(s.drop_last())
    } else {
        s
    }
}

/// The words that the lines `lines` of a blacklist name: each non-empty line.
pub open spec fn listed_words(lines: Seq<Seq<char>>) -> Set<Seq<char>>
    decreases lines.len(),
{
    if lines.len() == 0 {
        Set::empty()
    } else {
        let prev = listed_words(lines.drop_last());
        let w = strip_cr(lines.last());
        if w.len() > 0 {
            prev.insert(w)
        } else {
            prev
        }
    }
}

fn strip_cr_chars(s: &Vec<char>) -> (r: Vec<char>)
    ensures
        r@ == strip_cr(s@),
{
    let mut b: usize = s.len();
    assert(s@.take(b as int) =~= s@);
    while b > 0 && s[b - 1] == '\r'
        invariant
            b <= s.len(),
            strip_cr(s@) == strip_cr(s@.take(b as int)),
        decreases b,
    {
        assert(s@.take(b as int).drop_last() =~= s@.take(b - 1));
        b = b - 1;
    }
    let mut r: Vec<char> = Vec::new();
    let mut k: usize = 0;
    while k < b
        invariant
            k <= b,
            b <= s.len(),
            r@ == s@.take(k as int),
        decreases b - k,
    {
        r.push(s[k]);
        assert(r@ =~= s@.take(k + 1));
        k = k + 1;
    }
    assert(r@ == s@.take(b as int));
    r
}

/// Load blacklisted words from the text of a blacklist: one word a line.
pub fn parse_blacklist(content: &str) -> (r: NameSet)
    ensures
        r@ == listed_words(split_lines(content@)),
{
    let lines = lines_of(content);
    let ghost ls = split_lines(content@);
    let mut set = NameSet::new();
    let mut i: usize = 0;
    while i < lines.len()
        invariant
            i <= lines.len(),
            lines@.len() == ls.len(),
            ls == split_lines(content@),
            forall|k: int| 0 <= k < lines@.len() ==> (#[trigger] lines@[k])@ == ls[k],
            set@ == listed_words(ls.take(i as int)),
        decreases lines.len() - i,
    {
        proof {
            assert(ls.take(i + 1).drop_last() =~= ls.take(i as int));
            assert(ls.take(i + 1).last() == lines@[i as int]@);
        }
        let w = strip_cr_chars(&lines[i]);
        if w.len() > 0 {
            set.insert(string_of(&w));
        }
        i = i + 1;
    }
    assert(ls.take(lines.len() as int) =~= ls);
    set
}


/// An action of a .keys file; `description` is absent unless it is a string.
pub struct KeysAction {
    pub description: Option<String>,
}

/// A device of a .keys file; `actions` is absent unless it is an array.
pub struct KeysDevice {
    pub actions: Option<Vec<KeysAction>>,
}

/// A .keys file: its file name and its devices, in order.
pub struct KeysFile {
    pub file_name: String,
    pub devices: Vec<KeysDevice>,
}

/// The descriptions of a list of actions, in order.
pub open spec fn actions_descriptions(a: Seq<KeysAction>) -> Seq<Seq<char>>
    decreases a.len(),
{
    if a.len() == 0 {
        Seq::empty()
    } else {
        let prev = actions_descriptions(a.drop_last());
        match a.last().description {
            Some(d) => prev.push(d@),
            None => prev,
        }
    }
}

/// The descriptions of a list of devices, in order.
pub open spec fn devices_descriptions(d: Seq<KeysDevice>) -> Seq<Seq<char>>
    decreases d.len(),
{
    if d.len() == 0 {
        Seq::empty()
    } else {
        devices_descriptions(d.drop_last()) + match d.last().actions {
            Some(a) => actions_descriptions(a@),
            None => Seq::empty(),
        }
    }
}

/// The texts of the .keys files with the files that hold each, in the order met.
pub type KeyTexts = Seq<(Seq<char>, Seq<(Seq<char>, ())>)>;

/// A file name added to the ordered set `s`.
pub open spec fn add_file(s: Seq<(Seq<char>, ())>, file: Seq<char>) -> Seq<(Seq<char>, ())> {
    let p = key_position(s, file);
    if p < 0 {
        s.push((file, ()))
    } else {
        s.update(p, (file, ()))
    }
}

/// `text` found in `file`.
pub open spec fn add_source(m: KeyTexts, text: Seq<char>, file: Seq<char>) -> KeyTexts {
    let p = key_position(m, text);
    if p < 0 {
        m.push((text, seq![(file, ())]))
    } else {
        m.update(p, (text, add_file(m[p].1, file)))
    }
}

/// The texts `texts` found in `file`, in order.
pub open spec fn add_sources(m: KeyTexts, texts: Seq<Seq<char>>, file: Seq<char>) -> KeyTexts
    decreases texts.len(),
{
    if texts.len() == 0 {
        m
    } else {
        add_source(add_sources(m, texts.drop_last(), file), texts.last(), file)
    }
}

/// The texts of the .keys files `files`, in order.
pub open spec fn files_key_texts(files: Seq<KeysFile>) -> KeyTexts
    decreases files.len(),
{
    if files.len() == 0 {
        Seq::empty()
    } else {
        add_sources(files_key_texts(files.drop_last()), devices_descriptions(files.last().devices@), files.last().file_name@)
    }
}

/// What a map of .keys texts holds.
pub open spec fn key_texts_model(e: Seq<(Seq<char>, IndexMap<String, ()>)>) -> KeyTexts {
    e.map_values(|x: (Seq<char>, IndexMap<String, ()>)| (x.0, source_entries(x.1)))
}

proof fn lemma_model_position(e: Seq<(Seq<char>, IndexMap<String, ()>)>, k: Seq<char>)
    ensures
        key_position(key_texts_model(e), k) == key_position(e, k),
    decreases e.len(),
{
    if e.len() > 0 {
        assert(key_texts_model(e).drop_first() =~= key_texts_model(e.drop_first()));
        lemma_model_position(e.drop_first(), k);
    }
}

fn add_key_source(vals: &mut IndexMap<String, IndexMap<String, ()>>, text: &String, file: &String)
    ensures
        key_texts_model(key_text_entries(*final(vals))) == add_source(key_texts_model(key_text_entries(*old(vals))), text@, file@),
{
    let ghost e = key_text_entries(*vals);
    let ghost p = key_position(e, text@);
    proof {
        lemma_key_position(e, text@);
        lemma_model_position(e, text@);
    }
    let empty = sources_new();
    let previous = key_texts_insert(vals, text.clone(), empty);
    let ghost e1 = key_text_entries(*vals);
    let mut inner = match previous {
        Some(m) => m,
        None => sources_new(),
    };
    let ghost before = source_entries(inner);
    sources_insert(&mut inner, file.clone());
    proof {
        if p < 0 {
            lemma_position_after_push(e, text@, empty);
            assert(key_position(before, file@) < 0);
        } else {
            lemma_position_after_update(e, text@, empty);
        }
    }
    let ghost inner_model = source_entries(inner);
    key_texts_insert(vals, text.clone(), inner);
    proof {
        let m = key_texts_model(e);
        if p < 0 {
            assert(inner_model =~= seq![(file@, ())]);
            assert(key_texts_model(key_text_entries(*vals)) =~= m.push((text@, seq![(file@, ())])));
        } else {
            assert(before == source_entries(e[p].1));
            assert(key_texts_model(key_text_entries(*vals)) =~= m.update(p, (text@, add_file(m[p].1, file@))));
        }
    }
}

fn add_descriptions(vals: &mut IndexMap<String, IndexMap<String, ()>>, actions: &Vec<KeysAction>, file: &String)
    ensures
        key_texts_model(key_text_entries(*final(vals))) == add_sources(
            key_texts_model(key_text_entries(*old(vals))),
            actions_descriptions(actions@),
            file@,
        ),
{
    let ghost m0 = key_texts_model(key_text_entries(*vals));
    let mut i: usize = 0;
    while i < actions.len()
        invariant
            i <= actions.len(),
            key_texts_model(key_text_entries(*vals)) == add_sources(m0, actions_descriptions(actions@.take(i as int)), file@),
        decreases actions.len() - i,
    {
        proof {
            assert(actions@.take(i + 1).drop_last() =~= actions@.take(i as int));
            assert(actions@.take(i + 1).last() == actions@[i as int]);
        }
        match &actions[i].description {
            Some(desc) => {
                add_key_source(vals, desc, file);
                proof {
                    let d = actions_descriptions(actions@.take(i as int));
                    assert(d.push(desc@).drop_last() =~= d);
                }
            },
            None => {},
        }
        i = i + 1;
    }
    assert(actions@.take(actions.len() as int) =~= actions@);
}

proof fn lemma_add_sources_append(m: KeyTexts, a: Seq<Seq<char>>, b: Seq<Seq<char>>, file: Seq<char>)
    ensures
        add_sources(add_sources(m, a, file), b, file) == add_sources(m, a + b, file),
    decreases b.len(),
{
    if b.len() == 0 {
        assert(a + b =~= a);
    } else {
        lemma_add_sources_append(m, a, b.drop_last(), file);
        assert((a + b).drop_last() =~= a + b.drop_last());
    }
}

/// Collect the descriptions of the .keys files, each with the files that hold it.
pub fn collect_key_texts(files: &Vec<KeysFile>) -> (r: IndexMap<String, IndexMap<String, ()>>)
    ensures
        key_texts_model(key_text_entries(r)) == files_key_texts(files@),
{
    let mut vals = key_texts_new();
    assert(key_texts_model(key_text_entries(vals)) =~= Seq::<(Seq<char>, Seq<(Seq<char>, ())>)>::empty());
    let mut f: usize = 0;
    while f < files.len()
        invariant
            f <= files.len(),
            key_texts_model(key_text_entries(vals)) == files_key_texts(files@.take(f as int)),
        decreases files.len() - f,
    {
        proof {
            assert(files@.take(f + 1).drop_last() =~= files@.take(f as int));
            assert(files@.take(f + 1).last() == files@[f as int]);
        }
        let file = &files[f];
        let ghost m0 = key_texts_model(key_text_entries(vals));
        let ghost devs = file.devices@;
        let mut d: usize = 0;
        while d < file.devices.len()
            invariant
                d <= file.devices.len(),
                devs == file.devices@,
                key_texts_model(key_text_entries(vals)) == add_sources(m0, devices_descriptions(devs.take(d as int)), file.file_name@),
            decreases file.devices.len() - d,
        {
            proof {
                assert(devs.take(d + 1).drop_last() =~= devs.take(d as int));
                assert(devs.take(d + 1).last() == devs[d as int]);
            }
            let ghost prev = devices_descriptions(devs.take(d as int));
            match &file.devices[d].actions {
                Some(actions) => {
                    add_descriptions(&mut vals, actions, &file.file_name);
                    proof {
                        lemma_add_sources_append(m0, prev, actions_descriptions(actions@), file.file_name@);
                    }
                },
                None => {
                    assert(prev + Seq::<Seq<char>>::empty() =~= prev);
                },
            }
            d = d + 1;
        }
        assert(devs.take(file.devices.len() as int) =~= devs);
        f = f + 1;
    }
    assert(files@.take(files.len() as int) =~= files@);
    vals
}

/// The comment naming the first five files, then ", ..." when there are more.
pub open spec fn sources_text(s: Seq<(Seq<char>, ())>) -> Seq<char>
    decreases s.len(),
{
    if s.len() == 0 {
        Seq::empty()
    } else {
        let prev = sources_text(s.drop_last());
        let i = s.len() - 1;
        if i < 5 {
            prev + (if prev.len() > 0 {
                ", "@
            } else {
                Seq::empty()
            }) + s.last().0
        } else if i == 5 {
            prev + ", ..."@
        } else {
            prev
        }
    }
}

fn sources_comment(sources: &IndexMap<String, ()>) -> (r: String)
    ensures
        r@ == sources_text(source_entries(*sources)),
{
    let ghost se = source_entries(*sources);
    let n = sources_len(sources);
    let mut vcomment = String::new();
    let mut i: usize = 0;
    while i < n
        invariant
            i <= n,
            n == se.len(),
            se == source_entries(*sources),
            vcomment@ == sources_text(se.take(i as int)),
        decreases n - i,
    {
        let (source_file, _) = sources_get_index(sources, i).unwrap();
        proof {
            assert(se.take(i + 1).drop_last() =~= se.take(i as int));
            assert(se.take(i + 1).last() == se[i as int]);
        }
        if i < 5 {
            if !vcomment.as_str().is_empty() {
                vcomment.append(", ");
            }
            vcomment.append(source_file.as_str());
        } else if i == 5 {
            vcomment.append(", ...");
        }
        proof {
            assert(vcomment@ =~= sources_text(se.take(i + 1)));
        }
        i = i + 1;
    }
    assert(se.take(n as int) =~= se);
    vcomment
}

/// The lines of the .keys texts `m`, numbered from 0.
pub open spec fn key_lines(m: KeyTexts) -> Seq<char>
    decreases m.len(),
{
    if m.len() == 0 {
        Seq::empty()
    } else {
        let n = (m.len() - 1) as nat;
        key_lines(m.drop_last()) + "/* TRANSLATION: "@ + sources_text(m.last().1) + " */\n"@
            + "#define fake_gettext_external_"@ + nat_digits(n) + " pgettext(\"keys_files\", \""@ + quote_escaped(
            m.last().0,
        ) + "\")\n"@
    }
}

/// The es_keys_translations.h header.
pub open spec fn keys_header(m: KeyTexts) -> Seq<char> {
    "// file generated automatically by es-system, don't modify it\n\n"@ + key_lines(m)
}

/// Generate the es_keys_translations.h C header text from the texts of the .keys files.
pub fn keys_header_text(vals: &IndexMap<String, IndexMap<String, ()>>) -> (r: String)
    ensures
        r@ == keys_header(key_texts_model(key_text_entries(*vals))),
{
    let ghost e = key_text_entries(*vals);
    let ghost m = key_texts_model(e);
    let mut out = String::new();
    out.append("// file generated automatically by es-system, don't modify it\n\n");
    let ghost head = out@;
    let len = key_texts_len(vals);
    let mut i: usize = 0;
    while i < len
        invariant
            i <= len,
            len == e.len(),
            e == key_text_entries(*vals),
            m == key_texts_model(e),
            out@ == head + key_lines(m.take(i as int)),
        decreases len - i,
    {
        let (text, sources) = key_texts_get_index(vals, i).unwrap();
        proof {
            assert(m.take(i + 1).drop_last() =~= m.take(i as int));
            assert(m.take(i + 1).last() == m[i as int]);
            assert(m[i as int] == (text@, source_entries(*sources)));
        }
        out.append("/* TRANSLATION: ");
        out.append(sources_comment(sources).as_str());
        out.append(" */\n");
        out.append("#define fake_gettext_external_");
        out.append(u64_to_string(i as u64).as_str());
        out.append(" pgettext(\"keys_files\", \"");
        out.append(escape_quotes(text.as_str()).as_str());
        out.append("\")\n");
        proof {
            assert(out@ =~= head + key_lines(m.take(i + 1)));
        }
        i = i + 1;
    }
    assert(m.take(len as int) =~= m);
    out
}

#[verifier::external_type_specification]
#[verifier::external_body]
pub struct ExJsonValue(serde_json::Value);

/// A JSON value as serde_json reads it, variant for variant: a number is kept
/// as the text serde_json displays for it, and the members of an object come
/// in serde_json's map order.
pub enum JsonDoc {
    Null,
    Bool(bool),
    Number(String),
    Str(String),
    Array(Vec<JsonDoc>),
    Object(Vec<JsonMember>),
}

/// A member of a JSON object: its key and its value.
pub struct JsonMember {
    pub key: String,
    pub value: JsonDoc,
}

/// What `serde_json::from_str::<serde_json::Value>` reads from a text: the
/// document, or none when the text is not JSON.
pub uninterp spec fn json_of(content: Seq<char>) -> Option<JsonDoc>;

/// `serde_json::from_str::<serde_json::Value>`, its value converted variant
/// for variant into a `JsonDoc`: the result is `json_of` of the text. Nothing
/// is stated of JSON syntax or of serde_json's map order.
#[verifier::external_body]
fn parse_json(content: &str) -> (r: Option<JsonDoc>)
    ensures
        r == json_of(content@),
{
    match serde_json::from_str::<serde_json::Value>(content) {
        Ok(v) => Some(json_doc(v)),
        Err(_) => None,
    }
}

/// The conversion half of `parse_json`: a `serde_json::Value` into a
/// `JsonDoc`, one arm per variant, children converted the same way.
#[verifier::external_body]
fn json_doc(v: serde_json::Value) -> JsonDoc {
    match v {
        serde_json::Value::Null => JsonDoc::Null,
        serde_json::Value::Bool(b) => JsonDoc::Bool(b),
        serde_json::Value::Number(n) => JsonDoc::Number(n.to_string()),
        serde_json::Value::String(s) => JsonDoc::Str(s),
        serde_json::Value::Array(xs) => JsonDoc::Array(xs.into_iter().map(json_doc).collect()),
        serde_json::Value::Object(o) => JsonDoc::Object(
            o.into_iter().map(|(key, x)| JsonMember { key, value: json_doc(x) }).collect(),
        ),
    }
}

/// The value of the first member of `ms` named `key`, if any.
pub open spec fn member_value(ms: Seq<JsonMember>, key: Seq<char>) -> Option<JsonDoc>
    decreases ms.len(),
{
    if ms.len() == 0 {
        None
    } else if ms[0].key@ == key {
        Some(ms[0].value)
    } else {
        member_value(ms.drop_first(), key)
    }
}

/// The description of an action: the `"description"` member of an object,
/// when it is a string.
pub open spec fn action_description(item: JsonDoc) -> Option<Seq<char>> {
    match item {
        JsonDoc::Object(ms) => match member_value(ms@, "description"@) {
            Some(JsonDoc::Str(d)) => Some(d@),
            _ => None,
        },
        _ => None,
    }
}

/// The actions of a device: the descriptions of the items of an array; none
/// when the value is not an array.
pub open spec fn device_actions(v: JsonDoc) -> Option<Seq<Option<Seq<char>>>> {
    match v {
        JsonDoc::Array(xs) => Some(xs@.map_values(|x: JsonDoc| action_description(x))),
        _ => None,
    }
}

/// The devices of a .keys file: one for each member of the top-level object,
/// in order; none when the text is not a JSON object.
pub open spec fn keys_devices(content: Seq<char>) -> Seq<Option<Seq<Option<Seq<char>>>>> {
    match json_of(content) {
        Some(JsonDoc::Object(ms)) => ms@.map_values(|m: JsonMember| device_actions(m.value)),
        _ => Seq::empty(),
    }
}

/// What a device says: the descriptions of its actions, if it has an array.
pub open spec fn device_view(d: KeysDevice) -> Option<Seq<Option<Seq<char>>>> {
    match d.actions {
        Some(a) => Some(a@.map_values(|x: KeysAction| opt_view(x.description))),
        None => None,
    }
}

/// What a list of devices says.
pub open spec fn devices_view(d: Seq<KeysDevice>) -> Seq<Option<Seq<Option<Seq<char>>>>> {
    d.map_values(|x: KeysDevice| device_view(x))
}

fn member_lookup<'a>(ms: &'a Vec<JsonMember>, key: &str) -> (r: Option<&'a JsonDoc>)
    ensures
        match r {
            Some(v) => member_value(ms@, key@) == Some(*v),
            None => member_value(ms@, key@) is None,
        },
{
    let mut i: usize = 0;
    assert(ms@.skip(0) =~= ms@);
    while i < ms.len()
        invariant
            i <= ms.len(),
            member_value(ms@, key@) == member_value(ms@.skip(i as int), key@),
        decreases ms.len() - i,
    {
        assert(ms@.skip(i as int).drop_first() =~= ms@.skip(i + 1));
        assert(ms@.skip(i as int)[0] == ms@[i as int]);
        if str_eq(ms[i].key.as_str(), key) {
            return Some(&ms[i].value);
        }
        i = i + 1;
    }
    assert(ms@.skip(i as int).len() == 0);
    None
}

fn action_of(item: &JsonDoc) -> (r: KeysAction)
    ensures
        opt_view(r.description) == action_description(*item),
{
    let description = match item {
        JsonDoc::Object(ms) => match member_lookup(ms, "description") {
            Some(JsonDoc::Str(d)) => Some(d.clone()),
            _ => None,
        },
        _ => None,
    };
    KeysAction { description }
}

fn device_of(v: &JsonDoc) -> (r: KeysDevice)
    ensures
        device_view(r) == device_actions(*v),
{
    match v {
        JsonDoc::Array(xs) => {
            let mut actions: Vec<KeysAction> = Vec::new();
            let mut i: usize = 0;
            while i < xs.len()
                invariant
                    i <= xs.len(),
                    actions@.len() == i,
                    forall|k: int| 0 <= k < i ==> opt_view(#[trigger] actions@[k].description) == action_description(xs@[k]),
                decreases xs.len() - i,
            {
                actions.push(action_of(&xs[i]));
                i = i + 1;
            }
            let r = KeysDevice { actions: Some(actions) };
            assert(actions@.map_values(|x: KeysAction| opt_view(x.description)) =~= xs@.map_values(
                |x: JsonDoc| action_description(x),
            ));
            r
        },
        _ => KeysDevice { actions: None },
    }
}

/// The devices of a .keys file, read from the document serde_json makes of
/// its text: for each member of the top-level object, the `"description"`
/// strings of the items of its array.
pub fn key_descriptions(doc: &Option<JsonDoc>) -> (r: Vec<KeysDevice>)
    ensures
        devices_view(r@) == match *doc {
            Some(JsonDoc::Object(ms)) => ms@.map_values(|m: JsonMember| device_actions(m.value)),
            _ => Seq::empty(),
        },
{
    let mut out: Vec<KeysDevice> = Vec::new();
    match doc {
        Some(JsonDoc::Object(ms)) => {
            let mut i: usize = 0;
            while i < ms.len()
                invariant
                    i <= ms.len(),
                    out@.len() == i,
                    forall|k: int| 0 <= k < i ==> device_view(#[trigger] out@[k]) == device_actions(ms@[k].value),
                decreases ms.len() - i,
            {
                out.push(device_of(&ms[i].value));
                i = i + 1;
            }
            assert(devices_view(out@) =~= ms@.map_values(|m: JsonMember| device_actions(m.value)));
        },
        _ => {
            assert(devices_view(out@) =~= Seq::<Option<Seq<Option<Seq<char>>>>>::empty());
        },
    }
    out
}

/// The descriptions present among the actions `a`, in order.
pub open spec fn present_descriptions(a: Seq<Option<Seq<char>>>) -> Seq<Seq<char>>
    decreases a.len(),
{
    if a.len() == 0 {
        Seq::empty()
    } else {
        let prev = present_descriptions(a.drop_last());
        match a.last() {
            Some(d) => prev.push(d),
            None => prev,
        }
    }
}

/// The descriptions of a parsed .keys file, device after device.
pub open spec fn json_descriptions(d: Seq<Option<Seq<Option<Seq<char>>>>>) -> Seq<Seq<char>>
    decreases d.len(),
{
    if d.len() == 0 {
        Seq::empty()
    } else {
        json_descriptions(d.drop_last()) + match d.last() {
            Some(a) => present_descriptions(a),
            None => Seq::empty(),
        }
    }
}

/// The texts of the .keys files `files` (name, content), in order.
pub open spec fn contents_key_texts(files: Seq<(String, String)>) -> KeyTexts
    decreases files.len(),
{
    if files.len() == 0 {
        Seq::empty()
    } else {
        add_sources(
            contents_key_texts(files.drop_last()),
            json_descriptions(keys_devices(files.last().1@)),
            files.last().0@,
        )
    }
}

proof fn lemma_actions_view(a: Seq<KeysAction>)
    ensures
        actions_descriptions(a) == present_descriptions(a.map_values(|x: KeysAction| opt_view(x.description))),
    decreases a.len(),
{
    if a.len() > 0 {
        lemma_actions_view(a.drop_last());
        let f = |x: KeysAction| opt_view(x.description);
        assert(a.map_values(f).drop_last() =~= a.drop_last().map_values(f));
        assert(a.map_values(f).last() == opt_view(a.last().description));
    }
}

proof fn lemma_devices_view(d: Seq<KeysDevice>)
    ensures
        devices_descriptions(d) == json_descriptions(devices_view(d)),
    decreases d.len(),
{
    if d.len() > 0 {
        lemma_devices_view(d.drop_last());
        assert(devices_view(d).drop_last() =~= devices_view(d.drop_last()));
        assert(devices_view(d).last() == device_view(d.last()));
        match d.last().actions {
            Some(a) => lemma_actions_view(a@),
            None => {},
        }
    }
}

/// The es_keys_translations.h header of the .keys files `files`, each given by
/// its file name and its text, in the order they were found.
pub fn keys_header_from_files(files: &Vec<(String, String)>) -> (r: String)
    ensures
        r@ == keys_header(contents_key_texts(files@)),
{
    let mut parsed: Vec<KeysFile> = Vec::new();
    let mut i: usize = 0;
    while i < files.len()
        invariant
            i <= files.len(),
            files_key_texts(parsed@) == contents_key_texts(files@.take(i as int)),
        decreases files.len() - i,
    {
        let doc = parse_json(files[i].1.as_str());
        let devices = key_descriptions(&doc);
        proof {
            lemma_devices_view(devices@);
            assert(files@.take(i + 1).drop_last() =~= files@.take(i as int));
            assert(files@.take(i + 1).last() == files@[i as int]);
        }
        let ghost before = parsed@;
        parsed.push(KeysFile { file_name: files[i].0.clone(), devices });
        proof {
            assert(parsed@.drop_last() =~= before);
        }
        i = i + 1;
    }
    assert(files@.take(files.len() as int) =~= files@);
    let vals = collect_key_texts(&parsed);
    keys_header_text(&vals)
}

} // verus!
