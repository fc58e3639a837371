//! The record of translatable texts: which emulator and core use each text,
//! in the order the texts were first met.
use indexmap::IndexMap;
use vstd::prelude::*;

use crate::generate_features::TranslationComment;
use crate::ordered::key_position;
use crate::ordered::lemma_key_position;
use crate::ordered::translation_entries;
use crate::ordered::translations_insert;
use crate::text::owned;

verus! {

/// Where a text is used: the emulator and, if any, the core.
pub type Place = (Seq<char>, Option<Seq<char>>);

/// The record of translatable texts, entry by entry.
pub type Record = Seq<(Seq<char>, Seq<Place>)>;

/// One more use of `text`: appended to its entry, or a new entry at the end.
pub open spec fn add_use(e: Record, text: Seq<char>, place: Place) -> Record {
    let p = key_position(e, text);
    if p < 0 {
        e.push((text, seq![place]))
    } else {
        e.update(p, (text, e[p].1.push(place)))
    }
}

/// The record after a sequence of uses, in order.
pub open spec fn add_uses(e: Record, uses: Seq<(Seq<char>, Place)>) -> Record
    decreases uses.len(),
{
    if uses.len() == 0 {
        e
    } else {
        add_use(add_uses(e, uses.drop_last()), uses.last().0, uses.last().1)
    }
}

/// Recording `a` then `b` is recording `a + b`.
pub proof fn lemma_add_uses_append(e: Record, a: Seq<(Seq<char>, Place)>, b: Seq<(Seq<char>, Place)>)
    ensures
        add_uses(add_uses(e, a), b) == add_uses(e, a + b),
    decreases b.len(),
{
    if b.len() == 0 {
        assert(a + b =~= a);
    } else {
        lemma_add_uses_append(e, a, b.drop_last());
        assert((a + b).drop_last() =~= a + b.drop_last());
        assert((a + b).last() == b.last());
    }
}

pub proof fn lemma_position_after_push<V>(e: Seq<(Seq<char>, V)>, k: Seq<char>, v: V)
    requires
        key_position(e, k) < 0,
    ensures
        key_position(e.push((k, v)), k) == e.len(),
    decreases e.len(),
{
    if e.len() > 0 {
        assert(e.push((k, v)).drop_first() =~= e.drop_first().push((k, v)));
        lemma_position_after_push(e.drop_first(), k, v);
    }
}

pub proof fn lemma_position_after_update<V>(e: Seq<(Seq<char>, V)>, k: Seq<char>, v: V)
    requires
        key_position(e, k) >= 0,
    ensures
        key_position(e.update(key_position(e, k), (k, v)), k) == key_position(e, k),
    decreases e.len(),
{
    let p = key_position(e, k);
    lemma_key_position(e, k);
    if p > 0 {
        assert(e[0].0 != k);
        assert(key_position(e.drop_first(), k) == p - 1);
        assert(e.update(p, (k, v)).drop_first() =~= e.drop_first().update(p - 1, (k, v)));
        lemma_position_after_update(e.drop_first(), k, v);
        assert(e.update(p, (k, v))[0] == e[0]);
    }
}

/// Records that `text` is used by `emulator` (and `core`).
pub fn add_translation(
    to_translate: &mut IndexMap<String, Vec<TranslationComment>>,
    text: &str,
    emulator: &str,
    core: Option<&str>,
)
    ensures
        translation_entries(*final(to_translate)) == add_use(
            translation_entries(*old(to_translate)),
            text@,
            (emulator@, match core { Some(c) => Some(c@), None => None }),
        ),
{
    let ghost e = translation_entries(*to_translate);
    let ghost p = key_position(e, text@);
    let key = owned(text);
    let previous = translations_insert(to_translate, key.clone(), Vec::new());
    let ghost e1 = translation_entries(*to_translate);
    assert(crate::ordered::comments_view(Seq::<TranslationComment>::empty()) =~= Seq::empty());
    let ghost prev_view = match previous {
        Some(ref v) => crate::ordered::comments_view(v@),
        None => Seq::empty(),
    };
    let mut uses = match previous {
        Some(v) => v,
        None => Vec::new(),
    };
    let c = TranslationComment {
        emulator: owned(emulator),
        core: match core {
            Some(c) => Some(owned(c)),
            None => None,
        },
    };
    let ghost before = uses@;
    uses.push(c);
    proof {
        lemma_key_position(e, text@);
        if p < 0 {
            lemma_position_after_push(e, text@, Seq::<(Seq<char>, Option<Seq<char>>)>::empty());
        } else {
            lemma_position_after_update(e, text@, Seq::<(Seq<char>, Option<Seq<char>>)>::empty());
        }
        assert(uses@ == before.push(c));
    }
    translations_insert(to_translate, key, uses);
    proof {
        let pl = (emulator@, match core { Some(c) => Some(c@), None => None });
        assert(crate::ordered::comments_view(uses@) =~= crate::ordered::comments_view(before).push(pl));
        if p < 0 {
            assert(crate::ordered::comments_view(before) =~= Seq::<(Seq<char>, Option<Seq<char>>)>::empty());
            assert(translation_entries(*to_translate) =~= e.push((text@, seq![pl])));
        } else {
            assert(prev_view == e[p].1);
            assert(crate::ordered::comments_view(before) == prev_view);
            assert(key_position(e1, text@) == p);
            assert(translation_entries(*to_translate) == e1.update(p, (text@, crate::ordered::comments_view(uses@))));
            assert(translation_entries(*to_translate) =~= e.update(p, (text@, e[p].1.push(pl))));
        }
    }
}

} // verus!
