//! Which cores and features a build can offer: package requirements and
//! architecture filters.
use vstd::prelude::*;

use crate::models::CustomFeature;
use crate::models::RequirementItem;
use crate::text::str_eq;

verus! {

/// A set of names (enabled packages, blacklisted words).
pub struct NameSet {
    names: Vec<String>,
}

impl View for NameSet {
    type V = Set<Seq<char>>;

    closed spec fn view(&self) -> Set<Seq<char>> {
        Set::new(|s: Seq<char>| exists|i: int| 0 <= i < self.names@.len() && #[trigger] self.names@[i]@ == s)
    }
}

impl NameSet {
    /// The empty set.
    pub fn new() -> (r: NameSet)
        ensures
            r@ == Set::<Seq<char>>::empty(),
    {
        let r = NameSet { names: Vec::new() };
        assert(r@ =~= Set::<Seq<char>>::empty());
        r
    }

    /// Whether `s` is in the set.
    pub fn contains(&self, s: &str) -> (r: bool)
        ensures
            r == self@.contains(s@),
    {
        let mut i: usize = 0;
        while i < self.names.len()
            invariant
                i <= self.names.len(),
                forall|j: int| 0 <= j < i ==> self.names@[j]@ != s@,
            decreases self.names.len() - i,
        {
            if str_eq(self.names[i].as_str(), s) {
                assert(self.names@[i as int]@ == s@);
                return true;
            }
            i = i + 1;
        }
        false
    }

    /// Adds `s` to the set.
    pub fn insert(&mut self, s: String)
        ensures
            final(self)@ == old(self)@.insert(s@),
    {
        if !self.contains(s.as_str()) {
            let ghost prev = self.names@;
            self.names.push(s);
            assert forall|x: Seq<char>| #[trigger] final(self)@.contains(x) == old(self)@.insert(s@).contains(x) by {
                if x == s@ {
                    assert(self.names@[prev.len() as int]@ == x);
                }
                if old(self)@.contains(x) {
                    let i = choose|i: int| 0 <= i < prev.len() && #[trigger] prev[i]@ == x;
                    assert(self.names@[i]@ == x);
                }
                if final(self)@.contains(x) && x != s@ {
                    let i = choose|i: int| 0 <= i < self.names@.len() && #[trigger] self.names@[i]@ == x;
                    assert(prev[i]@ == x);
                }
            }
            assert(final(self)@ =~= old(self)@.insert(s@));
        } else {
            assert(old(self)@.insert(s@) =~= old(self)@);
        }
    }
}

/// Whether one item of requireAnyOf is met by the enabled packages.
pub open spec fn item_met(config: Set<Seq<char>>, item: RequirementItem) -> bool {
    match item {
        RequirementItem::Single(s) => config.contains(s@),
        RequirementItem::Group(g) => exists|j: int| 0 <= j < g@.len() && config.contains(#[trigger] g@[j]@),
    }
}

/// Requirements are met when there are none, or when one item is met.
pub open spec fn requirements_met(config: Set<Seq<char>>, reqs: Seq<RequirementItem>) -> bool {
    reqs.len() == 0 || exists|i: int| 0 <= i < reqs.len() && item_met(config, #[trigger] reqs[i])
}

/// Check if the requirements are met by the config.
pub fn is_valid(config: &NameSet, requirements: &[RequirementItem]) -> (r: bool)
    ensures
        r == requirements_met(config@, requirements@),
{
    if requirements.len() == 0 {
        return true;
    }
    let mut i: usize = 0;
    while i < requirements.len()
        invariant
            i <= requirements.len(),
            forall|k: int| 0 <= k < i ==> !item_met(config@, #[trigger] requirements@[k]),
        decreases requirements.len() - i,
    {
        match &requirements[i] {
            RequirementItem::Single(s) => {
                if config.contains(s.as_str()) {
                    assert(item_met(config@, requirements@[i as int]));
                    return true;
                }
            },
            RequirementItem::Group(group) => {
                let mut j: usize = 0;
                while j < group.len()
                    invariant
                        j <= group.len(),
                        i < requirements.len(),
                        requirements@[i as int] == RequirementItem::Group(*group),
                        forall|k: int| 0 <= k < i ==> !item_met(config@, #[trigger] requirements@[k]),
                        forall|m: int| 0 <= m < j ==> !config@.contains(#[trigger] group@[m]@),
                    decreases group.len() - j,
                {
                    if config.contains(group[j].as_str()) {
                        assert(config@.contains(group@[j as int]@));
                        assert(exists|m: int| 0 <= m < group@.len() && config@.contains(#[trigger] group@[m]@));
                        assert(requirements@[i as int] matches RequirementItem::Group(g) && g@ == group@);
                        assert(item_met(config@, requirements@[i as int]));
                        return true;
                    }
                    j = j + 1;
                }
            },
        }
        i = i + 1;
    }
    false
}

/// Whether a list of strings holds `s`.
pub open spec fn list_has(v: Seq<String>, s: Seq<char>) -> bool {
    exists|i: int| 0 <= i < v.len() && #[trigger] v[i]@ == s
}

/// Whether a list of strings holds `s`.
pub fn list_contains(v: &Vec<String>, s: &str) -> (r: bool)
    ensures
        r == list_has(v@, s@),
{
    let mut i: usize = 0;
    while i < v.len()
        invariant
            i <= v.len(),
            forall|j: int| 0 <= j < i ==> v@[j]@ != s@,
        decreases v.len() - i,
    {
        if str_eq(v[i].as_str(), s) {
            assert(v@[i as int]@ == s@);
            return true;
        }
        i = i + 1;
    }
    false
}

/// A feature is offered on `arch` unless it excludes it, and when its include
/// list is empty or names it.
pub open spec fn arch_ok(arch: Seq<char>, feature: CustomFeature) -> bool {
    &&& !(feature.archs_exclude@.len() > 0 && list_has(feature.archs_exclude@, arch))
    &&& (feature.archs_include@.len() == 0 || list_has(feature.archs_include@, arch))
}

/// Check if a feature is valid for the given architecture.
pub fn arch_valid(arch: &str, feature: &CustomFeature) -> (r: bool)
    ensures
        r == arch_ok(arch@, *feature),
{
    if feature.archs_exclude.len() > 0 && list_contains(&feature.archs_exclude, arch) {
        return false;
    }
    feature.archs_include.len() == 0 || list_contains(&feature.archs_include, arch)
}

} // verus!
