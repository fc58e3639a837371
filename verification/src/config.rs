//! The buildroot .config (installed-packages.conf): which packages are on.
use vstd::prelude::*;

use crate::requirements::NameSet;
use crate::text::lines_of;
use crate::text::split_lines;
use crate::text::string_of;
use crate::text::trim;
use crate::text::trim_chars;

verus! {

/// The key that a line of a .config turns on: the line, trimmed, has no
/// space and reads `KEY=y` with a non-empty `KEY`.
pub open spec fn enabled_key(line: Seq<char>) -> Option<Seq<char>> {
    let t = trim(line);
    if !t.contains(' ') && t.len() > 2 && t[t.len() - 2] == '=' && t[t.len() - 1] == 'y' {
        Some(t.take(t.len() - 2))
    } else {
        None
    }
}

/// The keys that the lines `lines` turn on.
pub open spec fn enabled_keys(lines: Seq<Seq<char>>) -> Set<Seq<char>>
    decreases lines.len(),
{
    if lines.len() == 0 {
        Set::empty()
    } else {
        let prev = enabled_keys(lines.drop_last());
        match enabled_key(lines.last()) {
            Some(k) => prev.insert(k),
            None => prev,
        }
    }
}

fn line_key(line: &Vec<char>) -> (r: Option<String>)
    ensures
        match (r, enabled_key(line@)) {
            (Some(a), Some(b)) => a@ == b,
            (None, None) => true,
            _ => false,
        },
{
    let t = trim_chars(line);
    let n = t.len();
    let mut i: usize = 0;
    while i < n
        invariant
            i <= n,
            n == t.len(),
            t@ == trim(line@),
            forall|j: int| 0 <= j < i ==> t@[j] != ' ',
        decreases n - i,
    {
        if t[i] == ' ' {
            assert(t@.contains(' '));
            return None;
        }
        i = i + 1;
    }
    assert(!t@.contains(' '));
    if n > 2 && t[n - 2] == '=' && t[n - 1] == 'y' {
        let mut k: Vec<char> = Vec::new();
        let mut j: usize = 0;
        while j < n - 2
            invariant
                j <= n - 2,
                n == t.len(),
                n > 2,
                k@ == t@.take(j as int),
            decreases n - 2 - j,
        {
            k.push(t[j]);
            assert(k@ =~= t@.take(j + 1));
            j = j + 1;
        }
        Some(string_of(&k))
    } else {
        None
    }
}

/// Load a buildroot .config text, collecting all keys where value is "y".
pub fn parse_config(content: &str) -> (r: NameSet)
    ensures
        r@ == enabled_keys(split_lines(content@)),
{
    let lines = lines_of(content);
    let ghost ls = split_lines(content@);
    let mut config = NameSet::new();
    let mut i: usize = 0;
    while i < lines.len()
        invariant
            i <= lines.len(),
            lines@.len() == ls.len(),
            ls == split_lines(content@),
            forall|k: int| 0 <= k < lines@.len() ==> (#[trigger] lines@[k])@ == ls[k],
            config@ == enabled_keys(ls.take(i as int)),
        decreases lines.len() - i,
    {
        proof {
            assert(ls.take(i + 1).drop_last() =~= ls.take(i as int));
            assert(ls.take(i + 1).last() == lines@[i as int]@);
        }
        match line_key(&lines[i]) {
            Some(key) => {
                config.insert(key);
            },
            None => {},
        }
        i = i + 1;
    }
    assert(ls.take(lines.len() as int) =~= ls);
    config
}

} // verus!
