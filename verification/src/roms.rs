//! The ROM folders: where each system's folder goes and the _info.txt it holds.
use vstd::prelude::*;
use vstd::string::*;

use crate::generate_systems::extensions_text;
use crate::generate_systems::list_extensions;
use crate::generate_systems::sub_roms_dir;
use crate::generate_systems::system_sub_roms_dir;
use crate::models::System;
use crate::text::owned;
use crate::text::to_upper;
use crate::text::uppercase;

verus! {

/// A comment line block: a line feed then the comment; nothing without one.
pub open spec fn comment_block(c: Option<String>) -> Seq<char> {
    match c {
        Some(s) => "\n"@ + s@,
        None => Seq::empty(),
    }
}

/// The text of a system's _info.txt.
pub open spec fn info_text(data: System) -> Seq<char> {
    let exts = extensions_text(data.extensions@, false);
    "## SYSTEM "@ + uppercase(data.name@) + " ##\n"@
        + "-------------------------------------------------------------------------------\n"@
        + "ROM files extensions accepted: \""@ + exts + "\"\n"@ + comment_block(data.comment_en)
        + "-------------------------------------------------------------------------------\n"@
        + "Extensions des fichiers ROMs permises: \""@ + exts + "\"\n"@ + comment_block(data.comment_fr)
}

fn push_comment(info: &mut String, c: &Option<String>)
    ensures
        final(info)@ == old(info)@ + comment_block(*c),
{
    match c {
        Some(s) => {
            info.append("\n");
            info.append(s.as_str());
        },
        None => {
            assert(old(info)@ + comment_block(*c) =~= old(info)@);
        },
    }
}

/// The _info.txt of a system: the folder it goes in (relative to the ROM
/// directory) and its text; none for a system with an absolute path.
pub fn system_info(system: &str, data: &System) -> (r: Option<(String, String)>)
    ensures
        match (r, sub_roms_dir(system@, *data)) {
            (Some((dir, text)), Some(d)) => dir@ == d && text@ == info_text(*data),
            (None, None) => true,
            _ => false,
        },
{
    let subdir = match system_sub_roms_dir(system, data) {
        Some(s) => s,
        None => {
            return None;
        },
    };
    let exts = list_extensions(data, false);
    let mut info = owned("## SYSTEM ");
    info.append(to_upper(data.name.as_str()).as_str());
    info.append(" ##\n");
    info.append("-------------------------------------------------------------------------------\n");
    info.append("ROM files extensions accepted: \"");
    info.append(exts.as_str());
    info.append("\"\n");
    push_comment(&mut info, &data.comment_en);
    info.append("-------------------------------------------------------------------------------\n");
    info.append("Extensions des fichiers ROMs permises: \"");
    info.append(exts.as_str());
    info.append("\"\n");
    push_comment(&mut info, &data.comment_fr);
    assert(info@ =~= info_text(*data));
    Some((subdir, info))
}

} // verus!
