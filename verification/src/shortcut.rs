//! File names and arguments of the shortcuts the application creates.

use vstd::prelude::*;

use crate::ids::{id_text, uuid_text};
use crate::text::{
    chars_of, is_dot, string_of, trim_dots_chars, trim_end_by, trim_start_by, trimmed, white,
};

verus! {

/// Characters Windows does not allow in file names.
pub open spec fn is_reserved(c: char) -> bool {
    c == '<' || c == '>' || c == ':' || c == '"' || c == '/' || c == '\\' || c == '|' || c == '?'
        || c == '*'
}

/// A reserved or control character becomes `_`; any other is kept.
pub open spec fn clean_char(c: char) -> char {
    if is_reserved(c) || (c as u32) < 0x20 {
        '_'
    } else {
        c
    }
}

/// The name with every character cleaned.
pub open spec fn cleaned(s: Seq<char>) -> Seq<char> {
    s.map_values(|c: char| clean_char(c))
}

/// The file name made from a display name: characters cleaned, then white
/// space trimmed, trailing dots dropped and white space trimmed again; a name
/// left empty becomes `Drawer`.
pub open spec fn sanitized(s: Seq<char>) -> Seq<char> {
    let t = trimmed(trim_end_by(trimmed(cleaned(s)), is_dot()));
    if t.len() == 0 {
        "Drawer"@
    } else {
        t
    }
}

/// A character Windows accepts in a file name: no reserved punctuation and
/// no control character.
pub open spec fn allowed_in_file_name(c: char) -> bool {
    !is_reserved(c) && (c as u32) >= 0x20
}

/// Dropping leading characters keeps a property that every character has.
proof fn lemma_trim_start_keeps(s: Seq<char>, p: spec_fn(char) -> bool)
    requires
        forall|i: int| 0 <= i < s.len() ==> allowed_in_file_name(#[trigger] s[i]),
    ensures
        forall|i: int| 0 <= i < trim_start_by(s, p).len() ==> allowed_in_file_name(
            #[trigger] trim_start_by(s, p)[i],
        ),
    decreases s.len(),
{
    if s.len() > 0 && p(s[0]) {
        assert forall|i: int| 0 <= i < s.drop_first().len() implies allowed_in_file_name(
            #[trigger] s.drop_first()[i],
        ) by {
            assert(s.drop_first()[i] == s[i + 1]);
        }
        lemma_trim_start_keeps(s.drop_first(), p);
        assert(trim_start_by(s, p) == trim_start_by(s.drop_first(), p));
    } else {
        assert(trim_start_by(s, p) == s);
    }
}

/// Dropping trailing characters keeps a property that every character has.
proof fn lemma_trim_end_keeps(s: Seq<char>, p: spec_fn(char) -> bool)
    requires
        forall|i: int| 0 <= i < s.len() ==> allowed_in_file_name(#[trigger] s[i]),
    ensures
        forall|i: int| 0 <= i < trim_end_by(s, p).len() ==> allowed_in_file_name(
            #[trigger] trim_end_by(s, p)[i],
        ),
    decreases s.len(),
{
    if s.len() > 0 && p(s.last()) {
        assert forall|i: int| 0 <= i < s.drop_last().len() implies allowed_in_file_name(
            #[trigger] s.drop_last()[i],
        ) by {
            assert(s.drop_last()[i] == s[i]);
        }
        lemma_trim_end_keeps(s.drop_last(), p);
        assert(trim_end_by(s, p) == trim_end_by(s.drop_last(), p));
    } else {
        assert(trim_end_by(s, p) == s);
    }
}

/// A sanitized name is never empty, and every character of it is one that
/// Windows accepts in a file name.
pub proof fn law_sanitized_name_is_allowed(s: Seq<char>)
    ensures
        sanitized(s).len() > 0,
        forall|i: int| 0 <= i < sanitized(s).len() ==> allowed_in_file_name(#[trigger] sanitized(s)[i]),
{
    let c = cleaned(s);
    assert forall|i: int| 0 <= i < c.len() implies allowed_in_file_name(#[trigger] c[i]) by {
        assert(c[i] == clean_char(s[i]));
    }
    lemma_trim_start_keeps(c, white());
    let a = trim_start_by(c, white());
    lemma_trim_end_keeps(a, white());
    let b = trim_end_by(a, white());
    lemma_trim_end_keeps(b, is_dot());
    let d = trim_end_by(b, is_dot());
    lemma_trim_start_keeps(d, white());
    let e = trim_start_by(d, white());
    lemma_trim_end_keeps(e, white());
    let t = trim_end_by(e, white());
    if t.len() == 0 {
        reveal_strlit("Drawer");
        let w = "Drawer"@;
        assert forall|i: int| 0 <= i < w.len() implies allowed_in_file_name(#[trigger] w[i]) by {
            assert(w[i] == 'D' || w[i] == 'r' || w[i] == 'a' || w[i] == 'w' || w[i] == 'e');
        }
    }
}

/// Strip characters not allowed in Windows filenames.
pub fn sanitize_filename(name: &str) -> (r: String)
    ensures
        r@ == sanitized(name@),
{
    let chars = chars_of(name);
    let mut clean: Vec<char> = Vec::new();
    let mut i: usize = 0;
    while i < chars.len()
        invariant
            i <= chars@.len(),
            chars@ == name@,
            clean@ == cleaned(chars@.subrange(0, i as int)),
        decreases chars@.len() - i,
    {
        let c = chars[i];
        let reserved = c == '<' || c == '>' || c == ':' || c == '"' || c == '/' || c == '\\' || c
            == '|' || c == '?' || c == '*';
        if reserved || (c as u32) < 0x20 {
            clean.push('_');
        } else {
            clean.push(c);
        }
        assert(clean@ =~= cleaned(chars@.subrange(0, i + 1)));
        i = i + 1;
    }
    assert(chars@.subrange(0, chars@.len() as int) =~= chars@);
    let t = trim_dots_chars(&clean);
    if t.len() == 0 {
        proof {
            reveal_strlit("Drawer");
        }
        String::from_str("Drawer")
    } else {
        string_of(&t)
    }
}

/// What a desktop shortcut that opens a drawer consists of.
pub struct DrawerShortcut {
    /// The `.lnk` file name on the desktop.
    pub file_name: String,
    /// The command-line arguments that open the drawer.
    pub arguments: String,
    /// The shortcut's description.
    pub description: String,
}

/// The desktop shortcut for drawer `drawer_id` named `drawer_name`: a file
/// named after the drawer, running the program with `--open "<id>"`.
pub fn drawer_shortcut(drawer_id: &str, drawer_name: &str) -> (s: DrawerShortcut)
    ensures
        s.file_name@ == sanitized(drawer_name@) + ".lnk"@,
        s.arguments@ == "--open \""@ + drawer_id@ + "\""@,
        s.description@ == "Open the "@ + drawer_name@ + " drawer"@,
{
    let mut file_name = sanitize_filename(drawer_name);
    file_name.append(".lnk");
    let mut arguments = String::from_str("--open \"");
    arguments.append(drawer_id);
    arguments.append("\"");
    let mut description = String::from_str("Open the ");
    description.append(drawer_name);
    description.append(" drawer");
    DrawerShortcut { file_name, arguments, description }
}

/// The file name of a managed shortcut and its path relative to the
/// drawer directory: `<id>.lnk` inside `Items`.
pub fn managed_shortcut_names(item_id: u128) -> (r: (String, String))
    ensures
        r.0@ == uuid_text(item_id) + ".lnk"@,
        r.1@ == "Items/"@ + uuid_text(item_id) + ".lnk"@,
{
    let mut file = id_text(item_id);
    file.append(".lnk");
    let mut rel = String::from_str("Items/");
    rel.append(file.as_str());
    (file, rel)
}

/// The display name of an item added from a file: the file's stem, or
/// `Shortcut` when the path has none.
pub fn item_display_name(stem: Option<String>) -> (r: String)
    ensures
        match stem {
            Some(t) => r@ == t@,
            None => r@ == "Shortcut"@,
        },
{
    match stem {
        Some(t) => t,
        None => String::from_str("Shortcut"),
    }
}

/// ASCII letters folded to lower case; every other character kept.
pub open spec fn ascii_lower(c: char) -> char {
    if 'A' <= c && c <= 'Z' {
        ((c as u32) + 32) as char
    } else {
        c
    }
}

/// The extension is `lnk` in any ASCII letter case: such a file is already
/// a shortcut and is copied into a drawer rather than linked to.
pub fn is_link_extension(ext: &str) -> (r: bool)
    ensures
        r == (ext@.len() == 3 && ascii_lower(ext@[0]) == 'l' && ascii_lower(ext@[1]) == 'n'
            && ascii_lower(ext@[2]) == 'k'),
{
    let chars = chars_of(ext);
    if chars.len() != 3 {
        return false;
    }
    let a = chars[0];
    let b = chars[1];
    let c = chars[2];
    (a == 'l' || a == 'L') && (b == 'n' || b == 'N') && (c == 'k' || c == 'K')
}

} // verus!
