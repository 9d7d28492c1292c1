//! Deciding whether a path or a proposed file name is safe to act on.

use vstd::prelude::*;
use crate::path::{extension, file_name_of, has_prefix, name_extension_of, starts_with_components};
use crate::text::{chars_of, is_white_space, lemma_trimmed_is_slice, trim, trimmed};

verus! {

/// A markdown extension: `md` in any mix of upper and lower case.
pub open spec fn is_md_extension(e: Seq<char>) -> bool {
    e.len() == 2 && (e[0] == 'm' || e[0] == 'M') && (e[1] == 'd' || e[1] == 'D')
}

/// Whether the path's file name has a markdown extension.
pub open spec fn is_markdown(path: Seq<char>) -> bool {
    match extension(path) {
        Some(e) => is_md_extension(e),
        None => false,
    }
}

/// Two dots in a row somewhere in `t`.
pub open spec fn has_double_dot(t: Seq<char>) -> bool {
    exists|i: int| 0 <= i && i + 1 < t.len() && t[i] == '.' && #[trigger] t[i + 1] == '.'
}

/// An absolute path on a Unix host begins at the root.
pub open spec fn is_absolute(t: Seq<char>) -> bool {
    t.len() > 0 && t[0] == '/'
}

/// A name that can neither leave its directory nor hide: no separator of
/// either kind, no `..`, no leading `.`, not absolute.
pub open spec fn safe_shape(t: Seq<char>) -> bool {
    &&& !t.contains('/')
    &&& !t.contains('\\')
    &&& !has_double_dot(t)
    &&& !(t.len() > 0 && t[0] == '.')
    &&& !is_absolute(t)
}

/// A proposed file name is safe when, once trimmed, it is empty (the caller
/// picks a default) or has a safe shape.
pub open spec fn is_safe_name(name: Seq<char>) -> bool {
    trimmed(name).len() == 0 || safe_shape(trimmed(name))
}

/// Whether `path` names a markdown file, judged by its extension alone.
pub fn is_markdown_file(path: &str) -> (r: bool)
    ensures
        r == is_markdown(path@),
{
    let chars = chars_of(path);
    match file_name_of(&chars) {
        Some(name) => match name_extension_of(&name) {
            Some(e) => e.len() == 2 && (e[0] == 'm' || e[0] == 'M') && (e[1] == 'd' || e[1]
                == 'D'),
            None => false,
        },
        None => false,
    }
}

fn shape_is_safe(t: &Vec<char>) -> (r: bool)
    ensures
        r == safe_shape(t@),
{
    if t.len() > 0 && (t[0] == '.' || t[0] == '/') {
        return false;
    }
    let mut i: usize = 0;
    while i < t.len()
        invariant
            i <= t.len(),
            forall|k: int| 0 <= k < i ==> t@[k] != '/' && t@[k] != '\\',
            forall|k: int| 0 <= k && k + 1 < i ==> !(t@[k] == '.' && #[trigger] t@[k + 1] == '.'),
        decreases t.len() - i,
    {
        if t[i] == '/' || t[i] == '\\' {
            assert(t@.contains(t@[i as int]));
            return false;
        }
        if i > 0 && t[i - 1] == '.' && t[i] == '.' {
            assert(t@[(i - 1) as int + 1] == '.');
            return false;
        }
        i = i + 1;
    }
    assert(!has_double_dot(t@)) by {
        if has_double_dot(t@) {
            let k = choose|k: int| 0 <= k && k + 1 < t@.len() && t@[k] == '.' && #[trigger] t@[k
                + 1] == '.';
            assert(!(t@[k] == '.' && t@[k + 1] == '.'));
        }
    }
    true
}

/// Whether a proposed file name is safe to create or rename to.
pub fn is_safe_filename(name: &str) -> (r: bool)
    ensures
        r == is_safe_name(name@),
{
    let t = trim(name);
    let chars = chars_of(t);
    if chars.len() == 0 {
        return true;
    }
    shape_is_safe(&chars)
}

/// Whether `canonical_target` lies within `canonical_folder`: the folder's
/// components begin the target's. Both arguments are expected to be
/// canonical (absolute, with links, `.` and `..` resolved), so that the test
/// speaks of where the target really is.
pub fn is_within_folder(canonical_folder: &str, canonical_target: &str) -> (r: bool)
    ensures
        r == has_prefix(canonical_target@, canonical_folder@),
{
    let folder = chars_of(canonical_folder);
    let target = chars_of(canonical_target);
    starts_with_components(&target, &folder)
}

/// A name with no separator of either kind, no `..`, not absolute, and no
/// leading `.` (also once trimmed) is accepted.
pub proof fn lemma_plain_names_are_safe(name: Seq<char>)
    requires
        !name.contains('/'),
        !name.contains('\\'),
        !has_double_dot(name),
        !is_absolute(name),
        !(name.len() > 0 && name[0] == '.'),
        !(trimmed(name).len() > 0 && trimmed(name)[0] == '.'),
    ensures
        is_safe_name(name),
{
    let (a, b) = lemma_trimmed_is_slice(name);
    let t = trimmed(name);
    assert(!t.contains('/')) by {
        if t.contains('/') {
            let i = choose|i: int| 0 <= i < t.len() && t[i] == '/';
            assert(name[a + i] == '/');
            assert(name.contains(name[a + i]));
        }
    }
    assert(!t.contains('\\')) by {
        if t.contains('\\') {
            let i = choose|i: int| 0 <= i < t.len() && t[i] == '\\';
            assert(name[a + i] == '\\');
            assert(name.contains(name[a + i]));
        }
    }
    assert(!has_double_dot(t)) by {
        if has_double_dot(t) {
            let i = choose|i: int| 0 <= i && i + 1 < t.len() && t[i] == '.' && #[trigger] t[i + 1]
                == '.';
            assert(name[a + i] == '.' && name[a + i + 1] == '.');
            assert(name[(a + i) + 1] == '.');
        }
    }
    if t.len() > 0 && t[0] == '/' {
        assert(t.contains(t[0]));
    }
}

/// A name holding a separator of either kind, or `..`, is refused.
pub proof fn lemma_traversing_names_are_refused(name: Seq<char>)
    requires
        name.contains('/') || name.contains('\\') || has_double_dot(name),
    ensures
        !is_safe_name(name),
{
    let (a, b) = lemma_trimmed_is_slice(name);
    let t = trimmed(name);
    assert(!is_white_space('/') && !is_white_space('\\') && !is_white_space('.'));
    if name.contains('/') || name.contains('\\') {
        let c = if name.contains('/') {
            '/'
        } else {
            '\\'
        };
        let i = choose|i: int| 0 <= i < name.len() && name[i] == c;
        if i < a {
            assert(is_white_space(name[i]));
        }
        if i >= b {
            assert(is_white_space(name[i]));
        }
        assert(t[i - a] == c);
        assert(t.contains(t[i - a]));
    } else {
        let i = choose|i: int| 0 <= i && i + 1 < name.len() && name[i] == '.' && #[trigger] name[i
            + 1] == '.';
        if i < a {
            assert(is_white_space(name[i]));
        }
        if i + 1 >= b {
            assert(is_white_space(name[i + 1]));
        }
        assert(t[i - a] == '.' && t[(i - a) + 1] == '.');
        assert(has_double_dot(t));
    }
}

} // verus!
