//! Installed fonts: which source files may be installed, where a font's copy
//! lives, and what each font command reports.
//!
//! A font is stored under a fresh random identifier, `<id>.<format>` inside
//! the application's `fonts` directory, so its file name never comes from the
//! user.

use vstd::prelude::*;
use vstd::string::StringExecFns;
use crate::error::CommandError;
use crate::notes::stored_millis;
use crate::path::{
    extension, file_name, file_name_of, has_prefix, join_chars, joined, lemma_child_is_within,
    name_extension_of, push_all, string_of,
};
use crate::text::chars_of;

verus! {

/// The largest font file accepted, in whole megabytes.
pub const MAX_FONT_SIZE_MB: u64 = 50;

/// Bytes in a megabyte.
pub const BYTES_PER_MB: u64 = 1048576;

/// A font copied into the fonts directory.
#[derive(Debug, Clone, PartialEq, Eq)]
pub struct InstalledFont {
    pub id: String,
    pub label: String,
    pub filename: String,
    pub format: String,
    pub installed_at: u64,
}

/// Where a font about to be installed goes: its identifier, its file name
/// and its full path.
#[derive(Debug, Clone, PartialEq, Eq)]
pub struct FontTarget {
    pub id: String,
    pub filename: String,
    pub path: String,
}

/// The lowercase form of a text, as Unicode defines it.
pub uninterp spec fn lowercase_of(s: Seq<char>) -> Seq<char>;

/// Relies on `str::to_lowercase`: the lowercase form of a text depends on its
/// characters alone.
#[verifier::external_body]
fn to_lower(s: &str) -> (r: String)
    ensures
        r@ == lowercase_of(s@),
{
    s.to_lowercase()
}

/// A lowercase hexadecimal digit.
pub open spec fn is_lower_hex(c: char) -> bool {
    ('0' <= c <= '9') || ('a' <= c <= 'f')
}

/// The hyphenated lowercase text of a random (version 4, RFC 4122 variant)
/// UUID: 36 characters, hex digits in groups of 8-4-4-4-12.
pub open spec fn is_uuid_v4_text(s: Seq<char>) -> bool {
    &&& s.len() == 36
    &&& forall|i: int|
        0 <= i < 36 ==> if i == 8 || i == 13 || i == 18 || i == 23 {
            #[trigger] s[i] == '-'
        } else {
            is_lower_hex(s[i])
        }
    &&& s[14] == '4'
    &&& (s[19] == '8' || s[19] == '9' || s[19] == 'a' || s[19] == 'b')
}

/// Relies on `uuid::Uuid::new_v4`, whose version and variant bits are fixed,
/// and on its `Display`, which writes the hyphenated lowercase form.
#[verifier::external_body]
fn new_font_id() -> (r: String)
    ensures
        is_uuid_v4_text(r@),
{
    uuid::Uuid::new_v4().to_string()
}

/// The formats that can be installed.
pub open spec fn is_font_format(f: Seq<char>) -> bool {
    ||| f == seq!['t', 't', 'f']
    ||| f == seq!['o', 't', 'f']
    ||| f == seq!['w', 'o', 'f', 'f']
    ||| f == seq!['w', 'o', 'f', 'f', '2']
}

/// The extension of a source path, or nothing when it has none.
pub open spec fn source_extension(path: Seq<char>) -> Seq<char> {
    match extension(path) {
        Some(e) => e,
        None => Seq::empty(),
    }
}

/// The verdict on a lowercased extension: the format itself, or
/// `UnsupportedFontFormat` naming it.
pub open spec fn format_verdict(r: Result<String, CommandError>, lowered: Seq<char>) -> bool {
    if is_font_format(lowered) {
        r matches Ok(f) && f@ == lowered
    } else {
        r matches Err(CommandError::UnsupportedFontFormat(s)) && s@ == lowered
    }
}

/// The file extensions offered when picking a font file.
pub fn allowed_font_extensions() -> (r: Vec<String>)
    ensures
        r@.len() == 4,
        r@[0]@ == seq!['t', 't', 'f'],
        r@[1]@ == seq!['o', 't', 'f'],
        r@[2]@ == seq!['w', 'o', 'f', 'f'],
        r@[3]@ == seq!['w', 'o', 'f', 'f', '2'],
{
    let mut r: Vec<String> = Vec::new();
    let mut c: Vec<char> = Vec::new();
    c.push('t');
    c.push('t');
    c.push('f');
    r.push(string_of(&c));
    c.set(0, 'o');
    r.push(string_of(&c));
    let mut w: Vec<char> = Vec::new();
    w.push('w');
    w.push('o');
    w.push('f');
    w.push('f');
    r.push(string_of(&w));
    w.push('2');
    r.push(string_of(&w));
    assert(r@[1]@ =~= seq!['o', 't', 'f']);
    r
}

/// Whether a lowercased extension names an installable format.
pub fn check_font_format(lowered: &str) -> (r: Result<String, CommandError>)
    ensures
        format_verdict(r, lowered@),
{
    let f = chars_of(lowered);
    let n = f.len();
    let known = (n == 3 && (f[0] == 't' || f[0] == 'o') && f[1] == 't' && f[2] == 'f') || ((n == 4
        || n == 5) && f[0] == 'w' && f[1] == 'o' && f[2] == 'f' && f[3] == 'f' && (n == 4 || f[4]
        == '2'));
    proof {
        if known {
            if n == 3 && f@[0] == 't' {
                assert(f@ =~= seq!['t', 't', 'f']);
            } else if n == 3 {
                assert(f@ =~= seq!['o', 't', 'f']);
            } else if n == 4 {
                assert(f@ =~= seq!['w', 'o', 'f', 'f']);
            } else {
                assert(f@ =~= seq!['w', 'o', 'f', 'f', '2']);
            }
        } else {
            assert(!is_font_format(f@)) by {
                if f@ == seq!['t', 't', 'f'] || f@ == seq!['o', 't', 'f'] {
                    assert(f@.len() == 3 && f@[1] == 't' && f@[2] == 'f');
                }
                if f@ == seq!['w', 'o', 'f', 'f'] {
                    assert(f@.len() == 4 && f@[3] == 'f');
                }
                if f@ == seq!['w', 'o', 'f', 'f', '2'] {
                    assert(f@.len() == 5 && f@[4] == '2');
                }
            }
        }
    }
    if known {
        Ok(lowered.to_owned())
    } else {
        Err(CommandError::UnsupportedFontFormat(lowered.to_owned()))
    }
}

/// Whether a font file may be installed, judged by what it is called: it
/// must exist (else `FileNotFound`, naming it), and its extension, once
/// lowercased, must be an installable format (else `UnsupportedFontFormat`,
/// naming the lowercased extension). Returns the format.
pub fn check_font_source(font_file_path: &str, source_exists: bool) -> (r: Result<
    String,
    CommandError,
>)
    ensures
        !source_exists ==> (r matches Err(CommandError::FileNotFound(s)) && s@
            == font_file_path@),
        source_exists ==> format_verdict(r, lowercase_of(source_extension(font_file_path@))),
{
    if !source_exists {
        return Err(CommandError::FileNotFound(font_file_path.to_owned()));
    }
    let chars = chars_of(font_file_path);
    let ext: Vec<char> = match file_name_of(&chars) {
        Some(name) => match name_extension_of(&name) {
            Some(e) => e,
            None => Vec::new(),
        },
        None => Vec::new(),
    };
    assert(ext@ =~= source_extension(font_file_path@));
    let ext_text = string_of(&ext);
    let lowered = to_lower(ext_text.as_str());
    check_font_format(lowered.as_str())
}

/// A file size in whole megabytes, rounded down, as reported.
pub open spec fn size_in_mb(bytes: u64) -> u64 {
    (bytes / BYTES_PER_MB) as u64
}

/// The largest font file accepted, in bytes.
pub open spec fn max_font_bytes() -> int {
    MAX_FONT_SIZE_MB * BYTES_PER_MB
}

/// Whether a font file is small enough: at most `MAX_FONT_SIZE_MB`
/// megabytes, counted in bytes. A larger file is `FileTooLarge`, with the
/// limit and its size in whole megabytes rounded down. A size that could not
/// be read is an `IoError`.
pub fn check_font_size(size: Result<u64, String>) -> (r: Result<(), CommandError>)
    ensures
        match size {
            Ok(bytes) => if bytes > max_font_bytes() {
                r == Err::<(), CommandError>(
                    CommandError::FileTooLarge(MAX_FONT_SIZE_MB, size_in_mb(bytes)),
                )
            } else {
                r is Ok
            },
            Err(m) => r matches Err(CommandError::IoError(x)) && x@ == m@,
        },
{
    match size {
        Ok(bytes) => {
            if bytes > MAX_FONT_SIZE_MB * BYTES_PER_MB {
                Err(CommandError::FileTooLarge(MAX_FONT_SIZE_MB, bytes / BYTES_PER_MB))
            } else {
                Ok(())
            }
        },
        Err(m) => Err(CommandError::IoError(m)),
    }
}

/// The name of the fonts directory inside the application's data directory.
pub open spec fn fonts_dir_name() -> Seq<char> {
    seq!['f', 'o', 'n', 't', 's']
}

/// The fonts directory inside the application's data directory; when that
/// directory could not be resolved, a `PathError`.
pub fn fonts_dir(app_data_dir: Result<String, String>) -> (r: Result<String, CommandError>)
    ensures
        match app_data_dir {
            Ok(d) => r matches Ok(f) && f@ == joined(d@, fonts_dir_name()),
            Err(m) => r matches Err(CommandError::PathError(x)) && x@ == m@,
        },
{
    match app_data_dir {
        Ok(d) => {
            let dir = chars_of(d.as_str());
            let mut name: Vec<char> = Vec::new();
            name.push('f');
            name.push('o');
            name.push('n');
            name.push('t');
            name.push('s');
            assert(name@ =~= fonts_dir_name());
            let path = join_chars(&dir, &name);
            Ok(string_of(&path))
        },
        Err(m) => Err(CommandError::PathError(m)),
    }
}

/// The file name of an installed font: `<id>.<format>`.
pub open spec fn font_file_name_text(id: Seq<char>, format: Seq<char>) -> Seq<char> {
    id + seq!['.'] + format
}

/// The file name of an installed font.
pub fn font_file_name(font_id: &str, format: &str) -> (r: String)
    ensures
        r@ == font_file_name_text(font_id@, format@),
{
    let mut name = chars_of(font_id);
    name.push('.');
    let f = chars_of(format);
    push_all(&mut name, &f);
    assert(name@ =~= font_file_name_text(font_id@, format@));
    string_of(&name)
}

/// The path of an installed font inside the fonts directory.
pub fn installed_font_path(fonts_dir: &str, font_id: &str, format: &str) -> (r: String)
    ensures
        r@ == joined(fonts_dir@, font_file_name_text(font_id@, format@)),
{
    let name = font_file_name(font_id, format);
    let dir = chars_of(fonts_dir);
    let n = chars_of(name.as_str());
    let path = join_chars(&dir, &n);
    string_of(&path)
}

/// Picks where a font of the given format will be installed, under a fresh
/// random identifier. Unless the format holds a separator, the copy lands
/// directly inside the fonts directory, under that file name.
pub fn plan_font_install(fonts_dir: &str, format: &str) -> (r: FontTarget)
    ensures
        is_uuid_v4_text(r.id@),
        r.filename@ == font_file_name_text(r.id@, format@),
        r.path@ == joined(fonts_dir@, r.filename@),
        !format@.contains('/') ==> has_prefix(r.path@, fonts_dir@) && file_name(r.path@) == Some(
            r.filename@,
        ),
{
    let id = new_font_id();
    let filename = font_file_name(id.as_str(), format);
    let path = installed_font_path(fonts_dir, id.as_str(), format);
    proof {
        let name = filename@;
        if !format@.contains('/') {
            assert(!name.contains('/')) by {
                if name.contains('/') {
                    let i = choose|i: int| 0 <= i < name.len() && name[i] == '/';
                    if i < 36 {
                        assert(id@[i] == '/');
                    } else if i > 36 {
                        assert(format@[i - 37] == '/');
                        assert(format@.contains(format@[i - 37]));
                    }
                }
            }
            assert(name.len() >= 37);
            assert(name != seq!['.'] && name != seq!['.', '.']) by {
                if name == seq!['.'] || name == seq!['.', '.'] {
                    assert(name.len() <= 2);
                }
            }
            lemma_child_is_within(fonts_dir@, name);
        }
    }
    FontTarget { id, filename, path }
}

/// The record of a font once its file was copied to `target`: installed now,
/// or at 0 when the clock could not be read. A failed copy is an `IoError`.
pub fn finish_install(
    target: FontTarget,
    label: String,
    format: String,
    copied: Result<(), String>,
    now_ms: Option<u128>,
) -> (r: Result<InstalledFont, CommandError>)
    ensures
        match copied {
            Ok(_) => r matches Ok(f) && f.id == target.id && f.label == label && f.filename
                == target.filename && f.format == format && f.installed_at == stored_millis(
                now_ms,
                0,
            ),
            Err(m) => r matches Err(CommandError::IoError(x)) && x@ == m@,
        },
{
    match copied {
        Ok(()) => {
            let installed_at: u64 = match now_ms {
                Some(t) => (t % 0x1_0000_0000_0000_0000u128) as u64,
                None => 0,
            };
            Ok(
                InstalledFont {
                    id: target.id,
                    label,
                    filename: target.filename,
                    format,
                    installed_at,
                },
            )
        },
        Err(m) => Err(CommandError::IoError(m)),
    }
}

/// The path of an installed font, when its file is there; otherwise
/// `FileNotFound`, naming the font's file.
pub fn found_font(font_id: &str, format: &str, font_path: String, present: bool) -> (r: Result<
    String,
    CommandError,
>)
    ensures
        present ==> r == Ok::<String, CommandError>(font_path),
        !present ==> (r matches Err(CommandError::FileNotFound(s)) && s@ == font_file_name_text(
            font_id@,
            format@,
        )),
{
    if !present {
        return Err(CommandError::FileNotFound(font_file_name(font_id, format)));
    }
    Ok(font_path)
}

/// The outcome of deleting an installed font. A font whose file was already
/// absent is deleted successfully, however often it is asked; otherwise the
/// removal's own failure is an `IoError`.
pub fn deletion_outcome(was_present: bool, removal: Result<(), String>) -> (r: Result<
    (),
    CommandError,
>)
    ensures
        !was_present ==> r is Ok,
        was_present ==> match removal {
            Ok(_) => r is Ok,
            Err(m) => r matches Err(CommandError::IoError(x)) && x@ == m@,
        },
{
    if !was_present {
        return Ok(());
    }
    match removal {
        Ok(()) => Ok(()),
        Err(m) => Err(CommandError::IoError(m)),
    }
}

} // verus!
