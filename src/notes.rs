//! The note commands, as decisions over what the file system reported.
//!
//! Each command is split at its file-system calls: the caller probes a path,
//! canonicalises it, reads, writes or renames, and hands what it saw to the
//! functions here, which decide what the command does next and what it
//! returns.

use vstd::prelude::*;
use vstd::string::StringExecFns;
use crate::error::{decimal, push_decimal, CommandError};
use crate::path::{
    components, extension, file_name_of, file_stem, has_prefix, join_chars, joined, last_dot,
    lemma_child_is_within, name_extension_of, name_stem_of, starts_with_components, string_of,
};
use crate::text::{chars_of, trim, trimmed};
use crate::validate::{is_markdown, is_markdown_file, is_safe_filename, is_safe_name, is_within_folder};

verus! {

/// A note as listed: where it is, its display name, and its timestamps in
/// milliseconds since the epoch.
#[derive(Debug, Clone, PartialEq, Eq)]
pub struct MemoMeta {
    pub path: String,
    pub name: String,
    pub modified_at: u64,
    pub created_at: u64,
}

/// A note with its full text.
#[derive(Debug, Clone, PartialEq, Eq)]
pub struct MemoFile {
    pub path: String,
    pub name: String,
    pub content: String,
    pub modified_at: u64,
    pub created_at: u64,
}

/// The value of a `MemoMeta`, with its text as characters.
pub struct MetaView {
    pub path: Seq<char>,
    pub name: Seq<char>,
    pub modified_at: u64,
    pub created_at: u64,
}

impl View for MemoMeta {
    type V = MetaView;

    open spec fn view(&self) -> MetaView {
        MetaView {
            path: self.path@,
            name: self.name@,
            modified_at: self.modified_at,
            created_at: self.created_at,
        }
    }
}

/// What the file system reports about a path, following links.
#[derive(Debug, Clone, Copy, PartialEq, Eq)]
pub struct PathProbe {
    pub exists: bool,
    pub is_file: bool,
    pub is_dir: bool,
}

/// The display name of the note at `path`: its file stem, or `Untitled` when
/// the path names no file.
pub open spec fn note_name(path: Seq<char>) -> Seq<char> {
    match file_stem(path) {
        Some(stem) => stem,
        None => "Untitled"@,
    }
}

/// A timestamp in milliseconds as stored: cut to 64 bits, or `default` when
/// the file system gave none.
pub open spec fn stored_millis(ms: Option<u128>, default: u64) -> u64 {
    match ms {
        Some(m) => (m % 0x1_0000_0000_0000_0000) as u64,
        None => default,
    }
}

/// The modified and created times of a file, from the milliseconds the file
/// system gave. A missing modified time reads as 0; a missing created time
/// (not every file system records one) falls back to the modified time.
pub fn get_file_times(modified_ms: Option<u128>, created_ms: Option<u128>) -> (r: (u64, u64))
    ensures
        r.0 == stored_millis(modified_ms, 0),
        r.1 == stored_millis(created_ms, r.0),
{
    let modified_at: u64 = match modified_ms {
        Some(m) => (m % 0x1_0000_0000_0000_0000u128) as u64,
        None => 0,
    };
    let created_at: u64 = match created_ms {
        Some(c) => (c % 0x1_0000_0000_0000_0000u128) as u64,
        None => modified_at,
    };
    (modified_at, created_at)
}

/// The display name of the note at `path`.
pub fn note_name_of(path: &str) -> (r: String)
    ensures
        r@ == note_name(path@),
{
    let chars = chars_of(path);
    match file_name_of(&chars) {
        Some(name) => {
            let stem = name_stem_of(&name);
            string_of(&stem)
        },
        None => "Untitled".to_owned(),
    }
}

/// The metadata of the note at `path`, from its timestamps.
pub fn note_meta(path: &str, modified_ms: Option<u128>, created_ms: Option<u128>) -> (r: MemoMeta)
    ensures
        r.path@ == path@,
        r.name@ == note_name(path@),
        r.modified_at == stored_millis(modified_ms, 0),
        r.created_at == stored_millis(created_ms, r.modified_at),
{
    let (modified_at, created_at) = get_file_times(modified_ms, created_ms);
    MemoMeta { path: path.to_owned(), name: note_name_of(path), modified_at, created_at }
}

/// Maps a failed file-system call to `IoError`, keeping its description.
pub fn io_outcome(result: Result<(), String>) -> (r: Result<(), CommandError>)
    ensures
        result is Ok ==> r is Ok,
        forall|m: String| result == Err::<(), String>(m) ==> (r matches Err(CommandError::IoError(x)) && x@ == m@),
{
    match result {
        Ok(()) => Ok(()),
        Err(m) => Err(CommandError::IoError(m)),
    }
}

/// Whether a folder may be listed or written into: it exists and is a
/// directory. Otherwise `InvalidFolder`, naming the folder.
pub fn check_folder(folder_path: &str, folder: PathProbe) -> (r: Result<(), CommandError>)
    ensures
        folder.exists && folder.is_dir ==> r is Ok,
        !(folder.exists && folder.is_dir) ==> (r matches Err(CommandError::InvalidFolder(s))
            && s@ == folder_path@),
{
    if !folder.exists || !folder.is_dir {
        return Err(CommandError::InvalidFolder(folder_path.to_owned()));
    }
    Ok(())
}

/// Whether a note may be read, saved, deleted or renamed, in this order of
/// checks: its extension is `md` (else `NotMarkdownFile`); it exists, and
/// when `regular_file` is asked for it is a regular file (else
/// `FileNotFound`, naming the path); the working folder and then the note
/// could be canonicalised (else `IoError`); the canonical note lies within
/// the canonical folder (else `AccessDenied`).
pub fn check_note_access(
    file_path: &str,
    regular_file: bool,
    target: PathProbe,
    canonical_folder: &Result<String, String>,
    canonical_target: &Result<String, String>,
) -> (r: Result<(), CommandError>)
    ensures
        !is_markdown(file_path@) ==> r == Err::<(), CommandError>(CommandError::NotMarkdownFile),
        is_markdown(file_path@) && !(target.exists && (!regular_file || target.is_file)) ==> (r matches Err(
            CommandError::FileNotFound(s),
        ) && s@ == file_path@),
        is_markdown(file_path@) && target.exists && (!regular_file || target.is_file) ==> match (
            canonical_folder,
            canonical_target,
        ) {
            (Err(m), _) => r matches Err(CommandError::IoError(x)) && x@ == m@,
            (Ok(_), Err(m)) => r matches Err(CommandError::IoError(x)) && x@ == m@,
            (Ok(f), Ok(t)) => if has_prefix(t@, f@) {
                r is Ok
            } else {
                r matches Err(CommandError::AccessDenied(x)) && x@ == "file is outside working folder"@
            },
        },
{
    if !is_markdown_file(file_path) {
        return Err(CommandError::NotMarkdownFile);
    }
    if !target.exists || (regular_file && !target.is_file) {
        return Err(CommandError::FileNotFound(file_path.to_owned()));
    }
    let folder = match canonical_folder {
        Ok(f) => f,
        Err(m) => {
            return Err(CommandError::IoError(m.clone()));
        },
    };
    let resolved = match canonical_target {
        Ok(t) => t,
        Err(m) => {
            return Err(CommandError::IoError(m.clone()));
        },
    };
    if !is_within_folder(folder.as_str(), resolved.as_str()) {
        return Err(CommandError::AccessDenied("file is outside working folder".to_owned()));
    }
    Ok(())
}

/// The note read at `file_path`, once access was granted: its text exactly as
/// read, its name and its timestamps; a failed read is an `IoError`.
pub fn finish_read(
    file_path: &str,
    content: Result<String, String>,
    modified_ms: Option<u128>,
    created_ms: Option<u128>,
) -> (r: Result<MemoFile, CommandError>)
    ensures
        match content {
            Ok(text) => r matches Ok(f) && f.path@ == file_path@ && f.name@ == note_name(
                file_path@,
            ) && f.content == text && f.modified_at == stored_millis(modified_ms, 0)
                && f.created_at == stored_millis(created_ms, f.modified_at),
            Err(m) => r matches Err(CommandError::IoError(x)) && x@ == m@,
        },
{
    match content {
        Ok(text) => {
            let meta = note_meta(file_path, modified_ms, created_ms);
            Ok(
                MemoFile {
                    path: meta.path,
                    name: meta.name,
                    content: text,
                    modified_at: meta.modified_at,
                    created_at: meta.created_at,
                },
            )
        },
        Err(m) => Err(CommandError::IoError(m)),
    }
}

/// The metadata of a note just written at `file_path`; a failed write is an
/// `IoError`.
pub fn finish_write(
    file_path: &str,
    written: Result<(), String>,
    modified_ms: Option<u128>,
    created_ms: Option<u128>,
) -> (r: Result<MemoMeta, CommandError>)
    ensures
        match written {
            Ok(_) => r matches Ok(m) && m.path@ == file_path@ && m.name@ == note_name(file_path@)
                && m.modified_at == stored_millis(modified_ms, 0) && m.created_at == stored_millis(
                created_ms,
                m.modified_at,
            ),
            Err(e) => r matches Err(CommandError::IoError(x)) && x@ == e@,
        },
{
    match written {
        Ok(()) => Ok(note_meta(file_path, modified_ms, created_ms)),
        Err(e) => Err(CommandError::IoError(e)),
    }
}

/// The `.md` suffix that every note file name carries.
pub open spec fn md_suffix() -> Seq<char> {
    seq!['.', 'm', 'd']
}

/// The base name a new note takes: the trimmed proposal, or `untitled` when
/// nothing is left of it.
pub open spec fn default_base(file_name: Seq<char>) -> Seq<char> {
    if trimmed(file_name).len() == 0 {
        "untitled"@
    } else {
        trimmed(file_name)
    }
}

/// The name part of a new note at each attempt: the base name first, then
/// `base-1`, `base-2`, and so on.
pub open spec fn attempt_stem(base: Seq<char>, attempt: nat) -> Seq<char> {
    if attempt == 0 {
        base
    } else {
        base + seq!['-'] + decimal(attempt)
    }
}

/// The file name of a new note at each attempt, always with `.md`.
pub open spec fn attempt_name(base: Seq<char>, attempt: nat) -> Seq<char> {
    attempt_stem(base, attempt) + md_suffix()
}

/// A note about to be created: the folder it goes into, its base name, and
/// how many candidate names were already found taken.
#[derive(Debug, Clone, PartialEq, Eq)]
pub struct NewNote {
    pub folder: String,
    pub base: String,
    pub attempt: u64,
}

/// Starts creating a note in `folder_path` under the proposed `file_name`:
/// the folder must exist and be a directory (else `InvalidFolder`), and the
/// name must be safe (else `InvalidFileName`, naming it). The first
/// candidate is the trimmed name, or `untitled`.
pub fn begin_create(folder_path: &str, folder: PathProbe, file_name: &str) -> (r: Result<
    NewNote,
    CommandError,
>)
    ensures
        !(folder.exists && folder.is_dir) ==> (r matches Err(CommandError::InvalidFolder(s))
            && s@ == folder_path@),
        folder.exists && folder.is_dir && !is_safe_name(file_name@) ==> (r matches Err(
            CommandError::InvalidFileName(s),
        ) && s@ == file_name@),
        folder.exists && folder.is_dir && is_safe_name(file_name@) ==> (r matches Ok(n)
            && n.folder@ == folder_path@ && n.base@ == default_base(file_name@) && n.attempt
            == 0),
{
    check_folder(folder_path, folder)?;
    if !is_safe_filename(file_name) {
        return Err(CommandError::InvalidFileName(file_name.to_owned()));
    }
    let t = trim(file_name);
    let base = if t.unicode_len() == 0 {
        "untitled".to_owned()
    } else {
        t.to_owned()
    };
    Ok(NewNote { folder: folder_path.to_owned(), base, attempt: 0 })
}

impl NewNote {
    /// The path that this attempt would create.
    pub fn candidate_path(&self) -> (r: String)
        ensures
            r@ == joined(self.folder@, attempt_name(self.base@, self.attempt as nat)),
    {
        let mut name = chars_of(self.base.as_str());
        if self.attempt > 0 {
            name.push('-');
            push_decimal(&mut name, self.attempt);
        }
        name.push('.');
        name.push('m');
        name.push('d');
        assert(name@ =~= attempt_name(self.base@, self.attempt as nat));
        let folder = chars_of(self.folder.as_str());
        let path = join_chars(&folder, &name);
        string_of(&path)
    }

    /// One step of finding a free name, told whether the current candidate
    /// is taken. A free candidate wins: its path is returned and the note
    /// stays as it is. A taken one is passed over for the next attempt.
    pub fn next(&mut self, taken: bool) -> (r: Option<String>)
        requires
            taken ==> old(self).attempt < u64::MAX,
        ensures
            !taken ==> (r matches Some(p) && p@ == joined(
                old(self).folder@,
                attempt_name(old(self).base@, old(self).attempt as nat),
            ) && *final(self) == *old(self)),
            taken ==> r is None && final(self).folder == old(self).folder && final(self).base
                == old(self).base && final(self).attempt == old(self).attempt + 1,
    {
        if taken {
            self.attempt = self.attempt + 1;
            None
        } else {
            Some(self.candidate_path())
        }
    }
}

proof fn lemma_decimal_digits(n: nat)
    ensures
        decimal(n).len() >= 1,
        forall|i: int| 0 <= i < decimal(n).len() ==> #[trigger] decimal(n)[i] != '/',
    decreases n,
{
    if n >= 10 {
        lemma_decimal_digits(n / 10);
        assert forall|i: int| 0 <= i < decimal(n).len() implies #[trigger] decimal(n)[i] != '/' by {
            if i < decimal(n / 10).len() {
                assert(decimal(n)[i] == decimal(n / 10)[i]);
            }
        }
    }
}

/// Every candidate for a new note is a markdown file directly within its
/// folder, named by its attempt and shown without the `.md`; and once the
/// first candidate was taken, no later one is the same path, so the existing
/// note is never overwritten.
pub proof fn lemma_create_candidates(folder: Seq<char>, base: Seq<char>, attempt: nat)
    requires
        base.len() > 0,
        !base.contains('/'),
    ensures
        is_markdown(joined(folder, attempt_name(base, attempt))),
        note_name(joined(folder, attempt_name(base, attempt))) == attempt_stem(base, attempt),
        attempt > 0 ==> joined(folder, attempt_name(base, attempt)) != joined(
            folder,
            attempt_name(base, 0),
        ),
        has_prefix(joined(folder, attempt_name(base, attempt)), folder),
        extension(joined(folder, attempt_name(base, attempt))) == Some(seq!['m', 'd']),
{
    let stem = attempt_stem(base, attempt);
    let name = attempt_name(base, attempt);
    lemma_decimal_digits(attempt);
    assert(!stem.contains('/')) by {
        if stem.contains('/') {
            let i = choose|i: int| 0 <= i < stem.len() && stem[i] == '/';
            if i < base.len() {
                assert(base[i] == '/');
                assert(base.contains(base[i]));
            } else if attempt > 0 && i > base.len() {
                assert(stem[i] == decimal(attempt)[i - base.len() - 1]);
            }
        }
    }
    assert(!name.contains('/')) by {
        if name.contains('/') {
            let i = choose|i: int| 0 <= i < name.len() && name[i] == '/';
            if i < stem.len() {
                assert(name[i] == stem[i]);
                assert(stem.contains(stem[i]));
            }
        }
    }
    let path = joined(folder, name);
    assert(name.len() >= 4);
    assert(name != seq!['.'] && name != seq!['.', '.']) by {
        if name == seq!['.'] {
            assert(name.len() == 1);
        }
        if name == seq!['.', '.'] {
            assert(name.len() == 2);
        }
    }
    lemma_child_is_within(folder, name);
    assert(name.drop_last() =~= stem + seq!['.', 'm']);
    assert(name.drop_last().drop_last() =~= stem + seq!['.']);
    assert(name.last() == 'd');
    assert(name.drop_last().last() == 'm');
    assert(name.drop_last().drop_last().last() == '.');
    assert(last_dot(name.drop_last().drop_last()) == stem.len());
    assert(last_dot(name.drop_last()) == stem.len());
    assert(last_dot(name) == stem.len());
    assert(name.subrange(0, stem.len() as int) =~= stem);
    assert(name.subrange(stem.len() + 1 as int, name.len() as int) =~= seq!['m', 'd']);
    if attempt > 0 {
        let first = attempt_name(base, 0);
        assert(name.len() > first.len());
        if first.len() > 0 && first[0] == '/' {
            assert(base[0] == '/');
            assert(base.contains(base[0]));
        }
        if name.len() > 0 && name[0] == '/' {
            assert(name.contains(name[0]));
        }
        assert(joined(folder, name).len() > joined(folder, first).len());
    }
}

/// Two paths with the same components.
pub open spec fn same_path(a: Seq<char>, b: Seq<char>) -> bool {
    components(a) == components(b)
}

/// Where a note renamed to `new_name` goes: the trimmed name with `.md`, in
/// the working folder. The name must be safe (else `InvalidFileName`, naming
/// it) and not blank (else `InvalidFileName`).
pub fn plan_rename(new_name: &str, working_folder: &str) -> (r: Result<String, CommandError>)
    ensures
        !is_safe_name(new_name@) ==> (r matches Err(CommandError::InvalidFileName(s)) && s@
            == new_name@),
        is_safe_name(new_name@) && trimmed(new_name@).len() == 0 ==> (r matches Err(
            CommandError::InvalidFileName(s),
        ) && s@ == "Name cannot be empty"@),
        is_safe_name(new_name@) && trimmed(new_name@).len() > 0 ==> (r matches Ok(p) && p@
            == joined(working_folder@, trimmed(new_name@) + md_suffix())),
{
    if !is_safe_filename(new_name) {
        return Err(CommandError::InvalidFileName(new_name.to_owned()));
    }
    let t = trim(new_name);
    if t.unicode_len() == 0 {
        return Err(CommandError::InvalidFileName("Name cannot be empty".to_owned()));
    }
    let mut name = chars_of(t);
    name.push('.');
    name.push('m');
    name.push('d');
    let folder = chars_of(working_folder);
    let path = join_chars(&folder, &name);
    Ok(string_of(&path))
}

/// Whether a note may be renamed onto its destination: a destination that
/// does not exist is free; one that exists must be the note itself, after
/// both are canonicalised (else `InvalidFileName`, saying it already exists);
/// a failed canonicalisation is an `IoError`.
pub fn check_rename_target(
    new_name: &str,
    destination_exists: bool,
    canonical_destination: &Result<String, String>,
    canonical_source: &Result<String, String>,
) -> (r: Result<(), CommandError>)
    ensures
        !destination_exists ==> r is Ok,
        destination_exists ==> match (canonical_destination, canonical_source) {
            (Err(m), _) => r matches Err(CommandError::IoError(x)) && x@ == m@,
            (Ok(_), Err(m)) => r matches Err(CommandError::IoError(x)) && x@ == m@,
            (Ok(d), Ok(s)) => if same_path(d@, s@) {
                r is Ok
            } else {
                r matches Err(CommandError::InvalidFileName(x)) && x@ == "File '"@ + trimmed(
                    new_name@,
                ) + "' already exists"@
            },
        },
{
    if !destination_exists {
        return Ok(());
    }
    let d = match canonical_destination {
        Ok(d) => d,
        Err(m) => {
            return Err(CommandError::IoError(m.clone()));
        },
    };
    let s = match canonical_source {
        Ok(s) => s,
        Err(m) => {
            return Err(CommandError::IoError(m.clone()));
        },
    };
    let dc = chars_of(d.as_str());
    let sc = chars_of(s.as_str());
    let same = starts_with_components(&dc, &sc) && starts_with_components(&sc, &dc);
    proof {
        if has_prefix(d@, s@) && has_prefix(s@, d@) {
            assert(components(d@) =~= components(s@));
        }
    }
    if same {
        Ok(())
    } else {
        let msg = "File '".to_owned().concat(trim(new_name)).concat("' already exists");
        Err(CommandError::InvalidFileName(msg))
    }
}

/// The metadata of a note just renamed to `new_path`; its name is the
/// trimmed new name. A failed rename is an `IoError`.
pub fn finish_rename(
    new_path: &str,
    new_name: &str,
    renamed: Result<(), String>,
    modified_ms: Option<u128>,
    created_ms: Option<u128>,
) -> (r: Result<MemoMeta, CommandError>)
    ensures
        match renamed {
            Ok(_) => r matches Ok(m) && m.path@ == new_path@ && m.name@ == trimmed(new_name@)
                && m.modified_at == stored_millis(modified_ms, 0) && m.created_at == stored_millis(
                created_ms,
                m.modified_at,
            ),
            Err(e) => r matches Err(CommandError::IoError(x)) && x@ == e@,
        },
{
    match renamed {
        Ok(()) => {
            let (modified_at, created_at) = get_file_times(modified_ms, created_ms);
            Ok(
                MemoMeta {
                    path: new_path.to_owned(),
                    name: trim(new_name).to_owned(),
                    modified_at,
                    created_at,
                },
            )
        },
        Err(e) => Err(CommandError::IoError(e)),
    }
}

/// What a picker dialog's reply channel delivered: the choice, possibly
/// none when the user cancelled; or nothing at all when the channel closed
/// without a reply, which is `DialogCancelled`.
pub fn dialog_outcome(reply: Option<Option<String>>) -> (r: Result<Option<String>, CommandError>)
    ensures
        match reply {
            Some(choice) => r == Ok::<Option<String>, CommandError>(choice),
            None => r == Err::<Option<String>, CommandError>(CommandError::DialogCancelled),
        },
{
    match reply {
        Some(choice) => Ok(choice),
        None => Err(CommandError::DialogCancelled),
    }
}

/// A folder entry as enumerated, with what the file system said of it. The
/// path is its text; `stem_is_text` says whether the entry's own file stem
/// was valid Unicode, before any lossy conversion of the path.
#[derive(Debug, Clone, PartialEq, Eq)]
pub struct FolderEntry {
    pub path: String,
    pub stem_is_text: bool,
    pub is_file: bool,
    pub modified_ms: Option<u128>,
    pub created_ms: Option<u128>,
}

/// An entry is listed as a note when it is a regular file whose extension is
/// exactly `md`.
pub open spec fn is_note_entry(e: FolderEntry) -> bool {
    e.is_file && extension(e.path@) == Some(seq!['m', 'd'])
}

/// The metadata listed for an entry; a stem that could not be read as text
/// shows as `Untitled`.
pub open spec fn entry_meta(e: FolderEntry) -> MetaView {
    MetaView {
        path: e.path@,
        name: if e.stem_is_text {
            note_name(e.path@)
        } else {
            "Untitled"@
        },
        modified_at: stored_millis(e.modified_ms, 0),
        created_at: stored_millis(e.created_ms, stored_millis(e.modified_ms, 0)),
    }
}

/// The notes among `entries`, in enumeration order.
pub open spec fn notes_of(entries: Seq<FolderEntry>) -> Seq<MetaView> {
    entries.filter(|e: FolderEntry| is_note_entry(e)).map_values(|e: FolderEntry| entry_meta(e))
}

/// The values of a list of note metadata.
pub open spec fn meta_views(v: Seq<MemoMeta>) -> Seq<MetaView> {
    v.map_values(|m: MemoMeta| m@)
}

/// Newest first: modification times never increase along the list.
pub open spec fn by_recency(v: Seq<MetaView>) -> bool {
    forall|i: int, j: int|
        0 <= i < j < v.len() ==> #[trigger] v[i].modified_at >= #[trigger] v[j].modified_at
}

/// The notes of `v` last modified at `t`, in their order in `v`.
pub open spec fn at_time(v: Seq<MetaView>, t: u64) -> Seq<MetaView> {
    v.filter(|m: MetaView| m.modified_at == t)
}

proof fn lemma_filter_step<A>(s: Seq<A>, x: A, pred: spec_fn(A) -> bool)
    ensures
        s.push(x).filter(pred) == if pred(x) {
            s.filter(pred).push(x)
        } else {
            s.filter(pred)
        },
{
    reveal(Seq::filter);
    assert(s.push(x).drop_last() =~= s);
}

proof fn lemma_filter_none<A>(s: Seq<A>, pred: spec_fn(A) -> bool)
    requires
        forall|i: int| 0 <= i < s.len() ==> !pred(#[trigger] s[i]),
    ensures
        s.filter(pred) == Seq::<A>::empty(),
    decreases s.len(),
{
    reveal(Seq::filter);
    if s.len() > 0 {
        assert forall|i: int| 0 <= i < s.drop_last().len() implies !pred(
            #[trigger] s.drop_last()[i],
        ) by {
            assert(s.drop_last()[i] == s[i]);
        }
        lemma_filter_none(s.drop_last(), pred);
        assert(!pred(s[s.len() - 1]));
    }
}

proof fn lemma_notes_step(s: Seq<FolderEntry>, e: FolderEntry)
    ensures
        notes_of(s.push(e)) == if is_note_entry(e) {
            notes_of(s).push(entry_meta(e))
        } else {
            notes_of(s)
        },
{
    let pred = |x: FolderEntry| is_note_entry(x);
    lemma_filter_step(s, e, pred);
    if is_note_entry(e) {
        assert(s.filter(pred).push(e).map_values(|x: FolderEntry| entry_meta(x)) =~= s.filter(
            pred,
        ).map_values(|x: FolderEntry| entry_meta(x)).push(entry_meta(e)));
    }
}

/// Inserting a note where its time belongs keeps the list newest first and
/// puts it after the notes that share its time.
proof fn lemma_insert_by_recency(v: Seq<MetaView>, p: int, x: MetaView)
    requires
        by_recency(v),
        0 <= p <= v.len(),
        forall|k: int| 0 <= k < p ==> #[trigger] v[k].modified_at >= x.modified_at,
        p < v.len() ==> v[p].modified_at < x.modified_at,
    ensures
        by_recency(v.insert(p, x)),
        forall|t: u64|
            #[trigger] at_time(v.insert(p, x), t) == if x.modified_at == t {
                at_time(v, t).push(x)
            } else {
                at_time(v, t)
            },
{
    let w = v.insert(p, x);
    let front = v.subrange(0, p);
    let back = v.subrange(p, v.len() as int);
    assert forall|k: int| 0 <= k < back.len() implies #[trigger] back[k].modified_at
        < x.modified_at by {
        if k > 0 {
            assert(v[p].modified_at >= v[p + k].modified_at);
        }
    }
    assert(w =~= front + seq![x] + back);
    assert(v =~= front + back);
    assert forall|i: int, j: int| 0 <= i < j < w.len() implies #[trigger] w[i].modified_at
        >= #[trigger] w[j].modified_at by {
        if j < p {
            assert(v[i].modified_at >= v[j].modified_at);
        } else if j == p {
            assert(v[i].modified_at >= x.modified_at);
        } else if i < p {
            assert(v[i].modified_at >= v[j - 1].modified_at);
        } else if i == p {
            assert(back[j - 1 - p].modified_at < x.modified_at);
        } else {
            assert(v[i - 1].modified_at >= v[j - 1].modified_at);
        }
    }
    assert forall|t: u64| #[trigger] at_time(w, t) == if x.modified_at == t {
        at_time(v, t).push(x)
    } else {
        at_time(v, t)
    } by {
        let pred = |m: MetaView| m.modified_at == t;
        Seq::filter_distributes_over_add(front + seq![x], back, pred);
        Seq::filter_distributes_over_add(front, seq![x], pred);
        Seq::filter_distributes_over_add(front, back, pred);
        lemma_filter_step(Seq::<MetaView>::empty(), x, pred);
        assert(Seq::<MetaView>::empty().push(x) =~= seq![x]);
        reveal(Seq::filter);
        assert(Seq::<MetaView>::empty().filter(pred) =~= Seq::<MetaView>::empty());
        if x.modified_at == t {
            lemma_filter_none(back, pred);
            assert(at_time(w, t) =~= at_time(v, t).push(x));
        } else {
            assert(at_time(w, t) =~= at_time(v, t));
        }
    }
}

fn is_md_exactly(path: &str) -> (r: bool)
    ensures
        r == (extension(path@) == Some(seq!['m', 'd'])),
{
    let chars = chars_of(path);
    match file_name_of(&chars) {
        Some(name) => match name_extension_of(&name) {
            Some(e) => {
                let r = e.len() == 2 && e[0] == 'm' && e[1] == 'd';
                assert(r ==> e@ =~= seq!['m', 'd']);
                assert(e@ == seq!['m', 'd'] ==> e@.len() == 2 && e@[0] == 'm' && e@[1] == 'd');
                r
            },
            None => false,
        },
        None => false,
    }
}

/// The notes among a folder's entries, newest first. Notes modified at the
/// same time keep the order in which the folder listed them.
pub fn list_entries(entries: &Vec<FolderEntry>) -> (r: Vec<MemoMeta>)
    ensures
        by_recency(meta_views(r@)),
        forall|t: u64| #[trigger] at_time(meta_views(r@), t) == at_time(notes_of(entries@), t),
{
    let mut r: Vec<MemoMeta> = Vec::new();
    let mut i: usize = 0;
    proof {
        reveal(Seq::filter);
        assert(entries@.subrange(0, 0) =~= Seq::<FolderEntry>::empty());
        assert(notes_of(Seq::<FolderEntry>::empty()) =~= Seq::<MetaView>::empty());
        assert(meta_views(r@) =~= Seq::<MetaView>::empty());
    }
    while i < entries.len()
        invariant
            i <= entries.len(),
            by_recency(meta_views(r@)),
            forall|t: u64| #[trigger]
                at_time(meta_views(r@), t) == at_time(
                    notes_of(entries@.subrange(0, i as int)),
                    t,
                ),
        decreases entries.len() - i,
    {
        let e = &entries[i];
        proof {
            assert(entries@.subrange(0, i + 1) =~= entries@.subrange(0, i as int).push(*e));
            lemma_notes_step(entries@.subrange(0, i as int), *e);
        }
        if e.is_file && is_md_exactly(e.path.as_str()) {
            let mut m = note_meta(e.path.as_str(), e.modified_ms, e.created_ms);
            if !e.stem_is_text {
                m.name = "Untitled".to_owned();
            }
            assert(m@ == entry_meta(*e));
            let mut p: usize = 0;
            while p < r.len() && r[p].modified_at >= m.modified_at
                invariant
                    p <= r.len(),
                    forall|k: int| 0 <= k < p ==> #[trigger] r@[k].modified_at >= m.modified_at,
                decreases r.len() - p,
            {
                p = p + 1;
            }
            let ghost before = meta_views(r@);
            proof {
                lemma_insert_by_recency(before, p as int, m@);
                let pushed = notes_of(entries@.subrange(0, i as int)).push(m@);
                assert forall|t: u64| #[trigger]
                    at_time(before.insert(p as int, m@), t) == at_time(pushed, t) by {
                    lemma_filter_step(
                        notes_of(entries@.subrange(0, i as int)),
                        m@,
                        |x: MetaView| x.modified_at == t,
                    );
                }
            }
            r.insert(p, m);
            assert(meta_views(r@) =~= before.insert(p as int, m@));
        } else {
            assert(!is_note_entry(*e));
        }
        i = i + 1;
    }
    assert(entries@.subrange(0, entries.len() as int) =~= entries@);
    r
}

proof fn lemma_filter_all<A>(s: Seq<A>, pred: spec_fn(A) -> bool)
    requires
        forall|i: int| 0 <= i < s.len() ==> pred(#[trigger] s[i]),
    ensures
        s.filter(pred) == s,
    decreases s.len(),
{
    reveal(Seq::filter);
    if s.len() > 0 {
        assert forall|i: int| 0 <= i < s.drop_last().len() implies pred(
            #[trigger] s.drop_last()[i],
        ) by {
            assert(s.drop_last()[i] == s[i]);
        }
        lemma_filter_all(s.drop_last(), pred);
        assert(pred(s[s.len() - 1]));
        assert(s.drop_last().push(s.last()) =~= s);
    }
}

/// When every note of `v` was modified at one of two different times, `v`
/// holds exactly the notes of those two times.
proof fn lemma_two_times_len(v: Seq<MetaView>, ta: u64, tb: u64)
    requires
        ta != tb,
        forall|i: int| 0 <= i < v.len() ==> #[trigger] v[i].modified_at == ta || v[i].modified_at == tb,
    ensures
        v.len() == at_time(v, ta).len() + at_time(v, tb).len(),
    decreases v.len(),
{
    reveal(Seq::filter);
    if v.len() > 0 {
        let w = v.drop_last();
        assert forall|i: int| 0 <= i < w.len() implies #[trigger] w[i].modified_at == ta
            || w[i].modified_at == tb by {
            assert(w[i] == v[i]);
        }
        lemma_two_times_len(w, ta, tb);
        assert(v[v.len() - 1].modified_at == ta || v[v.len() - 1].modified_at == tb);
    }
}

/// A note just created under its base name and a second one created after
/// that name was taken are both listed, and the newer comes first. Here
/// `listed` is any list that `list_entries` may return for the two entries.
pub proof fn lemma_created_pair_is_listed(
    folder: Seq<char>,
    base: Seq<char>,
    first: FolderEntry,
    second: FolderEntry,
    listed: Seq<MetaView>,
)
    requires
        base.len() > 0,
        !base.contains('/'),
        first.path@ == joined(folder, attempt_name(base, 0)),
        second.path@ == joined(folder, attempt_name(base, 1)),
        first.is_file,
        second.is_file,
        by_recency(listed),
        forall|t: u64| #[trigger]
            at_time(listed, t) == at_time(notes_of(seq![first, second]), t),
    ensures
        listed.len() == 2,
        (listed[0] == entry_meta(first) && listed[1] == entry_meta(second)) || (listed[0]
            == entry_meta(second) && listed[1] == entry_meta(first)),
        listed[0].modified_at >= listed[1].modified_at,
{
    lemma_create_candidates(folder, base, 0);
    lemma_create_candidates(folder, base, 1);
    let m0 = entry_meta(first);
    let m1 = entry_meta(second);
    assert(m0 != m1) by {
        if m0 == m1 {
            assert(m0.path == m1.path);
        }
    }
    let entries = seq![first, second];
    reveal(Seq::filter);
    assert(entries =~= Seq::<FolderEntry>::empty().push(first).push(second));
    lemma_notes_step(Seq::<FolderEntry>::empty(), first);
    lemma_notes_step(Seq::<FolderEntry>::empty().push(first), second);
    assert(notes_of(Seq::<FolderEntry>::empty()) =~= Seq::<MetaView>::empty());
    let notes = notes_of(entries);
    assert(notes =~= seq![m0, m1]);
    let t0 = m0.modified_at;
    let t1 = m1.modified_at;
    assert forall|i: int| 0 <= i < listed.len() implies #[trigger] listed[i].modified_at == t0
        || listed[i].modified_at == t1 by {
        let t = listed[i].modified_at;
        let pred = |m: MetaView| m.modified_at == t;
        listed.lemma_filter_contains(pred, i);
        if t != t0 && t != t1 {
            lemma_filter_none(notes, pred);
            assert(at_time(listed, t) == at_time(notes, t));
            assert(at_time(listed, t).len() == 0);
        }
    }
    if t0 == t1 {
        let pred = |m: MetaView| m.modified_at == t0;
        lemma_filter_all(listed, pred);
        lemma_filter_all(notes, pred);
        assert(at_time(listed, t0) == at_time(notes, t0));
        assert(listed =~= seq![m0, m1]);
    } else {
        let p0 = |m: MetaView| m.modified_at == t0;
        let p1 = |m: MetaView| m.modified_at == t1;
        assert(seq![m0, m1] =~= seq![m0].push(m1));
        assert(seq![m0] =~= Seq::<MetaView>::empty().push(m0));
        lemma_filter_step(Seq::<MetaView>::empty(), m0, p0);
        lemma_filter_step(seq![m0], m1, p0);
        lemma_filter_step(Seq::<MetaView>::empty(), m0, p1);
        lemma_filter_step(seq![m0], m1, p1);
        assert(at_time(notes, t0) =~= seq![m0]);
        assert(at_time(notes, t1) =~= seq![m1]);
        assert(at_time(listed, t0) == seq![m0]);
        assert(at_time(listed, t1) == seq![m1]);
        lemma_two_times_len(listed, t0, t1);
        assert(at_time(listed, t0).contains(m0)) by {
            assert(at_time(listed, t0)[0] == m0);
        }
        assert(at_time(listed, t1).contains(m1)) by {
            assert(at_time(listed, t1)[0] == m1);
        }
        listed.lemma_filter_contains_rev(p0, m0);
        listed.lemma_filter_contains_rev(p1, m1);
        let i0 = choose|i: int| 0 <= i < listed.len() && listed[i] == m0;
        let i1 = choose|i: int| 0 <= i < listed.len() && listed[i] == m1;
        assert(i0 != i1);
    }
    assert(listed[0].modified_at >= listed[1].modified_at);
}

} // verus!
