use memo_guard::notes::{
    begin_create, check_folder, check_note_access, check_rename_target, dialog_outcome,
    finish_read, finish_rename, finish_write, io_outcome, list_entries, note_meta, note_name_of,
    plan_rename, FolderEntry, PathProbe,
};
use memo_guard::{get_file_times, CommandError};

fn file() -> PathProbe {
    PathProbe { exists: true, is_file: true, is_dir: false }
}

fn dir() -> PathProbe {
    PathProbe { exists: true, is_file: false, is_dir: true }
}

fn missing() -> PathProbe {
    PathProbe { exists: false, is_file: false, is_dir: false }
}

fn ok(s: &str) -> Result<String, String> {
    Ok(s.to_string())
}

fn entry(path: &str, is_file: bool, modified: u128) -> FolderEntry {
    FolderEntry {
        path: path.to_string(),
        stem_is_text: true,
        is_file,
        modified_ms: Some(modified),
        created_ms: None,
    }
}

#[test]
fn file_times_fall_back() {
    assert_eq!(get_file_times(Some(1500), Some(1000)), (1500, 1000));
    assert_eq!(get_file_times(Some(1500), None), (1500, 1500));
    assert_eq!(get_file_times(None, Some(7)), (0, 7));
    assert_eq!(get_file_times(None, None), (0, 0));
    assert_eq!(get_file_times(Some((1u128 << 64) + 5), None), (5, 5));
}

#[test]
fn note_names_drop_the_extension() {
    assert_eq!(note_name_of("/ws/draft.md"), "draft");
    assert_eq!(note_name_of("/ws/a.b.md"), "a.b");
    assert_eq!(note_name_of("/ws/.hidden"), ".hidden");
    assert_eq!(note_name_of("/"), "Untitled");
    assert_eq!(note_name_of("/ws/.."), "Untitled");
}

#[test]
fn note_meta_carries_path_and_times() {
    let m = note_meta("/ws/a.md", Some(20), Some(10));
    assert_eq!(m.path, "/ws/a.md");
    assert_eq!(m.name, "a");
    assert_eq!((m.modified_at, m.created_at), (20, 10));
}

#[test]
fn folder_must_be_a_directory() {
    assert!(check_folder("/ws", dir()).is_ok());
    assert_eq!(check_folder("/ws", file()), Err(CommandError::InvalidFolder("/ws".to_string())));
    assert_eq!(check_folder("/nope", missing()), Err(CommandError::InvalidFolder("/nope".to_string())));
}

#[test]
fn access_checks_the_extension_first() {
    let r = check_note_access("/ws/a.txt", true, missing(), &ok("/ws"), &Err("gone".to_string()));
    assert_eq!(r, Err(CommandError::NotMarkdownFile));
}

#[test]
fn access_needs_an_existing_note() {
    let r = check_note_access("/ws/a.md", false, missing(), &ok("/ws"), &ok("/ws/a.md"));
    assert_eq!(r, Err(CommandError::FileNotFound("/ws/a.md".to_string())));
    let r = check_note_access("/ws/d.md", true, dir(), &ok("/ws"), &ok("/ws/d.md"));
    assert_eq!(r, Err(CommandError::FileNotFound("/ws/d.md".to_string())));
    let r = check_note_access("/ws/d.md", false, dir(), &ok("/ws"), &ok("/ws/d.md"));
    assert!(r.is_ok());
}

#[test]
fn access_reports_failed_canonicalisation() {
    let r = check_note_access("/ws/a.md", true, file(), &Err("no folder".to_string()), &ok("/ws/a.md"));
    assert_eq!(r, Err(CommandError::IoError("no folder".to_string())));
    let r = check_note_access("/ws/a.md", true, file(), &ok("/ws"), &Err("loop".to_string()));
    assert_eq!(r, Err(CommandError::IoError("loop".to_string())));
}

#[test]
fn read_outside_the_folder_is_denied() {
    let r = check_note_access("/ws/../secret.md", true, file(), &ok("/ws"), &ok("/secret.md"));
    let e = r.unwrap_err();
    assert_eq!(e.kind(), "access_denied");
    assert_eq!(e, CommandError::AccessDenied("file is outside working folder".to_string()));
}

#[test]
fn link_inside_the_folder_pointing_out_is_denied() {
    let r = check_note_access("/ws/link.md", true, file(), &ok("/ws"), &ok("/etc/secret.md"));
    assert_eq!(r.unwrap_err().kind(), "access_denied");
}

#[test]
fn access_within_the_folder_is_granted() {
    assert!(check_note_access("/ws/a.md", true, file(), &ok("/ws"), &ok("/ws/a.md")).is_ok());
}

#[test]
fn read_returns_the_text_unchanged() {
    let text = "# Title\n\nbody with ünïcödé\n".to_string();
    let f = finish_read("/ws/a.md", Ok(text.clone()), Some(30), Some(10)).unwrap();
    assert_eq!(f.content, text);
    assert_eq!(f.name, "a");
    assert_eq!(f.path, "/ws/a.md");
    assert_eq!((f.modified_at, f.created_at), (30, 10));
    let e = finish_read("/ws/a.md", Err("denied".to_string()), None, None).unwrap_err();
    assert_eq!(e, CommandError::IoError("denied".to_string()));
}

#[test]
fn save_then_read_round_trip() {
    let content = "saved text".to_string();
    let saved = finish_write("/ws/a.md", Ok(()), Some(100), Some(50)).unwrap();
    let read = finish_read("/ws/a.md", Ok(content.clone()), Some(100), Some(50)).unwrap();
    assert_eq!(read.content, content);
    assert!(read.modified_at >= saved.modified_at);
}

#[test]
fn failed_write_is_an_io_error() {
    let e = finish_write("/ws/a.md", Err("disk full".to_string()), None, None).unwrap_err();
    assert_eq!(e.kind(), "io_error");
    assert_eq!(e.message(), "IO error: disk full");
}

#[test]
fn io_outcome_keeps_the_description() {
    assert!(io_outcome(Ok(())).is_ok());
    assert_eq!(io_outcome(Err("x".to_string())), Err(CommandError::IoError("x".to_string())));
}

#[test]
fn create_checks_folder_then_name() {
    assert_eq!(
        begin_create("/nope", missing(), "note"),
        Err(CommandError::InvalidFolder("/nope".to_string()))
    );
    assert_eq!(
        begin_create("/ws", dir(), "../escape"),
        Err(CommandError::InvalidFileName("../escape".to_string()))
    );
}

#[test]
fn a_free_first_candidate_wins() {
    let mut n = begin_create("/ws", dir(), "fresh").unwrap();
    assert_eq!(n.next(false), Some("/ws/fresh.md".to_string()));
    assert_eq!(n.attempt, 0);
}

#[test]
fn create_defaults_a_blank_name() {
    let n = begin_create("/ws", dir(), "   ").unwrap();
    assert_eq!(n.base, "untitled");
    assert_eq!(n.candidate_path(), "/ws/untitled.md");
    let n = begin_create("/ws", dir(), "  trip  ").unwrap();
    assert_eq!(n.candidate_path(), "/ws/trip.md");
}

#[test]
fn create_draft_twice_then_list() {
    let mut first = begin_create("/ws", dir(), "draft").unwrap();
    let p1 = first.candidate_path();
    assert_eq!(p1, "/ws/draft.md");
    let m1 = finish_write(&p1, Ok(()), Some(1000), None).unwrap();
    assert_eq!(m1.name, "draft");

    let mut second = begin_create("/ws", dir(), "draft").unwrap();
    assert_eq!(second.candidate_path(), "/ws/draft.md");
    assert_eq!(second.next(true), None);
    let p2 = second.next(false).unwrap();
    assert_eq!(p2, "/ws/draft-1.md");
    let m2 = finish_write(&p2, Ok(()), Some(2000), None).unwrap();
    assert_eq!(m2.name, "draft-1");

    assert_eq!(first.next(true), None);
    assert_eq!(first.next(true), None);
    assert_eq!(first.next(false), Some("/ws/draft-2.md".to_string()));

    let listed = list_entries(&vec![entry(&p1, true, 1000), entry(&p2, true, 2000)]);
    let paths: Vec<&str> = listed.iter().map(|m| m.path.as_str()).collect();
    assert_eq!(paths, vec!["/ws/draft-1.md", "/ws/draft.md"]);
}

#[test]
fn collision_candidate_is_a_new_markdown_file() {
    let mut n = begin_create("/ws/", dir(), "note").unwrap();
    let first = n.candidate_path();
    assert_eq!(n.next(true), None);
    let second = n.next(false).unwrap();
    assert_ne!(first, second);
    assert!(memo_guard::is_markdown_file(&second));
    assert_eq!(note_name_of(&second), "note-1");
    assert_eq!(second, "/ws/note-1.md");
}

#[test]
fn candidate_counts_in_decimal() {
    let mut n = begin_create("/ws", dir(), "n").unwrap();
    for _ in 0..12 {
        assert_eq!(n.next(true), None);
    }
    assert_eq!(n.next(false), Some("/ws/n-12.md".to_string()));
    assert_eq!(n.attempt, 12);
}

#[test]
fn list_keeps_markdown_files_newest_first() {
    let entries = vec![
        entry("/ws/old.md", true, 10),
        entry("/ws/readme.txt", true, 99),
        entry("/ws/folder.md", false, 50),
        entry("/ws/UPPER.MD", true, 60),
        entry("/ws/new.md", true, 30),
        entry("/ws/mid.md", true, 20),
    ];
    let listed = list_entries(&entries);
    let names: Vec<&str> = listed.iter().map(|m| m.name.as_str()).collect();
    assert_eq!(names, vec!["new", "mid", "old"]);
    assert_eq!(listed[0].created_at, 30);
}

#[test]
fn list_ties_keep_enumeration_order() {
    let entries = vec![
        entry("/ws/b.md", true, 5),
        entry("/ws/a.md", true, 7),
        entry("/ws/c.md", true, 5),
        entry("/ws/d.md", true, 5),
    ];
    let listed = list_entries(&entries);
    let names: Vec<&str> = listed.iter().map(|m| m.name.as_str()).collect();
    assert_eq!(names, vec!["a", "b", "c", "d"]);
}

#[test]
fn undecodable_names_list_as_untitled() {
    let mut odd = entry("/ws/\u{fffd}x.md", true, 3);
    odd.stem_is_text = false;
    let listed = list_entries(&vec![odd, entry("/ws/ok.md", true, 2)]);
    assert_eq!(listed[0].name, "Untitled");
    assert_eq!(listed[0].path, "/ws/\u{fffd}x.md");
    assert_eq!(listed[1].name, "ok");
}

#[test]
fn list_of_nothing_is_empty() {
    assert!(list_entries(&Vec::new()).is_empty());
}

#[test]
fn rename_plans_the_new_path() {
    assert_eq!(plan_rename("b", "/ws"), Ok("/ws/b.md".to_string()));
    assert_eq!(plan_rename("  b  ", "/ws/"), Ok("/ws/b.md".to_string()));
}

#[test]
fn rename_refuses_bad_names() {
    assert_eq!(plan_rename("../b", "/ws"), Err(CommandError::InvalidFileName("../b".to_string())));
    assert_eq!(
        plan_rename("   ", "/ws"),
        Err(CommandError::InvalidFileName("Name cannot be empty".to_string()))
    );
}

#[test]
fn rename_onto_another_existing_note_fails() {
    let r = check_rename_target("b", true, &ok("/ws/b.md"), &ok("/ws/a.md"));
    let e = r.unwrap_err();
    assert_eq!(e.kind(), "invalid_file_name");
    assert_eq!(e, CommandError::InvalidFileName("File 'b' already exists".to_string()));
}

#[test]
fn rename_to_a_free_name_succeeds() {
    assert!(check_rename_target("b", false, &Err("unused".to_string()), &ok("/ws/a.md")).is_ok());
    let m = finish_rename("/ws/b.md", " b ", Ok(()), Some(9), None).unwrap();
    assert_eq!(m.path, "/ws/b.md");
    assert_eq!(m.name, "b");
    assert_eq!((m.modified_at, m.created_at), (9, 9));
}

#[test]
fn rename_onto_itself_is_allowed() {
    assert!(check_rename_target("A", true, &ok("/ws/a.md"), &ok("/ws/a.md")).is_ok());
    assert!(check_rename_target("A", true, &ok("/ws//a.md"), &ok("/ws/a.md")).is_ok());
}

#[test]
fn rename_reports_failures() {
    let e = check_rename_target("b", true, &Err("bad".to_string()), &ok("/ws/a.md")).unwrap_err();
    assert_eq!(e, CommandError::IoError("bad".to_string()));
    let e = finish_rename("/ws/b.md", "b", Err("busy".to_string()), None, None).unwrap_err();
    assert_eq!(e, CommandError::IoError("busy".to_string()));
}

#[test]
fn dialog_replies() {
    assert_eq!(dialog_outcome(Some(Some("/ws".to_string()))), Ok(Some("/ws".to_string())));
    assert_eq!(dialog_outcome(Some(None)), Ok(None));
    assert_eq!(dialog_outcome(None), Err(CommandError::DialogCancelled));
}

#[test]
fn error_kinds_and_messages() {
    let s = || "x".to_string();
    let cases = vec![
        (CommandError::FileNotFound(s()), "file_not_found", "File not found: x"),
        (CommandError::InvalidFolder(s()), "invalid_folder", "Invalid folder path: x"),
        (CommandError::AccessDenied(s()), "access_denied", "Access denied: x"),
        (CommandError::InvalidFileName(s()), "invalid_file_name", "Invalid file name: x"),
        (CommandError::NotMarkdownFile, "not_markdown_file", "Only .md files are allowed"),
        (CommandError::IoError(s()), "io_error", "IO error: x"),
        (CommandError::DialogCancelled, "dialog_cancelled", "Dialog cancelled"),
        (CommandError::UnsupportedFontFormat(s()), "unsupported_font_format", "Unsupported font format: x"),
        (CommandError::FileTooLarge(50, 60), "file_too_large", "Font file too large: max 50MB, got 60MB"),
        (CommandError::PathError(s()), "path_error", "Path error: x"),
    ];
    for (e, kind, message) in cases {
        assert_eq!(e.kind(), kind);
        assert_eq!(e.message(), message);
    }
}

#[test]
fn large_sizes_print_in_full() {
    let e = CommandError::FileTooLarge(0, u64::MAX);
    assert_eq!(e.message(), format!("Font file too large: max 0MB, got {}MB", u64::MAX));
}
