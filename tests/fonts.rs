use memo_guard::fonts::{
    allowed_font_extensions, check_font_format, check_font_size, check_font_source,
    deletion_outcome, finish_install, font_file_name, fonts_dir, found_font, installed_font_path,
    plan_font_install, MAX_FONT_SIZE_MB,
};
use memo_guard::CommandError;

const MB: u64 = 1024 * 1024;

#[test]
fn missing_source_is_not_found() {
    assert_eq!(
        check_font_source("/tmp/gone.ttf", false),
        Err(CommandError::FileNotFound("/tmp/gone.ttf".to_string()))
    );
}

#[test]
fn source_extension_is_lowercased() {
    assert_eq!(check_font_source("/tmp/a.TTF", true), Ok("ttf".to_string()));
    assert_eq!(check_font_source("/tmp/a.WoFf2", true), Ok("woff2".to_string()));
    assert_eq!(check_font_source("/tmp/a.otf", true), Ok("otf".to_string()));
}

#[test]
fn other_extensions_are_unsupported() {
    assert_eq!(
        check_font_source("/tmp/a.EXE", true),
        Err(CommandError::UnsupportedFontFormat("exe".to_string()))
    );
    assert_eq!(
        check_font_source("/tmp/noext", true),
        Err(CommandError::UnsupportedFontFormat(String::new()))
    );
    assert_eq!(check_font_format("woff3"), Err(CommandError::UnsupportedFontFormat("woff3".to_string())));
    assert_eq!(check_font_format("woff"), Ok("woff".to_string()));
    assert_eq!(check_font_format("TTF"), Err(CommandError::UnsupportedFontFormat("TTF".to_string())));
}

#[test]
fn huge_font_is_too_large() {
    let r = check_font_size(Ok(60 * MB));
    assert_eq!(r, Err(CommandError::FileTooLarge(50, 60)));
    assert_eq!(r.unwrap_err().kind(), "file_too_large");
}

#[test]
fn size_limit_is_counted_in_bytes() {
    assert!(check_font_size(Ok(MAX_FONT_SIZE_MB * MB)).is_ok());
    assert_eq!(check_font_size(Ok(50 * MB + 1)), Err(CommandError::FileTooLarge(50, 50)));
    assert_eq!(check_font_size(Ok(51 * MB - 1)), Err(CommandError::FileTooLarge(50, 50)));
    assert_eq!(check_font_size(Ok(51 * MB)), Err(CommandError::FileTooLarge(50, 51)));
    assert!(check_font_size(Ok(0)).is_ok());
    assert_eq!(check_font_size(Ok(u64::MAX)), Err(CommandError::FileTooLarge(50, u64::MAX / MB)));
    assert_eq!(check_font_size(Err("stat".to_string())), Err(CommandError::IoError("stat".to_string())));
}

#[test]
fn fonts_live_under_the_data_directory() {
    assert_eq!(fonts_dir(Ok("/data".to_string())), Ok("/data/fonts".to_string()));
    assert_eq!(fonts_dir(Ok("/data/".to_string())), Ok("/data/fonts".to_string()));
    assert_eq!(fonts_dir(Err("no home".to_string())), Err(CommandError::PathError("no home".to_string())));
}

#[test]
fn font_paths_are_built_from_id_and_format() {
    assert_eq!(font_file_name("abc", "ttf"), "abc.ttf");
    assert_eq!(installed_font_path("/data/fonts", "abc", "otf"), "/data/fonts/abc.otf");
}

#[test]
fn install_plans_a_fresh_uuid_name() {
    let t = plan_font_install("/data/fonts", "ttf");
    assert_eq!(t.id.len(), 36);
    assert_eq!(t.id.chars().nth(14), Some('4'));
    assert!(t.id.chars().all(|c| c == '-' || c.is_ascii_digit() || ('a'..='f').contains(&c)));
    assert_eq!(t.filename, format!("{}.ttf", t.id));
    assert_eq!(t.path, format!("/data/fonts/{}.ttf", t.id));
    let u = plan_font_install("/data/fonts", "ttf");
    assert_ne!(t.id, u.id);
}

#[test]
fn install_records_the_font() {
    let t = plan_font_install("/data/fonts", "woff");
    let id = t.id.clone();
    let f = finish_install(t, "Body".to_string(), "woff".to_string(), Ok(()), Some(1234)).unwrap();
    assert_eq!(f.id, id);
    assert_eq!(f.label, "Body");
    assert_eq!(f.filename, format!("{}.woff", id));
    assert_eq!(f.format, "woff");
    assert_eq!(f.installed_at, 1234);
    let t = plan_font_install("/data/fonts", "woff");
    let f = finish_install(t, "B".to_string(), "woff".to_string(), Ok(()), None).unwrap();
    assert_eq!(f.installed_at, 0);
}

#[test]
fn failed_copy_is_an_io_error() {
    let t = plan_font_install("/data/fonts", "ttf");
    let e = finish_install(t, "L".to_string(), "ttf".to_string(), Err("copy".to_string()), None);
    assert_eq!(e, Err(CommandError::IoError("copy".to_string())));
}

#[test]
fn lookup_needs_the_file() {
    assert_eq!(
        found_font("abc", "ttf", "/data/fonts/abc.ttf".to_string(), true),
        Ok("/data/fonts/abc.ttf".to_string())
    );
    assert_eq!(
        found_font("abc", "ttf", "/data/fonts/abc.ttf".to_string(), false),
        Err(CommandError::FileNotFound("abc.ttf".to_string()))
    );
}

#[test]
fn deleting_an_absent_font_succeeds_every_time() {
    assert!(deletion_outcome(false, Ok(())).is_ok());
    assert!(deletion_outcome(false, Ok(())).is_ok());
}

#[test]
fn deletion_reports_a_failed_removal() {
    assert!(deletion_outcome(true, Ok(())).is_ok());
    assert_eq!(deletion_outcome(true, Err("busy".to_string())), Err(CommandError::IoError("busy".to_string())));
}

#[test]
fn picker_offers_the_font_extensions() {
    assert_eq!(allowed_font_extensions(), vec!["ttf", "otf", "woff", "woff2"]);
}
