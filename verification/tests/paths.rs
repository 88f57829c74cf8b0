use meowbox::paths::{attachments_dir, data_dir_from, db_path, mail_dir, resolve_data_dir, APP_DIR_NAME};
use std::path::PathBuf;

#[test]
fn env_takes_priority_over_base() {
    let dir = data_dir_from(Some("/custom/dir".to_string()), Some("/base".to_string())).unwrap();
    assert_eq!(PathBuf::from(dir), PathBuf::from("/custom/dir"));
}

#[test]
fn none_env_appends_app_dir_name_to_base() {
    let dir = data_dir_from(None, Some("/base".to_string())).unwrap();
    assert_eq!(PathBuf::from(dir), PathBuf::from("/base").join(APP_DIR_NAME));
}

#[test]
fn empty_env_falls_back_to_base() {
    let dir = data_dir_from(Some(String::new()), Some("/base".to_string())).unwrap();
    assert_eq!(PathBuf::from(dir), PathBuf::from("/base").join(APP_DIR_NAME));
}

#[test]
fn no_base_and_no_env_is_error() {
    assert!(data_dir_from(None, None).is_err());
}

#[test]
fn db_path_appends_filename() {
    assert_eq!(PathBuf::from(db_path("/data")), PathBuf::from("/data/meowbox.db"));
}

#[test]
fn mail_dir_appends_mail() {
    assert_eq!(PathBuf::from(mail_dir("/data")), PathBuf::from("/data/mail"));
}

#[test]
fn attachments_dir_appends_attachments() {
    assert_eq!(PathBuf::from(attachments_dir("/data")), PathBuf::from("/data/attachments"));
}

#[test]
fn explicit_data_dir_wins_over_everything() {
    let dir = resolve_data_dir(Some("/x".to_string()), Some("/env".to_string()), None).unwrap();
    assert_eq!(dir, "/x");
    let dir = resolve_data_dir(None, Some("/env".to_string()), Some("/base".to_string())).unwrap();
    assert_eq!(dir, "/env");
}

#[test]
fn joining_follows_std_path_rules() {
    assert_eq!(db_path("/data/"), PathBuf::from("/data/").join("meowbox.db").to_string_lossy());
    assert_eq!(db_path(""), PathBuf::from("").join("meowbox.db").to_string_lossy());
}
