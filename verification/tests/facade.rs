//! Tests for the backup facade's validation rules and helpers.

use encrypted_backup::memory::estimated_memory_usage;
use encrypted_backup::memory::MEMORY_LIMIT;
use encrypted_backup::paths::last_path_component;
use encrypted_backup::paths::tmp_file_for;
use encrypted_backup::paths::validate_no_duplicate_include_names;
use encrypted_backup::types::BackupError;
use encrypted_backup::types::PathType;
use encrypted_backup::validate::validate_chunk_size;
use encrypted_backup::validate::validate_password;
use encrypted_backup::validate::validate_pool_size;

#[test]
fn estimated_memory_charges_two_n_plus_five_buffers() {
    assert_eq!(estimated_memory_usage(65536, 4), 65536 * 13);
    assert_eq!(estimated_memory_usage(1 << 20, 16), (1 << 20) * 37);
    assert_eq!(estimated_memory_usage(0, 64), 0);
    assert!(estimated_memory_usage(1 << 26, 4) < MEMORY_LIMIT);
    assert!(estimated_memory_usage(1 << 30, 64) > MEMORY_LIMIT);
}

#[test]
fn last_component_of_paths() {
    assert_eq!(last_path_component("a/b/c").unwrap(), "c");
    assert_eq!(last_path_component("a/b/").unwrap(), "b");
    assert_eq!(last_path_component("name").unwrap(), "name");
    assert_eq!(last_path_component("/usr/local/").unwrap(), "local");
    assert!(last_path_component("").is_none());
    assert!(last_path_component("///").is_none());
}

#[test]
fn tmp_file_appends_suffix() {
    assert_eq!(tmp_file_for("backup.tar"), "backup.tar.tmp");
    assert_eq!(tmp_file_for("/a/b/out"), "/a/b/out.tmp");
}

#[test]
fn distinct_include_names_are_accepted() {
    let paths = vec![
        String::from("/home/user/docs"),
        String::from("/var/pics"),
        String::from("notes"),
    ];
    assert!(validate_no_duplicate_include_names(&paths).is_ok());
}

#[test]
fn duplicate_include_names_are_rejected() {
    let paths = vec![
        String::from("/home/user/docs"),
        String::from("/mnt/backup/docs"),
    ];
    match validate_no_duplicate_include_names(&paths) {
        Err(BackupError::DuplicateIncludeName(name)) => assert_eq!(name, "docs"),
        _ => panic!("expected a duplicate include name error"),
    }
}

#[test]
fn password_length_is_validated() {
    assert_eq!(validate_password("password123").unwrap(), "password123");
    assert_eq!(
        validate_password("short").unwrap_err(),
        "Password must be at least 8 characters in length"
    );
    let long = "x".repeat(256);
    assert_eq!(
        validate_password(&long).unwrap_err(),
        "Password must be at most 255 characters in length"
    );
}

#[test]
fn chunk_size_magnitude_is_validated() {
    assert_eq!(validate_chunk_size("16").unwrap(), 16);
    assert_eq!(validate_chunk_size("10").unwrap(), 10);
    assert_eq!(validate_chunk_size("30").unwrap(), 30);
    assert_eq!(
        validate_chunk_size("9").unwrap_err(),
        "Chunk size order of magnitude must be at least 10"
    );
    assert_eq!(
        validate_chunk_size("31").unwrap_err(),
        "Chunk size order of magnitude must be at most 30"
    );
    assert_eq!(
        validate_chunk_size("").unwrap_err(),
        "cannot parse integer from empty string"
    );
    assert_eq!(
        validate_chunk_size("12a").unwrap_err(),
        "invalid digit found in string"
    );
    assert_eq!(
        validate_chunk_size("300").unwrap_err(),
        "number too large to fit in target type"
    );
}

#[test]
fn pool_size_is_validated() {
    assert_eq!(validate_pool_size("1").unwrap(), 1);
    assert_eq!(validate_pool_size("4").unwrap(), 4);
    assert_eq!(validate_pool_size("64").unwrap(), 64);
    assert_eq!(
        validate_pool_size("0").unwrap_err(),
        "Pool size must be at least 1"
    );
    assert_eq!(
        validate_pool_size("65").unwrap_err(),
        "Pool size must be at most 64"
    );
    assert_eq!(
        validate_pool_size("-3").unwrap_err(),
        "invalid digit found in string"
    );
}

#[test]
fn path_types_describe_themselves() {
    assert_eq!(PathType::File.describe(), "file");
    assert_eq!(PathType::Directory.describe(), "directory");
    assert_eq!(PathType::Any.describe(), "file or directory");
}
