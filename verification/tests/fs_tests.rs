use enos::fs::{
    create_file, delete_file, is_valid_name, list_files, read_file, stats, str_eq, write_file,
    FileSystem, MAX_FILES, MAX_FILE_SIZE,
};

#[test]
fn valid_names() {
    assert!(is_valid_name("notes.txt"));
    assert!(is_valid_name("A-b_c.9"));
    assert!(!is_valid_name(""));
    assert!(!is_valid_name("has space"));
    assert!(!is_valid_name("slash/name"));
    assert!(!is_valid_name("é"));
    assert!(is_valid_name(&"x".repeat(32)));
    assert!(!is_valid_name(&"x".repeat(33)));
}

#[test]
fn text_equality() {
    assert!(str_eq("abc", "abc"));
    assert!(!str_eq("abc", "abd"));
    assert!(!str_eq("abc", "ab"));
    assert!(str_eq("", ""));
}

#[test]
fn create_then_read_is_empty() {
    let mut fs = FileSystem::new();
    assert_eq!(create_file(&mut fs, "a.txt"), Ok(()));
    assert_eq!(read_file(&fs, "a.txt"), Ok(String::new()));
}

#[test]
fn create_errors() {
    let mut fs = FileSystem::new();
    assert_eq!(create_file(&mut fs, "bad name"), Err("invalid file name"));
    assert_eq!(create_file(&mut fs, "a"), Ok(()));
    assert_eq!(create_file(&mut fs, "a"), Err("file already exists"));
    // an invalid name is reported before a duplicate
    assert_eq!(create_file(&mut fs, ""), Err("invalid file name"));
}

#[test]
fn file_table_fills_up() {
    let mut fs = FileSystem::new();
    for i in 0..MAX_FILES {
        assert_eq!(create_file(&mut fs, &format!("f{}", i)), Ok(()));
    }
    assert_eq!(create_file(&mut fs, "one-more"), Err("file table is full"));
    // an existing name is reported before a full table
    assert_eq!(create_file(&mut fs, "f0"), Err("file already exists"));
    assert_eq!(stats(&fs).file_count, MAX_FILES);
}

#[test]
fn read_after_write() {
    let mut fs = FileSystem::new();
    create_file(&mut fs, "log").unwrap();
    assert_eq!(write_file(&mut fs, "log", "hello world"), Ok(()));
    assert_eq!(read_file(&fs, "log"), Ok(String::from("hello world")));
    assert_eq!(write_file(&mut fs, "log", "second"), Ok(()));
    assert_eq!(read_file(&fs, "log"), Ok(String::from("second")));
}

#[test]
fn write_leaves_other_files() {
    let mut fs = FileSystem::new();
    create_file(&mut fs, "a").unwrap();
    create_file(&mut fs, "b").unwrap();
    write_file(&mut fs, "b", "bee").unwrap();
    write_file(&mut fs, "a", "ay").unwrap();
    assert_eq!(read_file(&fs, "b"), Ok(String::from("bee")));
}

#[test]
fn write_errors() {
    let mut fs = FileSystem::new();
    assert_eq!(write_file(&mut fs, "missing", "x"), Err("file not found"));
    create_file(&mut fs, "big").unwrap();
    let too_big = "y".repeat(MAX_FILE_SIZE + 1);
    assert_eq!(write_file(&mut fs, "big", &too_big), Err("content too large"));
    // the size is checked before the name
    assert_eq!(write_file(&mut fs, "missing", &too_big), Err("content too large"));
    let just_fits = "y".repeat(MAX_FILE_SIZE);
    assert_eq!(write_file(&mut fs, "big", &just_fits), Ok(()));
    // the limit counts bytes, not characters
    let multibyte = "é".repeat(MAX_FILE_SIZE / 2 + 1);
    assert_eq!(write_file(&mut fs, "big", &multibyte), Err("content too large"));
}

#[test]
fn delete_then_read_fails() {
    let mut fs = FileSystem::new();
    create_file(&mut fs, "tmp").unwrap();
    assert_eq!(delete_file(&mut fs, "tmp"), Ok(()));
    assert_eq!(read_file(&fs, "tmp"), Err("file not found"));
    assert_eq!(delete_file(&mut fs, "tmp"), Err("file not found"));
    assert_eq!(create_file(&mut fs, "tmp"), Ok(()));
}

#[test]
fn listing_in_creation_order() {
    let mut fs = FileSystem::new();
    create_file(&mut fs, "zeta").unwrap();
    create_file(&mut fs, "alpha").unwrap();
    write_file(&mut fs, "alpha", "12345").unwrap();
    let list = list_files(&fs);
    assert_eq!(list.len(), 2);
    assert_eq!(list[0].name, "zeta");
    assert_eq!(list[0].size, 0);
    assert_eq!(list[1].name, "alpha");
    assert_eq!(list[1].size, 5);
}

#[test]
fn stats_sum_sizes() {
    let mut fs = FileSystem::new();
    let st = stats(&fs);
    assert_eq!(st.file_count, 0);
    assert_eq!(st.total_bytes, 0);
    assert_eq!(st.max_files, 64);
    assert_eq!(st.max_file_size, 2048);
    create_file(&mut fs, "a").unwrap();
    create_file(&mut fs, "b").unwrap();
    write_file(&mut fs, "a", "abc").unwrap();
    write_file(&mut fs, "b", "héllo").unwrap();
    let st = stats(&fs);
    assert_eq!(st.file_count, 2);
    assert_eq!(st.total_bytes, 3 + 6);
}

#[test]
fn reads_survive_calls_on_other_files() {
    let mut fs = FileSystem::new();
    create_file(&mut fs, "keep").unwrap();
    create_file(&mut fs, "fresh").unwrap();
    write_file(&mut fs, "keep", "payload").unwrap();
    create_file(&mut fs, "other").unwrap();
    write_file(&mut fs, "other", "x").unwrap();
    delete_file(&mut fs, "other").unwrap();
    // creating an existing name fails and changes nothing
    assert_eq!(create_file(&mut fs, "keep"), Err("file already exists"));
    assert_eq!(read_file(&fs, "keep"), Ok("payload".to_string()));
    assert_eq!(read_file(&fs, "fresh"), Ok(String::new()));
    assert_eq!(read_file(&fs, "other"), Err("file not found"));
}
