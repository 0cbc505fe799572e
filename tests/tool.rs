use agentos::fs::{init, list_dir, read_file, write_file, MemFS};
use agentos::tool::execute;

#[test]
fn write_then_read() {
    let mut fs = MemFS::new();
    assert_eq!(execute(&mut fs, "fs_write:a.txt:hello"), "OK");
    assert_eq!(execute(&mut fs, "fs_read:a.txt"), "hello");
}

#[test]
fn read_missing_file() {
    let mut fs = MemFS::new();
    assert_eq!(execute(&mut fs, "fs_read:missing.txt"), "Error: File not found");
}

#[test]
fn list_after_two_writes() {
    let mut fs = MemFS::new();
    execute(&mut fs, "fs_write:a:1");
    execute(&mut fs, "fs_write:b:2");
    let r = execute(&mut fs, "fs_ls");
    assert!(r.starts_with("Files: "));
    assert!(r.contains("a"));
    assert!(r.contains("b"));
    assert_eq!(r, "Files: a b ");
}

#[test]
fn list_empty() {
    let mut fs = init();
    assert_eq!(execute(&mut fs, "fs_ls"), "Files: ");
}

#[test]
fn list_prefix_match() {
    let mut fs = MemFS::new();
    execute(&mut fs, "fs_write:x:1");
    assert_eq!(execute(&mut fs, "fs_lsanything"), "Files: x ");
}

#[test]
fn write_without_data_part() {
    let mut fs = MemFS::new();
    assert_eq!(execute(&mut fs, "fs_write:name-only"), "Error: Invalid fs_write format");
    assert!(list_dir(&fs).is_empty());
}

#[test]
fn write_data_keeps_colons() {
    let mut fs = MemFS::new();
    assert_eq!(execute(&mut fs, "fs_write:f:a:b:c"), "OK");
    assert_eq!(execute(&mut fs, "fs_read:f"), "a:b:c");
}

#[test]
fn overwrite_replaces_content() {
    let mut fs = MemFS::new();
    execute(&mut fs, "fs_write:f:one");
    execute(&mut fs, "fs_write:f:two");
    assert_eq!(execute(&mut fs, "fs_read:f"), "two");
    assert_eq!(list_dir(&fs), vec![String::from("f")]);
}

#[test]
fn binary_content() {
    let mut fs = MemFS::new();
    write_file(&mut fs, "bin", &[0xff, 0xfe, 0x00]);
    assert_eq!(execute(&mut fs, "fs_read:bin"), "<Binary Data>");
}

#[test]
fn unknown_tool() {
    let mut fs = MemFS::new();
    assert_eq!(execute(&mut fs, "rm -rf /"), "Error: Unknown Tool");
    assert_eq!(execute(&mut fs, ""), "Error: Unknown Tool");
    assert_eq!(execute(&mut fs, "fs_read"), "Error: Unknown Tool");
}

#[test]
fn read_name_with_colon() {
    let mut fs = MemFS::new();
    write_file(&mut fs, "a:b", b"v");
    assert_eq!(execute(&mut fs, "fs_read:a:b"), "v");
}

#[test]
fn fs_functions_direct() {
    let mut fs = init();
    assert!(read_file(&fs, "p").is_none());
    write_file(&mut fs, "p", b"data");
    assert_eq!(read_file(&fs, "p"), Some(b"data".to_vec()));
    write_file(&mut fs, "q", b"");
    assert_eq!(list_dir(&fs), vec![String::from("p"), String::from("q")]);
    assert_eq!(read_file(&fs, "q"), Some(Vec::new()));
}
