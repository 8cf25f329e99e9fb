use backup::packaging::archive::{base_path, entry_names, Archive, ArchiveError};
use backup::packaging::order::{name_chars, sort_tree};
use backup::packaging::tree::Node;
use std::io::{Cursor, Read};
use zip::result::ZipError;
use zip::ZipArchive;

fn file(name: &str, content: &[u8]) -> Node {
    Node::File { name: String::from(name), content: content.to_vec() }
}

fn dir(name: &str, children: Vec<Node>) -> Node {
    Node::Dir { name: String::from(name), children }
}

fn names(bytes: Vec<u8>) -> Vec<String> {
    let mut archive = ZipArchive::new(Cursor::new(bytes)).unwrap();
    let mut out = Vec::new();
    for i in 0..archive.len() {
        out.push(String::from(archive.by_index_raw(i).unwrap().name()));
    }
    out
}

fn read_entry(bytes: &[u8], name: &str) -> Vec<u8> {
    let mut archive = ZipArchive::new(Cursor::new(bytes.to_vec())).unwrap();
    let mut entry = archive.by_name(name).unwrap();
    let mut out = Vec::new();
    entry.read_to_end(&mut out).unwrap();
    out
}

#[test]
fn pack_dir_mirrors_the_tree() {
    let tree = vec![
        file("a.txt", b"alpha"),
        dir("sub", vec![file("b.txt", b"beta"), dir("deep", vec![file("c.bin", &[0, 1, 2, 255])])]),
        dir("empty", vec![]),
    ];
    let mut archive = Archive::new(String::from("/tmp/x"), String::new());
    assert_eq!(archive.pack_dir(&tree, String::new(), String::new()), Ok(()));
    let bytes = archive.finish().unwrap();
    assert_eq!(names(bytes.clone()), vec!["a.txt", "sub/b.txt", "sub/deep/c.bin"]);
    assert_eq!(read_entry(&bytes, "a.txt"), b"alpha");
    assert_eq!(read_entry(&bytes, "sub/b.txt"), b"beta");
    assert_eq!(read_entry(&bytes, "sub/deep/c.bin"), vec![0, 1, 2, 255]);
}

#[test]
fn pack_dir_puts_entries_below_the_prefix() {
    let tree = vec![file("a.txt", b"alpha"), dir("sub", vec![file("b.txt", b"beta")])];
    let mut archive = Archive::new(String::from("/tmp/x"), String::new());
    assert_eq!(archive.pack_dir(&tree, String::from("out"), String::new()), Ok(()));
    assert_eq!(archive.pack_dir(&tree, String::from("with/"), String::from("inner")), Ok(()));
    let bytes = archive.finish().unwrap();
    assert_eq!(
        names(bytes),
        vec!["out/a.txt", "out/sub/b.txt", "with/inner/a.txt", "with/inner/sub/b.txt"]
    );
}

#[test]
fn password_encrypts_entries() {
    let mut archive = Archive::new(String::from("/tmp/x"), String::from("s3cret"));
    assert!(archive.is_encrypted());
    assert_eq!(archive.pack_file(b"hidden", String::from("dump.sql")), Ok(()));
    let bytes = archive.finish().unwrap();
    let mut reader = ZipArchive::new(Cursor::new(bytes)).unwrap();
    assert!(matches!(reader.by_index(0), Err(ZipError::UnsupportedArchive(_))));
    assert!(matches!(reader.by_index_decrypt(0, b"wrong"), Ok(Err(_))));
    let mut content = Vec::new();
    reader.by_index_decrypt(0, b"s3cret").unwrap().unwrap().read_to_end(&mut content).unwrap();
    assert_eq!(content, b"hidden");
}

#[test]
fn empty_password_leaves_entries_readable() {
    let mut archive = Archive::new(String::from("/tmp/x"), String::new());
    assert!(!archive.is_encrypted());
    assert_eq!(archive.pack_file(b"open", String::from("notes.txt")), Ok(()));
    let bytes = archive.finish().unwrap();
    assert_eq!(read_entry(&bytes, "notes.txt"), b"open");
}

#[test]
fn sealed_archive_takes_no_entries() {
    let mut archive = Archive::new(String::from("/tmp/x"), String::new());
    assert!(!archive.is_sealed());
    assert!(archive.finish().is_ok());
    assert!(archive.is_sealed());
    assert_eq!(archive.pack_file(b"late", String::from("late.txt")), Err(ArchiveError::Sealed));
    assert_eq!(
        archive.pack_dir(&vec![file("a", b"a")], String::new(), String::new()),
        Err(ArchiveError::Sealed)
    );
    assert_eq!(archive.finish(), Err(ArchiveError::Sealed));
}

#[test]
fn overlong_name_is_refused_and_nothing_is_added() {
    let long = "n".repeat(65536);
    let mut archive = Archive::new(String::from("/tmp/x"), String::new());
    assert_eq!(archive.pack_file(b"x", long.clone()), Err(ArchiveError::NameTooLong));
    let tree = vec![file("ok.txt", b"fine"), dir("d", vec![file(&long, b"x")])];
    assert_eq!(
        archive.pack_dir(&tree, String::new(), String::new()),
        Err(ArchiveError::NameTooLong)
    );
    assert_eq!(archive.pack_file(b"x", "n".repeat(65535)), Ok(()));
    let bytes = archive.finish().unwrap();
    assert_eq!(names(bytes).len(), 1);
}

#[test]
fn packing_twice_gives_the_same_entries() {
    let tree = vec![file("a.txt", b"alpha"), dir("sub", vec![file("b.txt", b"beta")])];
    let mut first = Archive::new(String::from("/tmp/one"), String::new());
    let mut second = Archive::new(String::from("/tmp/two"), String::new());
    assert_eq!(first.pack_dir(&tree, String::from("p"), String::new()), Ok(()));
    assert_eq!(second.pack_dir(&tree, String::from("p"), String::new()), Ok(()));
    let one = first.finish().unwrap();
    let two = second.finish().unwrap();
    assert_eq!(names(one.clone()), names(two.clone()));
    for name in names(one.clone()) {
        assert_eq!(read_entry(&one, &name), read_entry(&two, &name));
    }
}

#[test]
fn sort_tree_orders_every_directory_by_name() {
    let tree = vec![
        file("b.txt", b"2"),
        dir("sub", vec![file("z", b"26"), dir("m", vec![file("2", b""), file("1", b"")]), file("a", b"1")]),
        file("a.txt", b"1"),
        dir("Sub", vec![]),
        file("", b"0"),
        file("a", b"0"),
    ];
    let sorted = sort_tree(tree);
    let top: Vec<String> = sorted.iter().map(|n| name_chars(n).into_iter().collect()).collect();
    assert_eq!(top, vec!["", "Sub", "a", "a.txt", "b.txt", "sub"]);
    let mut archive = Archive::new(String::from("/tmp/x"), String::new());
    assert_eq!(archive.pack_dir(&sorted, String::new(), String::new()), Ok(()));
    let bytes = archive.finish().unwrap();
    assert_eq!(
        names(bytes.clone()),
        vec!["", "a", "a.txt", "b.txt", "sub/a", "sub/m/1", "sub/m/2", "sub/z"]
    );
    assert_eq!(read_entry(&bytes, "sub/z"), b"26");
    assert_eq!(read_entry(&bytes, "b.txt"), b"2");
    assert!(sort_tree(Vec::new()).is_empty());
}

#[test]
fn sort_tree_keeps_entries_of_equal_name() {
    let sorted = sort_tree(vec![file("same", b"1"), file("other", b"2"), file("same", b"3")]);
    let mut archive = Archive::new(String::from("/tmp/x"), String::new());
    assert_eq!(archive.pack_dir(&sorted, String::new(), String::new()), Ok(()));
    assert_eq!(names(archive.finish().unwrap()), vec!["other", "same", "same"]);
}

#[test]
fn entries_are_compressed_with_bzip2() {
    let mut archive = Archive::new(String::from("/tmp/x"), String::new());
    assert_eq!(archive.path(), "/tmp/x");
    assert_eq!(archive.pack_file(&vec![7u8; 4096], String::from("sevens")), Ok(()));
    let bytes = archive.finish().unwrap();
    let mut reader = ZipArchive::new(Cursor::new(bytes)).unwrap();
    let entry = reader.by_index(0).unwrap();
    assert_eq!(entry.compression(), zip::CompressionMethod::Bzip2);
    assert_eq!(entry.size(), 4096);
    assert!(entry.compressed_size() < 4096);
}

#[test]
fn leading_separator_of_the_subdirectory_is_dropped() {
    let tree = vec![file("b.txt", b"beta")];
    let mut archive = Archive::new(String::from("/tmp/x"), String::new());
    assert_eq!(archive.pack_dir(&tree, String::from("out"), String::from("/sub")), Ok(()));
    assert_eq!(archive.pack_dir(&tree, String::from("out/"), String::from("sub/")), Ok(()));
    assert_eq!(archive.pack_dir(&tree, String::new(), String::from("//sub")), Ok(()));
    assert_eq!(
        names(archive.finish().unwrap()),
        vec!["out/sub/b.txt", "out/sub/b.txt", "sub/b.txt"]
    );
}

#[test]
fn tree_without_files_gives_ok_and_no_entry() {
    let tree = vec![dir("e", vec![]), dir("x", vec![dir("y", vec![])])];
    let mut archive = Archive::new(String::from("/tmp/x"), String::new());
    assert_eq!(archive.pack_dir(&tree, String::from("out"), String::new()), Ok(()));
    assert_eq!(archive.pack_dir(&Vec::new(), String::new(), String::new()), Ok(()));
    assert_eq!(names(archive.finish().unwrap()), Vec::<String>::new());
}

#[test]
fn each_entry_holds_its_own_bytes() {
    let mut archive = Archive::new(String::from("/tmp/x"), String::new());
    assert_eq!(archive.pack_file(b"hello", String::from("dump.sql")), Ok(()));
    assert_eq!(archive.pack_file(b"", String::from("empty")), Ok(()));
    assert_eq!(archive.pack_file(b"second", String::from("other")), Ok(()));
    let bytes = archive.finish().unwrap();
    assert_eq!(names(bytes.clone()), vec!["dump.sql", "empty", "other"]);
    assert_eq!(read_entry(&bytes, "dump.sql"), b"hello");
    assert_eq!(read_entry(&bytes, "empty"), b"");
    assert_eq!(read_entry(&bytes, "other"), b"second");
}

#[test]
fn fresh_archive_finishes_to_an_empty_container() {
    let mut archive = Archive::new(String::from("/tmp/x"), String::from("pw"));
    let bytes = archive.finish().unwrap();
    assert!(!bytes.is_empty());
    assert_eq!(names(bytes), Vec::<String>::new());
}

#[test]
fn answer_of_the_writer_is_settled() {
    assert_eq!(Archive::settle::<String>(Ok(())), Ok(()));
    assert_eq!(Archive::settle(Err(String::from("disk full"))), Err(ArchiveError::Io));
    assert_eq!(Archive::settle(Err(7u8)), Err(ArchiveError::Io));
}

#[test]
fn every_entry_of_a_tree_has_the_method_and_the_password_of_the_archive() {
    let tree = vec![file("a", &[1u8; 2048]), dir("d", vec![file("b", &[2u8; 2048])])];
    let mut archive = Archive::new(String::from("/tmp/x"), String::from("pw"));
    assert_eq!(archive.pack_dir(&tree, String::new(), String::new()), Ok(()));
    assert_eq!(archive.pack_file(&[3u8; 2048], String::from("c")), Ok(()));
    let bytes = archive.finish().unwrap();
    let mut reader = ZipArchive::new(Cursor::new(bytes)).unwrap();
    for i in 0..3 {
        assert!(matches!(reader.by_index(i), Err(ZipError::UnsupportedArchive(_))));
        let entry = reader.by_index_decrypt(i, b"pw").unwrap().unwrap();
        assert_eq!(entry.compression(), zip::CompressionMethod::Bzip2);
    }
}

#[test]
fn entry_names_are_those_that_pack_dir_gives() {
    let tree = vec![
        file("a.txt", b"alpha"),
        dir("sub", vec![file("b.txt", b"beta"), dir("deep", vec![file("c.txt", b"gamma")])]),
        dir("empty", vec![]),
    ];
    assert_eq!(base_path("out", ""), "out/");
    assert_eq!(base_path("out/", "/in"), "out/in/");
    assert_eq!(base_path("", ""), "");
    let names = entry_names(&tree, &base_path("out", ""));
    assert_eq!(names, vec!["out/a.txt", "out/sub/b.txt", "out/sub/deep/c.txt"]);
    assert_eq!(
        entry_names(&tree, "/data/"),
        vec!["/data/a.txt", "/data/sub/b.txt", "/data/sub/deep/c.txt"]
    );
    assert_eq!(entry_names(&Vec::new(), "x/"), Vec::<String>::new());
    let mut archive = Archive::new(String::from("/tmp/x"), String::new());
    assert_eq!(archive.pack_dir(&tree, String::from("out"), String::new()), Ok(()));
    let packed = archive.finish().unwrap();
    assert_eq!(self::names(packed), names);
}
