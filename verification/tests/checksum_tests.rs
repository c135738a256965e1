use snapdiff::checksum::{CheckSummer, Crc64};
use snapdiff::file::File;
use snapdiff::snapper::{relative_to, Hashing, CHUNK_SIZE};

#[test]
fn checksum_of_the_check_string() {
    let algorithm = Crc64::new();
    let mut summer = CheckSummer::new(&algorithm);
    summer.consume(b"123456789");
    assert_eq!(summer.finalize(), 0xe9c6d914c4b8d9ca);
}

#[test]
fn checksum_of_nothing_is_zero() {
    let algorithm = Crc64::new();
    let mut summer = CheckSummer::new(&algorithm);
    assert_eq!(summer.finalize(), 0);
    summer.consume(b"");
    assert_eq!(summer.finalize(), 0);
}

#[test]
fn checksum_of_chunks_is_that_of_the_whole() {
    let algorithm = Crc64::new();
    let mut whole = CheckSummer::new(&algorithm);
    whole.consume(b"123456789");
    let mut parts = CheckSummer::new(&algorithm);
    parts.consume(b"1234");
    parts.consume(b"");
    parts.consume(b"56789");
    assert_eq!(parts.finalize(), whole.finalize());
}

#[test]
fn checksummer_starts_over_after_finalize() {
    let algorithm = Crc64::new();
    let mut summer = CheckSummer::new(&algorithm);
    summer.consume(b"something else");
    let first = summer.finalize();
    assert_ne!(first, 0xe9c6d914c4b8d9ca);
    summer.consume(b"123456789");
    assert_eq!(summer.finalize(), 0xe9c6d914c4b8d9ca);
}

#[test]
fn file_from_strings_takes_size_and_checksum_from_the_contents() {
    let f = File::from_strings("/some/path", "123456789");
    assert_eq!(f.path, "/some/path");
    assert_eq!(f.size, 9);
    assert_eq!(f.check_sum, 0xe9c6d914c4b8d9ca);
    let g = File::from_strings("/e", "\u{e9}");
    assert_eq!(g.size, 2);
}

#[test]
fn file_new_keeps_its_parts() {
    let f = File::new("/p".to_string(), 7, 42);
    assert_eq!(f.path, "/p");
    assert_eq!(f.size, 7);
    assert_eq!(f.check_sum, 42);
    let g = f.clone();
    assert_eq!(f, g);
}

#[test]
fn files_are_equal_by_size_and_checksum_only() {
    let a = File::new("/a".to_string(), 3, 99);
    let b = File::new("/b".to_string(), 3, 99);
    let c = File::new("/a".to_string(), 4, 99);
    let d = File::new("/a".to_string(), 3, 98);
    assert!(a.equals(&b));
    assert!(!a.equals(&c));
    assert!(!a.equals(&d));
    assert!(File::from_strings("/x", "same").equals(&File::from_strings("/y", "same")));
    assert!(!File::from_strings("/x", "same").equals(&File::from_strings("/x", "other")));
}

#[test]
fn hashing_a_file_in_chunks() {
    let algorithm = Crc64::new();
    let mut hashing = Hashing::new(&algorithm);
    assert_eq!(hashing.size(), 0);
    hashing.consume(b"12345");
    hashing.consume(b"6789");
    assert_eq!(hashing.size(), 9);
    let f = hashing.finish("a/b".to_string());
    assert_eq!(f, File::from_strings("a/b", "123456789"));
    assert_eq!(hashing.size(), 0);
    hashing.consume(b"x");
    let g = hashing.finish("c".to_string());
    assert_eq!(g, File::from_strings("c", "x"));
}

#[test]
fn hashing_an_empty_file() {
    let algorithm = Crc64::new();
    let mut hashing = Hashing::new(&algorithm);
    let f = hashing.finish("empty".to_string());
    assert_eq!(f.size, 0);
    assert_eq!(f.check_sum, 0);
    assert_eq!(f, File::from_strings("empty", ""));
}

#[test]
fn chunks_are_ten_mebibytes() {
    assert_eq!(CHUNK_SIZE, 10_485_760);
}

#[test]
fn hashing_takes_a_chunk_in_if_there_is_room() {
    let algorithm = Crc64::new();
    let mut hashing = Hashing::new(&algorithm);
    assert!(hashing.try_consume(b"1234"));
    assert!(hashing.try_consume(b"56789"));
    assert_eq!(hashing.size(), 9);
    assert_eq!(hashing.finish("p".to_string()), File::from_strings("p", "123456789"));
}

#[test]
fn consume_can_be_chained() {
    let algorithm = Crc64::new();
    let mut summer = CheckSummer::new(&algorithm);
    assert_eq!(
        summer.consume(b"1234").consume(b"56789").finalize(),
        0xe9c6d914c4b8d9ca
    );
    assert_eq!(summer.consume(b"123456789").finalize(), 0xe9c6d914c4b8d9ca);
    assert_eq!(CheckSummer::new(&algorithm).consume(b"").finalize(), 0);
}

#[test]
fn a_link_is_recorded_without_bytes() {
    let algorithm = Crc64::new();
    let mut hashing = Hashing::new(&algorithm);
    assert!(hashing.try_consume(b"../target"));
    let link = hashing.finish_link("dir/link".to_string());
    assert_eq!(link.path, "dir/link");
    assert_eq!(link.size, 0);
    assert_eq!(link.check_sum, File::from_strings("", "../target").check_sum);
    assert_eq!(hashing.size(), 0);
    assert!(hashing.try_consume(b"../other"));
    let moved = hashing.finish_link("dir/link".to_string());
    assert!(!link.equals(&moved));
    assert_eq!(hashing.finish("f".to_string()), File::from_strings("f", ""));
}

#[test]
fn paths_relative_to_a_root() {
    assert_eq!(relative_to("a/b", "a/b/c/d").unwrap(), "c/d");
    assert_eq!(relative_to("/snap", "/snap/file").unwrap(), "file");
    assert_eq!(relative_to("/snap/", "/snap/file").unwrap(), "file");
    assert_eq!(relative_to("/", "/etc/hosts").unwrap(), "etc/hosts");
    assert_eq!(relative_to("", "/x").unwrap(), "x");
    assert_eq!(relative_to("a", "a/").unwrap(), "");
    assert_eq!(relative_to("r\u{e9}sum\u{e9}", "r\u{e9}sum\u{e9}/\u{fc}ber").unwrap(), "\u{fc}ber");
}

#[test]
fn paths_that_are_not_below_a_root() {
    assert!(relative_to("a/b", "a/b").is_none());
    assert!(relative_to("a/b", "a/bc/d").is_none());
    assert!(relative_to("a/b", "a/c/d").is_none());
    assert!(relative_to("a/b", "a").is_none());
    assert!(relative_to("a/b", "").is_none());
    assert!(relative_to("a/b/", "a/b").is_none());
    assert!(relative_to("a/b", "x/a/b/c").is_none());
    assert!(relative_to("", "x").is_none());
}
