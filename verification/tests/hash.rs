use ft_fastpath::hash::{
    digest_hex, hash_files_parallel, hash_one, hex_encode, FileContent, DIGEST_LEN,
};

const EMPTY_DIGEST: &str = "af1349b9f5f9a1a6a0404dea36dcc9499bcb25c9adc112b7cc9a93cae41f3262";

fn item(path: &str, bytes: Option<&[u8]>) -> FileContent {
    FileContent { path: path.to_string(), bytes: bytes.map(|b| b.to_vec()) }
}

#[test]
fn hex_encode_writes_two_lower_case_digits_per_byte() {
    assert_eq!(hex_encode(&[]), "");
    assert_eq!(hex_encode(&[0x00]), "00");
    assert_eq!(hex_encode(&[0x0f, 0xf0]), "0ff0");
    assert_eq!(hex_encode(&[0xab, 0xcd, 0xef, 0x12]), "abcdef12");
    assert_eq!(hex_encode(&[0x09, 0x0a, 0x99, 0xff]), "090a99ff");
}

#[test]
fn digest_of_empty_content_is_the_known_one() {
    assert_eq!(digest_hex(&[]), EMPTY_DIGEST);
}

#[test]
fn digest_of_known_content() {
    assert_eq!(
        digest_hex(b"hello world"),
        "d74981efa70a0c880b8d8c1985d075dbcbf679b99a5f9914e5aaf96b831a9e24"
    );
}

#[test]
fn digest_has_sixty_four_lower_case_hex_characters() {
    assert_eq!(DIGEST_LEN, 32);
    let text = digest_hex(b"some content");
    assert_eq!(text.len(), 64);
    assert!(text.chars().all(|c| c.is_ascii_digit() || ('a'..='f').contains(&c)));
}

#[test]
fn hashing_nothing_gives_nothing() {
    let results = hash_files_parallel(&Vec::new());
    assert!(results.is_empty());
}

#[test]
fn identical_content_gives_identical_digests() {
    let items = vec![item("f1", Some(b"same bytes")), item("f2", Some(b"same bytes"))];
    let results = hash_files_parallel(&items);
    assert_eq!(results.len(), 2);
    assert_eq!(results[0].path, "f1");
    assert_eq!(results[1].path, "f2");
    assert_eq!(results[0].digest_hex, results[1].digest_hex);
}

#[test]
fn different_content_gives_different_digests() {
    let items = vec![item("f1", Some(b"one")), item("f2", Some(b"two"))];
    let results = hash_files_parallel(&items);
    assert_ne!(results[0].digest_hex, results[1].digest_hex);
}

#[test]
fn unreadable_file_is_hashed_as_empty() {
    let items = vec![item("missing", None), item("empty", Some(b""))];
    let results = hash_files_parallel(&items);
    assert_eq!(results.len(), 2);
    assert_eq!(results[0].path, "missing");
    assert_eq!(results[0].digest_hex, EMPTY_DIGEST);
    assert_eq!(results[1].digest_hex, EMPTY_DIGEST);
}

#[test]
fn duplicate_paths_give_duplicate_results() {
    let items = vec![item("f", Some(b"x")), item("f", Some(b"x")), item("f", Some(b"x"))];
    let results = hash_files_parallel(&items);
    assert_eq!(results.len(), 3);
    for result in &results {
        assert_eq!(result.path, "f");
        assert_eq!(result.digest_hex, results[0].digest_hex);
    }
}

#[test]
fn results_stand_where_their_items_stood() {
    let mut items = Vec::new();
    for i in 0..200u32 {
        items.push(FileContent { path: format!("file{}", i), bytes: Some(i.to_le_bytes().to_vec()) });
    }
    let results = hash_files_parallel(&items);
    assert_eq!(results.len(), 200);
    for i in 0..200u32 {
        let expected = hash_one(&items[i as usize]);
        assert_eq!(results[i as usize].path, format!("file{}", i));
        assert_eq!(results[i as usize].digest_hex, expected.digest_hex);
        assert_eq!(results[i as usize].digest_hex, digest_hex(&i.to_le_bytes()));
    }
}

#[test]
fn hash_one_keeps_the_path() {
    let result = hash_one(&item("dir/naïve.txt", Some(b"hello world")));
    assert_eq!(result.path, "dir/naïve.txt");
    assert_eq!(
        result.digest_hex,
        "d74981efa70a0c880b8d8c1985d075dbcbf679b99a5f9914e5aaf96b831a9e24"
    );
}
