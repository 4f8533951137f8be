use processr::cache::{cache_file_name, insert_into_cache, PendingBlobs, StringTable};

#[test]
fn blob_names_hash_and_length() {
    assert_eq!(
        String::from("e3b0c44298fc1c149afbf4c8996fb92427ae41e4649b934ca495991b7852b855-0"),
        cache_file_name(&Vec::new(), None)
    );
    assert_eq!(
        String::from("ba7816bf8f01cfea414140de5dae2223b00361a396177a9cb410ff61f20015ad-3.txt"),
        cache_file_name(&b"abc".to_vec(), Some("txt"))
    );
}

#[test]
fn second_insertion_adds_no_blob() {
    let mut manifest = StringTable::new();
    let mut pending = PendingBlobs::new();
    let first = insert_into_cache(&mut manifest, &mut pending, String::from("https://a/x.png"), b"same".to_vec(), Some("png"));
    let second = insert_into_cache(&mut manifest, &mut pending, String::from("https://b/y.png"), b"same".to_vec(), Some("png"));
    assert_eq!(first, second);
    assert_eq!(1, pending.blobs().len());
    assert_eq!(Some(&first), manifest.get("https://a/x.png"));
    assert_eq!(Some(&first), manifest.get("https://b/y.png"));
    assert!(first.starts_with("/.cache/"));
}
