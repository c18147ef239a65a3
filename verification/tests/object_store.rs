use mygit::object::{Entry, Object, Timestamp, User};
use std::io::Write;
use mygit::store::{address_of, StoreError};
use mygit::tree::TreeBuilder;

const SAMPLE_HASH: &str = "0123456789abcdef0123456789abcdef01234567";

#[test]
fn empty_blob_has_known_hash() {
    let blob = Object::Blob(Vec::new());
    assert_eq!(blob.hash_hex(), "e69de29bb2d1d6434b8b29ae775ad8c2e48c5391");
}

#[test]
fn empty_tree_has_known_hash() {
    let tree = TreeBuilder::new().finish();
    assert_eq!(tree.hash_hex(), "4b825dc642cb6eb9a060e54bf8d69288fbee4904");
}

#[test]
fn equal_blobs_hash_equal() {
    let a = Object::Blob(b"same content".to_vec());
    let b = Object::Blob(b"same content".to_vec());
    assert_eq!(a.hash_hex(), b.hash_hex());
    assert_eq!(a.hash_hex(), a.hash_hex());
}

#[test]
fn type_token_changes_identity() {
    // Both payloads are empty; only the type token in the framing differs.
    let blob = Object::Blob(Vec::new());
    let tree = TreeBuilder::new().finish();
    assert_ne!(blob.hash_hex(), tree.hash_hex());
}

#[test]
fn blob_round_trip() {
    let content = b"any bytes \x00\xff here\n".to_vec();
    let blob = Object::Blob(content.clone());
    let encoded = blob.encode();
    match Object::decode(&encoded) {
        Ok(Object::Blob(data)) => assert_eq!(data, content),
        _ => panic!("expected a blob"),
    }
}

#[test]
fn tree_round_trip() {
    let e1 = Entry::new("100644", "a.txt", SAMPLE_HASH).unwrap();
    let e2 = Entry::new("040000", "sub dir", "fedcba9876543210fedcba9876543210fedcba98").unwrap();
    let tree = Object::Tree(vec![e1, e2]);
    let encoded = tree.encode();
    match Object::decode(&encoded) {
        Ok(Object::Tree(entries)) => {
            assert_eq!(entries.len(), 2);
            assert_eq!(entries[0].mode(), "100644");
            assert_eq!(entries[0].filename(), "a.txt");
            assert_eq!(entries[0].hash(), SAMPLE_HASH);
            assert_eq!(entries[1].mode(), "040000");
            assert_eq!(entries[1].filename(), "sub dir");
            assert_eq!(entries[1].hash(), "fedcba9876543210fedcba9876543210fedcba98");
        },
        _ => panic!("expected a tree"),
    }
}

#[test]
fn decode_rejects_commit_and_garbage() {
    // A commit can be encoded but not decoded.
    assert!(Object::decode(b"commit 4\0abcd").is_err());
    assert!(Object::decode(b"nospacehere").is_err());
    assert!(Object::decode(b"blob 3 no nul").is_err());
    // A tree line with a truncated hash is rejected.
    assert!(Object::decode(b"tree 10\0100644 a\0shorthash").is_err());
}

#[test]
fn record_round_trip_through_compression() {
    let blob = Object::Blob(b"stored bytes\n".to_vec());
    let (hash, compressed) = blob.to_record();
    assert_eq!(hash, blob.hash_hex());
    match Object::from_record(&compressed) {
        Ok(Object::Blob(data)) => assert_eq!(data, b"stored bytes\n".to_vec()),
        _ => panic!("expected the blob back"),
    }
}

#[test]
fn record_errors_are_told_apart() {
    // Not a zlib stream at all: corrupt.
    match Object::from_record(b"garbage") {
        Err(e) => assert_eq!(e, StoreError::Corrupt),
        Ok(_) => panic!("expected corruption"),
    }
    // A valid zlib stream around an unrecognized framing: invalid format.
    let mut enc = flate2::write::ZlibEncoder::new(Vec::new(), flate2::Compression::default());
    enc.write_all(b"bogus 3\0abc").unwrap();
    let stream = enc.finish().unwrap();
    match Object::from_record(&stream) {
        Err(e) => assert_eq!(e, StoreError::InvalidFormat),
        Ok(_) => panic!("expected an invalid format"),
    }
}

#[test]
fn address_splits_two_and_thirty_eight() {
    let (dir, file) = address_of(SAMPLE_HASH);
    assert_eq!(dir, "01");
    assert_eq!(file, "23456789abcdef0123456789abcdef01234567");
}

#[test]
fn entry_validation() {
    assert!(Entry::new("100644", "ok.txt", SAMPLE_HASH).is_ok());
    assert!(Entry::new("100755", "ok.txt", SAMPLE_HASH).is_ok());
    assert!(Entry::new("040000", "ok", SAMPLE_HASH).is_ok());
    // An unknown mode, a NUL in the filename, a short hash, uppercase hex.
    assert!(Entry::new("120000", "link", SAMPLE_HASH).is_err());
    assert!(Entry::new("100644", "bad\0name", SAMPLE_HASH).is_err());
    assert!(Entry::new("100644", "f", "0123456789abcdef0123456789abcdef0123456").is_err());
    assert!(Entry::new("100644", "f", "0123456789ABCDEF0123456789ABCDEF01234567").is_err());
}

#[test]
fn builder_orders_canonically() {
    let blob_hash = Object::Blob(b"x".to_vec()).hash_hex();
    let mut one = TreeBuilder::new();
    one.add_file("b.txt", false, &blob_hash).unwrap();
    one.add_file("a.txt", true, &blob_hash).unwrap();
    one.add_directory("c", &blob_hash).unwrap();
    let mut two = TreeBuilder::new();
    two.add_directory("c", &blob_hash).unwrap();
    two.add_file("a.txt", true, &blob_hash).unwrap();
    two.add_file("b.txt", false, &blob_hash).unwrap();
    let t1 = one.finish();
    let t2 = two.finish();
    assert_eq!(t1.encode(), t2.encode());
    assert_eq!(t1.hash_hex(), t2.hash_hex());
    match t1 {
        Object::Tree(entries) => {
            let names: Vec<&str> = entries.iter().map(|e| e.filename()).collect();
            assert_eq!(names, vec!["a.txt", "b.txt", "c"]);
        },
        _ => panic!("expected a tree"),
    }
}

#[test]
fn single_file_tree_is_deterministic() {
    // One file a.txt with content "hi\n": its entry points at the blob's
    // hash, and rebuilding gives the same tree hash.
    let blob = Object::Blob(b"hi\n".to_vec());
    let blob_hash = blob.hash_hex();
    let mut builder = TreeBuilder::new();
    builder.add_file("a.txt", false, &blob_hash).unwrap();
    let tree = builder.finish();
    let first = tree.hash_hex();
    match &tree {
        Object::Tree(entries) => {
            assert_eq!(entries.len(), 1);
            assert_eq!(entries[0].mode(), "100644");
            assert_eq!(entries[0].filename(), "a.txt");
            assert_eq!(entries[0].hash(), blob_hash);
        },
        _ => panic!("expected a tree"),
    }
    let mut again = TreeBuilder::new();
    again.add_file("a.txt", false, &blob_hash).unwrap();
    assert_eq!(again.finish().hash_hex(), first);
}

#[test]
fn commit_payload_layout() {
    let tree_hash = String::from(SAMPLE_HASH);
    let parent = String::from("fedcba9876543210fedcba9876543210fedcba98");
    let jane = User::new("Jane Doe", "jane@example.com");
    let commit = Object::Commit {
        tree: tree_hash.clone(),
        parents: vec![parent.clone()],
        author: jane.clone(),
        author_timestamp: Timestamp::new(1234567890, 3600),
        committer: jane.clone(),
        committer_timestamp: Timestamp::new(1234567890, 3600),
        message: String::from("msg"),
    };
    let encoded = commit.encode();
    let nul = encoded.iter().position(|&b| b == 0).unwrap();
    let header = String::from_utf8(encoded[..nul].to_vec()).unwrap();
    let payload = String::from_utf8(encoded[nul + 1..].to_vec()).unwrap();
    let expected = format!(
        "tree {}\nparent {}\nauthor Jane Doe <jane@example.com> 1234567890 +0100\n\
         committer Jane Doe <jane@example.com> 1234567890 +0100\n\nmsg\n",
        tree_hash, parent
    );
    assert_eq!(payload, expected);
    assert_eq!(header, format!("commit {}", expected.len()));
}

#[test]
fn commit_without_parents_and_negative_offset() {
    let commit = Object::Commit {
        tree: String::from(SAMPLE_HASH),
        parents: Vec::new(),
        author: User::new("A", "a@b"),
        author_timestamp: Timestamp::new(-5, -3660),
        committer: User::new("A", "a@b"),
        committer_timestamp: Timestamp::new(0, 0),
        message: String::from("root"),
    };
    let encoded = commit.encode();
    let nul = encoded.iter().position(|&b| b == 0).unwrap();
    let payload = String::from_utf8(encoded[nul + 1..].to_vec()).unwrap();
    let expected = format!(
        "tree {}\nauthor A <a@b> -5 -0101\ncommitter A <a@b> 0 +0000\n\nroot\n",
        SAMPLE_HASH
    );
    assert_eq!(payload, expected);
}
