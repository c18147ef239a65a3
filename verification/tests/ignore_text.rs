use mygit::digits::{dec_i64, dec_u64_pad2};
use mygit::hex::{check_hex40, from_hex, to_hex};
use mygit::ignore::{parse_exclusion_lines, trim_trailing_slashes, Ignore};

#[test]
fn kept_lines_skip_comments_and_blanks() {
    let content = b"# a comment\n\nfoo\nbar/baz\n# other\nlast";
    let lines = parse_exclusion_lines(content);
    assert_eq!(lines, vec![b"foo".to_vec(), b"bar/baz".to_vec(), b"last".to_vec()]);
    assert_eq!(parse_exclusion_lines(b""), Vec::<Vec<u8>>::new());
    assert_eq!(parse_exclusion_lines(b"#only\n\n"), Vec::<Vec<u8>>::new());
}

#[test]
fn trailing_separators_are_stripped() {
    assert_eq!(trim_trailing_slashes(b"a/b///"), b"a/b".to_vec());
    assert_eq!(trim_trailing_slashes(b"a"), b"a".to_vec());
    assert_eq!(trim_trailing_slashes(b"///"), b"".to_vec());
    assert_eq!(trim_trailing_slashes(b""), b"".to_vec());
}

#[test]
fn exclusion_matches_exactly() {
    let ig = Ignore::new(Some("# comment\nsome_dir\n"));
    // The listed path is excluded, resolved against the working directory.
    assert!(ig.contains("some_dir"));
    // A path that merely shares the prefix is not.
    assert!(!ig.contains("some_dir_more"));
    assert!(!ig.contains("some"));
    // A trailing separator on the list line would have been stripped.
    let ig2 = Ignore::new(Some("some_dir/\n"));
    assert!(ig2.contains("some_dir"));
}

#[test]
fn metadata_directory_always_excluded() {
    let ig = Ignore::new(None);
    assert!(ig.contains(".git"));
    assert!(!ig.contains(".gitmodules"));
}

#[test]
fn hex_round_trips() {
    let bytes: Vec<u8> = vec![0x00, 0x01, 0x9f, 0xa0, 0xff];
    let text = to_hex(&bytes);
    assert_eq!(text, b"00019fa0ff".to_vec());
    assert_eq!(from_hex(&text), bytes);
    assert!(check_hex40(b"0123456789abcdef0123456789abcdef01234567"));
    assert!(!check_hex40(b"0123456789abcdef0123456789abcdef0123456"));
    assert!(!check_hex40(b"0123456789ABCDEF0123456789abcdef01234567"));
}

#[test]
fn decimal_rendering() {
    assert_eq!(dec_i64(0), b"0".to_vec());
    assert_eq!(dec_i64(1234567890), b"1234567890".to_vec());
    assert_eq!(dec_i64(-45), b"-45".to_vec());
    assert_eq!(dec_i64(i64::MIN), b"-9223372036854775808".to_vec());
    assert_eq!(dec_u64_pad2(7), b"07".to_vec());
    assert_eq!(dec_u64_pad2(42), b"42".to_vec());
    assert_eq!(dec_u64_pad2(123), b"123".to_vec());
}
