use for_each_value::session::{resolve_command, RunError};
use for_each_value::substitute::replace_all_bytes;

#[test]
fn replaces_every_occurrence() {
    assert_eq!(replace_all_bytes(b"{}-{}-{}", b"{}", b"x"), b"x-x-x".to_vec());
}

#[test]
fn token_without_placeholder_is_unchanged() {
    assert_eq!(replace_all_bytes(b"echo", b"{}", b"x"), b"echo".to_vec());
    assert_eq!(replace_all_bytes(b"", b"{}", b"x"), b"".to_vec());
}

#[test]
fn occurrences_do_not_overlap() {
    assert_eq!(replace_all_bytes(b"aaa", b"aa", b"b"), b"ba".to_vec());
}

#[test]
fn inserted_value_is_not_searched_again() {
    assert_eq!(replace_all_bytes(b"<{}>", b"{}", b"{}{}"), b"<{}{}>".to_vec());
}

#[test]
fn value_may_be_longer_or_empty() {
    assert_eq!(replace_all_bytes(b"a%b", b"%", b"long value"), b"along valueb".to_vec());
    assert_eq!(replace_all_bytes(b"a%b%", b"%", b""), b"ab".to_vec());
}

#[test]
fn every_token_is_substituted() {
    let cmd = resolve_command(&["cp", "{}", "{}.bak", "-v"], "{}", "f.txt".as_bytes()).unwrap();
    assert_eq!(
        cmd,
        vec![b"cp".to_vec(), b"f.txt".to_vec(), b"f.txt.bak".to_vec(), b"-v".to_vec()]
    );
}

#[test]
fn non_ascii_text_is_substituted() {
    let cmd = resolve_command(&["é{}é"], "{}", "ü".as_bytes()).unwrap();
    assert_eq!(cmd, vec!["éüé".as_bytes().to_vec()]);
}

#[test]
fn invalid_text_is_refused() {
    assert_eq!(
        resolve_command(&["echo", "{}"], "{}", &[0xff, 0x41]),
        Err(RunError::InvalidEncoding)
    );
}

#[test]
fn empty_template_is_refused() {
    assert_eq!(resolve_command(&[], "{}", b"x"), Err(RunError::NoCommand));
}
