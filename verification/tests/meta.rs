use std::iter::repeat;
use twinstar::Meta;

#[test]
fn new_rejects_newlines() {
    let meta = "foo\nbar";
    let meta = Meta::new(meta);

    assert!(meta.is_err());
}

#[test]
fn new_accepts_max_len() {
    let meta: String = repeat('x').take(Meta::MAX_LEN).collect();
    let meta = Meta::new(&meta);

    assert!(meta.is_ok());
}

#[test]
fn new_rejects_exceeding_max_len() {
    let meta: String = repeat('x').take(Meta::MAX_LEN + 1).collect();
    let meta = Meta::new(&meta);

    assert!(meta.is_err());
}

#[test]
fn new_lossy_truncates() {
    let meta = "foo\r\nbar\nquux";
    let meta = Meta::new_lossy(meta);

    assert_eq!(meta.as_str(), "foo\r");
}

#[test]
fn new_lossy_no_truncate() {
    let meta = "foo bar\r";
    let meta = Meta::new_lossy(meta);

    assert_eq!(meta.as_str(), "foo bar\r");
}

#[test]
fn new_lossy_empty() {
    let meta = "";
    let meta = Meta::new_lossy(meta);

    assert_eq!(meta.as_str(), "");
}

#[test]
fn new_lossy_truncates_to_empty() {
    let meta = "\n\n\n";
    let meta = Meta::new_lossy(meta);

    assert_eq!(meta.as_str(), "");
}

#[test]
fn new_lossy_truncates_to_max_len() {
    let meta: String = repeat('x').take(Meta::MAX_LEN + 1).collect();
    let meta = Meta::new_lossy(&meta);

    assert_eq!(meta.as_str().len(), Meta::MAX_LEN);
}

#[test]
fn new_lossy_truncates_multi_byte_sequences() {
    let mut meta: String = repeat('x').take(Meta::MAX_LEN - 1).collect();
    meta.push('🦀');

    assert_eq!(meta.len(), Meta::MAX_LEN + 3);

    let meta = Meta::new_lossy(&meta);

    assert_eq!(meta.as_str().len(), Meta::MAX_LEN - 1);
}

#[test]
fn to_mime_accepts_mime_metas() {
    let meta = Meta::new_lossy("text/gemini");
    assert!(meta.to_mime().is_ok());

    let meta = Meta::new_lossy("not a mime type at all");
    assert!(meta.to_mime().is_err());
}
