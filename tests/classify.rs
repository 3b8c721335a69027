use sysinfo_report::classify::{classify, extension, get_file_type, type_label, unknown};

#[test]
fn last_suffix_of_dotted_name() {
    assert_eq!(get_file_type(b"a.b.txt"), "txt");
    assert_eq!(get_file_type(b"archive.tar.gz"), "gz");
}

#[test]
fn name_without_dot_is_unknown() {
    assert_eq!(get_file_type(b"noext"), "unknown");
    assert_eq!(get_file_type(b""), "unknown");
}

#[test]
fn hidden_name_is_unknown() {
    assert_eq!(get_file_type(b".bashrc"), "unknown");
    assert_eq!(get_file_type(b"."), "unknown");
    assert_eq!(get_file_type(b".."), "unknown");
}

#[test]
fn hidden_name_with_suffix() {
    assert_eq!(get_file_type(b".config.toml"), "toml");
}

#[test]
fn trailing_dot_gives_empty_label() {
    assert_eq!(get_file_type(b"notes."), "");
}

#[test]
fn undecodable_suffix_is_unknown() {
    assert_eq!(get_file_type(b"x.\xff\xfe"), "unknown");
    assert_eq!(get_file_type(b"x.a\xc0\xafb"), "unknown");
}

#[test]
fn multibyte_suffix_is_decoded() {
    assert_eq!(get_file_type("photo.jpé".as_bytes()), "jpé");
}

#[test]
fn extension_bytes() {
    assert_eq!(extension(b"a.b.txt"), Some(b"txt".to_vec()));
    assert_eq!(extension(b"noext"), None);
    assert_eq!(extension(b".bashrc"), None);
    assert_eq!(extension(b"a."), Some(Vec::new()));
}

#[test]
fn label_of_decoded_suffix() {
    assert_eq!(type_label(Some("rs".to_string())), "rs");
    assert_eq!(type_label(None), "unknown");
    assert_eq!(unknown(), "unknown");
}

#[test]
fn classify_keeps_metadata() {
    let f = classify("/tmp/x/a.b.txt".to_string(), b"a.b.txt", Some((42, 1000))).unwrap();
    assert_eq!(f.path, "/tmp/x/a.b.txt");
    assert_eq!(f.size, 42);
    assert_eq!(f.owner, 1000);
    assert_eq!(f.file_type, "txt");
}

#[test]
fn classify_drops_unreadable_entry() {
    assert!(classify("/tmp/gone".to_string(), b"gone", None).is_none());
}
