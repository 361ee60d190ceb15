use sectools::extract::{extract_strings, write_strings};

#[test]
fn extract_finds_printable_runs() {
    let data: Vec<u8> = b"\x00\x01Hello\x00Hi\x02World!\x03".to_vec();
    assert_eq!(
        extract_strings(&data, 4),
        vec!["Hello".to_string(), "World!".to_string()]
    );
    assert_eq!(
        extract_strings(&data, 2),
        vec!["Hello".to_string(), "Hi".to_string(), "World!".to_string()]
    );
}

#[test]
fn extract_keeps_trailing_run() {
    let data: Vec<u8> = b"ABCD".to_vec();
    assert_eq!(extract_strings(&data, 4), vec!["ABCD".to_string()]);
    assert_eq!(extract_strings(&data, 5), Vec::<String>::new());
}

#[test]
fn extract_respects_printable_boundaries() {
    // 0x1f and 0x7f are outside the printable range; 0x20 and 0x7e are inside.
    let data: Vec<u8> = vec![0x1f, 0x20, 0x41, 0x7e, 0x7f, 0x42];
    assert_eq!(extract_strings(&data, 1), vec![" A~".to_string(), "B".to_string()]);
}

#[test]
fn extract_empty_input_yields_nothing() {
    let data: Vec<u8> = Vec::new();
    assert!(extract_strings(&data, 4).is_empty());
}

#[test]
fn extract_write_strings_joins_with_newlines() {
    let strings = vec!["a".to_string(), "b".to_string()];
    assert_eq!(write_strings(&strings), "a\nb\n");
    let empty: Vec<String> = Vec::new();
    assert_eq!(write_strings(&empty), "");
}
