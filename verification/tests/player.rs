use qwasm2::player::extract_info_value;

#[test]
fn extract_info_value_works() {
    assert_eq!(
        extract_info_value("\\name\\Player1\\skin\\male/grunt", "name"),
        Some("Player1".to_string())
    );
    assert_eq!(
        extract_info_value("\\name\\Player1\\skin\\male/grunt", "skin"),
        Some("male/grunt".to_string())
    );
    assert_eq!(extract_info_value("\\name\\Player1", "missing"), None);
}

#[test]
fn info_value_only_keys_match() {
    // "Player1" is a value, not a key.
    assert_eq!(extract_info_value("\\name\\Player1\\skin\\male", "Player1"), None);
}

#[test]
fn info_value_first_pair_wins() {
    assert_eq!(
        extract_info_value("\\name\\first\\name\\second", "name"),
        Some("first".to_string())
    );
}

#[test]
fn info_value_unpaired_key_is_ignored() {
    assert_eq!(extract_info_value("\\name\\Player1\\skin", "skin"), None);
}

#[test]
fn info_value_empty_pieces_are_skipped() {
    assert_eq!(
        extract_info_value("\\\\name\\\\\\Player1\\", "name"),
        Some("Player1".to_string())
    );
    assert_eq!(extract_info_value("", "name"), None);
}
