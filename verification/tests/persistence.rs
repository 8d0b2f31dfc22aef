use viz_csv::persist::{decode_persisted, encode_persisted, PersistedState};

fn pair(path: Option<&str>, column: Option<&str>) -> PersistedState {
    PersistedState {
        opened_file: path.map(|s| s.to_string()),
        selected_column: column.map(|s| s.to_string()),
    }
}

fn assert_pair(p: &PersistedState, path: Option<&str>, column: Option<&str>) {
    assert_eq!(p.opened_file.as_deref(), path);
    assert_eq!(p.selected_column.as_deref(), column);
}

#[test]
fn round_trip_both_fields() {
    let p = pair(Some("/data/x.txt"), Some("column_2"));
    let back = decode_persisted(&encode_persisted(&p));
    assert_pair(&back, Some("/data/x.txt"), Some("column_2"));
}

#[test]
fn round_trip_empty_fields() {
    let back = decode_persisted(&encode_persisted(&pair(None, None)));
    assert_pair(&back, None, None);

    let back = decode_persisted(&encode_persisted(&pair(Some(""), None)));
    assert_pair(&back, Some(""), None);

    let back = decode_persisted(&encode_persisted(&pair(None, Some("c"))));
    assert_pair(&back, None, Some("c"));
}

#[test]
fn round_trip_hostile_characters() {
    let p = pair(Some("a;n1\ns9;"), Some("x n;"));
    let back = decode_persisted(&encode_persisted(&p));
    assert_pair(&back, Some("a;n1\ns9;"), Some("x n;"));
}

#[test]
fn encoded_form_is_exact() {
    assert_eq!(encode_persisted(&pair(Some("ab"), None)), "s2;abn");
    assert_eq!(encode_persisted(&pair(None, None)), "nn");
    assert_eq!(encode_persisted(&pair(Some(""), Some("xyz"))), "s0;s3;xyz");
}

#[test]
fn decode_of_empty_blob_defaults() {
    assert_pair(&decode_persisted(""), None, None);
}

#[test]
fn decode_of_garbage_defaults() {
    assert_pair(&decode_persisted("zzz"), None, None);
    assert_pair(&decode_persisted("s;abc"), None, None);
    assert_pair(&decode_persisted("s2"), None, None);
}

#[test]
fn decode_of_truncated_payload_defaults() {
    assert_pair(&decode_persisted("s5;ab"), None, None);
}

#[test]
fn blob_missing_newer_field_decodes_with_default() {
    // blobs as an older version that persisted only the opened file wrote them
    assert_pair(&decode_persisted("n"), None, None);
    assert_pair(&decode_persisted("s3;abc"), Some("abc"), None);
}

#[test]
fn decode_with_malformed_second_field_keeps_first() {
    assert_pair(&decode_persisted("s3;abcq"), Some("abc"), None);
    assert_pair(&decode_persisted("ns4;xy"), None, None);
}
