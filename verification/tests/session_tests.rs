use celeste_map::data_assert_key_value;
use celeste_map::SessionData;

#[test]
fn key_value_line_splits_at_first_separator() {
    assert_eq!(data_assert_key_value("Area: 7", "Area"), Some("7"));
    assert_eq!(
        data_assert_key_value("MapBin: 1-ForsakenCity", "MapBin"),
        Some("1-ForsakenCity")
    );
}

#[test]
fn key_value_line_keeps_later_separators_in_value() {
    assert_eq!(data_assert_key_value("K: a: b", "K"), Some("a: b"));
}

#[test]
fn key_value_line_allows_empty_value() {
    assert_eq!(data_assert_key_value("Level: ", "Level"), Some(""));
}

#[test]
fn key_mismatch_yields_none() {
    assert_eq!(data_assert_key_value("Side: A", "Area"), None);
}

#[test]
fn missing_separator_yields_none() {
    assert_eq!(data_assert_key_value("no separator here", "no"), None);
    assert_eq!(data_assert_key_value("colon:but-no-space", "colon"), None);
    assert_eq!(data_assert_key_value("", "Area"), None);
}

#[test]
fn default_session_is_placeholder() {
    let s = SessionData::default();
    assert_eq!(s.area, "");
    assert_eq!(s.side, "'?'");
    assert_eq!(s.level, "");
    assert_eq!(s.map_bin, "");
    assert_eq!((s.x, s.y), (0, 0));
    assert_eq!(s.tp, "''");
}
