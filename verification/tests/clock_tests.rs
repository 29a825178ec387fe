use neil_blueprint::clock::minutes_between;

#[test]
fn whole_minutes_between_instants() {
    assert_eq!(minutes_between((120, 0), (0, 0)), 2);
    assert_eq!(minutes_between((179, 999_999_999), (60, 0)), 1);
    assert_eq!(minutes_between((60, 0), (0, 1)), 0);
    // earlier than `then`: rounded toward zero
    assert_eq!(minutes_between((0, 0), (61, 0)), -1);
    assert_eq!(minutes_between((0, 0), (59, 0)), 0);
    assert_eq!(minutes_between((i64::MAX, 0), (i64::MIN, 0)), 307_445_734_561_825_860);
}
