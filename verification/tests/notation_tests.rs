use chess_engine::board::Vector;

#[test]
fn to_notation_of_the_corners() {
    assert_eq!(Vector(0, 0).to_notation().unwrap(), "a1");
    assert_eq!(Vector(7, 7).to_notation().unwrap(), "h8");
    assert_eq!(Vector(5, 7).to_notation().unwrap(), "f8");
    assert_eq!(Vector(4, 1).to_notation().unwrap(), "e2");
}

#[test]
fn to_notation_with_ranks_of_several_digits() {
    assert_eq!(Vector(25, 9).to_notation().unwrap(), "z10");
    assert_eq!(Vector(0, 122).to_notation().unwrap(), "a123");
    assert_eq!(Vector(3, i32::MAX).to_notation().unwrap(), "d2147483648");
}

#[test]
fn to_notation_with_ranks_below_the_board() {
    assert_eq!(Vector(0, -1).to_notation().unwrap(), "a0");
    assert_eq!(Vector(1, -5).to_notation().unwrap(), "b-4");
}

#[test]
fn to_notation_fails_beyond_z() {
    assert_eq!(
        Vector(26, 0).to_notation(),
        Err("cannot convert file coordinate to standard notation")
    );
    assert!(Vector(1000, 3).to_notation().is_err());
    assert!(Vector(25, 3).to_notation().is_ok());
}

#[test]
fn to_notation_fails_for_a_negative_file() {
    assert!(Vector(-1, 0).to_notation().is_err());
}

#[test]
fn from_notation_reads_squares() {
    assert_eq!(Vector::from_notation("a1"), Some(Vector(0, 0)));
    assert_eq!(Vector::from_notation("e2"), Some(Vector(4, 1)));
    assert_eq!(Vector::from_notation("h8"), Some(Vector(7, 7)));
    assert_eq!(Vector::from_notation("z10"), Some(Vector(25, 9)));
    assert_eq!(Vector::from_notation("d2147483648"), Some(Vector(3, i32::MAX)));
}

#[test]
fn from_notation_refuses_what_is_no_notation() {
    assert_eq!(Vector::from_notation(""), None);
    assert_eq!(Vector::from_notation("a"), None);
    assert_eq!(Vector::from_notation("a0"), None);
    assert_eq!(Vector::from_notation("a01"), None);
    assert_eq!(Vector::from_notation("A1"), None);
    assert_eq!(Vector::from_notation("11"), None);
    assert_eq!(Vector::from_notation("a1x"), None);
    assert_eq!(Vector::from_notation("a-1"), None);
    assert_eq!(Vector::from_notation("d2147483649"), None);
    assert_eq!(Vector::from_notation("d99999999999"), None);
    assert_eq!(Vector::from_notation("é1"), None);
}

#[test]
fn notation_round_trip_over_a_board() {
    for file in 0..26 {
        for rank in 0..40 {
            let v = Vector(file, rank);
            let text = v.to_notation().unwrap();
            assert_eq!(Vector::from_notation(&text), Some(v));
            assert_eq!(Vector::from_notation(&text).unwrap().to_notation().unwrap(), text);
        }
    }
}
