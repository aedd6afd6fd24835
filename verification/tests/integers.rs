use expr_eval::integer::{Integer, Order};

fn whole(digits: &str) -> Integer {
    match digits.strip_prefix('-') {
        Some(rest) => Integer::from_digits(rest).unwrap().negate(),
        None => Integer::from_digits(digits).unwrap(),
    }
}

#[test]
fn integers_from_machine_numbers() {
    assert_eq!(Integer::zero().to_text(), "0");
    assert_eq!(Integer::from_i64(0).to_text(), "0");
    assert_eq!(Integer::from_i64(7).to_text(), "7");
    assert_eq!(Integer::from_i64(-7).to_text(), "-7");
    assert_eq!(Integer::from_i64(1_000_000_000).to_text(), "1000000000");
    assert_eq!(Integer::from_i64(i64::MAX).to_text(), "9223372036854775807");
    assert_eq!(Integer::from_i64(i64::MIN).to_text(), "-9223372036854775808");
    assert_eq!(Integer::from_usize(0).to_text(), "0");
    assert_eq!(Integer::from_usize(usize::MAX).to_text(), usize::MAX.to_string());
}

#[test]
fn integers_from_digits() {
    assert_eq!(whole("0"), Integer::zero());
    assert_eq!(whole("000123"), Integer::from_i64(123));
    assert_eq!(whole("-0"), Integer::zero());
    assert_eq!(whole("9223372036854775807"), Integer::from_i64(i64::MAX));
    assert_eq!(whole("-9223372036854775808"), Integer::from_i64(i64::MIN));
    assert_eq!(Integer::from_digits(""), Some(Integer::zero()));
    assert_eq!(Integer::from_digits("42"), Some(Integer::from_i64(42)));
    assert_eq!(Integer::from_digits("a42"), None);
    assert_eq!(Integer::from_digits("4 2"), None);
    assert_eq!(Integer::from_digits("-42"), None);
    assert_eq!(Integer::from_digits("42."), None);
    assert_eq!(Integer::from_digits("٤٢"), None);
    let long = "123456789012345678901234567890123456789012345678901234567890";
    assert_eq!(whole(long).to_text(), long);
    assert_eq!(whole("-1000000000000000000000000000").to_text(), "-1000000000000000000000000000");
    assert_eq!(whole("1000000001000000000").to_text(), "1000000001000000000");
}

#[test]
fn integers_as_indices() {
    assert_eq!(Integer::zero().to_usize(), Some(0));
    assert_eq!(Integer::from_i64(42).to_usize(), Some(42));
    assert_eq!(Integer::from_i64(-1).to_usize(), None);
    assert_eq!(Integer::from_usize(usize::MAX).to_usize(), Some(usize::MAX));
    assert_eq!(Integer::from_usize(usize::MAX).plus(&Integer::from_i64(1)).to_usize(), None);
    assert_eq!(whole("1000000000000000000000000000").to_usize(), None);
    assert_eq!(whole("1000000000000000000000000000000000000").to_usize(), None);
    assert_eq!(Integer::from_i64(1_000_000_000).to_usize(), Some(1_000_000_000));
}

#[test]
fn integers_as_machine_numbers() {
    assert_eq!(Integer::zero().to_i64(), Some(0));
    assert_eq!(Integer::from_i64(-42).to_i64(), Some(-42));
    assert_eq!(Integer::from_i64(i64::MAX).to_i64(), Some(i64::MAX));
    assert_eq!(Integer::from_i64(i64::MIN).to_i64(), Some(i64::MIN));
    assert_eq!(whole("9223372036854775808").to_i64(), None);
    assert_eq!(whole("-9223372036854775809").to_i64(), None);
    assert_eq!(whole("-9223372036854775808").to_i64(), Some(i64::MIN));
    assert_eq!(whole("1000000000000000000000000000").to_i64(), None);
    assert_eq!(whole("-1000000000000000000000000000000000000").to_i64(), None);
    assert_eq!(whole("1000000000").to_i64(), Some(1_000_000_000));
    assert_eq!(whole("-1000000000000000000").to_i64(), Some(-1_000_000_000_000_000_000));
}

#[test]
fn no_quotient_by_zero() {
    assert_eq!(whole("5").divided_by(&Integer::zero()), None);
    assert_eq!(Integer::zero().divided_by(&Integer::zero()), None);
    assert_eq!(
        whole("-5").divided_by(&whole("5").minus(&whole("5"))),
        None
    );
}

#[test]
fn integers_tell_their_sign() {
    assert!(Integer::zero().is_zero());
    assert!(!Integer::zero().is_negative());
    assert!(!Integer::from_i64(3).is_zero());
    assert!(!Integer::from_i64(3).is_negative());
    assert!(Integer::from_i64(-3).is_negative());
    assert!(Integer::from_i64(3).minus(&Integer::from_i64(3)).is_zero());
    assert!(!Integer::from_i64(-3).plus(&Integer::from_i64(3)).is_negative());
    assert!(!Integer::zero().negate().is_negative());
}

#[test]
fn integers_are_ordered() {
    assert_eq!(Integer::from_i64(1).compare(&Integer::from_i64(2)), Order::Less);
    assert_eq!(Integer::from_i64(2).compare(&Integer::from_i64(1)), Order::Greater);
    assert_eq!(Integer::from_i64(2).compare(&Integer::from_i64(2)), Order::Equal);
    assert_eq!(Integer::from_i64(-1).compare(&Integer::from_i64(1)), Order::Less);
    assert_eq!(Integer::from_i64(1).compare(&Integer::from_i64(-1)), Order::Greater);
    assert_eq!(Integer::from_i64(-1).compare(&Integer::from_i64(-2)), Order::Greater);
    assert_eq!(Integer::from_i64(-2).compare(&Integer::from_i64(-1)), Order::Less);
    assert_eq!(Integer::zero().compare(&Integer::from_i64(-1)), Order::Greater);
    assert_eq!(Integer::zero().compare(&Integer::zero().negate()), Order::Equal);
    assert_eq!(whole("100000000000000000000").compare(&whole("99999999999999999999")), Order::Greater);
    assert_eq!(whole("-100000000000000000000").compare(&whole("99999999999999999999")), Order::Less);
    assert!(whole("100000000000000000000").same(&whole("100000000000000000000")));
    assert!(!whole("100000000000000000000").same(&whole("-100000000000000000000")));
    assert!(whole("5") == whole("5"));
    assert!(whole("5") != whole("6"));
}

#[test]
fn integers_are_copied() {
    let n = whole("-123456789012345678901234567890");
    assert_eq!(n.duplicate(), n);
    assert_eq!(n.clone(), n);
    assert_eq!(n.negate().negate(), n);
}

#[test]
fn carries_and_borrows_cross_limbs() {
    assert_eq!(whole("999999999").plus(&whole("1")), whole("1000000000"));
    assert_eq!(
        whole("999999999999999999").plus(&whole("1")),
        whole("1000000000000000000")
    );
    assert_eq!(
        whole("500000000500000000").plus(&whole("500000000500000000")),
        whole("1000000001000000000")
    );
    assert_eq!(whole("1000000000").minus(&whole("1")), whole("999999999"));
    assert_eq!(
        whole("1000000000000000000").minus(&whole("1")),
        whole("999999999999999999")
    );
    assert_eq!(
        whole("3000000007000000005").minus(&whole("5000000004")),
        whole("3000000002000000001")
    );
    assert_eq!(whole("999999999").times(&whole("999999999")), whole("999999998000000001"));
    assert_eq!(
        whole("1000000001").times(&whole("1000000001")),
        whole("1000000002000000001")
    );
    assert_eq!(
        whole("1000000000000000000").times(&whole("1000000000")),
        whole("1000000000000000000000000000")
    );
    assert_eq!(whole("4294967295").times(&whole("999999999")), whole("4294967290705032705"));
}

#[test]
fn integers_are_added_and_subtracted() {
    assert_eq!(whole("5").plus(&whole("7")), whole("12"));
    assert_eq!(whole("5").plus(&whole("-7")), whole("-2"));
    assert_eq!(whole("-5").plus(&whole("7")), whole("2"));
    assert_eq!(whole("-5").plus(&whole("-7")), whole("-12"));
    assert_eq!(whole("5").plus(&whole("-5")), Integer::zero());
    assert_eq!(whole("5").minus(&whole("7")), whole("-2"));
    assert_eq!(whole("5").minus(&whole("-7")), whole("12"));
    assert_eq!(whole("-5").minus(&whole("-7")), whole("2"));
    assert_eq!(
        whole("999999999999999999999999999").plus(&whole("1")),
        whole("1000000000000000000000000000")
    );
    assert_eq!(
        whole("1000000000000000000000000000").minus(&whole("1")),
        whole("999999999999999999999999999")
    );
    assert_eq!(
        whole("1").minus(&whole("1000000000000000000000000000")),
        whole("-999999999999999999999999999")
    );
}

#[test]
fn integers_are_multiplied() {
    assert_eq!(whole("6").times(&whole("7")), whole("42"));
    assert_eq!(whole("-6").times(&whole("7")), whole("-42"));
    assert_eq!(whole("6").times(&whole("-7")), whole("-42"));
    assert_eq!(whole("-6").times(&whole("-7")), whole("42"));
    assert_eq!(whole("0").times(&whole("-7")), Integer::zero());
    assert!(!whole("0").times(&whole("-7")).is_negative());
    assert_eq!(
        whole("123456789012345678901234567890").times(&whole("987654321098765432109876543210")),
        whole("121932631137021795226185032733622923332237463801111263526900")
    );
}

#[test]
fn integers_are_divided_toward_zero() {
    let pairs = [
        ("7", "2", "3", "1"),
        ("-7", "2", "-3", "-1"),
        ("7", "-2", "-3", "1"),
        ("-7", "-2", "3", "-1"),
        ("6", "3", "2", "0"),
        ("0", "3", "0", "0"),
        ("2", "3", "0", "2"),
        ("-2", "3", "0", "-2"),
        (
            "121932631137021795226185032733622923332237463801111263526999",
            "987654321098765432109876543210",
            "123456789012345678901234567890",
            "99",
        ),
        (
            "-1000000000000000000000000000000",
            "1000000000",
            "-1000000000000000000000",
            "0",
        ),
        ("1000000000000000000", "999999999", "1000000001", "1"),
    ];
    for (a, b, q, r) in pairs {
        let (quotient, remainder) = whole(a).divided_by(&whole(b)).unwrap();
        assert_eq!(quotient, whole(q));
        assert_eq!(remainder, whole(r));
        assert_eq!(whole(b).times(&quotient).plus(&remainder), whole(a));
    }
}
