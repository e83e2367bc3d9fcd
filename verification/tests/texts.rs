use chemical_elements::text::{find, push_decimal, push_decimal_digits, read_number, to_chars};

#[test]
fn to_chars_gives_the_characters_in_order() {
    assert_eq!(to_chars(""), Vec::<char>::new());
    assert_eq!(to_chars("Fe[56]"), vec!['F', 'e', '[', '5', '6', ']']);
    assert_eq!(to_chars("a\u{e9}\u{1f600}b"), vec!['a', '\u{e9}', '\u{1f600}', 'b']);
}

#[test]
fn find_gives_the_first_position_or_the_length() {
    let chars = to_chars("C[13][14]");
    assert_eq!(find(&chars, '[', 0), 1);
    assert_eq!(find(&chars, '[', 1), 1);
    assert_eq!(find(&chars, '[', 2), 5);
    assert_eq!(find(&chars, '[', 6), 9);
    assert_eq!(find(&chars, ']', 0), 4);
    assert_eq!(find(&chars, 'x', 0), 9);
    assert_eq!(find(&chars, 'C', 9), 9);
    assert_eq!(find(&Vec::new(), 'C', 0), 0);
}

#[test]
fn read_number_reads_digits_up_to_the_limit() {
    let chars = to_chars("x0123y65535z65536");
    assert_eq!(read_number(&chars, 1, 5, 0xffff), Some(123));
    assert_eq!(read_number(&chars, 1, 1, 0xffff), Some(0));
    assert_eq!(read_number(&chars, 0, 5, 0xffff), None);
    assert_eq!(read_number(&chars, 1, 6, 0xffff), None);
    assert_eq!(read_number(&chars, 6, 11, 0xffff), Some(65535));
    assert_eq!(read_number(&chars, 12, 17, 0xffff), None);
    assert_eq!(read_number(&chars, 12, 17, 65536), Some(65536));
    assert_eq!(read_number(&chars, 2, 5, 122), None);
    assert_eq!(read_number(&chars, 2, 5, 0), None);
    let long = to_chars("00000000000000000000000000000000000000001");
    assert_eq!(read_number(&long, 0, long.len(), 1), Some(1));
    let huge = to_chars("1000000000000000000999");
    assert_eq!(read_number(&huge, 0, 19, 1_000_000_000_000_000_000), Some(1_000_000_000_000_000_000));
    assert_eq!(read_number(&huge, 0, huge.len(), 1_000_000_000_000_000_000), None);
}

#[test]
fn push_decimal_writes_as_the_standard_library_does() {
    for n in [0i32, 1, -1, 9, 10, -10, 99, 100, 1234567890, i32::MAX, i32::MIN, -2147483647] {
        let mut out = String::from("n=");
        push_decimal(&mut out, n);
        assert_eq!(out, format!("n={}", n));
    }
    for n in [0u64, 7, 10, 65535, 18446744073709551615] {
        let mut out = String::new();
        push_decimal_digits(&mut out, n);
        assert_eq!(out, format!("{}", n));
    }
}
