use gcode::text::push_decimal;
use gcode::word::to_upper_case;

#[test]
fn upper_case_is_that_of_ascii_for_every_character() {
    for code in 0..=0x10FFFFu32 {
        if let Some(c) = char::from_u32(code) {
            assert_eq!(to_upper_case(c), c.to_ascii_uppercase());
        }
    }
    assert_eq!(to_upper_case('a'), 'A');
    assert_eq!(to_upper_case('z'), 'Z');
    assert_eq!(to_upper_case('`'), '`');
    assert_eq!(to_upper_case('{'), '{');
    assert_eq!(to_upper_case('ß'), 'ß');
}

#[test]
fn numbers_are_written_in_decimal() {
    for n in [0u32, 1, 9, 10, 11, 99, 100, 101, 1_000, 65_535, 999_999_999, 1_000_000_000, 4_294_967_295] {
        let mut out = String::from("N");
        push_decimal(&mut out, n);
        assert_eq!(out, format!("N{}", n));
    }
    let mut n: u32 = 0;
    loop {
        let mut out = String::new();
        push_decimal(&mut out, n);
        assert_eq!(out, n.to_string());
        match n.checked_add(1_299_709) {
            Some(next) => n = next,
            None => break,
        }
    }
}
