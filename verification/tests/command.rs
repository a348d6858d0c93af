use gcode::{Float, Gcode, Mnemonic, Span, Word, MAX_ARGS};

fn float(x: f32) -> Float {
    Float::from_bits(x.to_bits())
}

fn number(x: Float) -> f32 {
    f32::from_bits(x.to_bits())
}

fn text(g: &Gcode) -> String {
    let values: Vec<String> = g.args().iter().map(|w| format!("{}", number(w.value))).collect();
    g.render(&format!("{}", number(g.number())), &values)
}

fn word(letter: char, value: f32) -> Word {
    Word::new(letter, float(value), Span::default())
}

#[test]
fn get_gcode_repr() {
    let thing = Gcode::new(Mnemonic::General, float(1.2), Span::default())
        .with_line_number(10, Span::default())
        .with_argument(Word::new('X', float(500.0), Span::default()))
        .with_argument(Word::new('Y', float(-1.23), Span::default()));
    let should_be = "N10 G1.2 X500 Y-1.23";

    let got = text(&thing);
    assert_eq!(got, should_be);
}

#[test]
fn a_rebuilt_command_equals_the_first_and_reads_the_same() {
    let build = || {
        Gcode::new(Mnemonic::General, float(1.2), Span::new(0, 20, 0))
            .with_line_number(10, Span::default())
            .with_argument(Word::new('X', float(500.0), Span::new(9, 13, 0)))
            .with_argument(Word::new('Y', float(-1.23), Span::new(14, 20, 0)))
    };
    let original = build();
    let again = build();
    assert!(original == again);
    assert_eq!(text(&original), text(&again));
    assert_eq!(original.span(), Span::new(0, 20, 0));
}

#[test]
fn a_new_command_is_bare() {
    let g = Gcode::new(Mnemonic::MachineRoutine, float(3.0), Span::new(4, 6, 2));
    assert_eq!(g.mnemonic(), Mnemonic::MachineRoutine);
    assert_eq!(number(g.number()), 3.0);
    assert_eq!(g.line_number(), None);
    assert!(g.args().is_empty());
    assert_eq!(g.span(), Span::new(4, 6, 2));
    assert_eq!(text(&g), "M3");
}

#[test]
fn the_default_command_is_g_zero() {
    let g = Gcode::default();
    assert_eq!(g.mnemonic(), Mnemonic::General);
    assert_eq!(g.number().to_bits(), 0);
    assert_eq!(g.line_number(), None);
    assert!(g.args().is_empty());
    assert_eq!(g.span(), Span::new(0, 0, 0));
    assert_eq!(text(&g), "G0");
}

#[test]
fn the_same_letter_in_two_cases_is_one_argument() {
    let g = Gcode::new(Mnemonic::General, float(0.0), Span::default())
        .with_argument(word('x', 1.0))
        .with_argument(word('Y', 7.0))
        .with_argument(word('X', 2.0));
    assert_eq!(g.args().len(), 2);
    assert_eq!(g.args()[0].letter, 'X');
    assert_eq!(number(g.args()[0].value), 2.0);
    assert_eq!(g.args()[1].letter, 'Y');
    assert_eq!(number(g.args()[1].value), 7.0);
    assert_eq!(text(&g), "G0 X2 Y7");
}

#[test]
fn letters_are_stored_in_upper_case() {
    let g = Gcode::new(Mnemonic::General, float(0.0), Span::default())
        .with_argument(word('f', 1.5))
        .with_argument(word('é', 2.0))
        .with_argument(word('3', 4.0));
    let letters: Vec<char> = g.args().iter().map(|w| w.letter).collect();
    assert_eq!(letters, vec!['F', 'é', '3']);
}

#[test]
fn add_argument_changes_the_command_in_place() {
    let mut g = Gcode::new(Mnemonic::General, float(1.0), Span::new(0, 2, 0));
    g.add_argument(Word::new('x', float(3.5), Span::new(3, 7, 0)));
    assert_eq!(g.args().len(), 1);
    assert_eq!(g.args()[0], Word::new('X', float(3.5), Span::new(3, 7, 0)));
    assert_eq!(g.span(), Span::new(0, 7, 0));
    g.add_argument(Word::new('X', float(4.5), Span::new(8, 12, 1)));
    assert_eq!(g.args().len(), 1);
    assert_eq!(g.args()[0], Word::new('X', float(4.5), Span::new(8, 12, 1)));
    assert_eq!(g.span(), Span::new(0, 12, 0));
}

#[test]
fn a_ninth_letter_is_dropped_without_a_word() {
    let mut g = Gcode::new(Mnemonic::General, float(0.0), Span::new(0, 1, 5));
    for (i, letter) in "ABCDEFGH".chars().enumerate() {
        g.add_argument(Word::new(letter, float(i as f32), Span::new(2 + i, 3 + i, 5)));
    }
    assert_eq!(g.span(), Span::new(0, 10, 5));
    assert_eq!(g.args().len(), MAX_ARGS);
    let before: Vec<Word> = g.args().to_vec();
    g.add_argument(Word::new('I', float(9.0), Span::new(40, 50, 3)));
    assert_eq!(g.args().len(), MAX_ARGS);
    assert_eq!(g.args().to_vec(), before);
    assert_eq!(g.value_for('I'), None);
    // the span of the dropped word is merged all the same
    assert_eq!(g.span(), Span::new(0, 50, 3));
    // a letter that is there is still overwritten
    g.add_argument(word('h', 70.0));
    assert_eq!(g.args().len(), MAX_ARGS);
    assert_eq!(g.value_for('H').map(number), Some(70.0));
    assert_eq!(g.args()[7].letter, 'H');
}

#[test]
fn value_for_looks_in_either_case() {
    let g = Gcode::new(Mnemonic::General, float(0.0), Span::default())
        .with_argument(word('X', 500.0))
        .with_argument(word('y', -1.23));
    assert_eq!(g.value_for('x').map(number), Some(500.0));
    assert_eq!(g.value_for('X').map(number), Some(500.0));
    assert_eq!(g.value_for('Y').map(number), Some(-1.23));
    assert_eq!(g.value_for('y').map(number), Some(-1.23));
    assert_eq!(g.value_for('Z'), None);
}

#[test]
fn a_second_line_number_replaces_the_first() {
    let g = Gcode::new(Mnemonic::General, float(4.0), Span::new(10, 12, 1))
        .with_line_number(20, Span::new(6, 9, 1))
        .with_line_number(4_294_967_295, Span::new(0, 3, 0));
    assert_eq!(g.line_number(), Some(4_294_967_295));
    assert_eq!(g.span(), Span::new(0, 12, 0));
    assert_eq!(text(&g), "N4294967295 G4");
    let h = Gcode::new(Mnemonic::ToolChange, float(6.0), Span::default())
        .with_line_number(0, Span::default());
    assert_eq!(text(&h), "N0 T6");
}

#[test]
fn each_mnemonic_has_its_letter() {
    assert_eq!(Mnemonic::ProgramNumber.letter(), 'O');
    assert_eq!(Mnemonic::ToolChange.letter(), 'T');
    assert_eq!(Mnemonic::MachineRoutine.letter(), 'M');
    assert_eq!(Mnemonic::General.letter(), 'G');
    assert_eq!(Mnemonic::default(), Mnemonic::General);
    let g = Gcode::new(Mnemonic::ProgramNumber, float(555.0), Span::default());
    assert_eq!(text(&g), "O555");
}

#[test]
fn a_word_reads_as_letter_and_value() {
    let w = Word::new('X', float(-12.3), Span::new(0, 6, 0));
    assert_eq!(w.render("-12.3"), "X-12.3");
    assert_eq!(w.render(""), "X");
    assert_eq!(Word::default(), Word::new('\0', float(0.0), Span::new(0, 0, 0)));
}

#[test]
fn arguments_are_written_in_the_order_they_came() {
    let g = Gcode::new(Mnemonic::General, float(1.0), Span::default())
        .with_argument(word('Z', 3.0))
        .with_argument(word('A', 1.0))
        .with_argument(word('M', 2.0))
        .with_argument(word('a', 9.0));
    assert_eq!(text(&g), "G1 Z3 A9 M2");
}

#[test]
fn equality_is_field_by_field() {
    let base = || {
        Gcode::new(Mnemonic::General, float(1.0), Span::new(0, 5, 0))
            .with_argument(word('X', 1.0))
            .with_argument(word('Y', 2.0))
    };
    assert!(base() == base());
    let other_order = Gcode::new(Mnemonic::General, float(1.0), Span::new(0, 5, 0))
        .with_argument(word('Y', 2.0))
        .with_argument(word('X', 1.0));
    assert!(base() != other_order);
    assert!(base() != base().with_line_number(1, Span::default()));
    assert!(base().with_line_number(1, Span::default()) != base().with_line_number(2, Span::default()));
    assert!(base() != base().with_argument(word('Z', 0.0)));
    assert!(base() != base().with_argument(word('X', 1.5)));
    assert!(base() != Gcode::new(Mnemonic::MachineRoutine, float(1.0), Span::new(0, 5, 0))
        .with_argument(word('X', 1.0))
        .with_argument(word('Y', 2.0)));
    assert!(base() != Gcode::new(Mnemonic::General, float(1.5), Span::new(0, 5, 0))
        .with_argument(word('X', 1.0))
        .with_argument(word('Y', 2.0)));
    assert!(base() != Gcode::new(Mnemonic::General, float(1.0), Span::new(0, 6, 0))
        .with_argument(word('X', 1.0))
        .with_argument(word('Y', 2.0)));
}

#[test]
fn numbers_are_compared_as_numbers() {
    assert!(float(0.0) == float(-0.0));
    assert!(float(f32::NAN) != float(f32::NAN));
    assert!(float(1.0) != float(-1.0));
    assert!(float(f32::INFINITY) == float(f32::INFINITY));
    let mut bits: u32 = 0;
    loop {
        let a = f32::from_bits(bits);
        for other in [bits, bits ^ 0x8000_0000, bits.wrapping_add(1), 0, 0x8000_0000, 0x7fc0_0000] {
            let b = f32::from_bits(other);
            assert_eq!(Float::from_bits(bits) == Float::from_bits(other), a == b);
        }
        match bits.checked_add(7_368_787) {
            Some(next) => bits = next,
            None => break,
        }
    }
    let nan = Gcode::new(Mnemonic::General, float(f32::NAN), Span::default());
    assert!(nan != nan.clone());
    let zero = Gcode::new(Mnemonic::General, float(0.0), Span::default());
    let minus_zero = Gcode::new(Mnemonic::General, float(-0.0), Span::default());
    assert!(zero == minus_zero);
}

#[test]
fn builders_leave_the_original_as_it_was() {
    let original = Gcode::new(Mnemonic::General, float(1.2), Span::new(0, 4, 0))
        .with_line_number(10, Span::default())
        .with_argument(Word::new('X', float(500.0), Span::new(5, 9, 0)));
    let copy = original.clone();
    assert!(copy == original);
    assert_eq!(copy.args().to_vec(), original.args().to_vec());
    let changed = copy
        .with_argument(Word::new('X', float(1.0), Span::new(20, 30, 0)))
        .with_argument(Word::new('Y', float(2.0), Span::new(20, 30, 0)))
        .with_line_number(99, Span::new(40, 41, 0));
    assert!(changed != original);
    assert_eq!(text(&original), "N10 G1.2 X500");
    assert_eq!(original.span(), Span::new(0, 9, 0));
    assert_eq!(original.line_number(), Some(10));
    assert_eq!(text(&changed), "N99 G1.2 X1 Y2");
}
