use beagle::obj_loader::number::is_number_literal;
use beagle::obj_loader::number::is_number_literal_at;
use beagle::obj_loader::text::characters;

fn decodes(text: &str) -> bool {
    text.parse::<f32>().is_ok()
}

#[test]
fn literals_that_write_a_coordinate() {
    let literals = [
        "0", "1", "-1", "+1", "007", "1.5", "-1.50e1", "+.25", "3.", ".5", "1e5", "1E5", "1e+5",
        "1e-5", "1.e5", ".5e-3", "0.000001", "123456789012345678901234567890", "1e400",
        "1e-400", "inf", "INF", "Inf", "+inf", "-inf", "infinity", "Infinity", "-INFINITY",
        "nan", "NaN", "+nan", "-NAN", "0e0", "-0", "-0.0", "4.5", "1.0", "0.25",
    ];
    for literal in literals {
        assert!(is_number_literal(literal), "{:?}", literal);
        assert!(decodes(literal), "{:?}", literal);
    }
}

#[test]
fn texts_that_write_no_coordinate() {
    let texts = [
        "", "+", "-", ".", "+.", "-.", "e", "e5", ".e5", "1e", "1e+", "1e-", "1e5.", "1e5.0",
        "1.5.2", "1..5", "++1", "--1", "+-1", "1+", "1-1", "1_000", "0x10", "1f32", "1.0f",
        " 1", "1 ", "1,5", "in", "infi", "infinit", "infinityy", "na", "nann", "n", "i",
        "inf1", "1inf", "+", "abc", "1/1/1", "v", "½", "１", "1e１", "١",
        "ınf", "İnf", "\u{212a}", "1ee5", "1e5e5", "1e+-5", "- 1", "+e5",
    ];
    for text in texts {
        assert!(!is_number_literal(text), "{:?}", text);
        assert!(!decodes(text), "{:?}", text);
    }
}

fn agrees_on_all_texts_over(alphabet: &[char], length: usize) {
    let mut text = String::new();
    let mut digits = vec![0usize; length];
    loop {
        text.clear();
        for d in &digits {
            text.push(alphabet[*d]);
        }
        assert_eq!(is_number_literal(&text), decodes(&text), "{:?}", text);
        let mut place = 0;
        loop {
            if place == length {
                return;
            }
            digits[place] += 1;
            if digits[place] < alphabet.len() {
                break;
            }
            digits[place] = 0;
            place += 1;
        }
    }
}

#[test]
fn agrees_with_the_standard_decoder_on_short_texts() {
    let alphabet = ['+', '-', '.', 'e', 'E', '0', '7', 'i', 'n', 'f', 'a', 'N', 'x', ' '];
    for length in 0..=5 {
        agrees_on_all_texts_over(&alphabet, length);
    }
}

#[test]
fn agrees_with_the_standard_decoder_on_numbers_with_exponents() {
    let alphabet = ['+', '-', '.', 'e', '1'];
    for length in 0..=8 {
        agrees_on_all_texts_over(&alphabet, length);
    }
}

#[test]
fn agrees_with_the_standard_decoder_on_words() {
    let alphabet = ['i', 'n', 'f', 't', 'y', 'a', 'I', '-'];
    for length in 0..=6 {
        agrees_on_all_texts_over(&alphabet, length);
    }
    for word in ["infinity", "INFINITY", "InFiNiTy", "infinitY", "infinite", "infinita"] {
        for prefix in ["", "+", "-", "++", " "] {
            let text = format!("{}{}", prefix, word);
            assert_eq!(is_number_literal(&text), decodes(&text), "{:?}", text);
        }
    }
}

#[test]
fn literal_in_a_stretch_of_a_line() {
    let chars = characters("v 1.5 -2e3 x");
    assert!(is_number_literal_at(&chars, 2, 5));
    assert!(is_number_literal_at(&chars, 6, 10));
    assert!(!is_number_literal_at(&chars, 11, 12));
    assert!(!is_number_literal_at(&chars, 2, 6));
    assert!(!is_number_literal_at(&chars, 0, 1));
    assert!(!is_number_literal_at(&chars, 3, 3));
}
