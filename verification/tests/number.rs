use nginx_logs::number::is_number_text;

#[test]
fn short_texts_are_numbers_as_the_standard_library_reads_them() {
    let letters = ['+', '-', '.', 'e', 'E', '0', '9', ' ', ',', 'n'];
    let mut texts = vec![String::new()];
    let mut start = 0;
    for _ in 0..5 {
        let end = texts.len();
        for i in start..end {
            for letter in letters {
                texts.push(format!("{}{}", texts[i], letter));
            }
        }
        start = end;
    }
    assert_eq!(texts.len(), 111_111);
    for text in texts {
        assert_eq!(is_number_text(&text), text.parse::<f64>().is_ok(), "{:?}", text);
    }
}

#[test]
fn words_that_are_numbers() {
    let words = [
        "inf", "INF", "+Inf", "-infinity", "InFiNiTy", "nan", "+NAN", "-NaN", "infinit", "in", "na",
        "nann", "++inf", "+-1", "inf1", "1inf", "infe1", "\u{131}nf", "nan ", "",
    ];
    for word in words {
        assert_eq!(is_number_text(word), word.parse::<f64>().is_ok(), "{:?}", word);
    }
}

#[test]
fn long_numbers_are_numbers() {
    let digits = "1234567890".repeat(50);
    for text in [
        digits.clone(),
        format!("-{}.{}", digits, digits),
        format!("{}e{}", digits, digits),
        format!(".{}E-{}", digits, digits),
        format!("{}.e+{}", digits, digits),
    ] {
        assert!(is_number_text(&text));
        assert!(text.parse::<f64>().is_ok());
    }
    assert!(!is_number_text(&format!("{},{}", digits, digits)));
}
