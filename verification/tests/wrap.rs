use deskctrl::wrap::{
    can_wrap, can_wrap_with, load_english, try_word_wrap, word_wrap, wrap_with, DictionaryError,
};

#[test]
fn short_texts_stay_on_one_line() {
    assert_eq!(word_wrap("hello", 36).unwrap(), "hello".to_string());
    assert_eq!(word_wrap("", 36).unwrap(), String::new());
}

#[test]
fn texts_are_broken_between_words() {
    assert_eq!(word_wrap("hello world", 5).unwrap(), "hello\nworld".to_string());
}

#[test]
fn words_are_divided_by_the_dictionary() {
    assert_eq!(
        word_wrap("Oxidation is the loss of electrons.", 8).unwrap(),
        "Oxida-\ntion is\nthe loss\nof elec-\ntrons.".to_string()
    );
}

#[test]
fn words_without_a_place_to_divide_are_broken() {
    assert_eq!(word_wrap("xxxxxxxxxx", 4).unwrap(), "xxxx\nxxxx\nxx".to_string());
}

#[test]
fn lines_of_a_text_stay_apart() {
    assert_eq!(word_wrap("a\nb", 36).unwrap(), "a\nb".to_string());
}

#[test]
fn an_error_of_the_dictionary_is_passed_on() {
    let error = DictionaryError {
        cause: hyphenation::load::Error::Resource,
    };
    assert!(matches!(
        wrap_with("hello world", 5, Err(error)),
        Err(DictionaryError {
            cause: hyphenation::load::Error::Resource
        })
    ));
    assert_eq!(
        wrap_with("hello world", 5, load_english()).unwrap(),
        "hello\nworld".to_string()
    );
}

#[test]
fn words_divided_within_a_letter_are_left_alone() {
    let text = "hyphen\u{212a}ation ".repeat(4);
    assert!(!can_wrap(&text, 36).unwrap());
    assert!(try_word_wrap(&text, 36).is_none());
    let dictionary = load_english().unwrap();
    assert!(!can_wrap_with(&text, 36, &dictionary));
    assert!(!can_wrap_with(&format!("first line\n{text}\nlast line"), 36, &dictionary));
    assert!(!can_wrap_with(&format!("first line\n{text}"), 36, &dictionary));
    assert!(can_wrap_with("first line\nhyphen\u{212a}ation\nlast line", 36, &dictionary));
}

#[test]
fn a_short_line_is_not_divided() {
    let text = "hyphen\u{212a}ation";
    assert_eq!(try_word_wrap(text, 36).unwrap().unwrap(), text);
}

#[test]
fn letters_that_change_their_size_are_wrapped_where_words_are_divided_elsewhere() {
    let ohm = "5 \u{2126} ".repeat(20);
    let wrapped = try_word_wrap(&ohm, 36).unwrap().unwrap();
    assert!(wrapped.lines().count() > 1);
    assert_eq!(wrapped.replace('\n', " "), ohm.trim_end());
    let kelvin = "\u{212a}".repeat(40);
    assert_eq!(
        try_word_wrap(&kelvin, 36).unwrap().unwrap(),
        format!("{}\n{}", "\u{212a}".repeat(36), "\u{212a}".repeat(4))
    );
}

#[test]
fn letters_that_keep_their_size_are_wrapped() {
    let text = "ÀÉÎÕÜ Straße ".repeat(5);
    assert!(can_wrap(&text, 36).unwrap());
    let wrapped = try_word_wrap(&text, 36).unwrap().unwrap();
    assert!(wrapped.lines().count() > 1);
    assert!(wrapped.lines().all(|line| line.chars().count() <= 36));
}

#[test]
fn the_dotted_capital_i_is_wrapped() {
    let dotted = "İstanbul ".repeat(10);
    assert!(can_wrap(&dotted, 36).unwrap());
    assert!(try_word_wrap(&dotted, 36).unwrap().is_ok());
}

#[test]
fn words_cut_at_their_end_are_left_alone_before_longer_letters() {
    let text = "ȺȺȺwalking éééééééééééé éééé";
    assert!(!can_wrap(text, 36).unwrap());
    assert!(try_word_wrap(text, 36).is_none());
    assert!(!can_wrap(&format!("first\n{text}\nlast"), 36).unwrap());
}

#[test]
fn a_last_word_may_be_cut_at_its_end() {
    for text in [
        "éééééééééééé éééé ȺȺȺwalking",
        "éééééééééééé éééé ȺȺȺwalking   ",
    ] {
        assert!(can_wrap(text, 36).unwrap());
        assert_eq!(
            try_word_wrap(text, 36).unwrap().unwrap(),
            "éééééééééééé éééé ȺȺȺwalking-"
        );
    }
}

#[test]
fn words_may_be_cut_at_their_end_before_short_letters() {
    let text = "ȺȺȺwalking is good for you every day of the week";
    assert!(can_wrap(text, 36).unwrap());
    assert!(try_word_wrap(text, 36).unwrap().is_ok());
}
