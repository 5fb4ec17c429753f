use scripture::args::parse_chapter;
use scripture::{Args, ArgsError, Flags, Text};

fn no_flags() -> Flags {
    Flags { debug: false, action: None, book: None, chapter: None, src: None }
}

fn text(s: &str) -> Option<String> {
    Some(String::from(s))
}

#[test]
fn no_flags_give_the_defaults() {
    let args = Args::new(&no_flags()).unwrap();
    assert_eq!(args.debug, false);
    assert_eq!(args.action, "read");
    assert_eq!(args.book, "Genesis");
    assert_eq!(args.chapter, 1);
    assert_eq!(args.src, Text::Lxx);
}

#[test]
fn chapter_book_and_corpus_are_taken_from_the_flags() {
    let flags = Flags { chapter: text("5"), book: text("Exodus"), src: text("mt"), ..no_flags() };
    let args = Args::new(&flags).unwrap();
    assert_eq!(args.chapter, 5);
    assert_eq!(args.book, "Exodus");
    assert_eq!(args.src, Text::MT);
    assert_eq!(args.action, "read");
    assert_eq!(args.debug, false);
}

#[test]
fn every_flag_is_taken_over() {
    let flags = Flags {
        debug: true,
        action: text("list"),
        book: text("Ruth"),
        chapter: text("-3"),
        src: text("lxx"),
    };
    let args = Args::new(&flags).unwrap();
    assert_eq!(args.debug, true);
    assert_eq!(args.action, "list");
    assert_eq!(args.book, "Ruth");
    assert_eq!(args.chapter, -3);
    assert_eq!(args.src, Text::Lxx);
}

#[test]
fn book_and_action_are_not_checked() {
    let flags = Flags { action: text(""), book: text("No Such Book"), chapter: text("4000"), ..no_flags() };
    let args = Args::new(&flags).unwrap();
    assert_eq!(args.action, "");
    assert_eq!(args.book, "No Such Book");
    assert_eq!(args.chapter, 4000);
}

#[test]
fn an_unknown_corpus_token_falls_back_without_an_error() {
    for token in ["foo", "", "LXX", "MT"] {
        let flags = Flags { src: text(token), ..no_flags() };
        let args = Args::new(&flags).unwrap();
        assert_eq!(args.src, Text::Lxx, "token {:?}", token);
    }
}

#[test]
fn a_chapter_that_is_no_integer_is_refused() {
    for token in ["five", "", " 5", "5 ", "5x", "1.5", "1_000", "+", "-", "+-5", "--5", "0x10", "٣"] {
        let flags = Flags { chapter: text(token), ..no_flags() };
        match Args::new(&flags) {
            Err(e) => assert_eq!(e, ArgsError::Chapter, "token {:?}", token),
            Ok(args) => panic!("token {:?} gave chapter {}", token, args.chapter),
        }
    }
}

#[test]
fn a_chapter_too_large_to_hold_is_refused() {
    for token in ["2147483648", "-2147483649", "99999999999", "-99999999999", "340282366920938463463374607431768211456"] {
        let flags = Flags { chapter: text(token), ..no_flags() };
        assert!(matches!(Args::new(&flags), Err(ArgsError::Chapter)), "token {:?}", token);
    }
}

#[test]
fn a_refused_chapter_is_refused_whatever_else_is_given() {
    let flags = Flags {
        debug: true,
        action: text("read"),
        book: text("Exodus"),
        chapter: text("x"),
        src: text("mt"),
    };
    assert!(matches!(Args::new(&flags), Err(ArgsError::Chapter)));
}

#[test]
fn chapters_are_read_in_decimal() {
    assert_eq!(parse_chapter("0"), Some(0));
    assert_eq!(parse_chapter("1"), Some(1));
    assert_eq!(parse_chapter("5"), Some(5));
    assert_eq!(parse_chapter("150"), Some(150));
    assert_eq!(parse_chapter("+7"), Some(7));
    assert_eq!(parse_chapter("-7"), Some(-7));
    assert_eq!(parse_chapter("007"), Some(7));
    assert_eq!(parse_chapter("-0"), Some(0));
    assert_eq!(parse_chapter("0000000000000000000012"), Some(12));
    assert_eq!(parse_chapter("2147483647"), Some(i32::MAX));
    assert_eq!(parse_chapter("+2147483647"), Some(i32::MAX));
    assert_eq!(parse_chapter("-2147483648"), Some(i32::MIN));
    assert_eq!(parse_chapter("-2147483647"), Some(-2147483647));
}

#[test]
fn chapters_are_read_as_the_standard_library_reads_integers() {
    let tokens = [
        "", "0", "9", "10", "42", "-42", "+42", "++42", "+-42", "-+42", "4 2", " 42", "42 ", "42\n",
        "4a", "a4", "/", ":", "0/", "0:", "१२", "2147483647", "2147483648", "-2147483648", "-2147483649",
        "4294967296", "-4294967296", "00000000002147483647", "-00000000002147483648", "+", "-", "1e3",
        "1,000", "１２",
    ];
    for token in tokens {
        let expected: Option<i32> = token.parse::<i32>().ok();
        assert_eq!(parse_chapter(token), expected, "token {:?}", token);
    }
    let mut n: i64 = -2200;
    while n <= 2200 {
        let token = format!("{}", n);
        assert_eq!(parse_chapter(&token), token.parse::<i32>().ok(), "token {:?}", token);
        n += 1;
    }
}
