use scripture::{Controller, Input};

fn read(line: &str) -> (bool, String) {
    Controller::new().read(Input::Line(String::from(line)))
}

#[test]
fn a_new_controller_has_an_empty_buffer() {
    assert_eq!(Controller::new().line, "");
}

#[test]
fn exit_ends_the_session() {
    assert_eq!(read("exit\n"), (false, String::new()));
}

#[test]
fn quit_ends_the_session() {
    assert_eq!(read("quit\n"), (false, String::new()));
}

#[test]
fn another_line_goes_on_with_its_content() {
    let mut controller = Controller::new();
    let (goes_on, content) = controller.read(Input::Line(String::from("hello\n")));
    assert!(goes_on);
    assert_eq!(content, "hello");
    assert_eq!(controller.line, "hello\n");
}

#[test]
fn the_words_are_matched_after_trimming() {
    for line in ["exit", "exit\r\n", "  exit  \n", "\t\texit", "\u{a0}quit\u{3000}", " quit", "quit \t\r\n"] {
        assert_eq!(read(line), (false, String::new()), "line {:?}", line);
    }
}

#[test]
fn the_words_are_matched_in_lower_case_only() {
    for word in ["EXIT", "Exit", "QUIT", "Quit", "eXit", "quiT"] {
        assert_eq!(read(&format!("{}\n", word)), (true, String::from(word)));
    }
}

#[test]
fn a_line_that_holds_a_word_among_others_goes_on() {
    assert_eq!(read("exit now\n"), (true, String::from("exit now")));
    assert_eq!(read("please quit\n"), (true, String::from("please quit")));
    assert_eq!(read("exitquit\n"), (true, String::from("exitquit")));
    assert_eq!(read("ex it\n"), (true, String::from("ex it")));
    assert_eq!(read("exi\n"), (true, String::from("exi")));
    assert_eq!(read("exit.\n"), (true, String::from("exit.")));
}

#[test]
fn white_space_inside_a_line_stays() {
    assert_eq!(read("  in the  beginning \t\n"), (true, String::from("in the  beginning")));
    assert_eq!(read("\ta\tb\t"), (true, String::from("a\tb")));
}

#[test]
fn an_empty_line_goes_on_with_nothing() {
    assert_eq!(read("\n"), (true, String::new()));
    assert_eq!(read(""), (true, String::new()));
    assert_eq!(read(" \t \r\n"), (true, String::new()));
}

#[test]
fn a_closed_stream_ends_the_session() {
    let mut controller = Controller::new();
    assert_eq!(controller.read(Input::Closed), (false, String::new()));
    assert_eq!(controller.line, "");
}

#[test]
fn the_buffer_holds_the_line_as_it_was_read() {
    let mut controller = Controller::new();
    controller.read(Input::Line(String::from("  In the beginning \r\n")));
    assert_eq!(controller.line, "  In the beginning \r\n");
    controller.read(Input::Line(String::from(" exit\n")));
    assert_eq!(controller.line, " exit\n");
    controller.read(Input::Line(String::new()));
    assert_eq!(controller.line, "");
}

#[test]
fn the_buffer_is_reset_by_each_read() {
    let mut controller = Controller::new();
    assert_eq!(controller.read(Input::Line(String::from("first\n"))), (true, String::from("first")));
    assert_eq!(controller.line, "first\n");
    assert_eq!(controller.read(Input::Line(String::from("2\n"))), (true, String::from("2")));
    assert_eq!(controller.line, "2\n");
    assert_eq!(controller.read(Input::Closed), (false, String::new()));
    assert_eq!(controller.line, "");
}

#[test]
fn a_line_is_read_the_same_whatever_came_before() {
    let mut fresh = Controller::new();
    let mut used = Controller::new();
    used.read(Input::Line(String::from("exit\n")));
    used.read(Input::Line(String::from("something else\n")));
    for line in ["hello\n", "quit\n", "\n", " exit "] {
        let expected = fresh.read(Input::Line(String::from(line)));
        assert_eq!(used.read(Input::Line(String::from(line))), expected);
        assert_eq!(used.line, fresh.line);
    }
}

#[test]
fn lines_in_any_script_are_trimmed_by_characters() {
    assert_eq!(read(" Ἐν ἀρχῇ\n"), (true, String::from("Ἐν ἀρχῇ")));
    assert_eq!(read("\u{2003}בראשית\u{2028}"), (true, String::from("בראשית")));
}

#[test]
fn every_character_is_trimmed_as_the_standard_library_trims_it() {
    let mut controller = Controller::new();
    let mut code: u32 = 0;
    while code <= 0x10FFFF {
        if let Some(c) = char::from_u32(code) {
            let line = format!("{}x{}", c, c);
            let (goes_on, content) = controller.read(Input::Line(line.clone()));
            assert!(goes_on);
            assert_eq!(content, line.trim(), "character {:?}", c);
            let alone = format!("{}", c);
            let (_, content) = controller.read(Input::Line(alone));
            assert_eq!(content.is_empty(), c.is_whitespace(), "character {:?}", c);
        }
        code += 1;
    }
}
