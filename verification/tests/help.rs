use parse_args::generate_spaces;
use parse_args::ArgParser;

#[test]
fn spaces_are_spaces() {
    assert_eq!(generate_spaces(0), "");
    assert_eq!(generate_spaces(3), "   ");
}

#[test]
fn usage_with_options_and_positionals() {
    let mut parser = ArgParser::new();
    parser.add_pos("pos1", "pos1", "A test positional.");
    parser.add_opt("opt1", "o", "opt1", 0, 0, "", "A test option.");
    assert_eq!(parser.get_usage("prog"), "Usage: prog [options] <pos1>");
}

#[test]
fn usage_without_options() {
    let mut parser = ArgParser::new();
    parser.add_pos("pos1", "input", "A test positional.");
    parser.add_pos("pos2", "output", "Another test positional.");
    assert_eq!(parser.get_usage("prog"), "Usage: prog <input> <output>");
}

#[test]
fn wrap_breaks_before_a_word_that_does_not_fit() {
    let mut out = String::new();
    let mut x: usize = 2;
    ArgParser::print_description(&mut out, &mut x, "hello world", 2, 12);
    assert_eq!(out, "hello \n  world");
    assert_eq!(x, 7);
}

#[test]
fn wrap_keeps_short_text_on_one_line() {
    let mut out = String::new();
    let mut x: usize = 0;
    ArgParser::print_description(&mut out, &mut x, "a b", 0, 80);
    assert_eq!(out, "a b");
    assert_eq!(x, 3);
}

#[test]
fn wrap_is_idempotent_at_zero_indent() {
    let mut once = String::new();
    let mut x: usize = 0;
    ArgParser::print_description(&mut once, &mut x, "hello world", 0, 8);
    assert_eq!(once, "hello \nworld");

    let mut twice = String::new();
    let mut x2: usize = 0;
    ArgParser::print_description(&mut twice, &mut x2, once.as_str(), 0, 8);
    assert_eq!(twice, once);
    assert_eq!(x2, x);
}

#[test]
fn rewrapping_indented_output_accumulates_indent() {
    // Rewrapping output that carries an indent re-emits the indent
    // spaces as word separators, so the indent grows; only at indent
    // zero does rewrapping reproduce the output.
    let mut once = String::new();
    let mut x: usize = 2;
    ArgParser::print_description(&mut once, &mut x, "hello world", 2, 12);
    assert_eq!(once, "hello \n  world");

    let mut twice = String::new();
    let mut x2: usize = 2;
    ArgParser::print_description(&mut twice, &mut x2, once.as_str(), 2, 12);
    assert_eq!(twice, "hello \n    world");
}

#[test]
fn wrap_never_exceeds_the_line_width() {
    let mut out = String::new();
    let mut x: usize = 2;
    ArgParser::print_description(
        &mut out,
        &mut x,
        "several words and one absurdlyoverlongword to split",
        2,
        10,
    );
    for line in out.split('\n') {
        assert!(line.chars().count() <= 10);
    }
}

#[test]
fn wrap_hard_splits_long_words() {
    let mut out = String::new();
    let mut x: usize = 2;
    ArgParser::print_description(&mut out, &mut x, "abcdefghijklmnopqrstuvwxy", 2, 10);
    for line in out.split('\n') {
        assert!(line.chars().count() <= 10);
    }
    let letters: String = out.chars().filter(|c| c.is_alphabetic()).collect();
    assert_eq!(letters, "abcdefghijklmnopqrstuvwxy");
}

#[test]
fn wrap_newline_forces_indented_break() {
    let mut out = String::new();
    let mut x: usize = 4;
    ArgParser::print_description(&mut out, &mut x, "ab\ncd", 4, 20);
    assert_eq!(out, "ab\n    cd");
    assert_eq!(x, 6);
}

#[test]
fn wrap_tab_advances_to_a_multiple_of_four() {
    let mut out = String::new();
    let mut x: usize = 0;
    ArgParser::print_description(&mut out, &mut x, "ab\tcd", 0, 20);
    assert_eq!(out, "ab  cd");
    assert_eq!(x, 6);
}

#[test]
fn wrap_drops_carriage_returns() {
    let mut out = String::new();
    let mut x: usize = 0;
    ArgParser::print_description(&mut out, &mut x, "ab\rcd", 0, 20);
    assert_eq!(out, "abcd");
    assert_eq!(x, 4);
}

#[test]
fn help_document_layout() {
    let mut parser = ArgParser::new();
    parser.add_pos("pos1", "pos1", "A test positional.");
    parser.add_opt("opt1", "o", "opt1", 0, 0, "", "A test option.");
    let help = parser.get_help("prog", 20, 80);
    let mut expected = String::from("\nUsage: prog [options] <pos1>\n\n\n");
    expected.push_str("Positionals:\n");
    expected.push_str("  <pos1>            A test positional.\n");
    expected.push_str("\nOptions:\n");
    expected.push_str("  -o,--opt1         A test option.\n");
    expected.push_str("\n");
    assert_eq!(help, expected);
}

#[test]
fn help_label_with_hint_and_no_shortname() {
    let mut parser = ArgParser::new();
    parser.add_opt("opt2", "", "opt2", 1, 1, "<value>", "Another test option.");
    let mut out = String::new();
    parser.print_opt_help(&mut out, "opt2", 20, 80);
    assert_eq!(out, "  --opt2 <value>    Another test option.\n");
}

#[test]
fn pos_help_line_pads_to_the_description_column() {
    let mut parser = ArgParser::new();
    parser.add_pos("pos1", "name", "A test positional.");
    let mut out = String::new();
    parser.print_pos_help(&mut out, "pos1", 20, 80);
    assert_eq!(out, "  <name>            A test positional.\n");
}

#[test]
fn long_label_falls_onto_its_own_line() {
    let mut parser = ArgParser::new();
    parser.add_pos("pos1", "averylongpositionalname", "Described.");
    let mut out = String::new();
    parser.print_pos_help(&mut out, "pos1", 20, 80);
    assert_eq!(out, "  <averylongpositionalname>\n                    Described.\n");
}
