use polish::diagnostics::excerpt;
use polish::program::{command, Command};
use polish::span::Span;

#[test]
fn exit_with_whitespace_around_it() {
    assert!(matches!(command(":exit"), Command::Exit));
    assert!(matches!(command("  :exit \t\n"), Command::Exit));
    assert!(matches!(command(":exit now"), Command::Evaluate));
    assert!(matches!(command(": exit"), Command::Evaluate));
}

#[test]
fn load_takes_the_rest_of_the_line() {
    assert!(matches!(command(":load lib.txt"), Command::Load(name) if name == "lib.txt"));
    assert!(matches!(command(":load  a b "), Command::Load(name) if name == " a b "));
    assert!(matches!(command(":load "), Command::Load(name) if name.is_empty()));
    assert!(matches!(command(":load"), Command::Evaluate));
    assert!(matches!(command(" :load x"), Command::Evaluate));
}

#[test]
fn anything_else_is_evaluated() {
    assert!(matches!(command(""), Command::Evaluate));
    assert!(matches!(command("   "), Command::Evaluate));
    assert!(matches!(command("+ 1 2"), Command::Evaluate));
}

#[test]
fn excerpt_of_the_first_line() {
    let found = excerpt("+ 1 oops", Span(4, 8)).unwrap();
    assert_eq!(found.line_index, 0);
    assert_eq!(found.line, "+ 1 oops");
    assert_eq!(found.column, 4);
    assert_eq!(found.width, 4);
}

#[test]
fn excerpt_of_a_later_line() {
    let src = "\\a -> 1\r\n\\b x -> y\n\\c -> 3";
    let found = excerpt(src, Span(18, 19)).unwrap();
    assert_eq!(found.line_index, 1);
    assert_eq!(found.line, "\\b x -> y");
    assert_eq!(found.column, 9);
    assert_eq!(found.width, 1);
    let found = excerpt(src, Span(1, 2)).unwrap();
    assert_eq!(found.line_index, 0);
    assert_eq!(found.line, "\\a -> 1");
    assert_eq!(found.column, 1);
}

#[test]
fn excerpt_counts_columns_in_characters() {
    let found = excerpt("é λ x", Span(6, 7)).unwrap();
    assert_eq!(found.column, 4);
    assert_eq!(found.line, "é λ x");
}

#[test]
fn excerpt_at_the_end_of_the_text() {
    let found = excerpt("a\nbc", Span(4, 4)).unwrap();
    assert_eq!(found.line_index, 1);
    assert_eq!(found.line, "bc");
    assert_eq!(found.column, 2);
    assert_eq!(found.width, 0);
}

#[test]
fn no_excerpt_outside_the_text_or_inside_a_character() {
    assert!(excerpt("abc", Span(4, 5)).is_none());
    assert!(excerpt("é", Span(1, 2)).is_none());
    assert!(excerpt("abc", Span(2, 1)).is_none());
}
