use std::path::PathBuf;
use std::str::FromStr;

use colorize::render::{color_str, colorize, colorize_all, Entry};

#[test]
fn test_print_color() {
    let entries = vec![
        Entry::Tagged(String::from("Fr"), format!("{:?}", "testing")),
        Entry::Tagged(String::from("Fbbi"), format!("{:?}", "testing1")),
        Entry::Tagged(String::from("b"), format!("{:?}", "testing2")),
        Entry::Tagged(String::from("x"), format!("{:?}", "testing3")),
        Entry::Bare(String::from("testing4")),
        Entry::Tagged(String::from("Fgbu"), format!("{:?}", "testing5")),
    ];
    println!("{}", colorize(&entries));
    println!("{}", colorize(&vec![Entry::Bare(String::from("hello"))]));
}

#[test]
fn test_colorize() {
    let entries = vec![
        Entry::Tagged(String::from("Fgb"), format!("{:?}", "hello again")),
        Entry::Tagged(String::from("N"), format!("{:?}", "hello")),
        Entry::Bare(String::from("and")),
        Entry::Tagged(String::from("BrFb"), format!("{:?}", "goodbye")),
        Entry::Tagged(String::from("b"), format!("{:?}", "again")),
    ];
    assert_eq!(
        String::from(
            "\x1b[32;1mhello again\x1b[0m \n\x1b[mhello\x1b[0m and \x1b[41;34mgoodbye\x1b[0m \x1b[1magain\x1b[0m"
        ),
        colorize(&entries)
    );
}

#[test]
fn test_colorize_all() {
    let entries = vec![
        Entry::Tagged(String::from("Fg"), format!("{:?}", "One")),
        Entry::Bare(format!("{:?}", "two")),
        Entry::Tagged(String::from("Fb"), format!("{:?}", "three")),
    ];
    assert_eq!(
        String::from("\x1b[1;32mOne\x1b[0m \x1b[1mtwo\x1b[0m \x1b[1;34mthree\x1b[0m"),
        colorize_all("b", &entries)
    );
}

#[test]
fn test_debug() {
    let path = PathBuf::from_str("some").unwrap();
    let entries = vec![
        Entry::Tagged(String::from("b"), format!("{:?}", "Moving")),
        Entry::Tagged(String::from("Fgb"), format!("{:?}", path)),
        Entry::Tagged(String::from("b"), format!("{:?}", "to")),
    ];
    let col = colorize(&entries);
    println!("{}", col);
}

#[test]
fn empty_tag_still_wraps() {
    assert_eq!(color_str("x", ""), "\x1b[mx\x1b[0m");
}

#[test]
fn bare_entry_stays_plain() {
    assert_eq!(
        colorize(&vec![Entry::Bare(String::from("plain"))]),
        "plain"
    );
}

#[test]
fn tagged_and_bare_round_trip() {
    let entries = vec![
        Entry::Tagged(String::from("Fgb"), String::from("Hello")),
        Entry::Bare(String::from("world")),
    ];
    assert_eq!(colorize(&entries), "\x1b[32;1mHello\x1b[0m world");
}

#[test]
fn quote_stripping() {
    assert_eq!(color_str("\"hello\"", "b"), "\x1b[1mhello\x1b[0m");
}

#[test]
fn newline_leads_the_fragment() {
    assert_eq!(color_str("x", "Nb"), "\n\x1b[1mx\x1b[0m");
    assert_eq!(color_str("x", "bN"), "\n\x1b[1mx\x1b[0m");
}

#[test]
fn join_adds_one_space_per_gap() {
    let entries = vec![
        Entry::Tagged(String::from("b"), String::from("a b")),
        Entry::Bare(String::from("c d")),
        Entry::Bare(String::from("e")),
    ];
    let out = colorize(&entries);
    let spaces = out.chars().filter(|c| *c == ' ').count();
    // two separators at the top level, plus the two inside the fragments
    assert_eq!(spaces, 4);
}

#[test]
fn no_entries_yield_empty_output() {
    assert_eq!(colorize(&vec![]), "");
    assert_eq!(colorize_all("b", &vec![]), "");
}

#[test]
fn group_tag_composes_before_decoding() {
    let entries = vec![Entry::Tagged(String::from("Fr"), String::from("x"))];
    // group-then-local ordering: "b" ++ "Fr" decodes to 1 then 31
    assert_eq!(colorize_all("b", &entries), "\x1b[1;31mx\x1b[0m");
}
