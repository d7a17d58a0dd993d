use colorize::decode::{decode, decode_strict, DecodeError};

#[test]
fn decode_single_colors() {
    let (codes, newline) = decode("Fr");
    assert_eq!(codes, vec!["31".to_string()]);
    assert!(!newline);

    let (codes, newline) = decode("Bg");
    assert_eq!(codes, vec!["42".to_string()]);
    assert!(!newline);
}

#[test]
fn decode_preserves_scan_order() {
    let (codes, newline) = decode("biFr");
    assert_eq!(
        codes,
        vec!["1".to_string(), "3".to_string(), "31".to_string()]
    );
    assert!(!newline);
}

#[test]
fn decode_newline_any_position() {
    let (codes, newline) = decode("Nb");
    assert_eq!(codes, vec!["1".to_string()]);
    assert!(newline);

    let (codes, newline) = decode("bN");
    assert_eq!(codes, vec!["1".to_string()]);
    assert!(newline);
}

#[test]
fn decode_empty_tag() {
    let (codes, newline) = decode("");
    assert!(codes.is_empty());
    assert!(!newline);
}

#[test]
fn decode_one_code_per_directive() {
    let (codes, newline) = decode("FgbN");
    assert_eq!(codes, vec!["32".to_string(), "1".to_string()]);
    assert!(newline);

    let (codes, _) = decode("FkBwbiu");
    assert_eq!(codes.len(), 5);
}

#[test]
fn decode_appends_duplicates() {
    let (codes, newline) = decode("FrFg");
    assert_eq!(codes, vec!["31".to_string(), "32".to_string()]);
    assert!(!newline);
}

#[test]
fn decode_color_letter_wins_over_style() {
    let (codes, _) = decode("Fb");
    assert_eq!(codes, vec!["34".to_string()]);
}

#[test]
fn decode_skips_unrecognized() {
    assert_eq!(decode("x"), (vec![], false));
    assert_eq!(decode("F"), (vec![], false));
    assert_eq!(decode("Fx"), (vec![], false));
    assert_eq!(decode("FFr"), (vec!["31".to_string()], false));
    // the skipped selector does not consume what follows it
    assert_eq!(decode("Fi"), (vec!["3".to_string()], false));
}

#[test]
fn decode_all_color_letters() {
    let (codes, _) = decode("FkFrFgFyFbFmFcFw");
    let want: Vec<String> = ["30", "31", "32", "33", "34", "35", "36", "37"]
        .iter()
        .map(|s| s.to_string())
        .collect();
    assert_eq!(codes, want);

    let (codes, _) = decode("BkBrBgByBbBmBcBw");
    let want: Vec<String> = ["40", "41", "42", "43", "44", "45", "46", "47"]
        .iter()
        .map(|s| s.to_string())
        .collect();
    assert_eq!(codes, want);
}

#[test]
fn strict_accepts_valid_tags() {
    let res = decode_strict("FgbN").unwrap();
    assert_eq!(res.0, vec!["32".to_string(), "1".to_string()]);
    assert!(res.1);

    let res = decode_strict("").unwrap();
    assert!(res.0.is_empty());
    assert!(!res.1);
}

#[test]
fn strict_agrees_with_lenient_on_valid_tags() {
    for tag in ["", "Fr", "biFr", "BrFb", "FgbN", "Nb", "buiN"] {
        let strict = decode_strict(tag).unwrap();
        assert_eq!((strict.0, strict.1), decode(tag));
    }
}

#[test]
fn strict_invalid_color_selector() {
    assert_eq!(
        decode_strict("Fx"),
        Err(DecodeError::InvalidColorSelector { found: 'x', pos: 1 })
    );
    assert_eq!(
        decode_strict("bBq"),
        Err(DecodeError::InvalidColorSelector { found: 'q', pos: 2 })
    );
}

#[test]
fn strict_missing_color_selector() {
    assert_eq!(
        decode_strict("F"),
        Err(DecodeError::MissingColorSelector { pos: 0 })
    );
    assert_eq!(
        decode_strict("bB"),
        Err(DecodeError::MissingColorSelector { pos: 1 })
    );
}

#[test]
fn strict_invalid_format_character() {
    assert_eq!(
        decode_strict("z"),
        Err(DecodeError::InvalidFormatCharacter { found: 'z', pos: 0 })
    );
    assert_eq!(
        decode_strict("bzb"),
        Err(DecodeError::InvalidFormatCharacter { found: 'z', pos: 1 })
    );
}

#[test]
fn strict_reports_first_error() {
    assert_eq!(
        decode_strict("zFx"),
        Err(DecodeError::InvalidFormatCharacter { found: 'z', pos: 0 })
    );
}
