//! The tag decoder: a single left-to-right scan over a style tag.
//!
//! Each scan step consumes one character, or two when `F` or `B` is followed
//! by a recognized color letter. The lenient [`decode`] skips anything it does
//! not recognize; the strict [`decode_strict`] reports the first offending
//! character instead.

use vstd::prelude::*;
use vstd::string::*;

verus! {

/// The color letters accepted after an `F` or `B` selector.
pub open spec fn is_color_char(c: char) -> bool {
    c == 'k' || c == 'r' || c == 'g' || c == 'y' || c == 'b' || c == 'm' || c == 'c' || c == 'w'
}

/// The final digit of the SGR code a color letter stands for:
/// black 0, red 1, green 2, yellow 3, blue 4, magenta 5, cyan 6, white 7.
pub open spec fn color_digit(c: char) -> char {
    if c == 'k' {
        '0'
    } else if c == 'r' {
        '1'
    } else if c == 'g' {
        '2'
    } else if c == 'y' {
        '3'
    } else if c == 'b' {
        '4'
    } else if c == 'm' {
        '5'
    } else if c == 'c' {
        '6'
    } else {
        '7'
    }
}

/// The two-digit SGR code for a color directive: `3x` under the foreground
/// selector `F`, `4x` under the background selector `B`.
pub open spec fn color_code_seq(selector: char, c: char) -> Seq<char> {
    seq![if selector == 'F' { '3' } else { '4' }, color_digit(c)]
}

/// The SGR codes the scan appends from position `pos` on, in encounter order.
/// Duplicate directives append duplicate codes; `N` and unrecognized
/// characters append nothing.
pub open spec fn decode_codes_at(tag: Seq<char>, pos: int) -> Seq<Seq<char>>
    decreases tag.len() - pos,
{
    if pos >= tag.len() {
        Seq::empty()
    } else if (tag[pos] == 'F' || tag[pos] == 'B') && pos + 1 < tag.len() && is_color_char(
        tag[pos + 1],
    ) {
        seq![color_code_seq(tag[pos], tag[pos + 1])] + decode_codes_at(tag, pos + 2)
    } else if tag[pos] == 'b' {
        seq![seq!['1']] + decode_codes_at(tag, pos + 1)
    } else if tag[pos] == 'i' {
        seq![seq!['3']] + decode_codes_at(tag, pos + 1)
    } else if tag[pos] == 'u' {
        seq![seq!['4']] + decode_codes_at(tag, pos + 1)
    } else {
        decode_codes_at(tag, pos + 1)
    }
}

/// The ordered list of SGR codes a whole tag decodes to.
pub open spec fn decode_codes(tag: Seq<char>) -> Seq<Seq<char>> {
    decode_codes_at(tag, 0)
}

/// Whether the scan from position `pos` on sees the newline marker `N`.
/// `N` is not a color letter, so no `N` is ever consumed as the second
/// character of a color directive.
pub open spec fn has_newline_at(tag: Seq<char>, pos: int) -> bool
    decreases tag.len() - pos,
{
    if pos >= tag.len() {
        false
    } else {
        tag[pos] == 'N' || has_newline_at(tag, pos + 1)
    }
}

/// Whether a tag asks for a leading newline.
pub open spec fn has_newline(tag: Seq<char>) -> bool {
    has_newline_at(tag, 0)
}

/// The number of code-appending directives the scan meets from `pos` on:
/// each matched `F`/`B` color pair counts once, each of `b`, `i`, `u` counts
/// once, and `N` and unrecognized characters count zero.
pub open spec fn directive_count_at(tag: Seq<char>, pos: int) -> nat
    decreases tag.len() - pos,
{
    if pos >= tag.len() {
        0
    } else if (tag[pos] == 'F' || tag[pos] == 'B') && pos + 1 < tag.len() && is_color_char(
        tag[pos + 1],
    ) {
        1 + directive_count_at(tag, pos + 2)
    } else if tag[pos] == 'b' || tag[pos] == 'i' || tag[pos] == 'u' {
        1 + directive_count_at(tag, pos + 1)
    } else {
        directive_count_at(tag, pos + 1)
    }
}

/// The number of code-appending directives in a whole tag.
pub open spec fn directive_count(tag: Seq<char>) -> nat {
    directive_count_at(tag, 0)
}

/// Why strict decoding rejected a tag. Positions are character indices into
/// the tag: an invalid selector letter is reported at its own index, a
/// trailing `F` or `B` with nothing after it at the selector's index, and an
/// unrecognized directive character at its own index.
#[derive(Debug, Clone, Copy, PartialEq, Eq, Structural)]
pub enum DecodeError {
    /// An `F` or `B` was followed by something other than a color letter.
    InvalidColorSelector { found: char, pos: usize },
    /// An `F` or `B` was the last character of the tag.
    MissingColorSelector { pos: usize },
    /// A character that is no directive at all.
    InvalidFormatCharacter { found: char, pos: usize },
}

/// What strict decoding makes of the scan from position `pos` on: the codes
/// and newline flag of the rest of the tag, or the first error met.
pub open spec fn strict_decode_at(tag: Seq<char>, pos: int) -> Result<
    (Seq<Seq<char>>, bool),
    DecodeError,
>
    decreases tag.len() - pos,
{
    if pos >= tag.len() {
        Ok((Seq::empty(), false))
    } else if tag[pos] == 'F' || tag[pos] == 'B' {
        if pos + 1 >= tag.len() {
            Err(DecodeError::MissingColorSelector { pos: pos as usize })
        } else if is_color_char(tag[pos + 1]) {
            match strict_decode_at(tag, pos + 2) {
                Ok((codes, newline)) => Ok(
                    (seq![color_code_seq(tag[pos], tag[pos + 1])] + codes, newline),
                ),
                Err(e) => Err(e),
            }
        } else {
            Err(
                DecodeError::InvalidColorSelector {
                    found: tag[pos + 1],
                    pos: (pos + 1) as usize,
                },
            )
        }
    } else if tag[pos] == 'b' || tag[pos] == 'i' || tag[pos] == 'u' {
        let code = if tag[pos] == 'b' {
            seq!['1']
        } else if tag[pos] == 'i' {
            seq!['3']
        } else {
            seq!['4']
        };
        match strict_decode_at(tag, pos + 1) {
            Ok((codes, newline)) => Ok((seq![code] + codes, newline)),
            Err(e) => Err(e),
        }
    } else if tag[pos] == 'N' {
        match strict_decode_at(tag, pos + 1) {
            Ok((codes, _)) => Ok((codes, true)),
            Err(e) => Err(e),
        }
    } else {
        Err(DecodeError::InvalidFormatCharacter { found: tag[pos], pos: pos as usize })
    }
}

/// What strict decoding makes of a whole tag.
pub open spec fn strict_decode(tag: Seq<char>) -> Result<(Seq<Seq<char>>, bool), DecodeError> {
    strict_decode_at(tag, 0)
}

/// Builds the two-character SGR code string for a color directive.
fn color_code(selector: char, c: char) -> (r: Option<String>)
    requires
        selector == 'F' || selector == 'B',
    ensures
        r is Some <==> is_color_char(c),
        r matches Some(s) ==> s@ == color_code_seq(selector, c),
{
    let code: &str = if selector == 'F' {
        match c {
            'k' => "30",
            'r' => "31",
            'g' => "32",
            'y' => "33",
            'b' => "34",
            'm' => "35",
            'c' => "36",
            'w' => "37",
            _ => {
                return None;
            },
        }
    } else {
        match c {
            'k' => "40",
            'r' => "41",
            'g' => "42",
            'y' => "43",
            'b' => "44",
            'm' => "45",
            'c' => "46",
            'w' => "47",
            _ => {
                return None;
            },
        }
    };
    proof {
        reveal_strlit("30");
        reveal_strlit("31");
        reveal_strlit("32");
        reveal_strlit("33");
        reveal_strlit("34");
        reveal_strlit("35");
        reveal_strlit("36");
        reveal_strlit("37");
        reveal_strlit("40");
        reveal_strlit("41");
        reveal_strlit("42");
        reveal_strlit("43");
        reveal_strlit("44");
        reveal_strlit("45");
        reveal_strlit("46");
        reveal_strlit("47");
        assert(code@ =~= color_code_seq(selector, c));
    }
    Some(code.to_owned())
}

/// Decodes a style tag leniently: returns the SGR codes of every recognized
/// directive, in scan order with duplicates kept, and whether the tag asks
/// for a leading newline. An `F` or `B` that is last in the tag, or followed
/// by something other than a color letter, is skipped, as is any other
/// unrecognized character; decoding never fails.
pub fn decode(tag: &str) -> (res: (Vec<String>, bool))
    ensures
        res.0.deep_view() == decode_codes(tag@),
        res.1 == has_newline(tag@),
{
    let n = tag.unicode_len();
    let mut codes: Vec<String> = Vec::new();
    let mut newline = false;
    let mut i: usize = 0;
    while i < n
        invariant
            n == tag@.len(),
            i <= n,
            codes.deep_view() + decode_codes_at(tag@, i as int) == decode_codes(tag@),
            (newline || has_newline_at(tag@, i as int)) == has_newline(tag@),
        decreases n - i,
    {
        let c = tag.get_char(i);
        let ghost prev = codes.deep_view();
        if c == 'F' || c == 'B' {
            if i + 1 < n {
                let d = tag.get_char(i + 1);
                match color_code(c, d) {
                    Some(s) => {
                        proof {
                            assert(decode_codes_at(tag@, i as int) == seq![s@]
                                + decode_codes_at(tag@, i + 2));
                            assert(has_newline_at(tag@, i as int) == has_newline_at(
                                tag@,
                                i + 1,
                            ));
                            assert(has_newline_at(tag@, i + 1) == has_newline_at(tag@, i + 2));
                        }
                        codes.push(s);
                        proof {
                            assert(codes.deep_view() =~= prev.push(s@));
                            assert(prev.push(s@) + decode_codes_at(tag@, i + 2) =~= prev
                                + decode_codes_at(tag@, i as int));
                        }
                        i = i + 2;
                    },
                    None => {
                        i = i + 1;
                    },
                }
            } else {
                i = i + 1;
            }
        } else if c == 'b' || c == 'i' || c == 'u' {
            let code: &str = if c == 'b' {
                "1"
            } else if c == 'i' {
                "3"
            } else {
                "4"
            };
            proof {
                reveal_strlit("1");
                reveal_strlit("3");
                reveal_strlit("4");
                assert(code@ =~= (if c == 'b' {
                    seq!['1']
                } else if c == 'i' {
                    seq!['3']
                } else {
                    seq!['4']
                }));
                assert(decode_codes_at(tag@, i as int) == seq![code@] + decode_codes_at(
                    tag@,
                    i + 1,
                ));
            }
            let owned = code.to_owned();
            codes.push(owned);
            proof {
                assert(codes.deep_view() =~= prev.push(code@));
                assert(prev.push(code@) + decode_codes_at(tag@, i + 1) =~= prev
                    + decode_codes_at(tag@, i as int));
            }
            i = i + 1;
        } else {
            if c == 'N' {
                newline = true;
            }
            i = i + 1;
        }
    }
    proof {
        assert(codes.deep_view() + decode_codes_at(tag@, n as int) =~= codes.deep_view());
    }
    (codes, newline)
}

/// Decodes a style tag strictly: like [`decode`] on a tag made only of
/// recognized directives, and the first error otherwise. No partial output
/// escapes: a rejected tag yields only its [`DecodeError`].
pub fn decode_strict(tag: &str) -> (res: Result<(Vec<String>, bool), DecodeError>)
    ensures
        (res is Ok) == (strict_decode(tag@) is Ok),
        res matches Ok(p) ==> strict_decode(tag@) matches Ok(q) && p.0.deep_view() == q.0 && p.1
            == q.1,
        res matches Err(e) ==> strict_decode(tag@) == Err::<(Seq<Seq<char>>, bool), DecodeError>(
            e,
        ),
{
    let n = tag.unicode_len();
    let mut codes: Vec<String> = Vec::new();
    let mut newline = false;
    let mut i: usize = 0;
    while i < n
        invariant
            n == tag@.len(),
            i <= n,
            match strict_decode_at(tag@, i as int) {
                Ok(rest) => strict_decode(tag@) == Ok::<(Seq<Seq<char>>, bool), DecodeError>(
                    (codes.deep_view() + rest.0, newline || rest.1),
                ),
                Err(e) => strict_decode(tag@) == Err::<(Seq<Seq<char>>, bool), DecodeError>(e),
            },
        decreases n - i,
    {
        let c = tag.get_char(i);
        let ghost prev = codes.deep_view();
        if c == 'F' || c == 'B' {
            if i + 1 >= n {
                return Err(DecodeError::MissingColorSelector { pos: i });
            }
            let d = tag.get_char(i + 1);
            match color_code(c, d) {
                Some(s) => {
                    proof {
                        assert(strict_decode_at(tag@, i as int) == (match strict_decode_at(
                            tag@,
                            i + 2,
                        ) {
                            Ok(p) => Ok::<(Seq<Seq<char>>, bool), DecodeError>(
                                (seq![s@] + p.0, p.1),
                            ),
                            Err(e) => Err::<(Seq<Seq<char>>, bool), DecodeError>(e),
                        }));
                    }
                    codes.push(s);
                    proof {
                        assert(codes.deep_view() =~= prev.push(s@));
                        match strict_decode_at(tag@, i + 2) {
                            Ok(p) => {
                                assert(prev.push(s@) + p.0 =~= prev + (seq![s@] + p.0));
                            },
                            Err(_) => {},
                        }
                    }
                    i = i + 2;
                },
                None => {
                    return Err(DecodeError::InvalidColorSelector { found: d, pos: i + 1 });
                },
            }
        } else if c == 'b' || c == 'i' || c == 'u' {
            let code: &str = if c == 'b' {
                "1"
            } else if c == 'i' {
                "3"
            } else {
                "4"
            };
            proof {
                reveal_strlit("1");
                reveal_strlit("3");
                reveal_strlit("4");
                assert(code@ =~= (if c == 'b' {
                    seq!['1']
                } else if c == 'i' {
                    seq!['3']
                } else {
                    seq!['4']
                }));
                assert(strict_decode_at(tag@, i as int) == (match strict_decode_at(
                    tag@,
                    i + 1,
                ) {
                    Ok(p) => Ok::<(Seq<Seq<char>>, bool), DecodeError>((seq![code@] + p.0, p.1)),
                    Err(e) => Err::<(Seq<Seq<char>>, bool), DecodeError>(e),
                }));
            }
            let owned = code.to_owned();
            codes.push(owned);
            proof {
                assert(codes.deep_view() =~= prev.push(code@));
                match strict_decode_at(tag@, i + 1) {
                    Ok(p) => {
                        assert(prev.push(code@) + p.0 =~= prev + (seq![code@] + p.0));
                    },
                    Err(_) => {},
                }
            }
            i = i + 1;
        } else if c == 'N' {
            newline = true;
            i = i + 1;
        } else {
            return Err(DecodeError::InvalidFormatCharacter { found: c, pos: i });
        }
    }
    proof {
        assert(codes.deep_view() + Seq::<Seq<char>>::empty() =~= codes.deep_view());
    }
    Ok((codes, newline))
}

} // verus!
