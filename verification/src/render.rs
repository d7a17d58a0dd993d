//! Rendering: one styled fragment per entry, fragments joined by spaces.
//!
//! A tagged entry renders as
//! `<newline?><ESC>[<codes joined by ';'>m<text without '"'><ESC>[0m`; a bare
//! entry renders as its text unchanged. Under a group tag every entry is
//! styled, with the group's characters prepended to the entry's own tag
//! before decoding.

use vstd::prelude::*;
use vstd::string::*;

use crate::decode::{decode, decode_codes, has_newline};

verus! {

/// The characters of `frags` in order, with `sep` between the pieces.
pub open spec fn join_with(frags: Seq<Seq<char>>, sep: char) -> Seq<char>
    decreases frags.len(),
{
    if frags.len() == 0 {
        Seq::empty()
    } else if frags.len() == 1 {
        frags[0]
    } else {
        frags[0] + seq![sep] + join_with(frags.skip(1), sep)
    }
}

/// SGR codes as they stand between `<ESC>[` and `m`: semicolon-separated.
pub open spec fn join_codes(codes: Seq<Seq<char>>) -> Seq<char> {
    join_with(codes, ';')
}

/// Rendered fragments as they stand in the output: space-separated.
pub open spec fn join_spaces(frags: Seq<Seq<char>>) -> Seq<char> {
    join_with(frags, ' ')
}

/// `s` with every double-quote character removed. The default display form
/// of a textual value is often quoted; stripping normalizes it to a bare
/// form. Quotes that were part of the content go too, a cosmetic side effect
/// of the same rule.
pub open spec fn strip_quotes(s: Seq<char>) -> Seq<char>
    decreases s.len(),
{
    if s.len() == 0 {
        Seq::empty()
    } else if s[0] == '"' {
        strip_quotes(s.skip(1))
    } else {
        seq![s[0]] + strip_quotes(s.skip(1))
    }
}

/// The styled fragment for display text `display` under tag `tag`: an
/// optional leading newline, the escape introducer, the decoded codes joined
/// by semicolons, `m`, the quote-stripped text, and the reset sequence. A tag
/// with no code-appending directive still wraps the text, in the empty
/// attribute list `<ESC>[m`.
pub open spec fn fragment(display: Seq<char>, tag: Seq<char>) -> Seq<char> {
    (if has_newline(tag) {
        seq!['\n']
    } else {
        Seq::<char>::empty()
    }) + seq!['\u{1b}', '['] + join_codes(decode_codes(tag)) + seq!['m'] + strip_quotes(display)
        + seq!['\u{1b}', '[', '0', 'm']
}

/// One element of the sequence handed to the aggregator: display text with
/// or without a style tag of its own.
#[derive(Debug, Clone)]
pub enum Entry {
    /// Display text rendered unchanged, with no escapes.
    Bare(String),
    /// A `(tag, display text)` pair rendered as a styled fragment.
    Tagged(String, String),
}

/// What an [`Entry`] holds, as character sequences.
pub enum EntryView {
    Bare(Seq<char>),
    Tagged(Seq<char>, Seq<char>),
}

impl View for Entry {
    type V = EntryView;

    open spec fn view(&self) -> EntryView {
        match self {
            Entry::Bare(s) => EntryView::Bare(s@),
            Entry::Tagged(t, s) => EntryView::Tagged(t@, s@),
        }
    }
}

/// The fragment an entry renders to on its own: bare text stays bare.
pub open spec fn rendered(e: EntryView) -> Seq<char> {
    match e {
        EntryView::Bare(s) => s,
        EntryView::Tagged(t, s) => fragment(s, t),
    }
}

/// The fragment an entry renders to under a group tag: every entry is
/// styled, and a tagged entry decodes the concatenation group-then-local.
pub open spec fn rendered_under(group: Seq<char>, e: EntryView) -> Seq<char> {
    match e {
        EntryView::Bare(s) => fragment(s, group),
        EntryView::Tagged(t, s) => fragment(s, group + t),
    }
}

proof fn lemma_join_with_push(s: Seq<Seq<char>>, x: Seq<char>, sep: char)
    ensures
        join_with(s.push(x), sep) == if s.len() == 0 {
            x
        } else {
            join_with(s, sep) + seq![sep] + x
        },
    decreases s.len(),
{
    if s.len() == 0 {
        assert(s.push(x) =~= seq![x]);
    } else {
        assert(s.push(x)[0] == s[0]);
        assert(s.push(x).skip(1) =~= s.skip(1).push(x));
        lemma_join_with_push(s.skip(1), x, sep);
        if s.len() == 1 {
            assert(join_with(s.push(x), sep) == s[0] + seq![sep] + x);
        } else {
            assert(s[0] + seq![sep] + (join_with(s.skip(1), sep) + seq![sep] + x) =~= (s[0]
                + seq![sep] + join_with(s.skip(1), sep)) + seq![sep] + x);
        }
    }
}

proof fn lemma_strip_quotes_push(s: Seq<char>, c: char)
    ensures
        strip_quotes(s.push(c)) == strip_quotes(s) + (if c == '"' {
            Seq::<char>::empty()
        } else {
            seq![c]
        }),
    decreases s.len(),
{
    if s.len() == 0 {
        assert(s.push(c) =~= seq![c]);
        assert(seq![c].skip(1) =~= Seq::<char>::empty());
        assert(strip_quotes(Seq::<char>::empty()) == Seq::<char>::empty());
        assert(strip_quotes(s) == Seq::<char>::empty());
        if c == '"' {
            assert(strip_quotes(s.push(c)) =~= Seq::<char>::empty());
            assert(strip_quotes(s) + Seq::<char>::empty() =~= Seq::<char>::empty());
        } else {
            assert(strip_quotes(s.push(c)) =~= seq![c]);
            assert(strip_quotes(s) + seq![c] =~= seq![c]);
        }
    } else {
        assert(s.push(c)[0] == s[0]);
        assert(s.push(c).skip(1) =~= s.skip(1).push(c));
        lemma_strip_quotes_push(s.skip(1), c);
        let tailpart = if c == '"' {
            Seq::<char>::empty()
        } else {
            seq![c]
        };
        if s[0] != '"' {
            assert(seq![s[0]] + (strip_quotes(s.skip(1)) + tailpart) =~= (seq![s[0]]
                + strip_quotes(s.skip(1))) + tailpart);
        }
    }
}

/// Renders one value under one style tag. `input` is the value's default
/// display form; its double quotes are stripped, the tag is decoded
/// leniently, and the result is the full escape-wrapped fragment.
pub fn color_str(input: &str, tag: &str) -> (r: String)
    ensures
        r@ == fragment(input@, tag@),
{
    let (codes, newline) = decode(tag);
    let mut r = String::new();
    proof {
        reveal_strlit("\n");
        reveal_strlit("\u{1b}[");
        reveal_strlit(";");
        reveal_strlit("m");
        reveal_strlit("\u{1b}[0m");
    }
    if newline {
        r.append("\n");
    }
    r.append("\u{1b}[");
    let ghost cs = codes.deep_view();
    let ghost base = r@;
    let mut k: usize = 0;
    while k < codes.len()
        invariant
            cs == codes.deep_view(),
            k <= codes.len(),
            r@ == base + join_codes(cs.take(k as int)),
        decreases codes.len() - k,
    {
        if k > 0 {
            proof {
                reveal_strlit(";");
            }
            r.append(";");
        }
        r.append(codes[k].as_str());
        proof {
            assert(cs.take(k + 1) =~= cs.take(k as int).push(cs[k as int]));
            lemma_join_with_push(cs.take(k as int), cs[k as int], ';');
        }
        k = k + 1;
    }
    proof {
        assert(cs.take(codes.len() as int) =~= cs);
    }
    r.append("m");
    let m = input.unicode_len();
    let ghost base2 = r@;
    let mut j: usize = 0;
    while j < m
        invariant
            m == input@.len(),
            j <= m,
            r@ == base2 + strip_quotes(input@.take(j as int)),
        decreases m - j,
    {
        let c = input.get_char(j);
        proof {
            assert(input@.take(j + 1) =~= input@.take(j as int).push(input@[j as int]));
            lemma_strip_quotes_push(input@.take(j as int), input@[j as int]);
        }
        if c != '"' {
            let piece = input.substring_char(j, j + 1);
            proof {
                assert(piece@ =~= seq![input@[j as int]]);
            }
            r.append(piece);
        }
        j = j + 1;
    }
    proof {
        assert(input@.take(m as int) =~= input@);
    }
    r.append("\u{1b}[0m");
    proof {
        assert(r@ =~= fragment(input@, tag@));
    }
    r
}

/// Renders a sequence of entries and joins the fragments with single spaces:
/// tagged entries are escape-wrapped, bare entries pass through unchanged,
/// no entry is dropped, and an empty sequence yields the empty string.
pub fn colorize(entries: &Vec<Entry>) -> (r: String)
    ensures
        r@ == join_spaces(entries@.map_values(|e: Entry| rendered(e@))),
{
    let ghost frags = entries@.map_values(|e: Entry| rendered(e@));
    let mut r = String::new();
    let mut k: usize = 0;
    while k < entries.len()
        invariant
            frags == entries@.map_values(|e: Entry| rendered(e@)),
            k <= entries.len(),
            r@ == join_spaces(frags.take(k as int)),
        decreases entries.len() - k,
    {
        if k > 0 {
            proof {
                reveal_strlit(" ");
            }
            r.append(" ");
        }
        let frag = match &entries[k] {
            Entry::Bare(s) => s.clone(),
            Entry::Tagged(t, s) => color_str(s.as_str(), t.as_str()),
        };
        r.append(frag.as_str());
        proof {
            assert(frag@ == frags[k as int]);
            assert(frags.take(k + 1) =~= frags.take(k as int).push(frags[k as int]));
            lemma_join_with_push(frags.take(k as int), frags[k as int], ' ');
        }
        k = k + 1;
    }
    proof {
        assert(frags.take(entries.len() as int) =~= frags);
    }
    r
}

/// Renders a sequence of entries under a group tag and joins the fragments
/// with single spaces. Every entry is styled: a bare entry under the group
/// tag alone, a tagged entry under the group tag's characters followed by
/// its own.
pub fn colorize_all(group: &str, entries: &Vec<Entry>) -> (r: String)
    ensures
        r@ == join_spaces(entries@.map_values(|e: Entry| rendered_under(group@, e@))),
{
    let ghost frags = entries@.map_values(|e: Entry| rendered_under(group@, e@));
    let mut r = String::new();
    let mut k: usize = 0;
    while k < entries.len()
        invariant
            frags == entries@.map_values(|e: Entry| rendered_under(group@, e@)),
            k <= entries.len(),
            r@ == join_spaces(frags.take(k as int)),
        decreases entries.len() - k,
    {
        if k > 0 {
            proof {
                reveal_strlit(" ");
            }
            r.append(" ");
        }
        let frag = match &entries[k] {
            Entry::Bare(s) => color_str(s.as_str(), group),
            Entry::Tagged(t, s) => {
                let mut gt = group.to_owned();
                gt.append(t.as_str());
                color_str(s.as_str(), gt.as_str())
            },
        };
        r.append(frag.as_str());
        proof {
            assert(frag@ == frags[k as int]);
            assert(frags.take(k + 1) =~= frags.take(k as int).push(frags[k as int]));
            lemma_join_with_push(frags.take(k as int), frags[k as int], ' ');
        }
        k = k + 1;
    }
    proof {
        assert(frags.take(entries.len() as int) =~= frags);
    }
    r
}

} // verus!
