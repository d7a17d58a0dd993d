//! Laws of the decoder and the aggregator, stated and proved once for all
//! inputs.

use vstd::prelude::*;

use crate::decode::{
    decode_codes, decode_codes_at, directive_count, directive_count_at, has_newline,
    has_newline_at, is_color_char, strict_decode, strict_decode_at,
};
use crate::render::join_spaces;

verus! {

proof fn lemma_code_count_at(tag: Seq<char>, pos: int)
    ensures
        decode_codes_at(tag, pos).len() == directive_count_at(tag, pos),
    decreases tag.len() - pos,
{
    if pos >= tag.len() {
    } else if (tag[pos] == 'F' || tag[pos] == 'B') && pos + 1 < tag.len() && is_color_char(
        tag[pos + 1],
    ) {
        lemma_code_count_at(tag, pos + 2);
    } else {
        lemma_code_count_at(tag, pos + 1);
    }
}

/// Law: decoding appends exactly one SGR code per recognized attribute
/// directive — each matched `F`/`B` color pair counts once, each of `b`,
/// `i`, `u` counts once, and `N` and unrecognized characters count zero.
pub proof fn lemma_decode_code_count(tag: Seq<char>)
    ensures
        decode_codes(tag).len() == directive_count(tag),
{
    lemma_code_count_at(tag, 0);
}

proof fn lemma_newline_exists(tag: Seq<char>, pos: int)
    ensures
        has_newline_at(tag, pos) <==> exists|j: int| pos <= j < tag.len() && tag[j] == 'N',
    decreases tag.len() - pos,
{
    if pos >= tag.len() {
    } else {
        lemma_newline_exists(tag, pos + 1);
        if tag[pos] == 'N' {
            assert(pos <= pos < tag.len() && tag[pos] == 'N');
        } else if has_newline_at(tag, pos) {
            assert(has_newline_at(tag, pos + 1));
        } else {
            assert(forall|j: int| pos <= j < tag.len() && tag[j] == 'N' ==> pos + 1 <= j);
        }
    }
}

/// Law: the newline flag depends only on whether the marker `N` occurs in
/// the tag, not on where it stands.
pub proof fn lemma_newline_iff_contains(tag: Seq<char>)
    ensures
        has_newline(tag) <==> tag.contains('N'),
{
    lemma_newline_exists(tag, 0);
}

proof fn lemma_strict_refines_at(tag: Seq<char>, pos: int)
    ensures
        strict_decode_at(tag, pos) matches Ok(p) ==> p.0 == decode_codes_at(tag, pos) && p.1
            == has_newline_at(tag, pos),
    decreases tag.len() - pos,
{
    if pos >= tag.len() {
    } else if tag[pos] == 'F' || tag[pos] == 'B' {
        if pos + 1 < tag.len() && is_color_char(tag[pos + 1]) {
            lemma_strict_refines_at(tag, pos + 2);
            assert(has_newline_at(tag, pos + 1) == has_newline_at(tag, pos + 2));
        }
    } else {
        lemma_strict_refines_at(tag, pos + 1);
    }
}

/// Law: on any tag that strict decoding accepts, it returns exactly the
/// lenient decoder's codes and newline flag.
pub proof fn lemma_strict_refines_lenient(tag: Seq<char>)
    ensures
        strict_decode(tag) matches Ok(p) ==> p.0 == decode_codes(tag) && p.1 == has_newline(tag),
{
    lemma_strict_refines_at(tag, 0);
}

/// How often `c` occurs in `s`.
pub open spec fn count_char(s: Seq<char>, c: char) -> nat
    decreases s.len(),
{
    if s.len() == 0 {
        0
    } else {
        (if s[0] == c {
            1nat
        } else {
            0nat
        }) + count_char(s.skip(1), c)
    }
}

/// How often `c` occurs in all of `frags` together.
pub open spec fn total_count(frags: Seq<Seq<char>>, c: char) -> nat
    decreases frags.len(),
{
    if frags.len() == 0 {
        0
    } else {
        count_char(frags[0], c) + total_count(frags.skip(1), c)
    }
}

proof fn lemma_count_char_concat(a: Seq<char>, b: Seq<char>, c: char)
    ensures
        count_char(a + b, c) == count_char(a, c) + count_char(b, c),
    decreases a.len(),
{
    if a.len() == 0 {
        assert(a + b =~= b);
    } else {
        assert((a + b)[0] == a[0]);
        assert((a + b).skip(1) =~= a.skip(1) + b);
        lemma_count_char_concat(a.skip(1), b, c);
    }
}

/// Law: joining `N` fragments with single spaces puts exactly `N - 1`
/// separating spaces at the top level — the output holds the fragments'
/// own spaces plus `N - 1`, whatever spaces the fragments contain.
pub proof fn lemma_join_space_count(frags: Seq<Seq<char>>)
    ensures
        count_char(join_spaces(frags), ' ') == total_count(frags, ' ') + if frags.len() == 0 {
            0int
        } else {
            frags.len() - 1
        },
    decreases frags.len(),
{
    if frags.len() == 0 {
    } else if frags.len() == 1 {
        assert(frags.skip(1).len() == 0);
        assert(total_count(frags.skip(1), ' ') == 0);
    } else {
        lemma_join_space_count(frags.skip(1));
        lemma_count_char_concat(frags[0], seq![' '], ' ');
        lemma_count_char_concat(frags[0] + seq![' '], join_spaces(frags.skip(1)), ' ');
        assert(seq![' '].skip(1) =~= Seq::<char>::empty());
        assert(count_char(Seq::<char>::empty(), ' ') == 0);
        assert(count_char(seq![' '], ' ') == 1);
        assert(join_spaces(frags) == (frags[0] + seq![' ']) + join_spaces(frags.skip(1)));
    }
}

} // verus!
