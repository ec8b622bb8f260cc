//! Normalization of card-notation input: trims the line, recognizes
//! the stop words, and turns rank/suit character pairs into canonical
//! two-character card tokens.

use crate::hand::Error;
use vstd::prelude::*;
use vstd::string::*;

verus! {

/// Relies on `String::push`: appends exactly the one character.
pub assume_specification[ String::push ](s: &mut String, c: char)
    ensures
        final(s)@ == old(s)@.push(c),
;

/// The Unicode white-space characters, the set `str::trim` removes.
pub open spec fn is_space(c: char) -> bool {
    c == ' ' || c == '\u{9}' || c == '\u{A}' || c == '\u{B}' || c == '\u{C}' || c == '\u{D}' || c
        == '\u{85}' || c == '\u{A0}' || c == '\u{1680}' || c == '\u{2000}' || c == '\u{2001}' || c
        == '\u{2002}' || c == '\u{2003}' || c == '\u{2004}' || c == '\u{2005}' || c == '\u{2006}'
        || c == '\u{2007}' || c == '\u{2008}' || c == '\u{2009}' || c == '\u{200A}' || c
        == '\u{2028}' || c == '\u{2029}' || c == '\u{202F}' || c == '\u{205F}' || c == '\u{3000}'
}

fn is_space_char(c: char) -> (b: bool)
    ensures
        b == is_space(c),
{
    match c {
        ' ' | '\u{9}' | '\u{A}' | '\u{B}' | '\u{C}' | '\u{D}' | '\u{85}' | '\u{A0}' | '\u{1680}'
            | '\u{2000}' | '\u{2001}' | '\u{2002}' | '\u{2003}' | '\u{2004}' | '\u{2005}'
            | '\u{2006}' | '\u{2007}' | '\u{2008}' | '\u{2009}' | '\u{200A}' | '\u{2028}'
            | '\u{2029}' | '\u{202F}' | '\u{205F}' | '\u{3000}' => true,
        _ => false,
    }
}

/// Length of the leading run of white space.
pub open spec fn ws_prefix_len(s: Seq<char>) -> int
    decreases s.len(),
{
    if s.len() == 0 || !is_space(s[0]) {
        0
    } else {
        1 + ws_prefix_len(s.drop_first())
    }
}

/// Length of the trailing run of white space.
pub open spec fn ws_suffix_len(s: Seq<char>) -> int
    decreases s.len(),
{
    if s.len() == 0 || !is_space(s.last()) {
        0
    } else {
        1 + ws_suffix_len(s.drop_last())
    }
}

/// The input with leading and trailing white space removed.
pub open spec fn trim_spec(s: Seq<char>) -> Seq<char> {
    if ws_prefix_len(s) == s.len() {
        Seq::empty()
    } else {
        s.subrange(ws_prefix_len(s), s.len() - ws_suffix_len(s))
    }
}

proof fn lemma_ws_prefix(s: Seq<char>)
    ensures
        0 <= ws_prefix_len(s) <= s.len(),
        forall|i: int| 0 <= i < ws_prefix_len(s) ==> is_space(#[trigger] s[i]),
        ws_prefix_len(s) < s.len() ==> !is_space(s[ws_prefix_len(s)]),
    decreases s.len(),
{
    if s.len() == 0 || !is_space(s[0]) {
    } else {
        lemma_ws_prefix(s.drop_first());
        assert forall|i: int| 0 <= i < ws_prefix_len(s) implies is_space(#[trigger] s[i]) by {
            if i > 0 {
                assert(s.drop_first()[i - 1] == s[i]);
            }
        }
        if ws_prefix_len(s) < s.len() {
            assert(s.drop_first()[ws_prefix_len(s) - 1] == s[ws_prefix_len(s)]);
        }
    }
}

proof fn lemma_ws_suffix(s: Seq<char>)
    ensures
        0 <= ws_suffix_len(s) <= s.len(),
        forall|i: int| s.len() - ws_suffix_len(s) <= i < s.len() ==> is_space(#[trigger] s[i]),
        ws_suffix_len(s) < s.len() ==> !is_space(s[s.len() - 1 - ws_suffix_len(s)]),
    decreases s.len(),
{
    if s.len() == 0 || !is_space(s.last()) {
    } else {
        lemma_ws_suffix(s.drop_last());
        assert forall|i: int| s.len() - ws_suffix_len(s) <= i < s.len() implies is_space(
            #[trigger] s[i],
        ) by {
            if i < s.len() - 1 {
                assert(s.drop_last()[i] == s[i]);
            }
        }
        if ws_suffix_len(s) < s.len() {
            assert(s.drop_last()[s.len() - 2 - (ws_suffix_len(s) - 1)] == s[s.len() - 1
                - ws_suffix_len(s)]);
        }
    }
}

/// Case-insensitive equality with a lower/upper letter pair.
pub open spec fn eqi(c: char, lo: char, up: char) -> bool {
    c == lo || c == up
}

/// The trimmed input reads, case-insensitively, as one of the stop
/// words `done`, `exit`, `quit`.
pub open spec fn is_quit(t: Seq<char>) -> bool {
    t.len() == 4 && ((eqi(t[0], 'd', 'D') && eqi(t[1], 'o', 'O') && eqi(t[2], 'n', 'N') && eqi(
        t[3],
        'e',
        'E',
    )) || (eqi(t[0], 'e', 'E') && eqi(t[1], 'x', 'X') && eqi(t[2], 'i', 'I') && eqi(
        t[3],
        't',
        'T',
    )) || (eqi(t[0], 'q', 'Q') && eqi(t[1], 'u', 'U') && eqi(t[2], 'i', 'I') && eqi(
        t[3],
        't',
        'T',
    )))
}

/// A rank character, either case.
pub open spec fn is_rank_char(c: char) -> bool {
    c == 'A' || c == 'a' || c == 'K' || c == 'k' || c == 'Q' || c == 'q' || c == 'J' || c == 'j'
        || c == 'T' || c == 't' || c == '9' || c == '8' || c == '7' || c == '6' || c == '5' || c
        == '4' || c == '3' || c == '2'
}

/// A suit character, either case.
pub open spec fn is_suit_char(c: char) -> bool {
    c == 'D' || c == 'd' || c == 'C' || c == 'c' || c == 'H' || c == 'h' || c == 'S' || c == 's'
}

/// The canonical (upper-case) spelling of a rank character.
pub open spec fn rank_char_canon(c: char) -> char {
    if c == 'a' {
        'A'
    } else if c == 'k' {
        'K'
    } else if c == 'q' {
        'Q'
    } else if c == 'j' {
        'J'
    } else if c == 't' {
        'T'
    } else {
        c
    }
}

/// The canonical (lower-case) spelling of a suit character.
pub open spec fn suit_char_canon(c: char) -> char {
    if c == 'D' {
        'd'
    } else if c == 'C' {
        'c'
    } else if c == 'H' {
        'h'
    } else if c == 'S' {
        's'
    } else {
        c
    }
}

/// The canonical two-character card token of a rank/suit pair.
pub open spec fn card_token(rc: char, sc: char) -> Seq<char> {
    seq![rank_char_canon(rc), suit_char_canon(sc)]
}

/// The card tokens of the input, read left to right: blanks pass, a
/// rank character must be followed by a suit character, and anything
/// else fails.  `pending` carries a rank character awaiting its suit.
pub open spec fn parse_cards(s: Seq<char>, pending: Option<char>) -> Option<Seq<Seq<char>>>
    decreases s.len(),
{
    if s.len() == 0 {
        if pending is None {
            Some(Seq::empty())
        } else {
            None
        }
    } else {
        let c = s[0];
        if c == ' ' {
            parse_cards(s.drop_first(), pending)
        } else if is_rank_char(c) {
            if pending is None {
                parse_cards(s.drop_first(), Some(c))
            } else {
                None
            }
        } else if is_suit_char(c) {
            match pending {
                Some(rc) => match parse_cards(s.drop_first(), None) {
                    Some(rest) => Some(seq![card_token(rc, c)] + rest),
                    None => None,
                },
                None => None,
            }
        } else {
            None
        }
    }
}

/// What the whole parse yields once `done` tokens are banked and the
/// scan stands at position `i` with `pending` outstanding.
pub open spec fn parse_resume(
    t: Seq<char>,
    i: int,
    pending: Option<char>,
    done: Seq<Seq<char>>,
) -> Option<Seq<Seq<char>>> {
    match parse_cards(t.skip(i), pending) {
        Some(rest) => Some(done + rest),
        None => None,
    }
}

fn is_rank_char_ex(c: char) -> (b: bool)
    ensures
        b == is_rank_char(c),
{
    match c {
        'A' | 'a' | 'K' | 'k' | 'Q' | 'q' | 'J' | 'j' | 'T' | 't' | '9' | '8' | '7' | '6' | '5'
            | '4' | '3' | '2' => true,
        _ => false,
    }
}

fn is_suit_char_ex(c: char) -> (b: bool)
    ensures
        b == is_suit_char(c),
{
    match c {
        'D' | 'd' | 'C' | 'c' | 'H' | 'h' | 'S' | 's' => true,
        _ => false,
    }
}

fn rank_char_upper(c: char) -> (u: char)
    ensures
        u == rank_char_canon(c),
{
    match c {
        'a' => 'A',
        'k' => 'K',
        'q' => 'Q',
        'j' => 'J',
        't' => 'T',
        _ => c,
    }
}

fn suit_char_lower(c: char) -> (l: char)
    ensures
        l == suit_char_canon(c),
{
    match c {
        'D' => 'd',
        'C' => 'c',
        'H' => 'h',
        'S' => 's',
        _ => c,
    }
}

/// Builds the canonical token string of a rank/suit character pair.
fn make_token(rc: char, sc: char) -> (t: String)
    ensures
        t@ == card_token(rc, sc),
{
    let mut t = String::new();
    t.push(rank_char_upper(rc));
    t.push(suit_char_lower(sc));
    proof {
        assert(t@ =~= card_token(rc, sc));
    }
    t
}

/// Builds an error whose message is `head` followed by the rejected
/// input.
fn input_error(head: &str, detail: &str) -> (e: Error)
    ensures
        e.msg@ == head@ + detail@,
{
    let mut msg = String::from_str(head);
    msg.append(detail);
    Error::of(msg)
}

/// Splits a line of card notation into canonical two-character card
/// tokens (`"As"`, `"Td"`), expecting exactly `n_expected` of them.
///
/// The line is trimmed first.  A trimmed line reading `done`, `exit`
/// or `quit` in any case yields `Ok(None)`.  Otherwise the scan
/// accepts blanks between cards and one rank character followed by
/// one suit character per card, in either case; everything else — a
/// rank without a suit, a suit without a rank, a foreign character,
/// or the wrong number of cards — is an error.
pub fn normalize_input_cards(cards: &str, n_expected: usize) -> (r: Result<
    Option<Vec<String>>,
    Error,
>)
    ensures
        ({
            let t = trim_spec(cards@);
            &&& is_quit(t) ==> (r matches Ok(o) && o is None)
            &&& !is_quit(t) ==> (parse_cards(t, Option::None) matches Some(cs) ==> (cs.len()
                == n_expected ==> (r matches Ok(o) && o matches Some(v) && v.deep_view() == cs)))
            &&& (r is Err) <==> (!is_quit(t) && (parse_cards(t, Option::None) is None
                || parse_cards(t, Option::None).unwrap().len() != n_expected))
        }),
{
    let ghost whole = cards@;
    let len = cards.unicode_len();
    let mut start: usize = 0;
    while start < len && is_space_char(cards.get_char(start))
        invariant
            start <= len,
            len == whole.len(),
            whole == cards@,
            forall|j: int| 0 <= j < start ==> is_space(#[trigger] whole[j]),
        decreases len - start,
    {
        start += 1;
    }
    let mut end: usize = len;
    while end > start && is_space_char(cards.get_char(end - 1))
        invariant
            start <= end <= len,
            len == whole.len(),
            whole == cards@,
            forall|j: int| end <= j < len ==> is_space(#[trigger] whole[j]),
        decreases end,
    {
        end -= 1;
    }
    proof {
        lemma_ws_prefix(whole);
        lemma_ws_suffix(whole);
        if start < ws_prefix_len(whole) {
            assert(is_space(whole[start as int]));
        }
        if ws_prefix_len(whole) < start {
            assert(is_space(whole[ws_prefix_len(whole)]));
        }
        assert(start == ws_prefix_len(whole));
        if start < len {
            if end > len - ws_suffix_len(whole) {
                assert(is_space(whole[end - 1]));
            }
            if end < len - ws_suffix_len(whole) {
                assert(is_space(whole[len - 1 - ws_suffix_len(whole)]));
            }
            assert(end == len - ws_suffix_len(whole));
        }
    }
    let trimmed = cards.substring_char(start, end);
    let ghost t = trim_spec(whole);
    proof {
        if start == len {
            assert(trimmed@ =~= t);
        } else {
            assert(trimmed@ =~= t);
        }
    }
    let tl = trimmed.unicode_len();

    // Stop words end the whole exchange.
    let is_stop: bool = if tl == 4 {
        let c0 = trimmed.get_char(0);
        let c1 = trimmed.get_char(1);
        let c2 = trimmed.get_char(2);
        let c3 = trimmed.get_char(3);
        ((c0 == 'd' || c0 == 'D') && (c1 == 'o' || c1 == 'O') && (c2 == 'n' || c2 == 'N') && (c3
            == 'e' || c3 == 'E')) || ((c0 == 'e' || c0 == 'E') && (c1 == 'x' || c1 == 'X') && (c2
            == 'i' || c2 == 'I') && (c3 == 't' || c3 == 'T')) || ((c0 == 'q' || c0 == 'Q') && (c1
            == 'u' || c1 == 'U') && (c2 == 'i' || c2 == 'I') && (c3 == 't' || c3 == 'T'))
    } else {
        false
    };
    proof {
        assert(is_stop == is_quit(t));
    }
    if is_stop {
        return Ok(None);
    }

    let mut out: Vec<String> = Vec::new();
    let mut pending: Option<char> = None;
    let mut i: usize = 0;
    proof {
        assert(t.skip(0) =~= t);
        let pc0 = parse_cards(t, Option::None);
        if pc0 is Some {
            assert(Seq::<Seq<char>>::empty() + pc0.unwrap() =~= pc0.unwrap());
        }
        assert(out.deep_view() =~= Seq::<Seq<char>>::empty());
    }
    while i < tl
        invariant
            i <= tl,
            tl == t.len(),
            trimmed@ == t,
            t == trim_spec(cards@),
            !is_quit(t),
            parse_cards(t, Option::None) == parse_resume(t, i as int, pending, out.deep_view()),
        decreases tl - i,
    {
        if out.len() > n_expected {
            proof {
                let pc = parse_cards(t, Option::None);
                if pc is Some {
                    assert(pc.unwrap().len() >= out.deep_view().len());
                }
            }
            let mut msg = String::from_str("Invalid cards, ");
            let n_str = n_expected.to_string();
            msg.append(n_str.as_str());
            msg.append(" required, ");
            let len_str = out.len().to_string();
            msg.append(len_str.as_str());
            msg.append("+ given: ");
            msg.append(trimmed);
            return Err(Error::of(msg));
        }
        let c = trimmed.get_char(i);
        proof {
            assert(t.skip(i as int)[0] == t[i as int]);
            assert(t.skip(i as int).drop_first() =~= t.skip(i as int + 1));
        }
        if c == ' ' {
            // A blank between cards.
        } else if is_rank_char_ex(c) {
            if pending.is_none() {
                pending = Some(c);
            } else {
                return Err(input_error("Invalid cards, rank without suit: ", trimmed));
            }
        } else if is_suit_char_ex(c) {
            match pending {
                Some(rc) => {
                    let ghost old_dv = out.deep_view();
                    let token = make_token(rc, c);
                    out.push(token);
                    pending = None;
                    proof {
                        assert(out.deep_view() =~= old_dv.push(card_token(rc, c)));
                        let pc = parse_cards(t.skip(i as int + 1), Option::None);
                        if pc is Some {
                            assert(old_dv + (seq![card_token(rc, c)] + pc.unwrap())
                                =~= out.deep_view() + pc.unwrap());
                        }
                    }
                },
                None => {
                    return Err(input_error("Invalid cards, suit without rank: ", trimmed));
                },
            }
        } else {
            if (c as u32) < 128 {
                return Err(input_error("Invalid input: ", trimmed));
            }
            return Err(input_error("Invalid input, non-ASCII: ", trimmed));
        }
        i += 1;
    }
    proof {
        assert(t.skip(tl as int) =~= Seq::<char>::empty());
    }
    if pending.is_some() {
        return Err(input_error("Invalid cards, rank without suit: ", trimmed));
    }
    proof {
        assert(parse_cards(t, Option::None) == Some(out.deep_view() + Seq::<Seq<char>>::empty()));
        assert(out.deep_view() + Seq::<Seq<char>>::empty() =~= out.deep_view());
    }
    if out.len() != n_expected {
        let mut msg = String::from_str("Invalid cards, ");
        let n_str = n_expected.to_string();
        msg.append(n_str.as_str());
        msg.append(" required, ");
        let len_str = out.len().to_string();
        msg.append(len_str.as_str());
        msg.append(" given: ");
        msg.append(trimmed);
        return Err(Error::of(msg));
    }
    Ok(Some(out))
}

} // verus!
