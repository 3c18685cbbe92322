//! The character pre-lexer: turns the raw pattern string into an ordered
//! sequence of matching-group seeds, resolving `\r`, `\n`, `\t`, `\\` and
//! two-digit `\xHH` escapes. Whatever cannot be resolved completely degrades
//! to its literal characters, including anything still buffered when the
//! input ends.

use vstd::prelude::*;

use crate::groups::MatchingGroup;

verus! {

/// Scanner states: 0 normal, 1 after `\`, 2 after `\x`, 3 after `\x` and one
/// hex digit (kept in the `pending_hex` register).
pub open spec fn spec_is_hex_digit(c: char) -> bool {
    ('0' <= c && c <= '9') || ('a' <= c && c <= 'f') || ('A' <= c && c <= 'F')
}

/// The numeric value of one hex digit.
pub open spec fn spec_hex_value(c: char) -> int {
    if '0' <= c && c <= '9' {
        (c as u32) - 48
    } else if 'a' <= c && c <= 'f' {
        (c as u32) - 87
    } else {
        (c as u32) - 55
    }
}

/// The byte denoted by two hex digits, read as a character.
pub open spec fn spec_hex_char(h1: char, h2: char) -> char {
    ((spec_hex_value(h1) * 16 + spec_hex_value(h2)) as u8) as char
}

/// What the scanner emits when the input ends in the middle of an escape:
/// the buffered characters come out as literals.
pub open spec fn spec_pre_lex_flush(state: int, pending_hex: char) -> Seq<char> {
    if state == 0 {
        Seq::empty()
    } else if state == 1 {
        seq!['\\']
    } else if state == 2 {
        seq!['\\', 'x']
    } else {
        seq!['\\', 'x', pending_hex]
    }
}

/// The seed characters that the pre-lexer emits for `s[i..]`, entered in the
/// given scanner state with `pending_hex` buffered. A resolved `\\` leaves the
/// scanner in the escape state, so the character after it is itself treated
/// as an escape name: `a\\n` lexes to `a`, `\` and a line break.
pub open spec fn spec_pre_lex_from(s: Seq<char>, i: int, state: int, pending_hex: char) -> Seq<
    char,
>
    decreases s.len() - i,
{
    if i < 0 || i >= s.len() {
        spec_pre_lex_flush(state, pending_hex)
    } else {
        let c = s[i];
        if state == 0 {
            if c == '\\' {
                spec_pre_lex_from(s, i + 1, 1, pending_hex)
            } else {
                seq![c] + spec_pre_lex_from(s, i + 1, 0, pending_hex)
            }
        } else if state == 1 {
            if c == 'r' {
                seq!['\r'] + spec_pre_lex_from(s, i + 1, 0, pending_hex)
            } else if c == 'n' {
                seq!['\n'] + spec_pre_lex_from(s, i + 1, 0, pending_hex)
            } else if c == 't' {
                seq!['\t'] + spec_pre_lex_from(s, i + 1, 0, pending_hex)
            } else if c == 'x' {
                spec_pre_lex_from(s, i + 1, 2, pending_hex)
            } else if c == '\\' {
                seq!['\\'] + spec_pre_lex_from(s, i + 1, 1, pending_hex)
            } else {
                seq!['\\', c] + spec_pre_lex_from(s, i + 1, 0, pending_hex)
            }
        } else if state == 2 {
            if spec_is_hex_digit(c) {
                spec_pre_lex_from(s, i + 1, 3, c)
            } else if c == '\\' {
                seq!['\\', 'x'] + spec_pre_lex_from(s, i + 1, 1, pending_hex)
            } else {
                seq!['\\', 'x', c] + spec_pre_lex_from(s, i + 1, 0, pending_hex)
            }
        } else {
            if spec_is_hex_digit(c) {
                seq![spec_hex_char(pending_hex, c)] + spec_pre_lex_from(s, i + 1, 0, pending_hex)
            } else if c == '\\' {
                seq!['\\', 'x', pending_hex] + spec_pre_lex_from(s, i + 1, 1, pending_hex)
            } else {
                seq!['\\', 'x', pending_hex, c] + spec_pre_lex_from(s, i + 1, 0, pending_hex)
            }
        }
    }
}

/// The source-character widths of the seeds that the pre-lexer emits for
/// `s[i..]`, aligned one-to-one with `spec_pre_lex_from`: a plain character
/// and each character of a degraded escape are one source character wide, a
/// resolved control escape is two, a resolved hex literal is four. A `\\`
/// resolved while another escape was pending accounts for the pending
/// backslash; the new backslash stays pending.
pub open spec fn spec_pre_lex_widths_from(s: Seq<char>, i: int, state: int, pending_hex: char) -> Seq<usize>
    decreases s.len() - i,
{
    if i < 0 || i >= s.len() {
        spec_flush_widths(state)
    } else {
        let c = s[i];
        if state == 0 {
            if c == '\\' {
                spec_pre_lex_widths_from(s, i + 1, 1, pending_hex)
            } else {
                seq![1usize] + spec_pre_lex_widths_from(s, i + 1, 0, pending_hex)
            }
        } else if state == 1 {
            if c == 'r' || c == 'n' || c == 't' {
                seq![2usize] + spec_pre_lex_widths_from(s, i + 1, 0, pending_hex)
            } else if c == 'x' {
                spec_pre_lex_widths_from(s, i + 1, 2, pending_hex)
            } else if c == '\\' {
                seq![1usize] + spec_pre_lex_widths_from(s, i + 1, 1, pending_hex)
            } else {
                seq![1usize, 1usize] + spec_pre_lex_widths_from(s, i + 1, 0, pending_hex)
            }
        } else if state == 2 {
            if spec_is_hex_digit(c) {
                spec_pre_lex_widths_from(s, i + 1, 3, c)
            } else if c == '\\' {
                seq![1usize, 1usize] + spec_pre_lex_widths_from(s, i + 1, 1, pending_hex)
            } else {
                seq![1usize, 1usize, 1usize] + spec_pre_lex_widths_from(s, i + 1, 0, pending_hex)
            }
        } else {
            if spec_is_hex_digit(c) {
                seq![4usize] + spec_pre_lex_widths_from(s, i + 1, 0, pending_hex)
            } else if c == '\\' {
                seq![1usize, 1usize, 1usize] + spec_pre_lex_widths_from(s, i + 1, 1, pending_hex)
            } else {
                seq![1usize, 1usize, 1usize, 1usize] + spec_pre_lex_widths_from(s, i + 1, 0, pending_hex)
            }
        }
    }
}

/// The widths of the literals flushed at the end of the input.
pub open spec fn spec_flush_widths(state: int) -> Seq<usize> {
    if state == 0 {
        Seq::empty()
    } else if state == 1 {
        seq![1usize]
    } else if state == 2 {
        seq![1usize, 1usize]
    } else {
        seq![1usize, 1usize, 1usize]
    }
}

/// The widths of a whole pattern's seeds.
pub open spec fn spec_pre_lex_widths(s: Seq<char>) -> Seq<usize> {
    spec_pre_lex_widths_from(s, 0, 0, ' ')
}

/// How many source characters an escape still pending in the given scanner
/// state has consumed.
pub open spec fn spec_pending_chars(state: int) -> int {
    if state == 0 {
        0
    } else if state == 1 {
        1
    } else if state == 2 {
        2
    } else {
        3
    }
}

/// The sum of `widths[from..to)`.
pub open spec fn width_sum(widths: Seq<usize>, from: int, to: int) -> int
    decreases to - from,
{
    if from >= to || from < 0 || to > widths.len() {
        0
    } else {
        width_sum(widths, from, to - 1) + widths[to - 1]
    }
}

/// A width sum reads only the entries of its range.
pub proof fn lemma_width_sum_agrees(w1: Seq<usize>, w2: Seq<usize>, from: int, to: int)
    requires
        0 <= from,
        to <= w1.len(),
        to <= w2.len(),
        forall|j: int| from <= j < to ==> w1[j] == w2[j],
    ensures
        width_sum(w1, from, to) == width_sum(w2, from, to),
    decreases to - from,
{
    if from < to {
        lemma_width_sum_agrees(w1, w2, from, to - 1);
    }
}

/// A width sum splits at any point of its range.
pub proof fn lemma_width_sum_split(widths: Seq<usize>, from: int, mid: int, to: int)
    requires
        0 <= from <= mid <= to <= widths.len(),
    ensures
        width_sum(widths, from, to) == width_sum(widths, from, mid) + width_sum(widths, mid, to),
    decreases to - mid,
{
    if mid < to {
        lemma_width_sum_split(widths, from, mid, to - 1);
    }
}

/// Every width sum is at least zero.
pub proof fn lemma_width_sum_nonnegative(widths: Seq<usize>, from: int, to: int)
    ensures
        width_sum(widths, from, to) >= 0,
    decreases to - from,
{
    if from < to && from >= 0 && to <= widths.len() {
        lemma_width_sum_nonnegative(widths, from, to - 1);
    }
}

/// The full pre-lex of a pattern string.
pub open spec fn spec_pre_lex(s: Seq<char>) -> Seq<char> {
    spec_pre_lex_from(s, 0, 0, ' ')
}

/// Every seed the pre-lexer hands to the parser is a plain character.
pub open spec fn all_character_seeds(tokens: Seq<MatchingGroup>) -> bool {
    forall|j: int| 0 <= j < tokens.len() ==> #[trigger] tokens[j]@ is Character
}

/// The characters carried by a sequence of `Character` seeds.
pub open spec fn seed_chars(tokens: Seq<MatchingGroup>) -> Seq<char> {
    Seq::new(tokens.len(), |j: int| tokens[j]@->Character_0)
}

/// Relies on nothing outside this crate: the numeric value of a hex digit,
/// upper or lower case.
pub fn get_character_hex_value(character: char) -> (r: u32)
    requires
        spec_is_hex_digit(character),
    ensures
        r == spec_hex_value(character),
        r < 16,
{
    if '0' <= character && character <= '9' {
        (character as u32) - 48
    } else if 'a' <= character && character <= 'f' {
        (character as u32) - 87
    } else {
        (character as u32) - 55
    }
}

fn is_hex_digit(character: char) -> (r: bool)
    ensures
        r == spec_is_hex_digit(character),
{
    ('0' <= character && character <= '9') || ('a' <= character && character <= 'f') || ('A'
        <= character && character <= 'F')
}

/// One width pushed onto the record extends its sum by that width.
proof fn lemma_width_push(widths: Seq<usize>, x: usize)
    ensures
        width_sum(widths.push(x), 0, widths.len() as int + 1) == width_sum(widths, 0, widths.len() as int)
            + x,
{
    lemma_width_sum_agrees(widths.push(x), widths, 0, widths.len() as int);
}

/// Pre-lexes the pattern into matching-group seeds, and records how many
/// source characters each seed stands for: the widths align one-to-one with
/// the seeds, and they partition the whole pattern.
pub(crate) fn pre_lex_seeds(regex: &str) -> (r: (Vec<MatchingGroup>, Vec<usize>))
    ensures
        all_character_seeds(r.0@),
        seed_chars(r.0@) == spec_pre_lex(regex@),
        r.1@ == spec_pre_lex_widths(regex@),
        r.1@.len() == r.0@.len(),
        width_sum(r.1@, 0, r.1@.len() as int) == regex@.len(),
        width_sum(r.1@, 0, r.1@.len() as int) <= usize::MAX,
{
    let n: usize = regex.unicode_len();
    let mut output: Vec<MatchingGroup> = Vec::new();
    let mut widths: Vec<usize> = Vec::new();
    let mut state: u8 = 0;
    let mut pending_hex: char = ' ';
    let mut i: usize = 0;

    while i < n
        invariant
            n == regex@.len(),
            i <= n,
            state <= 3,
            state == 3 ==> spec_is_hex_digit(pending_hex),
            all_character_seeds(output@),
            widths@.len() == output@.len(),
            spec_pre_lex(regex@) == seed_chars(output@) + spec_pre_lex_from(
                regex@,
                i as int,
                state as int,
                pending_hex,
            ),
            spec_pre_lex_widths(regex@) == widths@ + spec_pre_lex_widths_from(
                regex@,
                i as int,
                state as int,
                pending_hex,
            ),
            width_sum(widths@, 0, widths@.len() as int) == i - spec_pending_chars(state as int),
        decreases n - i,
    {
        let ghost prev_out = output@;
        let ghost prev_widths = widths@;
        let c = regex.get_char(i);
        if state == 0 {
            if c == '\\' {
                state = 1;
            } else {
                output.push(MatchingGroup::Character(c));
                widths.push(1);
            }
        } else if state == 1 {
            if c == 'r' {
                output.push(MatchingGroup::Character('\r'));
                widths.push(2);
                state = 0;
            } else if c == 'n' {
                output.push(MatchingGroup::Character('\n'));
                widths.push(2);
                state = 0;
            } else if c == 't' {
                output.push(MatchingGroup::Character('\t'));
                widths.push(2);
                state = 0;
            } else if c == 'x' {
                state = 2;
            } else if c == '\\' {
                output.push(MatchingGroup::Character('\\'));
                widths.push(1);
            } else {
                output.push(MatchingGroup::Character('\\'));
                output.push(MatchingGroup::Character(c));
                widths.push(1);
                widths.push(1);
                state = 0;
            }
        } else if state == 2 {
            if is_hex_digit(c) {
                pending_hex = c;
                state = 3;
            } else if c == '\\' {
                output.push(MatchingGroup::Character('\\'));
                output.push(MatchingGroup::Character('x'));
                widths.push(1);
                widths.push(1);
                state = 1;
            } else {
                output.push(MatchingGroup::Character('\\'));
                output.push(MatchingGroup::Character('x'));
                output.push(MatchingGroup::Character(c));
                widths.push(1);
                widths.push(1);
                widths.push(1);
                state = 0;
            }
        } else {
            if is_hex_digit(c) {
                let value: u32 = get_character_hex_value(pending_hex) * 16
                    + get_character_hex_value(c);
                let resolved: char = (value as u8) as char;
                output.push(MatchingGroup::Character(resolved));
                widths.push(4);
                state = 0;
            } else if c == '\\' {
                output.push(MatchingGroup::Character('\\'));
                output.push(MatchingGroup::Character('x'));
                output.push(MatchingGroup::Character(pending_hex));
                widths.push(1);
                widths.push(1);
                widths.push(1);
                state = 1;
            } else {
                output.push(MatchingGroup::Character('\\'));
                output.push(MatchingGroup::Character('x'));
                output.push(MatchingGroup::Character(pending_hex));
                output.push(MatchingGroup::Character(c));
                widths.push(1);
                widths.push(1);
                widths.push(1);
                widths.push(1);
                state = 0;
            }
        }
        proof {
            assert(seed_chars(output@) =~= seed_chars(prev_out) + (seed_chars(output@).skip(
                prev_out.len() as int,
            )));
            assert(widths@ =~= prev_widths + (widths@.skip(prev_widths.len() as int)));
            lemma_width_sum_agrees(widths@, prev_widths, 0, prev_widths.len() as int);
            lemma_width_sum_split(widths@, 0, prev_widths.len() as int, widths@.len() as int);
            reveal_with_fuel(width_sum, 6);
        }
        i = i + 1;
    }

    let ghost scanned_out = output@;
    let ghost scanned_widths = widths@;
    if state > 0 {
        output.push(MatchingGroup::Character('\\'));
        widths.push(1);
    }
    if state > 1 {
        output.push(MatchingGroup::Character('x'));
        widths.push(1);
    }
    if state == 3 {
        output.push(MatchingGroup::Character(pending_hex));
        widths.push(1);
    }
    proof {
        assert(seed_chars(output@) =~= spec_pre_lex(regex@));
        assert(widths@ =~= spec_pre_lex_widths(regex@));
        assert(widths@ =~= scanned_widths + (widths@.skip(scanned_widths.len() as int)));
        lemma_width_sum_agrees(widths@, scanned_widths, 0, scanned_widths.len() as int);
        lemma_width_sum_split(widths@, 0, scanned_widths.len() as int, widths@.len() as int);
        reveal_with_fuel(width_sum, 6);
    }
    (output, widths)
}

/// Pre-lexes the pattern into matching-group seeds; only `Character` seeds
/// are produced at this stage.
pub fn get_character_array(regex: &str) -> (r: Vec<MatchingGroup>)
    ensures
        all_character_seeds(r@),
        seed_chars(r@) == spec_pre_lex(regex@),
{
    let (seeds, _widths) = pre_lex_seeds(regex);
    seeds
}

} // verus!
