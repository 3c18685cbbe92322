//! The pattern parser: a recursive-descent pass over the pre-lexed seeds that
//! produces an index-addressed arena of parse states and a concatenation
//! order list. The spec functions mirror the scanner step by step, so every
//! arena and list the parser builds is pinned exactly.
//!
//! Bookkeeping at recursion boundaries: scan positions are in units of
//! pre-lexed seeds, while every `consumed_characters` count of a
//! concatenation list is in characters of the original source string — each
//! seed carries its source width from the pre-lexer (`\xff` is four source
//! characters but one seed), and a call's count is the sum over the seeds it
//! consumed. A nested call for a group starts one seed after the `(` and
//! also reports how many seeds it consumed, the closing `)` included, so the
//! caller resumes exactly one seed past the `)` while accounting for the
//! group's source characters; a nested call for an alternation consumes the
//! whole remainder of its branch. The character-class sub-parser's count
//! stays in seeds: its caller folds the widths in.

use vstd::pervasive::unreached;
use vstd::prelude::*;

use crate::characters::all_character_seeds;
use crate::characters::lemma_width_sum_nonnegative;
use crate::characters::lemma_width_sum_split;
use crate::characters::seed_chars;
use crate::characters::width_sum;
use crate::groups::MatchingGroup;
use crate::groups::MatchingGroupElements;
use crate::groups::MatchingGroupView;

verus! {

/// Why a pattern was rejected. All three are found at compile time; matching
/// never fails.
#[derive(Clone, Copy, Debug, PartialEq, Eq, Structural)]
pub enum RegexError {
    /// A `[` reached the end of the pattern without its `]`.
    UnterminatedCharacterClass,
    /// A `*`, `?` or `+` appeared with no preceding operand to act on.
    DanglingOperator,
    /// An arena entry tagged as an operator carries no operand list. The
    /// parser never builds such an entry; the error stands for the
    /// compiler-internal invariant, and also rejects a syntax tree that still
    /// holds the transient empty marker (as the tree of an empty pattern does).
    InvalidOperatorState,
}

/// One parse-state arena entry. Operator entries (`*`, `?`, `|`) reference
/// their operand sub-expressions as lists of arena indices; `is_escaped`
/// marks a character that came from inside quotes and suppresses its
/// operator reading.
#[derive(Debug)]
pub struct State {
    pub matching_group: MatchingGroup,
    pub left_next: Option<Vec<usize>>,
    pub right_next: Option<Vec<usize>>,
    pub is_escaped: bool,
}

/// The mathematical value of an arena entry.
pub struct StateView {
    pub matching_group: MatchingGroupView,
    pub left_next: Option<Seq<usize>>,
    pub right_next: Option<Seq<usize>>,
    pub is_escaped: bool,
}

impl View for State {
    type V = StateView;

    open spec fn view(&self) -> StateView {
        StateView {
            matching_group: self.matching_group@,
            left_next: match self.left_next {
                Option::Some(ref l) => Option::Some(l@),
                Option::None => Option::None,
            },
            right_next: match self.right_next {
                Option::Some(ref l) => Option::Some(l@),
                Option::None => Option::None,
            },
            is_escaped: self.is_escaped,
        }
    }
}

/// The values of a whole arena.
pub open spec fn stack_views(stack: Seq<State>) -> Seq<StateView> {
    Seq::new(stack.len(), |k: int| stack[k]@)
}

impl State {
    /// A fresh arena entry outside quotes.
    pub fn new(
        matching_group: MatchingGroup,
        left_next: Option<Vec<usize>>,
        right_next: Option<Vec<usize>>,
    ) -> (r: State)
        ensures
            r@.matching_group == matching_group@,
            r@.left_next == (match left_next {
                Option::Some(l) => Option::Some(l@),
                Option::None => Option::<Seq<usize>>::None,
            }),
            r@.right_next == (match right_next {
                Option::Some(l) => Option::Some(l@),
                Option::None => Option::<Seq<usize>>::None,
            }),
            r@.is_escaped == false,
    {
        State { matching_group, left_next, right_next, is_escaped: false }
    }

    /// A fresh arena entry for a character seen inside quotes: its operator
    /// reading is suppressed.
    pub fn new_escaped(
        matching_group: MatchingGroup,
        left_next: Option<Vec<usize>>,
        right_next: Option<Vec<usize>>,
    ) -> (r: State)
        ensures
            r@.matching_group == matching_group@,
            r@.left_next == (match left_next {
                Option::Some(l) => Option::Some(l@),
                Option::None => Option::<Seq<usize>>::None,
            }),
            r@.right_next == (match right_next {
                Option::Some(l) => Option::Some(l@),
                Option::None => Option::<Seq<usize>>::None,
            }),
            r@.is_escaped == true,
    {
        State { matching_group, left_next, right_next, is_escaped: true }
    }
}

/// A concatenation order list: the arena indices of one nesting level's
/// sub-expressions in order, and how many characters of the original source
/// string the call that built it consumed.
pub struct ConcatenationList {
    pub list: Vec<usize>,
    pub consumed_characters: usize,
}

impl ConcatenationList {
    pub fn new(list: Vec<usize>, consumed_characters: usize) -> (r: ConcatenationList)
        ensures
            r.list@ == list@,
            r.consumed_characters == consumed_characters,
    {
        ConcatenationList { list, consumed_characters }
    }
}

/// A parsed character class and how many seeds it consumed, the `]` included.
pub struct CharacterGroupCalculation {
    pub group: MatchingGroup,
    pub consumed_characters: usize,
}

impl CharacterGroupCalculation {
    pub fn new(group: MatchingGroup, consumed_characters: usize) -> (r: CharacterGroupCalculation)
        ensures
            r.group@ == group@,
            r.consumed_characters == consumed_characters,
    {
        CharacterGroupCalculation { group, consumed_characters }
    }
}

/// Characters the class scanner treats as possible range endpoints.
pub open spec fn spec_is_alnum(c: char) -> bool {
    ('a' <= c && c <= 'z') || ('0' <= c && c <= '9')
}

/// The finished predicate of a class.
pub open spec fn spec_mk_class(negative: bool, elements: Seq<MatchingGroupElements>) -> MatchingGroupView {
    if negative {
        MatchingGroupView::NegativeGroup(elements)
    } else {
        MatchingGroupView::Group(elements)
    }
}

/// What the class sub-parser returns: the predicate and the seed count it
/// consumed (the `]` and a leading `^` included), or a report that the class
/// never closed.
pub enum SpecClassResult {
    Closed(MatchingGroupView, int),
    Unterminated,
}

/// The class scanner from position `j`, in scanner state 0, 1 or 2 with
/// `prev` buffered, having collected `elements`; `class_start` is the
/// position just after the `[`.
pub open spec fn spec_class_from(
    tokens: Seq<char>,
    j: int,
    state: int,
    prev: char,
    elements: Seq<MatchingGroupElements>,
    negative: bool,
    class_start: int,
) -> SpecClassResult
    decreases tokens.len() - j,
{
    if j < 0 || j >= tokens.len() {
        SpecClassResult::Unterminated
    } else {
        let c = tokens[j];
        if state == 0 {
            if c == ']' {
                SpecClassResult::Closed(spec_mk_class(negative, elements), j - class_start + 1)
            } else if spec_is_alnum(c) {
                spec_class_from(tokens, j + 1, 1, c, elements, negative, class_start)
            } else {
                spec_class_from(
                    tokens,
                    j + 1,
                    0,
                    prev,
                    elements.push(MatchingGroupElements::Character(c)),
                    negative,
                    class_start,
                )
            }
        } else if state == 1 {
            if spec_is_alnum(c) {
                spec_class_from(
                    tokens,
                    j + 1,
                    1,
                    c,
                    elements.push(MatchingGroupElements::Character(prev)),
                    negative,
                    class_start,
                )
            } else if c == '-' {
                spec_class_from(tokens, j + 1, 2, prev, elements, negative, class_start)
            } else if c == ']' {
                SpecClassResult::Closed(
                    spec_mk_class(negative, elements.push(MatchingGroupElements::Character(prev))),
                    j - class_start + 1,
                )
            } else {
                spec_class_from(
                    tokens,
                    j + 1,
                    0,
                    prev,
                    elements.push(MatchingGroupElements::Character(prev)).push(
                        MatchingGroupElements::Character(c),
                    ),
                    negative,
                    class_start,
                )
            }
        } else {
            if spec_is_alnum(c) {
                spec_class_from(
                    tokens,
                    j + 1,
                    0,
                    prev,
                    elements.push(MatchingGroupElements::Range(prev, c)),
                    negative,
                    class_start,
                )
            } else if c == ']' {
                SpecClassResult::Closed(
                    spec_mk_class(
                        negative,
                        elements.push(MatchingGroupElements::Character(prev)).push(
                            MatchingGroupElements::Character('-'),
                        ),
                    ),
                    j - class_start + 1,
                )
            } else {
                spec_class_from(
                    tokens,
                    j + 1,
                    0,
                    prev,
                    elements.push(MatchingGroupElements::Character(prev)).push(
                        MatchingGroupElements::Character('-'),
                    ).push(MatchingGroupElements::Character(c)),
                    negative,
                    class_start,
                )
            }
        }
    }
}

/// The class sub-parser, entered at the position just after the `[`: a
/// leading `^` turns the class negative.
pub open spec fn spec_class(tokens: Seq<char>, class_start: int) -> SpecClassResult {
    if 0 <= class_start < tokens.len() && tokens[class_start] == '^' {
        spec_class_from(tokens, class_start + 1, 0, ' ', Seq::empty(), true, class_start)
    } else {
        spec_class_from(tokens, class_start, 0, ' ', Seq::empty(), false, class_start)
    }
}

/// A leaf arena entry.
pub open spec fn spec_leaf(group: MatchingGroupView, escaped: bool) -> StateView {
    StateView {
        matching_group: group,
        left_next: Option::None,
        right_next: Option::None,
        is_escaped: escaped,
    }
}

/// A unary operator arena entry over one operand.
pub open spec fn spec_unary(op: char, operand: usize) -> StateView {
    StateView {
        matching_group: MatchingGroupView::Character(op),
        left_next: Option::Some(seq![operand]),
        right_next: Option::None,
        is_escaped: false,
    }
}

/// An alternation arena entry over two branch lists.
pub open spec fn spec_alternation(left: Seq<usize>, right: Seq<usize>) -> StateView {
    StateView {
        matching_group: MatchingGroupView::Character('|'),
        left_next: Option::Some(left),
        right_next: Option::Some(right),
        is_escaped: false,
    }
}

/// What one parser call returns: the grown arena, the concatenation list,
/// the source characters consumed (the sum of the consumed seeds' widths)
/// and the seeds consumed — or the error that stopped it.
pub enum SpecParseResult {
    Parsed(Seq<StateView>, Seq<usize>, int, int),
    Failed(RegexError),
}

/// The scan position after splicing a nested call that consumed `consumed`
/// seeds starting one past position `i`; clamped into range so that the scan
/// always advances.
pub open spec fn spec_advance(i: int, consumed: int, len: int) -> int {
    let next = if consumed < 0 {
        i + 1
    } else {
        i + 1 + consumed
    };
    if next > len {
        len
    } else {
        next
    }
}

/// The parser, one seed at a time: position `i` in `tokens`, current arena
/// `stack`, current concatenation list `list`, quoting flag `in_quotes`, and
/// the position `start` where this call began (consumed counts are relative
/// to it).
pub open spec fn spec_parse(
    tokens: Seq<char>,
    widths: Seq<usize>,
    i: int,
    start: int,
    stack: Seq<StateView>,
    list: Seq<usize>,
    in_quotes: bool,
) -> SpecParseResult
    decreases tokens.len() - i,
{
    if i < 0 || i >= tokens.len() {
        SpecParseResult::Parsed(stack, list, width_sum(widths, start, i), i - start)
    } else {
        let c = tokens[i];
        if in_quotes && c != '"' {
            spec_parse(
                tokens,
                widths,
                i + 1,
                start,
                stack.push(spec_leaf(MatchingGroupView::Character(c), true)),
                list.push(stack.len() as usize),
                in_quotes,
            )
        } else if c == '[' {
            match spec_class(tokens, i + 1) {
                SpecClassResult::Unterminated => SpecParseResult::Failed(
                    RegexError::UnterminatedCharacterClass,
                ),
                SpecClassResult::Closed(group, consumed) => spec_parse(
                    tokens,
                    widths,
                    spec_advance(i, consumed, tokens.len() as int),
                    start,
                    stack.push(spec_leaf(group, false)),
                    list.push(stack.len() as usize),
                    in_quotes,
                ),
            }
        } else if c == '*' || c == '?' {
            if list.len() == 0 {
                SpecParseResult::Failed(RegexError::DanglingOperator)
            } else {
                spec_parse(
                    tokens,
                    widths,
                    i + 1,
                    start,
                    stack.push(spec_unary(c, list[list.len() - 1])),
                    list.update(list.len() - 1, stack.len() as usize),
                    in_quotes,
                )
            }
        } else if c == '+' {
            if list.len() == 0 {
                SpecParseResult::Failed(RegexError::DanglingOperator)
            } else {
                spec_parse(
                    tokens,
                    widths,
                    i + 1,
                    start,
                    stack.push(spec_unary('*', list[list.len() - 1])),
                    list.push(stack.len() as usize),
                    in_quotes,
                )
            }
        } else if c == '(' {
            match spec_parse(tokens, widths, i + 1, i + 1, stack, Seq::empty(), false) {
                SpecParseResult::Failed(e) => SpecParseResult::Failed(e),
                SpecParseResult::Parsed(sub_stack, sub_list, sub_source, sub_seeds) => spec_parse(
                    tokens,
                    widths,
                    spec_advance(i, sub_seeds, tokens.len() as int),
                    start,
                    sub_stack,
                    list + sub_list,
                    in_quotes,
                ),
            }
        } else if c == ')' {
            SpecParseResult::Parsed(stack, list, width_sum(widths, start, i + 1), i - start + 1)
        } else if c == '|' {
            match spec_parse(tokens, widths, i + 1, i + 1, stack, Seq::empty(), false) {
                SpecParseResult::Failed(e) => SpecParseResult::Failed(e),
                SpecParseResult::Parsed(sub_stack, sub_list, sub_source, sub_seeds) => SpecParseResult::Parsed(
                    sub_stack.push(spec_alternation(list, sub_list)),
                    seq![sub_stack.len() as usize],
                    width_sum(widths, start, i + 1) + sub_source,
                    (i - start) + 1 + sub_seeds,
                ),
            }
        } else if c == '"' {
            spec_parse(tokens, widths, i + 1, start, stack, list, !in_quotes)
        } else {
            spec_parse(
                tokens,
                widths,
                i + 1,
                start,
                stack.push(spec_leaf(MatchingGroupView::Character(c), false)),
                list.push(stack.len() as usize),
                in_quotes,
            )
        }
    }
}

/// The parse of a whole pattern's seeds and widths.
pub open spec fn spec_parse_tokens(tokens: Seq<char>, widths: Seq<usize>) -> SpecParseResult {
    spec_parse(tokens, widths, 0, 0, Seq::empty(), Seq::empty(), false)
}

/// Well-formedness of one arena entry at index `k`: operand references point
/// strictly downward, unescaped operator entries carry their operand lists,
/// and no entry holds the accepting sentinel (only the compiler appends it,
/// after parsing).
pub open spec fn entry_wf(entry: StateView, k: int) -> bool {
    &&& !(entry.matching_group is AcceptedState)
    &&& match entry.left_next {
        Option::Some(l) => forall|m: int| 0 <= m < l.len() ==> (#[trigger] l[m]) < k,
        Option::None => true,
    }
    &&& match entry.right_next {
        Option::Some(l) => forall|m: int| 0 <= m < l.len() ==> (#[trigger] l[m]) < k,
        Option::None => true,
    }
    &&& (!entry.is_escaped && (entry.matching_group == MatchingGroupView::Character('*')
        || entry.matching_group == MatchingGroupView::Character('?')) ==> entry.left_next is Some)
    &&& (!entry.is_escaped && entry.matching_group == MatchingGroupView::Character('|')
        ==> entry.left_next is Some && entry.right_next is Some)
}

/// Well-formedness of a whole arena.
pub open spec fn arena_wf(stack: Seq<StateView>) -> bool {
    forall|k: int| 0 <= k < stack.len() ==> entry_wf(#[trigger] stack[k], k)
}

/// Every index of a concatenation list points into the arena.
pub open spec fn list_wf(stack: Seq<StateView>, list: Seq<usize>) -> bool {
    forall|m: int| 0 <= m < list.len() ==> (#[trigger] list[m]) < stack.len()
}

/// The character a pre-lexer seed carries.
fn seed_char(token: &MatchingGroup) -> (c: char)
    requires
        token@ is Character,
    ensures
        token@ == MatchingGroupView::Character(c),
{
    match token {
        MatchingGroup::Character(c) => *c,
        _ => unreached(),
    }
}

/// The character-class sub-parser, entered at the seed just after the `[`.
pub(crate) fn get_character_group(tokens: &Vec<MatchingGroup>, class_start: usize) -> (r: Result<
    CharacterGroupCalculation,
    RegexError,
>)
    requires
        all_character_seeds(tokens@),
        class_start <= tokens@.len(),
    ensures
        match r {
            Result::Ok(cgc) => {
                &&& spec_class(seed_chars(tokens@), class_start as int) == SpecClassResult::Closed(
                    cgc.group@,
                    cgc.consumed_characters as int,
                )
                &&& 1 <= cgc.consumed_characters
                &&& class_start + cgc.consumed_characters <= tokens@.len()
                &&& (cgc.group@ is Group || cgc.group@ is NegativeGroup)
            },
            Result::Err(e) => {
                &&& e == RegexError::UnterminatedCharacterClass
                &&& spec_class(seed_chars(tokens@), class_start as int)
                    is Unterminated
            },
        },
{
    let ghost chars = seed_chars(tokens@);
    let mut negative: bool = false;
    let mut j: usize = class_start;
    if class_start < tokens.len() {
        if seed_char(&tokens[class_start]) == '^' {
            negative = true;
            j = class_start + 1;
        }
    }
    let mut state: u8 = 0;
    let mut prev: char = ' ';
    let mut elements: Vec<MatchingGroupElements> = Vec::new();

    proof {
        assert(spec_class(chars, class_start as int) == spec_class_from(
            chars,
            j as int,
            0,
            ' ',
            Seq::empty(),
            negative,
            class_start as int,
        ));
    }
    while j < tokens.len()
        invariant
            all_character_seeds(tokens@),
            chars == seed_chars(tokens@),
            class_start <= j <= tokens@.len(),
            state <= 2,
            spec_class(chars, class_start as int) == spec_class_from(
                chars,
                j as int,
                state as int,
                prev,
                elements@,
                negative,
                class_start as int,
            ),
        decreases tokens@.len() - j,
    {
        let c = seed_char(&tokens[j]);
        proof {
            assert(chars[j as int] == c);
        }
        let is_alnum = ('a' <= c && c <= 'z') || ('0' <= c && c <= '9');
        if state == 0 {
            if c == ']' {
                let group = if negative {
                    MatchingGroup::NegativeGroup(elements)
                } else {
                    MatchingGroup::Group(elements)
                };
                return Result::Ok(CharacterGroupCalculation::new(group, j - class_start + 1));
            } else if is_alnum {
                state = 1;
                prev = c;
            } else {
                elements.push(MatchingGroupElements::Character(c));
            }
        } else if state == 1 {
            if is_alnum {
                elements.push(MatchingGroupElements::Character(prev));
                prev = c;
            } else if c == '-' {
                state = 2;
            } else if c == ']' {
                elements.push(MatchingGroupElements::Character(prev));
                let group = if negative {
                    MatchingGroup::NegativeGroup(elements)
                } else {
                    MatchingGroup::Group(elements)
                };
                return Result::Ok(CharacterGroupCalculation::new(group, j - class_start + 1));
            } else {
                elements.push(MatchingGroupElements::Character(prev));
                elements.push(MatchingGroupElements::Character(c));
                state = 0;
            }
        } else {
            if is_alnum {
                elements.push(MatchingGroupElements::Range(prev, c));
                state = 0;
            } else if c == ']' {
                elements.push(MatchingGroupElements::Character(prev));
                elements.push(MatchingGroupElements::Character('-'));
                let group = if negative {
                    MatchingGroup::NegativeGroup(elements)
                } else {
                    MatchingGroup::Group(elements)
                };
                return Result::Ok(CharacterGroupCalculation::new(group, j - class_start + 1));
            } else {
                elements.push(MatchingGroupElements::Character(prev));
                elements.push(MatchingGroupElements::Character('-'));
                elements.push(MatchingGroupElements::Character(c));
                state = 0;
            }
        }
        j = j + 1;
    }
    Result::Err(RegexError::UnterminatedCharacterClass)
}

/// Extends a running source-character count by the widths of `count` seeds
/// from position `index` on. The widths of a pattern sum to its length, so
/// the count never overflows.
fn consume_widths(
    widths: &Vec<usize>,
    start: usize,
    index: usize,
    count: usize,
    consumed_source: usize,
) -> (r: usize)
    requires
        start <= index,
        index + count <= widths@.len(),
        consumed_source as int == width_sum(widths@, start as int, index as int),
        width_sum(widths@, 0, widths@.len() as int) <= usize::MAX,
    ensures
        r as int == width_sum(widths@, start as int, index as int + count as int),
{
    let vector_length = widths.len();
    let mut total = consumed_source;
    let mut j: usize = 0;
    while j < count
        invariant
            start <= index,
            vector_length == widths@.len(),
            index + count <= vector_length,
            j <= count,
            width_sum(widths@, 0, widths@.len() as int) <= usize::MAX,
            total as int == width_sum(widths@, start as int, index as int + j as int),
        decreases count - j,
    {
        proof {
            lemma_width_sum_split(
                widths@,
                start as int,
                index as int + j as int,
                index as int + j as int + 1,
            );
            lemma_width_sum_split(widths@, 0, start as int, index as int + j as int + 1);
            lemma_width_sum_split(
                widths@,
                0,
                index as int + j as int + 1,
                widths@.len() as int,
            );
            lemma_width_sum_nonnegative(widths@, 0, start as int);
            lemma_width_sum_nonnegative(
                widths@,
                index as int + j as int + 1,
                widths@.len() as int,
            );
        }
        total = total + widths[index + j];
        j = j + 1;
    }
    total
}

/// One recursive-descent pass: parses `tokens[start..]` into `stack`,
/// returning the concatenation list of this nesting level, the source
/// characters it consumed (the sum of the consumed seeds' widths) and the
/// number of seeds it consumed, which is where the caller resumes. Re-entered
/// for each `(...)` body and for each alternation right-hand side. The arena
/// only grows, and it stays well-formed.
pub(crate) fn calculate_concatenation_list(
    stack: &mut Vec<State>,
    tokens: &Vec<MatchingGroup>,
    widths: &Vec<usize>,
    start: usize,
) -> (r: Result<(ConcatenationList, usize), RegexError>)
    requires
        all_character_seeds(tokens@),
        widths@.len() == tokens@.len(),
        width_sum(widths@, 0, widths@.len() as int) <= usize::MAX,
        start <= tokens@.len(),
        arena_wf(stack_views(old(stack)@)),
    ensures
        final(stack)@.len() >= old(stack)@.len(),
        forall|k: int| 0 <= k < old(stack)@.len() ==> final(stack)@[k] == old(stack)@[k],
        arena_wf(stack_views(final(stack)@)),
        match r {
            Result::Ok(parsed) => {
                &&& spec_parse(
                    seed_chars(tokens@),
                    widths@,
                    start as int,
                    start as int,
                    stack_views(old(stack)@),
                    Seq::empty(),
                    false,
                ) == SpecParseResult::Parsed(
                    stack_views(final(stack)@),
                    parsed.0.list@,
                    parsed.0.consumed_characters as int,
                    parsed.1 as int,
                )
                &&& list_wf(stack_views(final(stack)@), parsed.0.list@)
                &&& start + parsed.1 <= tokens@.len()
                &&& parsed.0.consumed_characters as int == width_sum(
                    widths@,
                    start as int,
                    start as int + parsed.1 as int,
                )
            },
            Result::Err(e) => spec_parse(
                seed_chars(tokens@),
                widths@,
                start as int,
                start as int,
                stack_views(old(stack)@),
                Seq::empty(),
                false,
            ) == SpecParseResult::Failed(e),
        },
    decreases tokens@.len() - start,
{
    let ghost chars = seed_chars(tokens@);
    let ghost stack0 = stack@;
    let mut character_is_in_quotes: bool = false;
    let mut concatenation_list: Vec<usize> = Vec::new();
    let mut index: usize = start;
    let mut consumed_source: usize = 0;

    while index < tokens.len()
        invariant
            all_character_seeds(tokens@),
            chars == seed_chars(tokens@),
            stack0 == old(stack)@,
            widths@.len() == tokens@.len(),
            width_sum(widths@, 0, widths@.len() as int) <= usize::MAX,
            start <= index <= tokens@.len(),
            consumed_source as int == width_sum(widths@, start as int, index as int),
            stack@.len() >= stack0.len(),
            forall|k: int| 0 <= k < stack0.len() ==> stack@[k] == stack0[k],
            arena_wf(stack_views(stack@)),
            list_wf(stack_views(stack@), concatenation_list@),
            spec_parse(
                chars,
                widths@,
                start as int,
                start as int,
                stack_views(stack0),
                Seq::empty(),
                false,
            ) == spec_parse(
                chars,
                widths@,
                index as int,
                start as int,
                stack_views(stack@),
                concatenation_list@,
                character_is_in_quotes,
            ),
        decreases tokens@.len() - index,
    {
        let ghost pre_views = stack_views(stack@);
        let character = seed_char(&tokens[index]);
        proof {
            assert(chars[index as int] == character);
        }

        if character_is_in_quotes && character != '"' {
            concatenation_list.push(stack.len());
            stack.push(State::new_escaped(MatchingGroup::Character(character), None, None));
            proof {
                assert(stack_views(stack@) =~= pre_views.push(
                    spec_leaf(MatchingGroupView::Character(character), true),
                ));
            }
            consumed_source = consume_widths(widths, start, index, 1, consumed_source);
            index = index + 1;
            continue ;
        }
        if character == '[' {
            let class = match get_character_group(tokens, index + 1) {
                Result::Ok(class) => class,
                Result::Err(e) => {
                    return Result::Err(e);
                },
            };
            concatenation_list.push(stack.len());
            let class_seeds = class.consumed_characters;
            stack.push(State::new(class.group, None, None));
            proof {
                assert(stack_views(stack@) =~= pre_views.push(
                    stack@[stack@.len() - 1]@,
                ));
                assert(spec_advance(index as int, class_seeds as int, chars.len() as int) == index
                    + class_seeds + 1);
            }
            consumed_source = consume_widths(widths, start, index, class_seeds + 1, consumed_source);
            index = index + class_seeds + 1;
            continue ;
        }
        if character == '*' || character == '?' {
            if concatenation_list.len() == 0 {
                return Result::Err(RegexError::DanglingOperator);
            }
            let list_length = concatenation_list.len();
            let last_state_index = concatenation_list[list_length - 1];
            let new_index = stack.len();
            concatenation_list.set(list_length - 1, new_index);
            let mut operand: Vec<usize> = Vec::new();
            operand.push(last_state_index);
            stack.push(State::new(MatchingGroup::Character(character), Some(operand), None));
            proof {
                assert(stack_views(stack@) =~= pre_views.push(spec_unary(character, last_state_index)));
            }
        } else if character == '+' {
            if concatenation_list.len() == 0 {
                return Result::Err(RegexError::DanglingOperator);
            }
            let list_length = concatenation_list.len();
            let last_state_index = concatenation_list[list_length - 1];
            concatenation_list.push(stack.len());
            let mut operand: Vec<usize> = Vec::new();
            operand.push(last_state_index);
            stack.push(State::new(MatchingGroup::Character('*'), Some(operand), None));
            proof {
                assert(stack_views(stack@) =~= pre_views.push(spec_unary('*', last_state_index)));
            }
        } else if character == '(' {
            let ghost list_before = concatenation_list@;
            let (mut group_list, sub_seeds) = match calculate_concatenation_list(
                stack,
                tokens,
                widths,
                index + 1,
            ) {
                Result::Ok(parsed) => parsed,
                Result::Err(e) => {
                    return Result::Err(e);
                },
            };
            concatenation_list.append(&mut group_list.list);
            proof {
                assert(spec_advance(index as int, sub_seeds as int, chars.len() as int) == index
                    + 1 + sub_seeds);
            }
            consumed_source = consume_widths(widths, start, index, 1, consumed_source);
            proof {
                lemma_width_sum_split(
                    widths@,
                    start as int,
                    index as int + 1,
                    index as int + 1 + sub_seeds as int,
                );
                lemma_width_sum_split(widths@, 0, start as int, index as int + 1 + sub_seeds as int);
                lemma_width_sum_split(
                    widths@,
                    0,
                    index as int + 1 + sub_seeds as int,
                    widths@.len() as int,
                );
                lemma_width_sum_nonnegative(widths@, 0, start as int);
                lemma_width_sum_nonnegative(
                    widths@,
                    index as int + 1 + sub_seeds as int,
                    widths@.len() as int,
                );
            }
            consumed_source = consumed_source + group_list.consumed_characters;
            index = index + 1 + sub_seeds;
            continue ;
        } else if character == ')' {
            let total_source = consume_widths(widths, start, index, 1, consumed_source);
            return Result::Ok(
                (ConcatenationList::new(concatenation_list, total_source), index - start + 1),
            );
        } else if character == '|' {
            let (second, sub_seeds) = match calculate_concatenation_list(
                stack,
                tokens,
                widths,
                index + 1,
            ) {
                Result::Ok(parsed) => parsed,
                Result::Err(e) => {
                    return Result::Err(e);
                },
            };
            let ghost sub_views = stack_views(stack@);
            let ghost first_list = concatenation_list@;
            let alternation_index = stack.len();
            stack.push(
                State::new(
                    MatchingGroup::Character('|'),
                    Some(concatenation_list),
                    Some(second.list),
                ),
            );
            proof {
                assert(stack_views(stack@) =~= sub_views.push(
                    spec_alternation(first_list, second.list@),
                ));
            }
            let step_source = consume_widths(widths, start, index, 1, consumed_source);
            proof {
                lemma_width_sum_split(
                    widths@,
                    start as int,
                    index as int + 1,
                    index as int + 1 + sub_seeds as int,
                );
                lemma_width_sum_split(widths@, 0, start as int, index as int + 1 + sub_seeds as int);
                lemma_width_sum_split(
                    widths@,
                    0,
                    index as int + 1 + sub_seeds as int,
                    widths@.len() as int,
                );
                lemma_width_sum_nonnegative(widths@, 0, start as int);
                lemma_width_sum_nonnegative(
                    widths@,
                    index as int + 1 + sub_seeds as int,
                    widths@.len() as int,
                );
            }
            let total_source = step_source + second.consumed_characters;
            let mut result_list: Vec<usize> = Vec::new();
            result_list.push(alternation_index);
            return Result::Ok(
                (
                    ConcatenationList::new(result_list, total_source),
                    (index - start) + 1 + sub_seeds,
                ),
            );
        } else if character == '"' {
            character_is_in_quotes = !character_is_in_quotes;
        } else {
            concatenation_list.push(stack.len());
            stack.push(State::new(MatchingGroup::Character(character), None, None));
            proof {
                assert(stack_views(stack@) =~= pre_views.push(
                    spec_leaf(MatchingGroupView::Character(character), false),
                ));
            }
        }
        consumed_source = consume_widths(widths, start, index, 1, consumed_source);
        index = index + 1;
    }
    Result::Ok((ConcatenationList::new(concatenation_list, consumed_source), index - start))
}

} // verus!
