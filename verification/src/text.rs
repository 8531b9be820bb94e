//! Small tools on text as sequences of characters.

use vstd::prelude::*;

verus! {

/// The character of one decimal digit.
pub open spec fn digit_char(digit: nat) -> char
    recommends
        digit < 10,
{
    if digit == 0 {
        '0'
    } else if digit == 1 {
        '1'
    } else if digit == 2 {
        '2'
    } else if digit == 3 {
        '3'
    } else if digit == 4 {
        '4'
    } else if digit == 5 {
        '5'
    } else if digit == 6 {
        '6'
    } else if digit == 7 {
        '7'
    } else if digit == 8 {
        '8'
    } else {
        '9'
    }
}

/// The decimal numeral of `n`: its digits, most significant first, with no
/// leading zero except for zero itself.
pub open spec fn decimal(n: nat) -> Seq<char>
    decreases n,
{
    if n < 10 {
        seq![digit_char(n)]
    } else {
        decimal(n / 10).push(digit_char(n % 10))
    }
}

/// The one-character text of a digit.
fn digit_text(digit: u64) -> (text: &'static str)
    requires
        digit < 10,
    ensures
        text@ == seq![digit_char(digit as nat)],
{
    proof {
        reveal_strlit("0");
        reveal_strlit("1");
        reveal_strlit("2");
        reveal_strlit("3");
        reveal_strlit("4");
        reveal_strlit("5");
        reveal_strlit("6");
        reveal_strlit("7");
        reveal_strlit("8");
        reveal_strlit("9");
    }
    let text = if digit == 0 {
        "0"
    } else if digit == 1 {
        "1"
    } else if digit == 2 {
        "2"
    } else if digit == 3 {
        "3"
    } else if digit == 4 {
        "4"
    } else if digit == 5 {
        "5"
    } else if digit == 6 {
        "6"
    } else if digit == 7 {
        "7"
    } else if digit == 8 {
        "8"
    } else {
        "9"
    };
    assert(text@ =~= seq![digit_char(digit as nat)]);
    text
}

/// Appends the decimal numeral of `n` to `out`.
pub fn push_decimal(out: &mut String, n: u64)
    ensures
        final(out)@ == old(out)@ + decimal(n as nat),
    decreases n,
{
    if n >= 10 {
        push_decimal(out, n / 10);
    }
    out.append(digit_text(n % 10));
    assert(out@ =~= old(out)@ + decimal(n as nat));
}

/// The characters of `text`, one by one.
pub fn chars_of(text: &str) -> (chars: Vec<char>)
    ensures
        chars@ == text@,
{
    let mut chars: Vec<char> = Vec::new();
    for c in it: text.chars()
        invariant
            chars@ == text@.take(it.index()),
            it.seq() == text@,
    {
        chars.push(c);
        assert(chars@ =~= text@.take(it.index() + 1));
    }
    assert(text@.take(text@.len() as int) =~= text@);
    chars
}

/// Whether `c` is white space, as the Unicode property `White_Space` has it.
pub uninterp spec fn is_whitespace(c: char) -> bool;

/// Whether `c` is alphabetic or numeric: it has the Unicode property
/// `Alphabetic`, or is in one of the general categories of numbers.
pub uninterp spec fn is_alphanumeric(c: char) -> bool;

/// `char::is_whitespace` decides the property that `is_whitespace` names.
pub assume_specification[ char::is_whitespace ](c: char) -> (white: bool)
    ensures
        white == is_whitespace(c),
;

/// `char::is_alphanumeric` decides the property that `is_alphanumeric` names.
pub assume_specification[ char::is_alphanumeric ](c: char) -> (alphanumeric: bool)
    ensures
        alphanumeric == is_alphanumeric(c),
;

/// `String::push` appends one character.
pub assume_specification[ String::push ](text: &mut String, c: char)
    ensures
        final(text)@ == old(text)@.push(c),
;

/// The classes of characters that a scan can run over.
#[derive(Clone, Copy, Debug, PartialEq, Eq, Structural)]
pub enum CharClass {
    Space,
    NonSpace,
    NonAlphanumeric,
    /// Every character but the line feed.
    NonLineFeed,
}

/// Whether `c` is of the class `class`.
pub open spec fn in_class(class: CharClass, c: char) -> bool {
    match class {
        CharClass::Space => is_whitespace(c),
        CharClass::NonSpace => !is_whitespace(c),
        CharClass::NonAlphanumeric => !is_alphanumeric(c),
        CharClass::NonLineFeed => c != '\n',
    }
}

/// The first position from `from` on that holds no character of `class`;
/// the length of the text if there is none.
pub open spec fn run_end(text: Seq<char>, class: CharClass, from: int) -> int
    decreases text.len() - from,
{
    if 0 <= from < text.len() && in_class(class, text[from]) {
        run_end(text, class, from + 1)
    } else {
        from
    }
}

/// The least end, not below `start`, of the part of `text` before `end`
/// that does not end in a character of `class`.
pub open spec fn run_start(text: Seq<char>, class: CharClass, start: int, end: int) -> int
    decreases end - start,
{
    if start < end <= text.len() && 0 < end && in_class(class, text[end - 1]) {
        run_start(text, class, start, end - 1)
    } else {
        end
    }
}

/// `text` without the characters of `class` at its two ends.
pub open spec fn stripped(text: Seq<char>, class: CharClass) -> Seq<char> {
    let start = run_end(text, class, 0);
    let end = run_start(text, class, start, text.len() as int);
    text.subrange(start, end)
}

/// Whether `needle` stands in `hay` at position `at`.
pub open spec fn occurs_at(hay: Seq<char>, needle: Seq<char>, at: int) -> bool {
    0 <= at && at + needle.len() <= hay.len() && hay.subrange(at, at + needle.len()) == needle
}

/// The first position from `from` on at which `needle` stands in `hay`.
pub open spec fn first_match_from(hay: Seq<char>, needle: Seq<char>, from: int) -> Option<int>
    decreases hay.len() - from + 1,
{
    if from < 0 || from + needle.len() > hay.len() {
        None
    } else if occurs_at(hay, needle, from) {
        Some(from)
    } else {
        first_match_from(hay, needle, from + 1)
    }
}

/// The first position at which `needle` stands in `hay`.
pub open spec fn first_match(hay: Seq<char>, needle: Seq<char>) -> Option<int> {
    first_match_from(hay, needle, 0)
}

/// A run ends between where it starts and the end of the text.
pub proof fn lemma_run_end_bounds(text: Seq<char>, class: CharClass, from: int)
    requires
        0 <= from <= text.len(),
    ensures
        from <= run_end(text, class, from) <= text.len(),
    decreases text.len() - from,
{
    if from < text.len() && in_class(class, text[from]) {
        lemma_run_end_bounds(text, class, from + 1);
    }
}

/// A match, if there is one, is a place where the needle stands, and the
/// needle stands nowhere before it.
pub proof fn lemma_first_match(hay: Seq<char>, needle: Seq<char>, from: int)
    requires
        0 <= from,
    ensures
        match first_match_from(hay, needle, from) {
            Some(at) => from <= at && occurs_at(hay, needle, at) && forall|earlier: int|
                from <= earlier < at ==> !occurs_at(hay, needle, earlier),
            None => forall|at: int| from <= at ==> !occurs_at(hay, needle, at),
        },
    decreases hay.len() - from + 1,
{
    if from + needle.len() <= hay.len() && !occurs_at(hay, needle, from) {
        lemma_first_match(hay, needle, from + 1);
    }
}

/// Whether `c` is of the class `class`.
pub fn is_in_class(class: CharClass, c: char) -> (inside: bool)
    ensures
        inside == in_class(class, c),
{
    match class {
        CharClass::Space => c.is_whitespace(),
        CharClass::NonSpace => !c.is_whitespace(),
        CharClass::NonAlphanumeric => !c.is_alphanumeric(),
        CharClass::NonLineFeed => c != '\n',
    }
}

/// Scans forward over the characters of `class`.
pub fn scan_run_end(text: &Vec<char>, class: CharClass, from: usize) -> (end: usize)
    requires
        from <= text.len(),
    ensures
        end == run_end(text@, class, from as int),
        from <= end <= text.len(),
{
    let mut at: usize = from;
    while at < text.len() && is_in_class(class, text[at])
        invariant
            from <= at <= text.len(),
            run_end(text@, class, from as int) == run_end(text@, class, at as int),
        decreases text.len() - at,
    {
        at = at + 1;
    }
    at
}

/// Scans backward from `end` over the characters of `class`, not beyond `start`.
pub fn scan_run_start(text: &Vec<char>, class: CharClass, start: usize, end: usize) -> (cut: usize)
    requires
        start <= end <= text.len(),
    ensures
        cut == run_start(text@, class, start as int, end as int),
        start <= cut <= end,
{
    let mut at: usize = end;
    while start < at && is_in_class(class, text[at - 1])
        invariant
            start <= at <= end,
            end <= text.len(),
            run_start(text@, class, start as int, end as int) == run_start(
                text@,
                class,
                start as int,
                at as int,
            ),
        decreases at - start,
    {
        at = at - 1;
    }
    at
}

/// The characters of `text` from `from` up to `to`.
pub fn part_of(text: &Vec<char>, from: usize, to: usize) -> (part: Vec<char>)
    requires
        from <= to <= text.len(),
    ensures
        part@ == text@.subrange(from as int, to as int),
{
    let mut part: Vec<char> = Vec::new();
    let mut at: usize = from;
    while at < to
        invariant
            from <= at <= to,
            to <= text.len(),
            part@ == text@.subrange(from as int, at as int),
        decreases to - at,
    {
        part.push(text[at]);
        assert(part@ =~= text@.subrange(from as int, at + 1));
        at = at + 1;
    }
    part
}

/// `text` without the characters of `class` at its two ends.
pub fn strip(text: &Vec<char>, class: CharClass) -> (inner: Vec<char>)
    ensures
        inner@ == stripped(text@, class),
{
    let start = scan_run_end(text, class, 0);
    let end = scan_run_start(text, class, start, text.len());
    part_of(text, start, end)
}

/// Whether `needle` stands in `hay` at position `at`.
pub fn stands_at(hay: &Vec<char>, needle: &Vec<char>, at: usize) -> (stands: bool)
    requires
        at + needle.len() <= hay.len(),
    ensures
        stands == occurs_at(hay@, needle@, at as int),
{
    let mut same: usize = 0;
    while same < needle.len()
        invariant
            same <= needle.len(),
            at + needle.len() <= hay.len(),
            forall|k: int| 0 <= k < same ==> hay@[at + k] == #[trigger] needle@[k],
        decreases needle.len() - same,
    {
        if hay[at + same] != needle[same] {
            proof {
                let part = hay@.subrange(at as int, at + needle.len());
                assert(part[same as int] != needle@[same as int]);
            }
            return false;
        }
        same = same + 1;
    }
    assert(hay@.subrange(at as int, at + needle.len()) =~= needle@);
    true
}

/// The first position at which `needle` stands in `hay`.
pub fn find_first(hay: &Vec<char>, needle: &Vec<char>) -> (found: Option<usize>)
    ensures
        match found {
            Some(at) => first_match(hay@, needle@) == Some(at as int) && at + needle@.len()
                <= hay@.len(),
            None => first_match(hay@, needle@) is None,
        },
{
    if needle.len() > hay.len() {
        return None;
    }
    let last: usize = hay.len() - needle.len();
    let mut at: usize = 0;
    loop
        invariant
            at <= last,
            last + needle.len() == hay.len(),
            first_match(hay@, needle@) == first_match_from(hay@, needle@, at as int),
        decreases last - at,
    {
        if stands_at(hay, needle, at) {
            return Some(at);
        }
        if at == last {
            assert(first_match_from(hay@, needle@, at + 1) is None);
            return None;
        }
        at = at + 1;
    }
}

/// Appends the characters of `chars` from `from` up to `to` to `out`.
pub fn push_chars(out: &mut String, chars: &Vec<char>, from: usize, to: usize)
    requires
        from <= to <= chars.len(),
    ensures
        final(out)@ == old(out)@ + chars@.subrange(from as int, to as int),
{
    let mut at: usize = from;
    assert(out@ =~= old(out)@ + chars@.subrange(from as int, at as int));
    while at < to
        invariant
            from <= at <= to,
            to <= chars.len(),
            out@ == old(out)@ + chars@.subrange(from as int, at as int),
        decreases to - at,
    {
        out.push(chars[at]);
        assert(out@ =~= old(out)@ + chars@.subrange(from as int, at + 1));
        at = at + 1;
    }
}

/// Whether two texts are the same, character by character.
pub fn same_chars(a: &Vec<char>, b: &Vec<char>) -> (same: bool)
    ensures
        same == (a@ == b@),
{
    if a.len() != b.len() {
        return false;
    }
    assert(a@.subrange(0, a@.len() as int) =~= a@);
    stands_at(a, b, 0)
}

/// The text of `chars`.
pub fn text_of(chars: &Vec<char>) -> (text: String)
    ensures
        text@ == chars@,
{
    let mut text = String::new();
    push_chars(&mut text, chars, 0, chars.len());
    assert(chars@.subrange(0, chars@.len() as int) =~= chars@);
    text
}

} // verus!
