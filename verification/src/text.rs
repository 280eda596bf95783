//! Strings as sequences of characters.

use vstd::prelude::*;
use vstd::string::*;

verus! {

/// The character has the Unicode property White_Space.
pub open spec fn white_space(c: char) -> bool {
    ||| '\u{9}' <= c <= '\u{D}'
    ||| c == '\u{20}'
    ||| c == '\u{85}'
    ||| c == '\u{A0}'
    ||| c == '\u{1680}'
    ||| '\u{2000}' <= c <= '\u{200A}'
    ||| c == '\u{2028}'
    ||| c == '\u{2029}'
    ||| c == '\u{202F}'
    ||| c == '\u{205F}'
    ||| c == '\u{3000}'
}

/// `char::is_whitespace` tells, from the character alone, whether it has the
/// Unicode property White_Space, that is, whether it is one of those listed in
/// `white_space`.
pub assume_specification[ char::is_whitespace ](c: char) -> (r: bool)
    ensures
        r == white_space(c),
;

/// The capital letters A to Z become small, every other character stays.
pub open spec fn lower(c: char) -> char {
    if 'A' <= c && c <= 'Z' {
        (c as u32 + 32) as char
    } else {
        c
    }
}

fn to_lower(c: char) -> (r: char)
    ensures
        r == lower(c),
{
    if 'A' <= c && c <= 'Z' {
        (c as u8 + 32) as char
    } else {
        c
    }
}

/// The characters of a string.
pub fn characters(text: &str) -> (r: Vec<char>)
    ensures
        r@ == text@,
{
    let mut r: Vec<char> = Vec::new();
    let length: usize = text.unicode_len();
    let mut i: usize = 0;
    while i < length
        invariant
            i <= length,
            length == text@.len(),
            r@ == text@.subrange(0, i as int),
        decreases length - i,
    {
        r.push(text.get_char(i));
        proof {
            assert(text@.subrange(0, i + 1) =~= text@.subrange(0, i as int).push(text@[i as int]));
        }
        i += 1;
    }
    proof {
        assert(text@.subrange(0, length as int) =~= text@);
    }
    r
}

/// Every character made small.
pub open spec fn lowered(text: Seq<char>) -> Seq<char> {
    text.map_values(|c: char| lower(c))
}

/// The pattern occurs in the text.
pub open spec fn occurs(text: Seq<char>, pattern: Seq<char>) -> bool {
    exists|i: int|
        0 <= i <= text.len() - pattern.len() && #[trigger] text.subrange(i, i + pattern.len())
            == pattern
}

/// The characters of a string, capital letters made small.
pub fn lowered_characters(text: &str) -> (r: Vec<char>)
    ensures
        r@ == lowered(text@),
{
    let source = characters(text);
    let mut r: Vec<char> = Vec::new();
    let mut i: usize = 0;
    while i < source.len()
        invariant
            i <= source.len(),
            source@ == text@,
            r@ == lowered(text@.subrange(0, i as int)),
        decreases source.len() - i,
    {
        r.push(to_lower(source[i]));
        proof {
            assert(lowered(text@.subrange(0, i + 1)) =~= lowered(text@.subrange(0, i as int)).push(
                lower(text@[i as int]),
            ));
        }
        i += 1;
    }
    proof {
        assert(text@.subrange(0, source.len() as int) =~= text@);
    }
    r
}

fn matches_at(text: &Vec<char>, pattern: &Vec<char>, at: usize) -> (r: bool)
    requires
        at + pattern@.len() <= text@.len(),
    ensures
        r == (text@.subrange(at as int, at + pattern@.len()) == pattern@),
{
    let length: usize = text.len();
    let mut i: usize = 0;
    while i < pattern.len()
        invariant
            i <= pattern@.len(),
            at + pattern@.len() <= length,
            length == text@.len(),
            forall|k: int| 0 <= k < i ==> text@[at + k] == pattern@[k],
        decreases pattern.len() - i,
    {
        if text[at + i] != pattern[i] {
            proof {
                assert(text@.subrange(at as int, at + pattern@.len())[i as int] != pattern@[i as int]);
            }
            return false;
        }
        i += 1;
    }
    proof {
        assert(text@.subrange(at as int, at + pattern@.len()) =~= pattern@);
    }
    true
}

/// Looks for a pattern in a text.
pub fn contains(text: &Vec<char>, pattern: &str) -> (r: bool)
    ensures
        r == occurs(text@, pattern@),
{
    let wanted = characters(pattern);
    if wanted.len() > text.len() {
        return false;
    }
    let last: usize = text.len() - wanted.len();
    let mut i: usize = 0;
    while i < last
        invariant
            wanted@ == pattern@,
            last == text@.len() - wanted@.len(),
            i <= last,
            forall|k: int|
                0 <= k < i ==> #[trigger] text@.subrange(k, k + pattern@.len()) != pattern@,
        decreases last - i,
    {
        if matches_at(text, &wanted, i) {
            return true;
        }
        i += 1;
    }
    matches_at(text, &wanted, last)
}

/// The words completed so far and the word under way.
pub open spec fn word_state(text: Seq<char>) -> (Seq<Seq<char>>, Seq<char>)
    decreases text.len(),
{
    if text.len() == 0 {
        (Seq::empty(), Seq::empty())
    } else {
        let (done, current) = word_state(text.drop_last());
        if !white_space(text.last()) {
            (done, current.push(text.last()))
        } else if current.len() == 0 {
            (done, current)
        } else {
            (done.push(current), Seq::empty())
        }
    }
}

/// The longest runs of characters that are not white space, in order.
pub open spec fn words(text: Seq<char>) -> Seq<Seq<char>> {
    let (done, current) = word_state(text);
    if current.len() == 0 {
        done
    } else {
        done.push(current)
    }
}

/// The views of strings.
pub open spec fn views(strings: Seq<String>) -> Seq<Seq<char>> {
    strings.map_values(|s: String| s@)
}

/// Splits a line at white space.
pub fn split_words(line: &str) -> (r: Vec<String>)
    ensures
        views(r@) == words(line@),
{
    let source = characters(line);
    let mut r: Vec<String> = Vec::new();
    let mut start: usize = 0;
    let mut i: usize = 0;
    proof {
        assert(line@.subrange(0, 0) =~= Seq::<char>::empty());
        assert(views(r@) =~= Seq::<Seq<char>>::empty());
    }
    while i < source.len()
        invariant
            start <= i <= source.len(),
            source@ == line@,
            word_state(line@.subrange(0, i as int)) == (
                views(r@),
                line@.subrange(start as int, i as int),
            ),
        decreases source.len() - i,
    {
        let ghost before = r@;
        proof {
            assert(line@.subrange(0, i + 1).drop_last() =~= line@.subrange(0, i as int));
            assert(line@.subrange(0, i + 1).last() == line@[i as int]);
        }
        if source[i].is_whitespace() {
            if start < i {
                let word = line.substring_char(start, i).to_owned();
                r.push(word);
                proof {
                    assert(views(r@) =~= views(before).push(line@.subrange(start as int, i as int)));
                }
            }
            start = i + 1;
            proof {
                assert(line@.subrange(i + 1, i + 1) =~= Seq::<char>::empty());
            }
        } else {
            proof {
                assert(line@.subrange(start as int, i + 1) =~= line@.subrange(
                    start as int,
                    i as int,
                ).push(line@[i as int]));
            }
        }
        i += 1;
    }
    proof {
        assert(line@.subrange(0, source.len() as int) =~= line@);
    }
    let ghost before = r@;
    if start < source.len() {
        let word = line.substring_char(start, source.len()).to_owned();
        r.push(word);
        proof {
            assert(views(r@) =~= views(before).push(
                line@.subrange(start as int, source.len() as int),
            ));
        }
    }
    r
}

proof fn lemma_word_state(text: Seq<char>)
    ensures
        forall|k: int|
            0 <= k < word_state(text).0.len() ==> is_word(#[trigger] word_state(text).0[k]),
        forall|k: int|
            0 <= k < word_state(text).1.len() ==> !white_space(#[trigger] word_state(text).1[k]),
    decreases text.len(),
{
    if text.len() > 0 {
        lemma_word_state(text.drop_last());
        let (done, current) = word_state(text.drop_last());
        let (new_done, new_current) = word_state(text);
        assert forall|k: int| 0 <= k < new_done.len() implies is_word(#[trigger] new_done[k]) by {
            if k < done.len() {
                assert(is_word(done[k]));
                assert(new_done[k] == done[k]);
            } else {
                assert(new_done[k] == current);
            }
        }
        assert forall|k: int| 0 <= k < new_current.len() implies !white_space(
            #[trigger] new_current[k],
        ) by {
            if k < current.len() {
                assert(new_current[k] == current[k]);
            }
        }
    }
}

/// At least one character, and none of them white space.
pub open spec fn is_word(text: Seq<char>) -> bool {
    text.len() > 0 && forall|k: int| 0 <= k < text.len() ==> !white_space(#[trigger] text[k])
}

/// A line falls into words: none is empty or holds white space.
pub proof fn lines_fall_into_words(text: Seq<char>)
    ensures
        forall|k: int| 0 <= k < words(text).len() ==> is_word(#[trigger] words(text)[k]),
{
    lemma_word_state(text);
}

/// A digit.
pub open spec fn digit_char(digit: int) -> char {
    (48 + digit) as char
}

/// A natural number in decimal digits, without leading zeros.
pub open spec fn decimal(number: nat) -> Seq<char>
    decreases number,
{
    if number < 10 {
        seq![digit_char(number as int)]
    } else {
        decimal(number / 10).push(digit_char((number % 10) as int))
    }
}

/// A whole number in decimal digits, with a minus where it is negative.
pub open spec fn signed_decimal(number: int) -> Seq<char> {
    if number < 0 {
        seq!['-'] + decimal((-number) as nat)
    } else {
        decimal(number as nat)
    }
}

/// Numbers with a comma and a space between two of them.
pub open spec fn separated(numbers: Seq<i64>) -> Seq<char>
    decreases numbers.len(),
{
    if numbers.len() == 0 {
        Seq::empty()
    } else if numbers.len() == 1 {
        signed_decimal(numbers[0] as int)
    } else {
        separated(numbers.drop_last()) + seq![',', ' '] + signed_decimal(numbers.last() as int)
    }
}

/// Numbers as a list in square brackets.
pub open spec fn listed(numbers: Seq<i64>) -> Seq<char> {
    seq!['['] + separated(numbers) + seq![']']
}

fn digit_text(digit: u64) -> (r: &'static str)
    requires
        digit < 10,
    ensures
        r@ == seq![digit_char(digit as int)],
{
    proof {
        reveal_strlit("0");
        reveal_strlit("1");
        reveal_strlit("2");
        reveal_strlit("3");
        reveal_strlit("4");
        reveal_strlit("5");
        reveal_strlit("6");
        reveal_strlit("7");
        reveal_strlit("8");
        reveal_strlit("9");
    }
    if digit == 0 {
        "0"
    } else if digit == 1 {
        "1"
    } else if digit == 2 {
        "2"
    } else if digit == 3 {
        "3"
    } else if digit == 4 {
        "4"
    } else if digit == 5 {
        "5"
    } else if digit == 6 {
        "6"
    } else if digit == 7 {
        "7"
    } else if digit == 8 {
        "8"
    } else {
        "9"
    }
}

/// Writes a natural number in decimal digits.
pub fn decimal_text(number: u64) -> (r: String)
    ensures
        r@ == decimal(number as nat),
    decreases number,
{
    if number < 10 {
        digit_text(number).to_owned()
    } else {
        let mut text = decimal_text(number / 10);
        let ghost leading = text@;
        text.append(digit_text(number % 10));
        assert(text@ =~= leading.push(digit_char((number % 10) as int)));
        text
    }
}

/// Writes a whole number in decimal digits.
pub fn signed_text(number: i64) -> (r: String)
    ensures
        r@ == signed_decimal(number as int),
{
    if number < 0 {
        let magnitude: u64 = (-(number as i128)) as u64;
        let mut text = "-".to_owned();
        proof {
            reveal_strlit("-");
            assert(text@ =~= seq!['-']);
        }
        text.append(decimal_text(magnitude).as_str());
        text
    } else {
        decimal_text(number as u64)
    }
}

/// Writes numbers as a list.
pub fn list_text(numbers: &Vec<i64>) -> (r: String)
    ensures
        r@ == listed(numbers@),
{
    let mut text = "[".to_owned();
    proof {
        reveal_strlit("[");
        reveal_strlit(", ");
        reveal_strlit("]");
        assert(text@ =~= seq!['['] + separated(numbers@.take(0)));
    }
    let mut i: usize = 0;
    while i < numbers.len()
        invariant
            i <= numbers@.len(),
            ", "@ == seq![',', ' '],
            text@ == seq!['['] + separated(numbers@.take(i as int)),
        decreases numbers@.len() - i,
    {
        let ghost before = text@;
        if i > 0 {
            text.append(", ");
        }
        text.append(signed_text(numbers[i]).as_str());
        proof {
            let later = numbers@.take(i + 1);
            assert(later.drop_last() =~= numbers@.take(i as int));
            assert(text@ =~= seq!['['] + separated(later));
        }
        i += 1;
    }
    assert(numbers@.take(numbers@.len() as int) =~= numbers@);
    text.append("]");
    assert("]"@ =~= seq![']']);
    text
}

/// The number that digits spell.
pub open spec fn spelled(digits: Seq<char>) -> int
    decreases digits.len(),
{
    if digits.len() == 0 {
        0
    } else {
        10 * spelled(digits.drop_last()) + (digits.last() as u32 - 48)
    }
}

/// A number is written with the digits that spell it, without a zero in front.
pub proof fn numbers_are_spelled_out(number: nat)
    ensures
        spelled(decimal(number)) == number,
        decimal(number).len() > 0,
        number < 10 <==> decimal(number).len() == 1,
        number > 0 ==> decimal(number)[0] != '0',
        forall|i: int| 0 <= i < decimal(number).len() ==> '0' <= #[trigger] decimal(number)[i] <= '9',
    decreases number,
{
    let text = decimal(number);
    if number < 10 {
        assert(text.drop_last() == Seq::<char>::empty());
        assert(spelled(text.drop_last()) == 0);
    } else {
        let before = decimal(number / 10);
        numbers_are_spelled_out(number / 10);
        assert(text.drop_last() == before);
        assert(text[0] == before[0]);
        assert forall|i: int| 0 <= i < text.len() implies '0' <= #[trigger] text[i] <= '9' by {
            if i < before.len() {
                assert(text[i] == before[i]);
            }
        }
    }
}

/// A negative number has a minus in front, and no other has.
pub proof fn negative_numbers_have_a_minus(number: int)
    ensures
        number >= 0 ==> signed_decimal(number) == decimal(number as nat),
        number < 0 ==> signed_decimal(number)[0] == '-' && signed_decimal(number).skip(1)
            == decimal((-number) as nat),
        number >= 0 ==> signed_decimal(number)[0] != '-',
{
    if number >= 0 {
        numbers_are_spelled_out(number as nat);
        assert('0' <= decimal(number as nat)[0]);
    }
}

/// Numbers in a list stand in brackets, parted by a comma and a space.
pub proof fn lists_are_bracketed(numbers: Seq<i64>, last: i64)
    ensures
        listed(Seq::empty()) == seq!['[', ']'],
        listed(seq![last]) == seq!['['] + signed_decimal(last as int) + seq![']'],
        numbers.len() > 0 ==> listed(numbers.push(last)) == listed(numbers).drop_last() + seq![
            ',',
            ' ',
        ] + signed_decimal(last as int) + seq![']'],
{
    assert(listed(Seq::empty()) =~= seq!['[', ']']);
    if numbers.len() > 0 {
        assert(numbers.push(last).drop_last() == numbers);
        assert(listed(numbers).drop_last() =~= seq!['['] + separated(numbers));
        assert(listed(numbers.push(last)) =~= listed(numbers).drop_last() + seq![',', ' ']
            + signed_decimal(last as int) + seq![']']);
    }
}

/// Capitals become the small letters 32 places on; every other character stays.
pub proof fn capitals_become_small(c: char)
    ensures
        'A' <= c && c <= 'Z' ==> lower(c) as u32 == c as u32 + 32,
        !('A' <= c && c <= 'Z') ==> lower(c) == c,
        lower(lower(c)) == lower(c),
        lower('A') == 'a',
        lower('Z') == 'z',
{
}

/// A text occurs in another exactly where that is made of something, the text, and
/// something more.
pub proof fn occurring_is_being_part(
    text: Seq<char>,
    before: Seq<char>,
    pattern: Seq<char>,
    behind: Seq<char>,
)
    ensures
        occurs(before + pattern + behind, pattern),
        occurs(text, pattern) ==> exists|i: int|
            0 <= i <= text.len() - pattern.len() && text == #[trigger] text.take(i) + pattern
                + text.skip(i + pattern.len()),
{
    let whole = before + pattern + behind;
    let at = before.len() as int;
    assert(whole.subrange(at, at + pattern.len()) =~= pattern);
    if occurs(text, pattern) {
        let i = choose|i: int|
            0 <= i <= text.len() - pattern.len() && #[trigger] text.subrange(i, i + pattern.len())
                == pattern;
        assert(text =~= text.take(i) + pattern + text.skip(i + pattern.len()));
    }
}

} // verus!
