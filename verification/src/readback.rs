//! What is written of a selection of time steps reads back as the same
//! selection.

use vstd::prelude::*;
use crate::cli::{all_numbers, folded, meaning, same_ignoring_case, values, Selection};
use crate::parse::{
    all_digits, digits_value, first_index, is_digit, is_space, number, trim_end, trim_start,
    trimmed, unsigned_part, words,
};
use crate::text::{decimal, digit, joined};

verus! {

/// Whether a text is made of digits only, and of one at least.
pub open spec fn is_numeral(text: Seq<char>) -> bool {
    text.len() > 0 && all_digits(text)
}

/// A digit is neither white space, nor a sign, nor a letter.
pub proof fn lemma_digit_is_plain(c: char)
    requires
        is_digit(c),
    ensures
        !is_space(c),
        c != '-',
        c != '+',
        folded(c) != folded('a'),
{
}

/// A number in decimal is made of digits, and they write that number.
pub proof fn lemma_decimal_is_numeral(n: nat)
    ensures
        is_numeral(decimal(n)),
        digits_value(decimal(n)) == n,
    decreases n,
{
    if n < 10 {
        let text = decimal(n);
        assert(text.len() == 1);
        assert(text[0] == digit(n));
        assert(is_digit(digit(n)));
        assert(text.drop_last() =~= Seq::<char>::empty());
        assert(digits_value(text) == digits_value(text.drop_last()) * 10 + (text.last() as u32
            - '0' as u32) as nat);
        assert((digit(n) as u32 - '0' as u32) as nat == n);
    } else {
        lemma_decimal_is_numeral(n / 10);
        let text = decimal(n);
        let front = decimal(n / 10);
        assert(text == front.push(digit(n % 10)));
        assert(text.drop_last() =~= front);
        assert(text.last() == digit(n % 10));
        assert(is_digit(digit(n % 10)));
        assert((digit(n % 10) as u32 - '0' as u32) as nat == n % 10);
        assert forall|i: int| 0 <= i < text.len() implies is_digit(#[trigger] text[i]) by {
            if i < front.len() {
                assert(text[i] == front[i]);
            }
        }
    }
}

/// A numeral that the machine can hold reads as its value.
pub proof fn lemma_numeral_reads(text: Seq<char>)
    requires
        is_numeral(text),
        digits_value(text) <= usize::MAX,
    ensures
        number(text) == Some(digits_value(text)),
{
    lemma_digit_is_plain(text[0]);
    assert(unsigned_part(text) == text);
}

/// Trimming leaves alone a text that neither starts nor ends with white
/// space.
pub proof fn lemma_trim_keeps(text: Seq<char>)
    requires
        text.len() > 0,
        !is_space(text[0]),
        !is_space(text.last()),
    ensures
        trimmed(text) == text,
{
    assert(trim_start(text) == text);
    assert(trim_end(text) == text);
}

/// A text that starts with a digit is not the word for all.
pub proof fn lemma_numeral_is_not_all(text: Seq<char>)
    requires
        text.len() > 0,
        is_digit(text[0]),
    ensures
        !same_ignoring_case(text, "all"@),
{
    reveal_strlit("all");
    lemma_digit_is_plain(text[0]);
    if same_ignoring_case(text, "all"@) {
        assert("all"@[0] == 'a');
        assert(folded(text[0]) == folded("all"@[0]));
    }
}

/// A single step reads back.
pub proof fn lemma_single_reads_back(step: nat)
    requires
        step <= usize::MAX,
    ensures
        meaning(Selection::Single(step).rendering()) == Ok::<Selection, crate::cli::MalformedSpec>(
            Selection::Single(step),
        ),
{
    let text = decimal(step);
    lemma_decimal_is_numeral(step);
    lemma_digit_is_plain(text[0]);
    lemma_digit_is_plain(text.last());
    lemma_trim_keeps(text);
    lemma_numeral_is_not_all(text);
    lemma_numeral_reads(text);
    assert forall|i: int| 0 <= i < text.len() implies text[i] != '-' by {
        lemma_digit_is_plain(text[i]);
    }
    assert(first_index(text, '-') is None);
}

/// A range in order reads back.
pub proof fn lemma_range_reads_back(first: nat, last: nat)
    requires
        first <= last <= usize::MAX,
    ensures
        meaning(Selection::Range(first, last).rendering()) == Ok::<
            Selection,
            crate::cli::MalformedSpec,
        >(Selection::Range(first, last)),
{
    reveal_strlit("-");
    let a = decimal(first);
    let b = decimal(last);
    let text = a + "-"@ + b;
    lemma_decimal_is_numeral(first);
    lemma_decimal_is_numeral(last);
    assert("-"@.len() == 1);
    assert("-"@[0] == '-');
    let k = a.len() as int;
    assert(text[0] == a[0]);
    assert(text.last() == b.last());
    lemma_digit_is_plain(a[0]);
    lemma_digit_is_plain(b.last());
    lemma_trim_keeps(text);
    lemma_numeral_is_not_all(text);
    assert(text[k] == '-');
    assert forall|j: int| 0 <= j < k implies text[j] != '-' by {
        assert(text[j] == a[j]);
        lemma_digit_is_plain(a[j]);
    }
    let found = choose|i: int|
        0 <= i < text.len() && text[i] == '-' && forall|j: int| 0 <= j < i ==> text[j] != '-';
    assert(0 <= k < text.len() && text[k] == '-' && forall|j: int| 0 <= j < k ==> text[j] != '-');
    if found < k {
        assert(text[found] != '-');
    }
    if k < found {
        assert(text[k] != '-');
    }
    assert(first_index(text, '-') == Some(k));
    assert(text.subrange(0, k) =~= a);
    assert(text.subrange(k + 1, text.len() as int) =~= b);
    lemma_numeral_reads(a);
    lemma_numeral_reads(b);
}

/// The word for every step reads back.
pub proof fn lemma_all_reads_back()
    ensures
        meaning(Selection::All.rendering()) == Ok::<Selection, crate::cli::MalformedSpec>(
            Selection::All,
        ),
{
    reveal_strlit("All");
    reveal_strlit("all");
    let text = "All"@;
    assert(text.len() == 3);
    assert(text[0] == 'A' && text[1] == 'l' && text[2] == 'l');
    assert("all"@[0] == 'a' && "all"@[1] == 'l' && "all"@[2] == 'l');
    assert(text.last() == 'l');
    lemma_trim_keeps(text);
    assert(same_ignoring_case(text, "all"@));
}

/// Whether a text holds no white space, and one character at least.
pub open spec fn is_word(text: Seq<char>) -> bool {
    text.len() > 0 && forall|i: int| 0 <= i < text.len() ==> !is_space(#[trigger] text[i])
}

/// A word that follows white space, or nothing at all, is the last word of
/// the text as soon as its first character is there, and stays so as the
/// others arrive.
pub proof fn lemma_word_arrives(before: Seq<char>, word: Seq<char>, k: int)
    requires
        before.len() == 0 || is_space(before.last()),
        is_word(word),
        1 <= k <= word.len(),
    ensures
        words(before + word.take(k)) == words(before).push(word.take(k)),
    decreases k,
{
    let text = before + word.take(k);
    assert(text.last() == word[k - 1]);
    assert(!is_space(word[k - 1]));
    if k == 1 {
        assert(text.drop_last() =~= before);
        assert(word.take(1) =~= seq![word[0]]);
        if text.len() >= 2 {
            assert(text[text.len() - 2] == before.last());
        }
    } else {
        lemma_word_arrives(before, word, k - 1);
        assert(text.drop_last() =~= before + word.take(k - 1));
        assert(text[text.len() - 2] == word[k - 2]);
        assert(!is_space(word[k - 2]));
        let earlier = words(before).push(word.take(k - 1));
        assert(earlier.drop_last() =~= words(before));
        assert(earlier.last().push(word[k - 1]) =~= word.take(k));
    }
}

/// Words joined by single spaces split into the same words.
pub proof fn lemma_joined_words(parts: Seq<Seq<char>>)
    requires
        forall|i: int| 0 <= i < parts.len() ==> is_word(#[trigger] parts[i]),
    ensures
        words(joined(parts, " "@)) == parts,
    decreases parts.len(),
{
    reveal_strlit(" ");
    assert(" "@.len() == 1 && " "@[0] == ' ');
    if parts.len() == 0 {
        assert(parts =~= Seq::<Seq<char>>::empty());
    } else if parts.len() == 1 {
        let word = parts[0];
        lemma_word_arrives(Seq::<char>::empty(), word, word.len() as int);
        assert(Seq::<char>::empty() + word.take(word.len() as int) =~= word);
        assert(word.take(word.len() as int) =~= word);
        assert(Seq::<Seq<char>>::empty().push(word) =~= parts);
    } else {
        let front = parts.drop_last();
        let word = parts.last();
        assert forall|i: int| 0 <= i < front.len() implies is_word(#[trigger] front[i]) by {
            assert(front[i] == parts[i]);
        }
        lemma_joined_words(front);
        let before = joined(front, " "@) + " "@;
        assert(before.last() == ' ');
        assert(before.drop_last() =~= joined(front, " "@));
        assert(words(before) == words(joined(front, " "@)));
        lemma_word_arrives(before, word, word.len() as int);
        assert(word.take(word.len() as int) =~= word);
        assert(front.push(word) =~= parts);
    }
}

/// What numerals joined by spaces are made of: digits and spaces, with a
/// digit at either end, and a space somewhere if there are two numerals or
/// more.
pub proof fn lemma_joined_numerals(parts: Seq<Seq<char>>)
    requires
        parts.len() > 0,
        forall|i: int| 0 <= i < parts.len() ==> is_numeral(#[trigger] parts[i]),
    ensures
        joined(parts, " "@).len() > 0,
        is_digit(joined(parts, " "@)[0]),
        is_digit(joined(parts, " "@).last()),
        forall|i: int|
            0 <= i < joined(parts, " "@).len() ==> is_digit(#[trigger] joined(parts, " "@)[i])
                || joined(parts, " "@)[i] == ' ',
        parts.len() >= 2 ==> exists|i: int|
            0 <= i < joined(parts, " "@).len() && #[trigger] joined(parts, " "@)[i] == ' ',
    decreases parts.len(),
{
    reveal_strlit(" ");
    assert(" "@.len() == 1 && " "@[0] == ' ');
    if parts.len() == 1 {
        assert(is_numeral(parts[0]));
    } else {
        let front = parts.drop_last();
        let word = parts.last();
        assert(is_numeral(word));
        assert forall|i: int| 0 <= i < front.len() implies is_numeral(#[trigger] front[i]) by {
            assert(front[i] == parts[i]);
        }
        lemma_joined_numerals(front);
        let head = joined(front, " "@);
        let text = joined(parts, " "@);
        assert(text == head + " "@ + word);
        assert(text[0] == head[0]);
        assert(text.last() == word.last());
        assert(text[head.len() as int] == ' ');
        assert forall|i: int| 0 <= i < text.len() implies is_digit(#[trigger] text[i]) || text[i]
            == ' ' by {
            if i < head.len() {
                assert(text[i] == head[i]);
            } else if i > head.len() {
                assert(text[i] == word[i - head.len() - 1]);
            }
        }
    }
}

/// A list of two steps or more reads back.
pub proof fn lemma_list_reads_back(list: Seq<nat>)
    requires
        list.len() >= 2,
        forall|i: int| 0 <= i < list.len() ==> (#[trigger] list[i]) <= usize::MAX,
    ensures
        meaning(Selection::List(list).rendering()) == Ok::<Selection, crate::cli::MalformedSpec>(
            Selection::List(list),
        ),
{
    let parts = Seq::new(list.len(), |k: int| decimal(list[k]));
    let text = joined(parts, " "@);
    assert forall|i: int| 0 <= i < parts.len() implies is_numeral(#[trigger] parts[i]) && is_word(
        parts[i],
    ) && number(parts[i]) == Some(list[i]) by {
        lemma_decimal_is_numeral(list[i]);
        lemma_numeral_reads(parts[i]);
        assert forall|j: int| 0 <= j < parts[i].len() implies !is_space(#[trigger] parts[i][j]) by {
            lemma_digit_is_plain(parts[i][j]);
        }
    }
    lemma_joined_numerals(parts);
    lemma_joined_words(parts);
    lemma_digit_is_plain(text[0]);
    lemma_digit_is_plain(text.last());
    lemma_trim_keeps(text);
    lemma_numeral_is_not_all(text);
    assert forall|i: int| 0 <= i < text.len() implies text[i] != '-' by {
        if is_digit(text[i]) {
            lemma_digit_is_plain(text[i]);
        }
    }
    assert(first_index(text, '-') is None);
    assert(unsigned_part(text) == text);
    let gap = choose|i: int| 0 <= i < text.len() && #[trigger] text[i] == ' ';
    assert(!is_digit(text[gap]));
    assert(number(text) is None);
    assert(all_numbers(words(text)));
    assert(values(words(text)) =~= list);
}

/// What is written of a selection reads back as that selection. A list
/// has to hold two steps at least: a list of one step is written as that
/// step, and an empty list as nothing.
pub proof fn lemma_text_reads_back(selection: Selection)
    requires
        match selection {
            Selection::Single(step) => step <= usize::MAX,
            Selection::List(list) => list.len() >= 2 && forall|i: int|
                0 <= i < list.len() ==> (#[trigger] list[i]) <= usize::MAX,
            Selection::Range(first, last) => first <= last <= usize::MAX,
            Selection::All => true,
        },
    ensures
        meaning(selection.rendering()) == Ok::<Selection, crate::cli::MalformedSpec>(selection),
{
    match selection {
        Selection::Single(step) => lemma_single_reads_back(step),
        Selection::List(list) => lemma_list_reads_back(list),
        Selection::Range(first, last) => lemma_range_reads_back(first, last),
        Selection::All => lemma_all_reads_back(),
    }
}

} // verus!
