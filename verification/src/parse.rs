//! Reading numbers and words out of text.

use vstd::prelude::*;
use vstd::string::*;

verus! {

/// Whether a character is white space, as Unicode defines it.
pub open spec fn is_space(c: char) -> bool {
    let u = c as u32;
    ||| (0x09 <= u && u <= 0x0d)
    ||| u == 0x20
    ||| u == 0x85
    ||| u == 0xa0
    ||| u == 0x1680
    ||| (0x2000 <= u && u <= 0x200a)
    ||| u == 0x2028
    ||| u == 0x2029
    ||| u == 0x202f
    ||| u == 0x205f
    ||| u == 0x3000
}

/// Whether a character is one of the digits `0` to `9`.
pub open spec fn is_digit(c: char) -> bool {
    '0' <= c && c <= '9'
}

/// The number that a run of digits writes in decimal.
pub open spec fn digits_value(digits: Seq<char>) -> nat
    decreases digits.len(),
{
    if digits.len() == 0 {
        0
    } else {
        digits_value(digits.drop_last()) * 10 + (digits.last() as u32 - '0' as u32) as nat
    }
}

/// Whether every character is a digit.
pub open spec fn all_digits(digits: Seq<char>) -> bool {
    forall|i: int| 0 <= i < digits.len() ==> is_digit(#[trigger] digits[i])
}

/// The digits of a number: the text itself, or what follows a leading
/// plus sign.
pub open spec fn unsigned_part(text: Seq<char>) -> Seq<char> {
    if text.len() > 0 && text[0] == '+' {
        text.drop_first()
    } else {
        text
    }
}

/// The number that a text writes, where it writes one that the machine
/// can hold: an optional plus sign, then one or more digits and nothing
/// else.
pub open spec fn number(text: Seq<char>) -> Option<nat> {
    let digits = unsigned_part(text);
    if digits.len() > 0 && all_digits(digits) && digits_value(digits) <= usize::MAX {
        Some(digits_value(digits))
    } else {
        None
    }
}

/// The words of a text: its runs of characters other than white space.
pub open spec fn words(text: Seq<char>) -> Seq<Seq<char>>
    decreases text.len(),
{
    if text.len() == 0 {
        Seq::empty()
    } else if is_space(text.last()) {
        words(text.drop_last())
    } else if text.len() >= 2 && !is_space(text[text.len() - 2]) {
        let before = words(text.drop_last());
        before.drop_last().push(before.last().push(text.last()))
    } else {
        words(text.drop_last()).push(seq![text.last()])
    }
}

/// The text without the white space at its start.
pub open spec fn trim_start(text: Seq<char>) -> Seq<char>
    decreases text.len(),
{
    if text.len() > 0 && is_space(text[0]) {
        trim_start(text.drop_first())
    } else {
        text
    }
}

/// The text without the white space at its end.
pub open spec fn trim_end(text: Seq<char>) -> Seq<char>
    decreases text.len(),
{
    if text.len() > 0 && is_space(text.last()) {
        trim_end(text.drop_last())
    } else {
        text
    }
}

/// The text without the white space at either end.
pub open spec fn trimmed(text: Seq<char>) -> Seq<char> {
    trim_end(trim_start(text))
}

/// The position of the first `needle` in the text, if there is one.
pub open spec fn first_index(text: Seq<char>, needle: char) -> Option<int> {
    if exists|i: int| 0 <= i < text.len() && text[i] == needle {
        Some(choose|i: int| 0 <= i < text.len() && text[i] == needle && forall|j: int| 0 <= j < i ==> text[j] != needle)
    } else {
        None
    }
}

/// A number only grows as digits are added to it.
pub proof fn lemma_value_grows(digits: Seq<char>, n: int)
    requires
        0 <= n <= digits.len(),
    ensures
        digits_value(digits.take(n)) <= digits_value(digits),
    decreases digits.len() - n,
{
    if n < digits.len() {
        lemma_value_grows(digits, n + 1);
        assert(digits.take(n + 1).drop_last() =~= digits.take(n));
    } else {
        assert(digits.take(n) =~= digits);
    }
}

/// Decides whether a character is white space.
pub fn is_whitespace(c: char) -> (out: bool)
    ensures
        out == is_space(c),
{
    let u = c as u32;
    (0x09 <= u && u <= 0x0d) || u == 0x20 || u == 0x85 || u == 0xa0 || u == 0x1680 || (0x2000 <= u
        && u <= 0x200a) || u == 0x2028 || u == 0x2029 || u == 0x202f || u == 0x205f || u == 0x3000
}

/// The characters of a text.
pub fn chars_of(text: &str) -> (out: Vec<char>)
    ensures
        out@ == text@,
{
    let n = text.unicode_len();
    let mut out: Vec<char> = Vec::new();
    let mut i: usize = 0;
    while i < n
        invariant
            n == text@.len(),
            i <= n,
            out@ == text@.take(i as int),
        decreases n - i,
    {
        out.push(text.get_char(i));
        assert(out@ =~= text@.take(i + 1));
        i += 1;
    }
    assert(text@.take(n as int) =~= text@);
    out
}

/// Reads the number that the characters from `from` up to `to` write.
pub fn parse_number(chars: &Vec<char>, from: usize, to: usize) -> (out: Option<usize>)
    requires
        from <= to <= chars.len(),
    ensures
        out is Some <==> number(chars@.subrange(from as int, to as int)) is Some,
        out is Some ==> out->0 == number(chars@.subrange(from as int, to as int))->0,
{
    let ghost text = chars@.subrange(from as int, to as int);
    let start: usize = if from < to && chars[from] == '+' {
        from + 1
    } else {
        from
    };
    let ghost digits = unsigned_part(text);
    assert(digits =~= chars@.subrange(start as int, to as int));
    if start == to {
        return None;
    }
    let mut value: usize = 0;
    let mut i: usize = start;
    proof {
        assert(digits.take(0) =~= Seq::<char>::empty());
    }
    while i < to
        invariant
            start <= i <= to,
            to <= chars.len(),
            text == chars@.subrange(from as int, to as int),
            digits == unsigned_part(text),
            digits == chars@.subrange(start as int, to as int),
            all_digits(digits.take(i - start)),
            value == digits_value(digits.take(i - start)),
        decreases to - i,
    {
        let c = chars[i];
        proof {
            assert(digits.take(i - start + 1).drop_last() =~= digits.take(i - start));
            assert(digits.take(i - start + 1).last() == c);
            assert(digits[i - start] == c);
        }
        if !('0' <= c && c <= '9') {
            assert(!is_digit(digits[i - start]));
            return None;
        }
        let d: usize = (c as u32 - '0' as u32) as usize;
        let grown = match value.checked_mul(10) {
            Some(tenfold) => tenfold.checked_add(d),
            None => None,
        };
        match grown {
            Some(v) => {
                value = v;
            },
            None => {
                proof {
                    assert(digits_value(digits.take(i - start + 1)) == value * 10 + d);
                    lemma_value_grows(digits, i - start + 1);
                }
                return None;
            },
        }
        proof {
            let longer = digits.take(i - start + 1);
            assert forall|k: int| 0 <= k < longer.len() implies is_digit(#[trigger] longer[k]) by {
                if k < i - start {
                    assert(digits.take(i - start)[k] == longer[k]);
                }
            }
        }
        i += 1;
    }
    proof {
        assert(digits.take(to - start) =~= digits);
    }
    Some(value)
}

/// Splits text into its words.
pub fn split_words(chars: &Vec<char>) -> (out: Vec<Vec<char>>)
    ensures
        out.len() == words(chars@).len(),
        forall|k: int| 0 <= k < out.len() ==> (#[trigger] out[k])@ == words(chars@)[k],
{
    let mut done: Vec<Vec<char>> = Vec::new();
    let mut current: Vec<char> = Vec::new();
    let mut i: usize = 0;
    proof {
        assert(chars@.take(0) =~= Seq::<char>::empty());
    }
    while i < chars.len()
        invariant
            i <= chars.len(),
            current.len() > 0 <==> (i > 0 && !is_space(chars[i - 1])),
            current.len() > 0 ==> words(chars@.take(i as int)).len() == done.len() + 1 && words(
                chars@.take(i as int),
            ).last() == current@,
            current.len() == 0 ==> words(chars@.take(i as int)).len() == done.len(),
            forall|k: int| 0 <= k < done.len() ==> (#[trigger] done[k])@ == words(chars@.take(i as int))[k],
        decreases chars.len() - i,
    {
        let c = chars[i];
        let ghost before = words(chars@.take(i as int));
        proof {
            assert(chars@.take(i + 1).drop_last() =~= chars@.take(i as int));
            assert(chars@.take(i + 1).last() == c);
            if i > 0 {
                assert(chars@.take(i + 1)[i - 1] == chars[i - 1]);
            }
        }
        if is_whitespace(c) {
            if current.len() > 0 {
                let mut word: Vec<char> = Vec::new();
                std::mem::swap(&mut current, &mut word);
                done.push(word);
            }
        } else {
            current.push(c);
            proof {
                let after = words(chars@.take(i + 1));
                if i > 0 && !is_space(chars[i - 1]) {
                    assert(after == before.drop_last().push(before.last().push(c)));
                } else {
                    assert(after == before.push(seq![c]));
                    assert(current@ =~= seq![c]);
                }
            }
        }
        i += 1;
    }
    proof {
        assert(chars@.take(chars.len() as int) =~= chars@);
    }
    if current.len() > 0 {
        done.push(current);
    }
    done
}

/// The bounds of the text without the white space at either end: where it
/// starts, and where it stops.
pub fn trim_bounds(chars: &Vec<char>) -> (out: (usize, usize))
    ensures
        out.0 <= out.1 <= chars.len(),
        chars@.subrange(out.0 as int, out.1 as int) == trimmed(chars@),
{
    let n = chars.len();
    let mut a: usize = 0;
    assert(chars@.subrange(0, n as int) =~= chars@);
    while a < n && is_whitespace(chars[a])
        invariant
            a <= n,
            n == chars.len(),
            trim_start(chars@) == trim_start(chars@.subrange(a as int, n as int)),
        decreases n - a,
    {
        proof {
            let rest = chars@.subrange(a as int, n as int);
            assert(rest[0] == chars[a as int]);
            assert(rest.drop_first() =~= chars@.subrange(a + 1, n as int));
        }
        a += 1;
    }
    proof {
        let rest = chars@.subrange(a as int, n as int);
        if a < n {
            assert(rest[0] == chars[a as int]);
        }
        assert(trim_start(chars@) == rest);
    }
    let mut b: usize = n;
    while b > a && is_whitespace(chars[b - 1])
        invariant
            a <= b <= n,
            n == chars.len(),
            trimmed(chars@) == trim_end(chars@.subrange(a as int, b as int)),
        decreases b - a,
    {
        proof {
            let rest = chars@.subrange(a as int, b as int);
            assert(rest.last() == chars[b - 1]);
            assert(rest.drop_last() =~= chars@.subrange(a as int, b - 1));
        }
        b -= 1;
    }
    proof {
        let rest = chars@.subrange(a as int, b as int);
        if b > a {
            assert(rest.last() == chars[b - 1]);
        }
    }
    (a, b)
}

/// Finds the first `needle` among the characters.
pub fn find_first(chars: &Vec<char>, needle: char) -> (out: Option<usize>)
    ensures
        out is Some <==> first_index(chars@, needle) is Some,
        out is Some ==> out->0 == first_index(chars@, needle)->0,
        out is Some ==> out->0 < chars.len() && chars[out->0 as int] == needle,
{
    let mut i: usize = 0;
    while i < chars.len()
        invariant
            i <= chars.len(),
            forall|j: int| 0 <= j < i ==> chars[j] != needle,
        decreases chars.len() - i,
    {
        if chars[i] == needle {
            proof {
                let text = chars@;
                assert(0 <= i < text.len() && text[i as int] == needle);
                let k = choose|k: int|
                    0 <= k < text.len() && text[k] == needle && forall|j: int|
                        0 <= j < k ==> text[j] != needle;
                assert(0 <= i < text.len() && text[i as int] == needle && forall|j: int|
                    0 <= j < i ==> text[j] != needle);
                if k < i {
                    assert(text[k] != needle);
                }
                if i < k {
                    assert(text[i as int] != needle);
                }
            }
            return Some(i);
        }
        i += 1;
    }
    None
}

} // verus!
