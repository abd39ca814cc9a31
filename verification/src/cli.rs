//! What the user asks for: which time steps, which radiation, which order.

use vstd::prelude::*;
use vstd::string::*;
use crate::parse::{
    chars_of, find_first, first_index, number, parse_number, split_words, trim_bounds, trimmed,
    words,
};
use crate::text::{decimal, joined, push_decimal};
use crate::wrappers::CliRadType;

verus! {

/// The code point of a character, with the ASCII capitals folded onto
/// their small letters.
pub open spec fn folded(c: char) -> u32 {
    if 'A' <= c && c <= 'Z' {
        (c as u32 + 32) as u32
    } else {
        c as u32
    }
}

/// Whether two texts are the same but for the case of ASCII letters.
pub open spec fn same_ignoring_case(a: Seq<char>, b: Seq<char>) -> bool {
    &&& a.len() == b.len()
    &&& forall|i: int| 0 <= i < a.len() ==> folded(#[trigger] a[i]) == folded(b[i])
}

fn fold(c: char) -> (out: u32)
    ensures
        out == folded(c),
{
    if 'A' <= c && c <= 'Z' {
        c as u32 + 32
    } else {
        c as u32
    }
}

/// Decides whether `text` is `word` but for the case of ASCII letters.
pub fn matches_ignoring_case(text: &str, word: &str) -> (out: bool)
    ensures
        out == same_ignoring_case(text@, word@),
{
    let n = text.unicode_len();
    if n != word.unicode_len() {
        return false;
    }
    let mut i: usize = 0;
    while i < n
        invariant
            n == text@.len(),
            n == word@.len(),
            i <= n,
            forall|k: int| 0 <= k < i ==> folded(#[trigger] text@[k]) == folded(word@[k]),
        decreases n - i,
    {
        if fold(text.get_char(i)) != fold(word.get_char(i)) {
            return false;
        }
        i += 1;
    }
    true
}

/// Everything a run is told on the command line.
#[derive(Debug, Clone)]
pub struct Cli {
    /// Path of the inventory file.
    pub path: String,
    /// The time steps to work on.
    pub index: MultiRange,
    /// The kind of decay radiation.
    pub rad: CliRadType,
    /// The property that records are sorted by.
    pub sort: SortProperty,
    /// Whether to ask the provider over the network instead of reading
    /// its stored data.
    pub fetch: bool,
    /// Prefix of the output files.
    pub output: String,
    /// Whether to write a text table.
    pub text: bool,
    /// Whether to write structured entries.
    pub json: bool,
    /// Whether to write source-distribution cards.
    pub mcnp: bool,
    /// The id of the first distribution.
    pub id: usize,
    /// How many times more detail in the log was asked for.
    pub verbose: u8,
    /// Whether to log nothing at all.
    pub quiet: bool,
}

impl Cli {
    /// Whether any output is asked for.
    pub fn wants_output(&self) -> (out: bool)
        ensures
            out == (self.mcnp || self.json || self.text),
    {
        self.mcnp || self.json || self.text
    }

    /// The level of detail of the log: warnings and notes by default, one
    /// level more for each time more detail was asked for.
    pub fn verbosity(&self) -> (out: usize)
        ensures
            out == self.verbose + 2,
    {
        self.verbose as usize + 2
    }

    /// Whether log lines say how severe they are: only when more detail
    /// was asked for.
    pub fn show_level(&self) -> (out: bool)
        ensures
            out == (self.verbose > 0),
    {
        self.verbose > 0
    }
}

/// Which time steps a user asks for.
#[derive(Debug, Clone)]
pub enum MultiRange {
    /// One step.
    Single(usize),
    /// The steps listed.
    List(Vec<usize>),
    /// Every step from the first number to the second, both included.
    Range(usize, usize),
    /// Every step there is.
    All,
}

/// What a [`MultiRange`] says, as mathematics.
pub enum Selection {
    Single(nat),
    List(Seq<nat>),
    Range(nat, nat),
    All,
}

impl View for MultiRange {
    type V = Selection;

    open spec fn view(&self) -> Selection {
        match self {
            MultiRange::Single(i) => Selection::Single(*i as nat),
            MultiRange::List(list) => Selection::List(Seq::new(list.len() as nat, |k: int| list[k] as nat)),
            MultiRange::Range(a, b) => Selection::Range(*a as nat, *b as nat),
            MultiRange::All => Selection::All,
        }
    }
}

impl Selection {
    /// Whether step `i` is asked for, where there are `count` steps.
    pub open spec fn selects(self, i: int, count: nat) -> bool {
        match self {
            Selection::Single(k) => i == k,
            Selection::List(list) => 0 <= i && list.contains(i as nat),
            Selection::Range(a, b) => a <= i <= b,
            Selection::All => 0 <= i < count,
        }
    }

    /// The selection as a user would type it.
    pub open spec fn rendering(self) -> Seq<char> {
        match self {
            Selection::Single(k) => decimal(k),
            Selection::List(list) => joined(Seq::new(list.len(), |k: int| decimal(list[k])), " "@),
            Selection::Range(a, b) => decimal(a) + "-"@ + decimal(b),
            Selection::All => "All"@,
        }
    }
}

/// Why a text is no selection of time steps.
#[derive(Debug, Clone, Copy, PartialEq, Eq, Structural)]
pub enum MalformedSpec {
    /// It holds a hyphen, but is not two numbers of which the first is no
    /// larger than the second.
    InvalidRange,
    /// It is neither a number, nor a list of numbers, nor a range, nor the
    /// word for all.
    Unrecognised,
}

/// Whether every word writes a number.
pub open spec fn all_numbers(list: Seq<Seq<char>>) -> bool {
    forall|k: int| 0 <= k < list.len() ==> number(#[trigger] list[k]) is Some
}

/// The numbers that the words write.
pub open spec fn values(list: Seq<Seq<char>>) -> Seq<nat> {
    Seq::new(list.len(), |k: int| number(list[k])->0)
}

/// What a text means as a selection of time steps.
///
/// Blank text and the word `all`, in any case and with white space around
/// it, ask for every step. Text with a hyphen is a range, and must be two
/// numbers in order. Other text is a single number, or a list of numbers
/// with white space between them.
pub open spec fn meaning(text: Seq<char>) -> Result<Selection, MalformedSpec> {
    if trimmed(text).len() == 0 || same_ignoring_case(trimmed(text), "all"@) {
        Ok(Selection::All)
    } else {
        match first_index(text, '-') {
            Some(k) => match (number(text.subrange(0, k)), number(text.subrange(k + 1, text.len() as int))) {
                (Some(a), Some(b)) => if a <= b {
                    Ok(Selection::Range(a, b))
                } else {
                    Err(MalformedSpec::InvalidRange)
                },
                _ => Err(MalformedSpec::InvalidRange),
            },
            None => match number(text) {
                Some(v) => Ok(Selection::Single(v)),
                None => if all_numbers(words(text)) {
                    Ok(Selection::List(values(words(text))))
                } else {
                    Err(MalformedSpec::Unrecognised)
                },
            },
        }
    }
}

/// Whether a parse result says what the text means.
pub open spec fn reads_as(out: Result<MultiRange, MalformedSpec>, text: Seq<char>) -> bool {
    match (out, meaning(text)) {
        (Ok(range), Ok(selection)) => range@ == selection,
        (Err(e), Err(why)) => e == why,
        _ => false,
    }
}

fn is_all_word(chars: &Vec<char>, from: usize, to: usize) -> (out: bool)
    requires
        from <= to <= chars.len(),
    ensures
        out == same_ignoring_case(chars@.subrange(from as int, to as int), "all"@),
{
    proof {
        reveal_strlit("all");
    }
    let ghost part = chars@.subrange(from as int, to as int);
    if to - from != 3 {
        return false;
    }
    let found = fold(chars[from]) == 97 && fold(chars[from + 1]) == 108 && fold(chars[from + 2])
        == 108;
    proof {
        assert(part[0] == chars[from as int]);
        assert(part[1] == chars[from + 1]);
        assert(part[2] == chars[from + 2]);
        assert("all"@[0] == 'a');
        assert("all"@[1] == 'l');
        assert("all"@[2] == 'l');
        assert(folded('a') == 97);
        assert(folded('l') == 108);
    }
    found
}

/// Reads a list of numbers with white space between them. `None` where a
/// word is no number.
pub fn read_list(chars: &Vec<char>) -> (out: Option<Vec<usize>>)
    ensures
        out is Some <==> all_numbers(words(chars@)),
        out is Some ==> MultiRange::List(out->0)@ == Selection::List(values(words(chars@))),
{
    let parts = split_words(chars);
    let ghost list = words(chars@);
    let mut found: Vec<usize> = Vec::new();
    let mut i: usize = 0;
    while i < parts.len()
        invariant
            i <= parts.len(),
            list == words(chars@),
            parts.len() == list.len(),
            forall|k: int| 0 <= k < parts.len() ==> (#[trigger] parts[k])@ == list[k],
            found.len() == i,
            forall|k: int| 0 <= k < i ==> number(#[trigger] list[k]) == Some(found[k] as nat),
        decreases parts.len() - i,
    {
        let word = &parts[i];
        assert(word@.subrange(0, word.len() as int) =~= word@);
        match parse_number(word, 0, word.len()) {
            Some(v) => {
                found.push(v);
            },
            None => {
                assert(number(list[i as int]) is None);
                return None;
            },
        }
        i += 1;
    }
    proof {
        assert(all_numbers(list));
        assert(Seq::new(found.len() as nat, |k: int| found[k] as nat) =~= values(list));
    }
    Some(found)
}

impl MalformedSpec {
    /// What to tell the user who typed `input`.
    pub open spec fn explanation(self, input: Seq<char>) -> Seq<char> {
        match self {
            MalformedSpec::InvalidRange => "Invalid range format: '"@ + input + "'"@,
            MalformedSpec::Unrecognised => "integers ('0 1 2'), range (0-2), or 'all'"@,
        }
    }

    /// What to tell the user who typed `input`.
    pub fn message(&self, input: &str) -> (out: String)
        ensures
            out@ == self.explanation(input@),
    {
        let mut out = String::new();
        match self {
            MalformedSpec::InvalidRange => {
                out.append("Invalid range format: '");
                out.append(input);
                out.append("'");
                assert(out@ =~= "Invalid range format: '"@ + input@ + "'"@);
            },
            MalformedSpec::Unrecognised => {
                out.append("integers ('0 1 2'), range (0-2), or 'all'");
                assert(out@ =~= "integers ('0 1 2'), range (0-2), or 'all'"@);
            },
        }
        out
    }
}

impl MultiRange {
    /// Reads a selection of time steps.
    pub fn from_str(s: &str) -> (out: Result<MultiRange, MalformedSpec>)
        ensures
            reads_as(out, s@),
            out matches Ok(MultiRange::Range(first, last)) ==> first <= last,
    {
        let chars = chars_of(s);
        let n = chars.len();
        let (a, b) = trim_bounds(&chars);
        if a == b || is_all_word(&chars, a, b) {
            return Ok(MultiRange::All);
        }
        match find_first(&chars, '-') {
            Some(k) => {
                let start = parse_number(&chars, 0, k);
                let end = parse_number(&chars, k + 1, n);
                match (start, end) {
                    (Some(first), Some(last)) => {
                        if first <= last {
                            Ok(MultiRange::Range(first, last))
                        } else {
                            Err(MalformedSpec::InvalidRange)
                        }
                    },
                    _ => Err(MalformedSpec::InvalidRange),
                }
            },
            None => {
                assert(chars@.subrange(0, n as int) =~= chars@);
                match parse_number(&chars, 0, n) {
                    Some(v) => Ok(MultiRange::Single(v)),
                    None => match read_list(&chars) {
                        Some(found) => Ok(MultiRange::List(found)),
                        None => Err(MalformedSpec::Unrecognised),
                    },
                }
            },
        }
    }

    /// The selection as a user would type it.
    pub fn text(&self) -> (out: String)
        ensures
            out@ == self@.rendering(),
    {
        let mut out = String::new();
        match self {
            MultiRange::Single(value) => {
                push_decimal(&mut out, *value);
                assert(out@ =~= decimal(*value as nat));
            },
            MultiRange::List(list) => {
                let ghost parts = Seq::new(list.len() as nat, |k: int| decimal(list[k] as nat));
                let mut i: usize = 0;
                proof {
                    assert(parts.take(0) =~= Seq::<Seq<char>>::empty());
                }
                while i < list.len()
                    invariant
                        i <= list.len(),
                        parts == Seq::new(list.len() as nat, |k: int| decimal(list[k] as nat)),
                        out@ == joined(parts.take(i as int), " "@),
                    decreases list.len() - i,
                {
                    proof {
                        assert(parts.take(i + 1).drop_last() =~= parts.take(i as int));
                        assert(parts.take(i + 1).last() == decimal(list[i as int] as nat));
                    }
                    if i > 0 {
                        out.append(" ");
                    }
                    push_decimal(&mut out, list[i]);
                    proof {
                        if i == 0 {
                            assert(parts.take(1)[0] == decimal(list[0] as nat));
                            assert(out@ =~= joined(parts.take(1), " "@));
                        } else {
                            assert(out@ =~= joined(parts.take(i + 1), " "@));
                        }
                    }
                    i += 1;
                }
                proof {
                    assert(parts.take(list.len() as int) =~= parts);
                    let model = Seq::new(list.len() as nat, |k: int| list[k] as nat);
                    assert(Seq::new(model.len(), |k: int| decimal(model[k])) =~= parts);
                }
            },
            MultiRange::Range(start, end) => {
                push_decimal(&mut out, *start);
                out.append("-");
                push_decimal(&mut out, *end);
                assert(out@ =~= decimal(*start as nat) + "-"@ + decimal(*end as nat));
            },
            MultiRange::All => {
                out.append("All");
                assert(out@ =~= "All"@);
            },
        }
        out
    }
}

/// The property that decay records are ordered by.
#[derive(Debug, Copy, Clone, PartialEq, Eq, PartialOrd, Ord, Structural)]
pub enum SortProperty {
    /// Strongest emission first.
    Intensity,
    /// Lowest emission energy first.
    Energy,
}

impl SortProperty {
    /// The word for the property.
    pub open spec fn label(self) -> Seq<char> {
        match self {
            SortProperty::Intensity => "intensity"@,
            SortProperty::Energy => "energy"@,
        }
    }

    /// The property that a word names: `i` or `intensity` for intensity,
    /// in any case; energy for everything else.
    pub open spec fn named_by(word: Seq<char>) -> SortProperty {
        if same_ignoring_case(word, "i"@) || same_ignoring_case(word, "intensity"@) {
            SortProperty::Intensity
        } else {
            SortProperty::Energy
        }
    }

    /// The word for the property.
    pub fn name(&self) -> (out: &'static str)
        ensures
            out@ == self.label(),
    {
        match self {
            SortProperty::Intensity => "intensity",
            SortProperty::Energy => "energy",
        }
    }
}

impl Default for SortProperty {
    fn default() -> (out: SortProperty)
        ensures
            out == SortProperty::Energy,
    {
        SortProperty::Energy
    }
}

impl From<String> for SortProperty {
    fn from(property: String) -> (out: SortProperty) {
        let word = property.as_str();
        if matches_ignoring_case(word, "i") || matches_ignoring_case(word, "intensity") {
            SortProperty::Intensity
        } else {
            SortProperty::Energy
        }
    }
}

impl vstd::std_specs::convert::FromSpecImpl<String> for SortProperty {
    open spec fn obeys_from_spec() -> bool {
        true
    }

    open spec fn from_spec(property: String) -> SortProperty {
        SortProperty::named_by(property@)
    }
}

} // verus!
