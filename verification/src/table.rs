//! The decay data of a time step as a fixed-width text table.
//!
//! The table never prints a number itself. For each value it decides how
//! the number is to be written: how many decimals, fixed or scientific,
//! in which unit of time. Whoever holds the number writes it out that way
//! and hands the text back in a [`RecordText`]. The table then decides
//! what stands in each column and lays the lines out.

use vstd::prelude::*;
use vstd::string::*;
use crate::quantity::{
    key_of, key_or, Quantity, CENTURY, DAY, HOUR, HUNDRED, MICRO, MILLI, MINUS_ONE, MINUTE, ONE,
    TEN, YEAR, ZERO,
};
use crate::record::DecayRecord;
use crate::source::Source;
use crate::text::{
    centred, left_aligned, push_centred, push_left_aligned, push_repeated, repeated,
};

verus! {

/// How a number is to be written out.
#[derive(Clone, Copy, Debug, PartialEq, Eq, Structural)]
pub enum Notation {
    /// Fixed point with this many decimals.
    Fixed(u8),
    /// Mantissa with this many decimals, then `e` and the exponent.
    Scientific(u8),
    /// Mantissa with the first number of decimals, then the exponent with
    /// its sign, filled up to the second number of digits.
    Padded(u8, u8),
    /// The shortest form that reads back as the same number.
    Shortest,
}

/// What stands in the branching-ratio column.
#[derive(Clone, Copy, Debug, PartialEq, Eq, Structural)]
pub enum BranchingStyle {
    /// Nothing: the mode takes every decay.
    Blank,
    /// The whole percentage, in parentheses.
    Percent,
    /// A note that it is under one percent.
    Trace,
    /// A note that it is not known.
    Unknown,
}

/// A unit of time.
#[derive(Clone, Copy, Debug, PartialEq, Eq, Structural)]
pub enum TimeUnit {
    Years,
    Days,
    Hours,
    Minutes,
    Seconds,
    Milliseconds,
    Microseconds,
    Nanoseconds,
}

/// How a half-life is to be written out: in which unit, and how the number
/// of those units is written.
#[derive(Clone, Copy, Debug, PartialEq, Eq, Structural)]
pub struct HalfLifeForm {
    pub unit: TimeUnit,
    pub notation: Notation,
}

/// The numbers of one decay record, written out.
#[derive(Clone, Debug)]
pub struct RecordText {
    /// The parent's excitation energy in keV, zero where it is not known.
    pub p_energy: String,
    /// The half-life, in the unit that its form names.
    pub half_life: String,
    /// The branching ratio in whole percent.
    pub branching: String,
    /// The emission energy in keV.
    pub energy: String,
    /// The emission intensity in percent.
    pub intensity: String,
}

/// How each number of a decay record is to be written out for the table.
/// A number that the table does not show has no notation.
#[derive(Clone, Copy, Debug, PartialEq, Eq, Structural)]
pub struct RecordForm {
    /// The parent's excitation energy, zero where it is not known.
    pub p_energy: Notation,
    /// The half-life, where it is known.
    pub half_life: Option<HalfLifeForm>,
    /// The branching ratio, where it is shown as a percentage.
    pub branching: Option<Notation>,
    /// The emission energy, where it is known.
    pub energy: Option<Notation>,
    /// The emission intensity, where it is known.
    pub intensity: Option<Notation>,
}

impl TimeUnit {
    /// The abbreviation that follows a number of these units.
    pub open spec fn label(self) -> Seq<char> {
        match self {
            TimeUnit::Years => "years"@,
            TimeUnit::Days => "days"@,
            TimeUnit::Hours => "hours"@,
            TimeUnit::Minutes => "minutes"@,
            TimeUnit::Seconds => "s"@,
            TimeUnit::Milliseconds => "ms"@,
            TimeUnit::Microseconds => "us"@,
            TimeUnit::Nanoseconds => "ns"@,
        }
    }

    /// The bit pattern of the number of seconds in one unit.
    pub open spec fn length(self) -> u32 {
        match self {
            TimeUnit::Years => YEAR,
            TimeUnit::Days => DAY,
            TimeUnit::Hours => HOUR,
            TimeUnit::Minutes => MINUTE,
            TimeUnit::Seconds => ONE,
            TimeUnit::Milliseconds => MILLI,
            TimeUnit::Microseconds => MICRO,
            TimeUnit::Nanoseconds => crate::quantity::NANO,
        }
    }

    /// The abbreviation that follows a number of these units.
    pub fn suffix(&self) -> (out: &'static str)
        ensures
            out@ == self.label(),
    {
        match self {
            TimeUnit::Years => "years",
            TimeUnit::Days => "days",
            TimeUnit::Hours => "hours",
            TimeUnit::Minutes => "minutes",
            TimeUnit::Seconds => "s",
            TimeUnit::Milliseconds => "ms",
            TimeUnit::Microseconds => "us",
            TimeUnit::Nanoseconds => "ns",
        }
    }

    /// The bit pattern of the number of seconds in one unit.
    pub fn seconds(&self) -> (out: u32)
        ensures
            out == self.length(),
    {
        match self {
            TimeUnit::Years => YEAR,
            TimeUnit::Days => DAY,
            TimeUnit::Hours => HOUR,
            TimeUnit::Minutes => MINUTE,
            TimeUnit::Seconds => ONE,
            TimeUnit::Milliseconds => MILLI,
            TimeUnit::Microseconds => MICRO,
            TimeUnit::Nanoseconds => crate::quantity::NANO,
        }
    }
}

/// What stands in the branching-ratio column: nothing from 100 % up, the
/// percentage from 1 % up, a note below that, and another where the ratio
/// is not known.
pub open spec fn branching_style_of(branching: Option<Quantity>) -> BranchingStyle {
    match branching {
        None => BranchingStyle::Unknown,
        Some(b) => if b.key() >= key_of(HUNDRED) {
            BranchingStyle::Blank
        } else if b.key() >= key_of(ONE) {
            BranchingStyle::Percent
        } else {
            BranchingStyle::Trace
        },
    }
}

/// How an energy or an intensity is written: two decimals from 10 up,
/// three from 0.001 up, scientific with two decimals below.
pub open spec fn notation_of(value: Quantity) -> Notation {
    if value.key() >= key_of(TEN) {
        Notation::Fixed(2)
    } else if value.key() >= key_of(MILLI) {
        Notation::Fixed(3)
    } else {
        Notation::Scientific(2)
    }
}

/// How a half-life in seconds is written: in the largest unit that it
/// fills, with two decimals; with a padded exponent from a hundred years
/// up.
pub open spec fn half_life_form_of(seconds: Quantity) -> HalfLifeForm {
    if seconds.key() >= key_of(CENTURY) {
        HalfLifeForm { unit: TimeUnit::Years, notation: Notation::Padded(2, 2) }
    } else if seconds.key() >= key_of(YEAR) {
        HalfLifeForm { unit: TimeUnit::Years, notation: Notation::Fixed(2) }
    } else if seconds.key() >= key_of(DAY) {
        HalfLifeForm { unit: TimeUnit::Days, notation: Notation::Fixed(2) }
    } else if seconds.key() >= key_of(HOUR) {
        HalfLifeForm { unit: TimeUnit::Hours, notation: Notation::Fixed(2) }
    } else if seconds.key() >= key_of(MINUTE) {
        HalfLifeForm { unit: TimeUnit::Minutes, notation: Notation::Fixed(2) }
    } else if seconds.key() >= key_of(ONE) {
        HalfLifeForm { unit: TimeUnit::Seconds, notation: Notation::Fixed(2) }
    } else if seconds.key() >= key_of(MILLI) {
        HalfLifeForm { unit: TimeUnit::Milliseconds, notation: Notation::Fixed(2) }
    } else if seconds.key() >= key_of(MICRO) {
        HalfLifeForm { unit: TimeUnit::Microseconds, notation: Notation::Fixed(2) }
    } else {
        HalfLifeForm { unit: TimeUnit::Nanoseconds, notation: Notation::Fixed(2) }
    }
}

/// How each number of a record is written: the parent energy in its
/// shortest form, the branching ratio in whole percent, the half-life,
/// the energy and the intensity by their size.
pub open spec fn record_form_of(record: DecayRecord) -> RecordForm {
    RecordForm {
        p_energy: Notation::Shortest,
        half_life: match record.half_life {
            Some(seconds) => Some(half_life_form_of(seconds)),
            None => None,
        },
        branching: if branching_style_of(record.branching) == BranchingStyle::Percent {
            Some(Notation::Fixed(0))
        } else {
            None
        },
        energy: match record.energy {
            Some(e) => Some(notation_of(e)),
            None => None,
        },
        intensity: match record.intensity {
            Some(i) => Some(notation_of(i)),
            None => None,
        },
    }
}

/// The branching-ratio column, given the ratio in whole percent.
pub open spec fn branching_text(branching: Option<Quantity>, percent: Seq<char>) -> Seq<char> {
    match branching_style_of(branching) {
        BranchingStyle::Blank => Seq::empty(),
        BranchingStyle::Percent => "("@ + percent + "%)"@,
        BranchingStyle::Trace => "(< 1%)"@,
        BranchingStyle::Unknown => "None"@,
    }
}

/// A value column: the number where there is one, else a dash.
pub open spec fn value_text(value: Option<Quantity>, number: Seq<char>) -> Seq<char> {
    match value {
        Some(_) => number,
        None => "  -"@,
    }
}

/// A half-life: the number and its unit where it is known, else a dash.
pub open spec fn half_life_text(half_life: Option<Quantity>, number: Seq<char>) -> Seq<char> {
    match half_life {
        Some(seconds) => number + " "@ + half_life_form_of(seconds).unit.label(),
        None => "-"@,
    }
}

/// The excitation energy that a record is filed under: its parent energy,
/// or zero where it carries none.
pub open spec fn parent_key(record: DecayRecord) -> int {
    key_or(record.p_energy, 0)
}

/// The highest excitation energy seen once `records` have gone by, having
/// started from `start`.
pub open spec fn highest_after(records: Seq<DecayRecord>, start: int) -> int
    decreases records.len(),
{
    if records.len() == 0 {
        start
    } else if parent_key(records.last()) > highest_after(records.drop_last(), start) {
        parent_key(records.last())
    } else {
        highest_after(records.drop_last(), start)
    }
}

/// The line that announces an excitation level of a nuclide.
pub open spec fn level_line(name: Seq<char>, record: DecayRecord, text: RecordText) -> Seq<char> {
    "\n "@ + name + " [E = "@ + text.p_energy@ + " keV, t1/2 = "@ + half_life_text(
        record.half_life,
        text.half_life@,
    ) + "]\n"@
}

/// The lines that announce the excitation levels of a nuclide: one for
/// each record whose parent energy is higher than any before it.
pub open spec fn level_lines(
    name: Seq<char>,
    records: Seq<DecayRecord>,
    texts: Seq<RecordText>,
    start: int,
) -> Seq<char>
    decreases records.len(),
{
    if records.len() == 0 || texts.len() != records.len() {
        Seq::empty()
    } else if parent_key(records.last()) > highest_after(records.drop_last(), start) {
        level_lines(name, records.drop_last(), texts.drop_last(), start) + level_line(
            name,
            records.last(),
            texts.last(),
        )
    } else {
        level_lines(name, records.drop_last(), texts.drop_last(), start)
    }
}

/// The first columns of a table line: the parent, how it decays, and what
/// it decays to.
pub open spec fn decay_columns(record: DecayRecord) -> Seq<char> {
    "  "@ + left_aligned(record.parent@, 5) + " > "@ + centred(record.decay_mode@, 5) + " > "@
        + left_aligned(record.daughter@, 5) + " "@
}

/// The last columns of a table line: branching ratio, energy and
/// intensity, and the end of the line.
pub open spec fn value_columns(record: DecayRecord, text: RecordText) -> Seq<char> {
    left_aligned(branching_text(record.branching, text.branching@), 6) + "     "@ + left_aligned(
        value_text(record.energy, text.energy@),
        7,
    ) + "     "@ + left_aligned(value_text(record.intensity, text.intensity@), 7) + "\n"@
}

/// The table line of one record.
pub open spec fn record_line(record: DecayRecord, text: RecordText) -> Seq<char> {
    decay_columns(record) + value_columns(record, text)
}

/// The table line of one record, after an empty line where its parent
/// energy is higher than `highest`.
pub open spec fn record_entry(record: DecayRecord, text: RecordText, highest: int) -> Seq<char> {
    if parent_key(record) > highest {
        "\n"@ + record_line(record, text)
    } else {
        record_line(record, text)
    }
}

/// The table lines of the records of a nuclide.
pub open spec fn record_lines(records: Seq<DecayRecord>, texts: Seq<RecordText>, start: int) -> Seq<
    char,
>
    decreases records.len(),
{
    if records.len() == 0 || texts.len() != records.len() {
        Seq::empty()
    } else {
        record_lines(records.drop_last(), texts.drop_last(), start) + record_entry(
            records.last(),
            texts.last(),
            highest_after(records.drop_last(), start),
        )
    }
}

/// Everything the table says of one nuclide: its levels, then its records.
pub open spec fn nuclide_block(nuclide: Source, texts: Seq<RecordText>) -> Seq<char> {
    level_lines(nuclide.fispact_name@, nuclide.iaea_records@, texts, key_of(MINUS_ONE))
        + record_lines(
        nuclide.iaea_records@,
        texts,
        highest_after(nuclide.iaea_records@, key_of(MINUS_ONE)),
    )
}

/// Whether there is one text for each record of each nuclide.
pub open spec fn fits(nuclides: Seq<Source>, texts: Seq<Vec<RecordText>>) -> bool {
    &&& texts.len() == nuclides.len()
    &&& forall|i: int|
        0 <= i < nuclides.len() ==> (#[trigger] texts[i]).len() == nuclides[i].iaea_records.len()
}

/// The body of the table: the blocks of all nuclides in turn.
pub open spec fn content_text(nuclides: Seq<Source>, texts: Seq<Vec<RecordText>>) -> Seq<char>
    decreases nuclides.len(),
{
    if nuclides.len() == 0 || texts.len() != nuclides.len() {
        Seq::empty()
    } else {
        content_text(nuclides.drop_last(), texts.drop_last()) + nuclide_block(
            nuclides.last(),
            texts.last()@,
        )
    }
}

/// The head of the table: a rule, the column titles, a rule.
pub open spec fn header_text() -> Seq<char> {
    repeated('-', 58) + "\n"@ + "  "@ + centred("P"@, 5) + "   "@ + centred("Mode"@, 5) + "  "@
        + centred("D"@, 5) + "   BR    Energy [keV]  Intensity [%]\n"@ + repeated('-', 58) + "\n"@
}

/// The table lines of the records, one after another.
pub open spec fn plain_lines(records: Seq<DecayRecord>, texts: Seq<RecordText>) -> Seq<char>
    decreases records.len(),
{
    if records.len() == 0 || texts.len() != records.len() {
        Seq::empty()
    } else {
        plain_lines(records.drop_last(), texts.drop_last()) + record_line(
            records.last(),
            texts.last(),
        )
    }
}

/// The highest level seen is no lower than where the count started, nor
/// than the level of any record that has gone by.
pub proof fn lemma_highest_bounds(records: Seq<DecayRecord>, start: int)
    ensures
        start <= highest_after(records, start),
        forall|i: int| 0 <= i < records.len() ==> parent_key(#[trigger] records[i]) <= highest_after(
            records,
            start,
        ),
    decreases records.len(),
{
    if records.len() > 0 {
        lemma_highest_bounds(records.drop_last(), start);
        assert forall|i: int| 0 <= i < records.len() implies parent_key(#[trigger] records[i])
            <= highest_after(records, start) by {
            if i < records.len() - 1 {
                assert(records.drop_last()[i] == records[i]);
            }
        }
    }
}

/// Records that start no new level follow each other without an empty
/// line, and leave the highest level where it was.
pub proof fn lemma_no_empty_lines(records: Seq<DecayRecord>, texts: Seq<RecordText>, floor: int)
    requires
        texts.len() == records.len(),
        forall|i: int| 0 <= i < records.len() ==> parent_key(#[trigger] records[i]) <= floor,
    ensures
        highest_after(records, floor) == floor,
        record_lines(records, texts, floor) == plain_lines(records, texts),
    decreases records.len(),
{
    if records.len() > 0 {
        assert forall|i: int| 0 <= i < records.drop_last().len() implies parent_key(
            #[trigger] records.drop_last()[i],
        ) <= floor by {
            assert(records.drop_last()[i] == records[i]);
        }
        lemma_no_empty_lines(records.drop_last(), texts.drop_last(), floor);
        assert(parent_key(records[records.len() - 1]) <= floor);
    }
}

/// The table names all the levels of a nuclide before it lists any of its
/// records, and no empty line stands between the records.
pub proof fn lemma_levels_come_first(nuclide: Source, texts: Seq<RecordText>)
    requires
        texts.len() == nuclide.iaea_records@.len(),
    ensures
        nuclide_block(nuclide, texts) == level_lines(
            nuclide.fispact_name@,
            nuclide.iaea_records@,
            texts,
            key_of(MINUS_ONE),
        ) + plain_lines(nuclide.iaea_records@, texts),
{
    let records = nuclide.iaea_records@;
    lemma_highest_bounds(records, key_of(MINUS_ONE));
    lemma_no_empty_lines(records, texts, highest_after(records, key_of(MINUS_ONE)));
}

/// What stands in the branching-ratio column.
pub fn branching_style(branching: Option<Quantity>) -> (out: BranchingStyle)
    ensures
        out == branching_style_of(branching),
{
    match branching {
        None => BranchingStyle::Unknown,
        Some(b) => if b.at_least(HUNDRED) {
            BranchingStyle::Blank
        } else if b.at_least(ONE) {
            BranchingStyle::Percent
        } else {
            BranchingStyle::Trace
        },
    }
}

/// How an energy or an intensity is to be written.
pub fn value_notation(value: Quantity) -> (out: Notation)
    ensures
        out == notation_of(value),
{
    if value.at_least(TEN) {
        Notation::Fixed(2)
    } else if value.at_least(MILLI) {
        Notation::Fixed(3)
    } else {
        Notation::Scientific(2)
    }
}

/// How a half-life in seconds is to be written.
pub fn half_life_form(seconds: Quantity) -> (out: HalfLifeForm)
    ensures
        out == half_life_form_of(seconds),
{
    if seconds.at_least(CENTURY) {
        HalfLifeForm { unit: TimeUnit::Years, notation: Notation::Padded(2, 2) }
    } else if seconds.at_least(YEAR) {
        HalfLifeForm { unit: TimeUnit::Years, notation: Notation::Fixed(2) }
    } else if seconds.at_least(DAY) {
        HalfLifeForm { unit: TimeUnit::Days, notation: Notation::Fixed(2) }
    } else if seconds.at_least(HOUR) {
        HalfLifeForm { unit: TimeUnit::Hours, notation: Notation::Fixed(2) }
    } else if seconds.at_least(MINUTE) {
        HalfLifeForm { unit: TimeUnit::Minutes, notation: Notation::Fixed(2) }
    } else if seconds.at_least(ONE) {
        HalfLifeForm { unit: TimeUnit::Seconds, notation: Notation::Fixed(2) }
    } else if seconds.at_least(MILLI) {
        HalfLifeForm { unit: TimeUnit::Milliseconds, notation: Notation::Fixed(2) }
    } else if seconds.at_least(MICRO) {
        HalfLifeForm { unit: TimeUnit::Microseconds, notation: Notation::Fixed(2) }
    } else {
        HalfLifeForm { unit: TimeUnit::Nanoseconds, notation: Notation::Fixed(2) }
    }
}

/// How each number of a record is to be written out.
pub fn record_form(record: &DecayRecord) -> (out: RecordForm)
    ensures
        out == record_form_of(*record),
{
    RecordForm {
        p_energy: Notation::Shortest,
        half_life: match record.half_life {
            Some(seconds) => Some(half_life_form(seconds)),
            None => None,
        },
        branching: match branching_style(record.branching) {
            BranchingStyle::Percent => Some(Notation::Fixed(0)),
            _ => None,
        },
        energy: match record.energy {
            Some(e) => Some(value_notation(e)),
            None => None,
        },
        intensity: match record.intensity {
            Some(i) => Some(value_notation(i)),
            None => None,
        },
    }
}

/// The branching-ratio column, given the ratio in whole percent.
pub fn format_branching(branching: Option<Quantity>, percent: &str) -> (out: String)
    ensures
        out@ == branching_text(branching, percent@),
{
    let mut out = String::new();
    match branching_style(branching) {
        BranchingStyle::Blank => {},
        BranchingStyle::Percent => {
            out.append("(");
            out.append(percent);
            out.append("%)");
            assert(out@ =~= "("@ + percent@ + "%)"@);
        },
        BranchingStyle::Trace => {
            out.append("(< 1%)");
            assert(out@ =~= "(< 1%)"@);
        },
        BranchingStyle::Unknown => {
            out.append("None");
            assert(out@ =~= "None"@);
        },
    }
    out
}

/// The energy column: the number where the energy is known, else a dash.
pub fn format_energy(energy: Option<Quantity>, number: &str) -> (out: String)
    ensures
        out@ == value_text(energy, number@),
{
    let mut out = String::new();
    match energy {
        Some(_) => {
            out.append(number);
            assert(out@ =~= number@);
        },
        None => {
            out.append("  -");
            assert(out@ =~= "  -"@);
        },
    }
    out
}

/// The intensity column: the number where the intensity is known, else a
/// dash.
pub fn format_intensity(intensity: Option<Quantity>, number: &str) -> (out: String)
    ensures
        out@ == value_text(intensity, number@),
{
    format_energy(intensity, number)
}

/// A half-life with its unit, given the number of those units; a dash
/// where the half-life is not known.
pub fn human_readable_halflife(halflife: Option<Quantity>, number: &str) -> (out: String)
    ensures
        out@ == half_life_text(halflife, number@),
{
    let mut out = String::new();
    match halflife {
        Some(seconds) => {
            out.append(number);
            out.append(" ");
            out.append(half_life_form(seconds).unit.suffix());
            assert(out@ =~= number@ + " "@ + half_life_form_of(seconds).unit.label());
        },
        None => {
            out.append("-");
            assert(out@ =~= "-"@);
        },
    }
    out
}

/// The excitation energy that a record is filed under: its parent energy,
/// or zero where it carries none.
pub fn filed_under(record: &DecayRecord) -> (out: Quantity)
    ensures
        out.key() == parent_key(*record),
        record.p_energy is Some ==> out == record.p_energy->0,
{
    match record.p_energy {
        Some(q) => q,
        None => {
            let zero = Quantity::from_bits(ZERO);
            zero.unwrap()
        },
    }
}

/// Whether some record of the nuclide carries no parent energy, so that
/// the table files it under the ground state.
pub open spec fn is_incomplete(nuclide: Source) -> bool {
    exists|i: int|
        0 <= i < nuclide.iaea_records.len() && (#[trigger] nuclide.iaea_records[i]).p_energy is None
}

/// Decides whether the table assumes the ground state for some record of
/// the nuclide. That is worth a warning, once for the nuclide.
pub fn incomplete(nuclide: &Source) -> (out: bool)
    ensures
        out == is_incomplete(*nuclide),
{
    let mut i: usize = 0;
    while i < nuclide.iaea_records.len()
        invariant
            i <= nuclide.iaea_records.len(),
            forall|k: int| 0 <= k < i ==> (#[trigger] nuclide.iaea_records[k]).p_energy is Some,
        decreases nuclide.iaea_records.len() - i,
    {
        if nuclide.iaea_records[i].p_energy.is_none() {
            return true;
        }
        i += 1;
    }
    false
}

/// The head of the table.
pub fn header() -> (out: String)
    ensures
        out@ == header_text(),
{
    let mut table = String::new();
    push_repeated(&mut table, '-', 58);
    table.append("\n");
    table.append("  ");
    push_centred(&mut table, "P", 5);
    table.append("   ");
    push_centred(&mut table, "Mode", 5);
    table.append("  ");
    push_centred(&mut table, "D", 5);
    table.append("   BR    Energy [keV]  Intensity [%]\n");
    push_repeated(&mut table, '-', 58);
    table.append("\n");
    assert(table@ =~= header_text());
    table
}

/// The lines that announce the excitation levels of a nuclide, and the
/// highest level among them.
///
/// `p_energy` is the highest excitation energy seen so far; a record with
/// a higher one starts a new level and raises it.
pub fn format_nuclide_header(nuclide: &Source, texts: &Vec<RecordText>, p_energy: &mut Quantity) -> (out:
    String)
    requires
        texts.len() == nuclide.iaea_records.len(),
    ensures
        out@ == level_lines(
            nuclide.fispact_name@,
            nuclide.iaea_records@,
            texts@,
            old(p_energy).key(),
        ),
        final(p_energy).key() == highest_after(nuclide.iaea_records@, old(p_energy).key()),
{
    let ghost start = p_energy.key();
    let ghost name = nuclide.fispact_name@;
    let ghost records = nuclide.iaea_records@;
    let mut header = String::new();
    let mut i: usize = 0;
    proof {
        assert(records.take(0) =~= Seq::<DecayRecord>::empty());
    }
    while i < nuclide.iaea_records.len()
        invariant
            i <= records.len(),
            records == nuclide.iaea_records@,
            name == nuclide.fispact_name@,
            texts.len() == records.len(),
            header@ == level_lines(name, records.take(i as int), texts@.take(i as int), start),
            p_energy.key() == highest_after(records.take(i as int), start),
        decreases records.len() - i,
    {
        let record = &nuclide.iaea_records[i];
        let text = &texts[i];
        proof {
            assert(records.take(i + 1).drop_last() =~= records.take(i as int));
            assert(texts@.take(i + 1).drop_last() =~= texts@.take(i as int));
            assert(records.take(i + 1).last() == records[i as int]);
            assert(texts@.take(i + 1).last() == texts@[i as int]);
        }
        let parent_energy = filed_under(record);
        if parent_energy.exceeds(p_energy) {
            *p_energy = parent_energy;
            let ghost before = header@;
            header.append("\n ");
            header.append(nuclide.fispact_name.as_str());
            header.append(" [E = ");
            header.append(text.p_energy.as_str());
            header.append(" keV, t1/2 = ");
            let half_life = human_readable_halflife(record.half_life, text.half_life.as_str());
            header.append(half_life.as_str());
            header.append("]\n");
            assert(header@ =~= before + level_line(name, *record, *text));
        }
        i += 1;
    }
    proof {
        assert(records.take(records.len() as int) =~= records);
        assert(texts@.take(records.len() as int) =~= texts@);
    }
    header
}

/// Appends the first columns of a table line.
pub fn push_decay_columns(line: &mut String, record: &DecayRecord)
    ensures
        final(line)@ == old(line)@ + decay_columns(*record),
{
    line.append("  ");
    push_left_aligned(line, record.parent.as_str(), 5);
    line.append(" > ");
    push_centred(line, record.decay_mode.as_str(), 5);
    line.append(" > ");
    push_left_aligned(line, record.daughter.as_str(), 5);
    line.append(" ");
    assert(line@ =~= old(line)@ + decay_columns(*record));
}

/// Appends the last columns of a table line, and ends the line.
pub fn push_value_columns(line: &mut String, record: &DecayRecord, text: &RecordText)
    ensures
        final(line)@ == old(line)@ + value_columns(*record, *text),
{
    let branching = format_branching(record.branching, text.branching.as_str());
    push_left_aligned(line, branching.as_str(), 6);
    line.append("     ");
    let energy = format_energy(record.energy, text.energy.as_str());
    push_left_aligned(line, energy.as_str(), 7);
    line.append("     ");
    let intensity = format_intensity(record.intensity, text.intensity.as_str());
    push_left_aligned(line, intensity.as_str(), 7);
    line.append("\n");
    assert(line@ =~= old(line)@ + value_columns(*record, *text));
}

/// The table line of one record, after an empty line where the record
/// starts a new excitation level.
///
/// `p_energy` is the highest excitation energy seen so far; a record with
/// a higher one raises it.
pub fn format_record(record: &DecayRecord, text: &RecordText, p_energy: &mut Quantity) -> (out: String)
    ensures
        out@ == record_entry(*record, *text, old(p_energy).key()),
        final(p_energy).key() == if parent_key(*record) > old(p_energy).key() {
            parent_key(*record)
        } else {
            old(p_energy).key()
        },
{
    let mut line = String::new();
    let parent_energy = filed_under(record);
    if parent_energy.exceeds(p_energy) {
        *p_energy = parent_energy;
        line.append("\n");
    }
    let ghost lead = line@;
    push_decay_columns(&mut line, record);
    push_value_columns(&mut line, record, text);
    assert(line@ =~= lead + record_line(*record, *text));
    assert(Seq::<char>::empty() + record_line(*record, *text) =~= record_line(*record, *text));
    line
}

/// Everything the table says of one nuclide.
pub fn nuclide_rows(nuclide: &Source, texts: &Vec<RecordText>) -> (out: String)
    requires
        texts.len() == nuclide.iaea_records.len(),
    ensures
        out@ == nuclide_block(*nuclide, texts@),
{
    let start = Quantity::from_bits(MINUS_ONE);
    let mut p_energy = start.unwrap();
    let mut block = format_nuclide_header(nuclide, texts, &mut p_energy);
    let ghost records = nuclide.iaea_records@;
    let ghost levels = block@;
    let ghost floor = p_energy.key();
    let mut i: usize = 0;
    proof {
        assert(records.take(0) =~= Seq::<DecayRecord>::empty());
        assert(levels + Seq::<char>::empty() =~= levels);
    }
    while i < nuclide.iaea_records.len()
        invariant
            i <= records.len(),
            records == nuclide.iaea_records@,
            texts.len() == records.len(),
            block@ == levels + record_lines(records.take(i as int), texts@.take(i as int), floor),
            p_energy.key() == highest_after(records.take(i as int), floor),
        decreases records.len() - i,
    {
        proof {
            assert(records.take(i + 1).drop_last() =~= records.take(i as int));
            assert(texts@.take(i + 1).drop_last() =~= texts@.take(i as int));
            assert(records.take(i + 1).last() == records[i as int]);
            assert(texts@.take(i + 1).last() == texts@[i as int]);
        }
        let ghost before = block@;
        let line = format_record(&nuclide.iaea_records[i], &texts[i], &mut p_energy);
        block.append(line.as_str());
        assert(block@ =~= levels + record_lines(
            records.take(i + 1),
            texts@.take(i + 1),
            floor,
        ));
        i += 1;
    }
    proof {
        assert(records.take(records.len() as int) =~= records);
        assert(texts@.take(records.len() as int) =~= texts@);
    }
    block
}

/// The body of the table.
pub fn content(nuclides: &[Source], texts: &[Vec<RecordText>]) -> (out: String)
    requires
        fits(nuclides@, texts@),
    ensures
        out@ == content_text(nuclides@, texts@),
{
    let mut table = String::new();
    let mut i: usize = 0;
    proof {
        assert(nuclides@.take(0) =~= Seq::<Source>::empty());
    }
    while i < nuclides.len()
        invariant
            i <= nuclides.len(),
            fits(nuclides@, texts@),
            table@ == content_text(nuclides@.take(i as int), texts@.take(i as int)),
        decreases nuclides.len() - i,
    {
        proof {
            assert(nuclides@.take(i + 1).drop_last() =~= nuclides@.take(i as int));
            assert(texts@.take(i + 1).drop_last() =~= texts@.take(i as int));
            assert(nuclides@.take(i + 1).last() == nuclides@[i as int]);
            assert(texts@.take(i + 1).last() == texts@[i as int]);
        }
        let block = nuclide_rows(&nuclides[i], &texts[i]);
        table.append(block.as_str());
        i += 1;
    }
    proof {
        assert(nuclides@.take(nuclides.len() as int) =~= nuclides@);
        assert(texts@.take(nuclides.len() as int) =~= texts@);
    }
    table
}

/// Decides whether there is one text for each record of each nuclide.
pub fn texts_fit(nuclides: &[Source], texts: &[Vec<RecordText>]) -> (out: bool)
    ensures
        out == fits(nuclides@, texts@),
{
    if texts.len() != nuclides.len() {
        return false;
    }
    let mut i: usize = 0;
    while i < nuclides.len()
        invariant
            i <= nuclides.len(),
            texts.len() == nuclides.len(),
            forall|k: int| 0 <= k < i ==> (#[trigger] texts[k]).len() == nuclides[k].iaea_records.len(),
        decreases nuclides.len() - i,
    {
        if texts[i].len() != nuclides[i].iaea_records.len() {
            return false;
        }
        i += 1;
    }
    true
}

/// A complete table of the decay data of the nuclides of one time step.
pub struct Table(String);

impl Table {
    /// The text of the table.
    pub closed spec fn text(self) -> Seq<char> {
        self.0@
    }

    /// Lays out the table of `nuclides`, whose numbers are written out in
    /// `texts`. `None` unless there is one text for each record.
    pub fn new(nuclides: &[Source], texts: &[Vec<RecordText>]) -> (out: Option<Table>)
        ensures
            out is Some <==> fits(nuclides@, texts@),
            out is Some ==> out->0.text() == header_text() + content_text(nuclides@, texts@),
    {
        if !texts_fit(nuclides, texts) {
            return None;
        }
        let mut s = header();
        let body = content(nuclides, texts);
        s.append(body.as_str());
        Some(Table(s))
    }

    /// The text of the table.
    pub fn as_str(&self) -> (out: &str)
        ensures
            out@ == self.text(),
    {
        self.0.as_str()
    }

    /// Appends the table to `sink`, encoded as UTF-8.
    pub fn write(&self, sink: &mut Vec<u8>)
        ensures
            final(sink)@ == old(sink)@ + vstd::utf8::encode_utf8(self.text()),
    {
        let bytes = self.0.as_str().as_bytes();
        sink.extend_from_slice(bytes);
    }
}

} // verus!
