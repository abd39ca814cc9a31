//! The sources of a time step as source-distribution cards.
//!
//! The deck holds one distribution that picks a nuclide by its share of
//! the emissions, and one distribution per nuclide that picks an emission
//! energy by its intensity. Distributions are numbered from a starting id:
//! the overall one takes it, the nuclides follow in order.
//!
//! As in the table, the numbers arrive written out. This module numbers
//! the distributions, lays the cards out and wraps them to the line
//! length that the transport code reads.

use vstd::prelude::*;
use vstd::string::*;
use crate::source::Source;
use crate::table::Notation;
use crate::text::{
    decimal, joined, left_aligned, push_decimal, push_left_aligned, views,
};

verus! {

/// The longest line of a card.
pub const LINE_WIDTH: usize = 80;

/// Bit pattern of `1e-3`, the factor that takes an energy in keV to MeV.
pub const KEV_TO_MEV: u32 = 0x3a83_126f;

/// Bit pattern of `1e-2`, the factor that takes an intensity in percent to
/// a fraction of decays.
pub const PERCENT_TO_FRACTION: u32 = 0x3c23_d70a;

/// The numbers of one source, written out.
#[derive(Clone, Debug)]
pub struct SourceText {
    /// Emissions per second: the activity times the norm.
    pub weight: String,
    /// The activity in Bq.
    pub activity: String,
    /// Emissions per decay.
    pub norm: String,
    /// The emission energy of each record, in MeV.
    pub energies: Vec<String>,
    /// The emission intensity of each record, as a fraction of decays.
    pub intensities: Vec<String>,
}

/// What `textwrap::fill` makes of `text` when it wraps at `width` columns,
/// indents every line after the first with `indent`, and neither
/// hyphenates nor breaks a word.
pub uninterp spec fn wrapped(text: Seq<char>, width: nat, indent: Seq<char>) -> Seq<char>;

/// The indent of a continuation line.
pub open spec fn continuation() -> Seq<char> {
    "        "@
}

/// A card line as it goes into the deck: wrapped to the line width, with
/// continuation lines indented.
pub open spec fn card_line(text: Seq<char>) -> Seq<char> {
    wrapped(text, LINE_WIDTH as nat, continuation())
}

/// A distribution: its comment and its two cards, each on a line of its
/// own, closed by an empty comment.
pub open spec fn distribution(comment: Seq<char>, si: Seq<char>, sp: Seq<char>) -> Seq<char> {
    comment + "\n"@ + si + "\n"@ + sp + "\nc"@
}

/// The comment above the overall distribution.
pub open spec fn activity_comment(total: Seq<char>, id: nat) -> Seq<char> {
    "sc"@ + left_aligned(decimal(id), 5) + " Main source distribution ("@ + total
        + " counts/src particle)"@
}

/// The ids of the `count` distributions that follow distribution `id`,
/// each with a space behind it.
pub open spec fn following_ids(id: nat, count: nat) -> Seq<char>
    decreases count,
{
    if count == 0 {
        Seq::empty()
    } else {
        following_ids(id, (count - 1) as nat) + decimal(id + count) + " "@
    }
}

/// The card that lists the distributions of the nuclides.
pub open spec fn activity_si(id: nat, count: nat) -> Seq<char> {
    "si"@ + left_aligned(decimal(id) + " S "@, 6) + following_ids(id, count)
}

/// The weight of one nuclide, and behind it what the weight is made of.
pub open spec fn weight_entry(name: Seq<char>, text: SourceText) -> Seq<char> {
    text.weight@ + "    $ "@ + left_aligned(name, 6) + " = "@ + text.activity@ + " Bq * "@
        + text.norm@ + " particles/decay "@
}

/// The weights of the nuclides in turn.
pub open spec fn weight_entries(sources: Seq<Source>, texts: Seq<SourceText>) -> Seq<char>
    decreases sources.len(),
{
    if sources.len() == 0 || texts.len() != sources.len() {
        Seq::empty()
    } else {
        weight_entries(sources.drop_last(), texts.drop_last()) + weight_entry(
            sources.last().fispact_name@,
            texts.last(),
        )
    }
}

/// The card that weighs the nuclides against each other.
pub open spec fn activity_sp(sources: Seq<Source>, texts: Seq<SourceText>, id: nat) -> Seq<char> {
    "sp"@ + left_aligned(decimal(id), 6) + weight_entries(sources, texts)
}

/// The overall distribution as it goes into the deck.
pub open spec fn activity_card(
    sources: Seq<Source>,
    texts: Seq<SourceText>,
    total: Seq<char>,
    id: nat,
) -> Seq<char> {
    distribution(
        activity_comment(total, id),
        card_line(activity_si(id, sources.len())),
        card_line(activity_sp(sources, texts, id)),
    )
}

/// The comment above the distribution of a nuclide.
pub open spec fn nuclide_comment(name: Seq<char>, norm: Seq<char>, id: nat) -> Seq<char> {
    "sc"@ + left_aligned(decimal(id), 5) + " "@ + name + " decay data, norm = "@ + norm
        + " particles/decay"@
}

/// The card that lists the emission energies of a nuclide.
pub open spec fn nuclide_si(energies: Seq<Seq<char>>, id: nat) -> Seq<char> {
    "si"@ + decimal(id) + " L "@ + joined(energies, " "@)
}

/// The card that lists the emission intensities of a nuclide.
pub open spec fn nuclide_sp(intensities: Seq<Seq<char>>, id: nat) -> Seq<char> {
    "sp"@ + left_aligned(decimal(id), 6) + joined(intensities, " "@)
}

/// The distribution of a nuclide as it goes into the deck, after an empty
/// line.
pub open spec fn nuclide_card(source: Source, text: SourceText, id: nat) -> Seq<char> {
    "\n"@ + distribution(
        nuclide_comment(source.fispact_name@, text.norm@, id),
        card_line(nuclide_si(views(text.energies@), id)),
        card_line(nuclide_sp(views(text.intensities@), id)),
    )
}

/// The distributions of the nuclides in turn, numbered from `id + 1`.
pub open spec fn nuclide_cards(sources: Seq<Source>, texts: Seq<SourceText>, id: nat) -> Seq<char>
    decreases sources.len(),
{
    if sources.len() == 0 || texts.len() != sources.len() {
        Seq::empty()
    } else {
        nuclide_cards(sources.drop_last(), texts.drop_last(), id) + nuclide_card(
            sources.last(),
            texts.last(),
            id + sources.len(),
        )
    }
}

/// The whole deck: the overall distribution, then those of the nuclides.
pub open spec fn deck(sources: Seq<Source>, texts: Seq<SourceText>, total: Seq<char>, id: nat) -> Seq<
    char,
> {
    activity_card(sources, texts, total, id) + nuclide_cards(sources, texts, id)
}

/// Whether a deck can be laid out: there is one text for each source, and
/// every distribution gets an id that the machine can hold.
pub open spec fn deck_fits(sources: Seq<Source>, texts: Seq<SourceText>, id: nat) -> bool {
    texts.len() == sources.len() && id + sources.len() <= usize::MAX
}

/// Calls `textwrap::fill` on `text` with options for `width` columns, no
/// indent on the first line, `subsequent_indent` on the others, no
/// hyphenation and no breaking of words. The result is a function of the
/// three arguments, and [`wrapped`] is its name.
#[verifier::external_body]
fn wrap_text(text: &str, width: usize, subsequent_indent: &str) -> (out: String)
    ensures
        out@ == wrapped(text@, width as nat, subsequent_indent@),
{
    let options = textwrap::Options::new(width)
        .initial_indent("")
        .subsequent_indent(subsequent_indent)
        .word_splitter(textwrap::WordSplitter::NoHyphenation)
        .break_words(false);
    textwrap::fill(text, options)
}

/// How every number of a deck is written: five decimals and a two-digit
/// exponent.
pub fn deck_notation() -> (out: Notation)
    ensures
        out == Notation::Padded(5, 2),
{
    Notation::Padded(5, 2)
}

/// Appends the pieces, with `sep` between each two.
pub fn push_joined(out: &mut String, parts: &Vec<String>, sep: &str)
    ensures
        final(out)@ == old(out)@ + joined(views(parts@), sep@),
{
    let ghost all = views(parts@);
    let mut i: usize = 0;
    proof {
        assert(all.take(0) =~= Seq::<Seq<char>>::empty());
        assert(old(out)@ + Seq::<char>::empty() =~= old(out)@);
    }
    while i < parts.len()
        invariant
            i <= parts.len(),
            all == views(parts@),
            out@ == old(out)@ + joined(all.take(i as int), sep@),
        decreases parts.len() - i,
    {
        proof {
            assert(all.take(i + 1).drop_last() =~= all.take(i as int));
            assert(all.take(i + 1).last() == parts[i as int]@);
        }
        if i > 0 {
            out.append(sep);
        }
        out.append(parts[i].as_str());
        proof {
            if i == 0 {
                assert(all.take(1)[0] == parts[0]@);
                assert(out@ =~= old(out)@ + joined(all.take(1), sep@));
            } else {
                assert(out@ =~= old(out)@ + joined(all.take(i + 1), sep@));
            }
        }
        i += 1;
    }
    proof {
        assert(all.take(parts.len() as int) =~= all);
    }
}

/// Puts a distribution together from its comment and its two cards.
pub fn assemble(comment: &str, si: &str, sp: &str) -> (out: String)
    ensures
        out@ == distribution(comment@, si@, sp@),
{
    let mut out = String::new();
    out.append(comment);
    out.append("\n");
    out.append(si);
    out.append("\n");
    out.append(sp);
    out.append("\nc");
    assert(out@ =~= distribution(comment@, si@, sp@));
    out
}

/// The overall distribution before its cards are wrapped: the comment,
/// the list of distributions and the weights.
pub fn activity_card_lines(sources: &[Source], texts: &[SourceText], total: &str, id: usize) -> (out:
    (String, String, String))
    requires
        deck_fits(sources@, texts@, id as nat),
    ensures
        out.0@ == activity_comment(total@, id as nat),
        out.1@ == activity_si(id as nat, sources.len() as nat),
        out.2@ == activity_sp(sources@, texts@, id as nat),
{
    let mut comment = String::new();
    comment.append("sc");
    let number = crate::text::decimal_string(id);
    push_left_aligned(&mut comment, number.as_str(), 5);
    comment.append(" Main source distribution (");
    comment.append(total);
    comment.append(" counts/src particle)");
    assert(comment@ =~= activity_comment(total@, id as nat));

    let mut lead = crate::text::decimal_string(id);
    lead.append(" S ");
    let mut si_card = String::new();
    si_card.append("si");
    push_left_aligned(&mut si_card, lead.as_str(), 6);
    let mut sp_card = String::new();
    sp_card.append("sp");
    push_left_aligned(&mut sp_card, number.as_str(), 6);
    let ghost si_lead = si_card@;
    let ghost sp_lead = sp_card@;
    assert(si_lead =~= "si"@ + left_aligned(decimal(id as nat) + " S "@, 6));
    assert(sp_lead =~= "sp"@ + left_aligned(decimal(id as nat), 6));

    let mut i: usize = 0;
    proof {
        assert(sources@.take(0) =~= Seq::<Source>::empty());
        assert(si_lead + Seq::<char>::empty() =~= si_lead);
        assert(sp_lead + Seq::<char>::empty() =~= sp_lead);
    }
    while i < sources.len()
        invariant
            i <= sources.len(),
            deck_fits(sources@, texts@, id as nat),
            si_card@ == si_lead + following_ids(id as nat, i as nat),
            sp_card@ == sp_lead + weight_entries(sources@.take(i as int), texts@.take(i as int)),
        decreases sources.len() - i,
    {
        proof {
            assert(sources@.take(i + 1).drop_last() =~= sources@.take(i as int));
            assert(texts@.take(i + 1).drop_last() =~= texts@.take(i as int));
            assert(sources@.take(i + 1).last() == sources@[i as int]);
            assert(texts@.take(i + 1).last() == texts@[i as int]);
        }
        let dist_id: usize = id + i + 1;
        push_decimal(&mut si_card, dist_id);
        si_card.append(" ");
        assert(si_card@ =~= si_lead + following_ids(id as nat, (i + 1) as nat));
        let text = &texts[i];
        sp_card.append(text.weight.as_str());
        sp_card.append("    $ ");
        push_left_aligned(&mut sp_card, sources[i].fispact_name.as_str(), 6);
        sp_card.append(" = ");
        sp_card.append(text.activity.as_str());
        sp_card.append(" Bq * ");
        sp_card.append(text.norm.as_str());
        sp_card.append(" particles/decay ");
        assert(sp_card@ =~= sp_lead + weight_entries(sources@.take(i + 1), texts@.take(i + 1)));
        i += 1;
    }
    proof {
        assert(sources@.take(sources.len() as int) =~= sources@);
        assert(texts@.take(sources.len() as int) =~= texts@);
    }
    (comment, si_card, sp_card)
}

/// The overall distribution: which share of the emissions each nuclide
/// has.
pub fn activity_distribution(sources: &[Source], texts: &[SourceText], total: &str, id: usize) -> (out:
    String)
    requires
        deck_fits(sources@, texts@, id as nat),
    ensures
        out@ == activity_card(sources@, texts@, total@, id as nat),
{
    let (comment, si_card, sp_card) = activity_card_lines(sources, texts, total, id);
    let si = wrap_text(si_card.as_str(), LINE_WIDTH, "        ");
    let sp = wrap_text(sp_card.as_str(), LINE_WIDTH, "        ");
    assemble(comment.as_str(), si.as_str(), sp.as_str())
}

/// The distribution of one nuclide before its cards are wrapped: the
/// comment, the energies and the intensities.
pub fn nuclide_card_lines(source: &Source, text: &SourceText, id: usize) -> (out: (String, String, String))
    ensures
        out.0@ == nuclide_comment(source.fispact_name@, text.norm@, id as nat),
        out.1@ == nuclide_si(views(text.energies@), id as nat),
        out.2@ == nuclide_sp(views(text.intensities@), id as nat),
{
    let number = crate::text::decimal_string(id);
    let mut comment = String::new();
    comment.append("sc");
    push_left_aligned(&mut comment, number.as_str(), 5);
    comment.append(" ");
    comment.append(source.fispact_name.as_str());
    comment.append(" decay data, norm = ");
    comment.append(text.norm.as_str());
    comment.append(" particles/decay");
    assert(comment@ =~= nuclide_comment(source.fispact_name@, text.norm@, id as nat));

    let mut si_card = String::new();
    si_card.append("si");
    si_card.append(number.as_str());
    si_card.append(" L ");
    push_joined(&mut si_card, &text.energies, " ");
    assert(si_card@ =~= nuclide_si(views(text.energies@), id as nat));

    let mut sp_card = String::new();
    sp_card.append("sp");
    push_left_aligned(&mut sp_card, number.as_str(), 6);
    push_joined(&mut sp_card, &text.intensities, " ");
    assert(sp_card@ =~= nuclide_sp(views(text.intensities@), id as nat));
    (comment, si_card, sp_card)
}

/// The distribution of one nuclide: which share of its emissions each
/// energy has.
pub fn nuclide_distribution(source: &Source, text: &SourceText, id: usize) -> (out: String)
    ensures
        out@ == nuclide_card(*source, *text, id as nat),
{
    let (comment, si_card, sp_card) = nuclide_card_lines(source, text, id);
    let si = wrap_text(si_card.as_str(), LINE_WIDTH, "        ");
    let sp = wrap_text(sp_card.as_str(), LINE_WIDTH, "        ");
    let card = assemble(comment.as_str(), si.as_str(), sp.as_str());
    let mut out = String::new();
    out.append("\n");
    out.append(card.as_str());
    assert(out@ =~= nuclide_card(*source, *text, id as nat));
    out
}

/// The deck of a time step: the overall distribution under `id`, then one
/// distribution per source under the ids that follow. `None` unless there
/// is one text for each source and the machine can hold every id.
pub fn generate_mcnp_cards(sources: &[Source], texts: &[SourceText], total: &str, id: usize) -> (out:
    Option<String>)
    ensures
        out is Some <==> deck_fits(sources@, texts@, id as nat),
        out is Some ==> out->0@ == deck(sources@, texts@, total@, id as nat),
{
    if texts.len() != sources.len() || sources.len() > usize::MAX - id {
        return None;
    }
    let mut card = activity_distribution(sources, texts, total, id);
    let ghost lead = card@;
    let mut i: usize = 0;
    proof {
        assert(sources@.take(0) =~= Seq::<Source>::empty());
        assert(lead + Seq::<char>::empty() =~= lead);
    }
    while i < sources.len()
        invariant
            i <= sources.len(),
            deck_fits(sources@, texts@, id as nat),
            card@ == lead + nuclide_cards(sources@.take(i as int), texts@.take(i as int), id as nat),
        decreases sources.len() - i,
    {
        proof {
            assert(sources@.take(i + 1).drop_last() =~= sources@.take(i as int));
            assert(texts@.take(i + 1).drop_last() =~= texts@.take(i as int));
            assert(sources@.take(i + 1).last() == sources@[i as int]);
            assert(texts@.take(i + 1).last() == texts@[i as int]);
        }
        let one = nuclide_distribution(&sources[i], &texts[i], id + i + 1);
        card.append(one.as_str());
        assert(card@ =~= lead + nuclide_cards(
            sources@.take(i + 1),
            texts@.take(i + 1),
            id as nat,
        ));
        i += 1;
    }
    proof {
        assert(sources@.take(sources.len() as int) =~= sources@);
        assert(texts@.take(sources.len() as int) =~= texts@);
    }
    Some(card)
}

} // verus!
