//! From the nuclides of a time step to the sources worth writing out.
//!
//! The work goes in two steps with a lookup between them. First the
//! nuclides are put in order of name and repeated entries are dropped. The
//! caller then asks its decay-data provider about each nuclide that is
//! left. With the answers, each source gets the records of its own state,
//! loses those that were never observed, has the rest sorted, and is dropped
//! if none remain.

use vstd::prelude::*;
use vstd::string::*;
use crate::cli::SortProperty;
use crate::order::{
    arranged, is_stable_sort, keep_marked, lemma_lex_asymmetric, lemma_lex_between, lemma_lex_tie,
    lemma_marked_filter, lemma_marked_positions, lemma_sort_keeps_items, lemma_sort_keeps_length,
    lemma_sort_keeps_property, lemma_sorted_ranks, lex_lt, marked, marked_positions, rank_views,
    sorts, stable_sort,
};
use crate::record::{observed_records, DecayRecord};
use crate::source::{
    all_observed, in_order, lemma_resolves_unique, record_rank, resolves, Source,
};

verus! {

/// The code points of a text, which is its rank among names.
pub open spec fn char_codes(text: Seq<char>) -> Seq<i64> {
    Seq::new(text.len(), |i: int| text[i] as u32 as i64)
}

/// The rank that orders sources by name.
pub open spec fn name_rank() -> spec_fn(Source) -> Seq<i64> {
    |s: Source| char_codes(s.fispact_name@)
}

/// The property of being ready to write out: there are records, each was
/// observed, and they stand in the order asked for.
pub open spec fn ready(property: SortProperty) -> spec_fn(Source) -> bool {
    |s: Source|
        s.iaea_records.len() > 0 && all_observed(s.iaea_records@) && in_order(
            s.iaea_records@,
            property,
        )
}

/// Whether the names stand in order: none comes before a name that stands
/// before it.
pub open spec fn names_in_order(list: Seq<Source>) -> bool {
    forall|i: int, j: int|
        0 <= i <= j < list.len() ==> !lex_lt(
            char_codes((#[trigger] list[j]).fispact_name@),
            char_codes((#[trigger] list[i]).fispact_name@),
        )
}

/// The property of having at least one record.
pub open spec fn with_records() -> spec_fn(Source) -> bool {
    |s: Source| s.iaea_records.len() > 0
}

/// For each entry, whether it differs from the entry before it. The first
/// entry always does.
pub open spec fn starts_run(list: Seq<Source>) -> Seq<bool> {
    Seq::new(list.len(), |i: int| i == 0 || !list[i - 1].same(list[i]))
}

/// The list with each run of the same entry cut down to its first member.
pub open spec fn without_repeats(list: Seq<Source>) -> Seq<Source> {
    marked(list, starts_run(list))
}

/// Whether `after` is `before` once its records were looked up, cleaned
/// and sorted: the records of its state that were observed, in the order
/// asked for.
pub open spec fn prepared(
    before: Source,
    lookup: Option<Vec<DecayRecord>>,
    property: SortProperty,
    after: Source,
) -> bool {
    &&& after.same_but_records(before)
    &&& exists|found: Seq<DecayRecord>| #[trigger]
        resolves(lookup, before.iaea_nuclide.state.level(), found) && is_stable_sort(
            found.filter(observed_records()),
            after.iaea_records@,
            record_rank(property),
        )
}

/// Whether `stage` holds each source once it was prepared with its lookup.
pub open spec fn all_prepared(
    sources: Seq<Source>,
    lookups: Seq<Option<Vec<DecayRecord>>>,
    property: SortProperty,
    stage: Seq<Source>,
) -> bool {
    &&& stage.len() == sources.len()
    &&& forall|i: int|
        0 <= i < sources.len() ==> prepared(sources[i], lookups[i], property, #[trigger] stage[i])
}

/// The rank of a name.
pub fn name_codes(name: &str) -> (out: Vec<i64>)
    ensures
        out@ == char_codes(name@),
{
    let n = name.unicode_len();
    let mut out: Vec<i64> = Vec::new();
    let mut i: usize = 0;
    while i < n
        invariant
            n == name@.len(),
            i <= n,
            out.len() == i,
            forall|k: int| 0 <= k < i ==> out[k] == name@[k] as u32 as i64,
        decreases n - i,
    {
        let c = name.get_char(i);
        out.push(c as u32 as i64);
        i += 1;
    }
    assert(out@ =~= char_codes(name@));
    out
}

/// Sorts sources by name. Sources of one name keep their order.
pub fn sort_by_name(sources: Vec<Source>) -> (out: Vec<Source>)
    ensures
        is_stable_sort(sources@, out@, name_rank()),
{
    let mut ranks: Vec<Vec<i64>> = Vec::new();
    let mut i: usize = 0;
    while i < sources.len()
        invariant
            i <= sources.len(),
            ranks.len() == i,
            forall|k: int| 0 <= k < i ==> (#[trigger] ranks[k])@ == char_codes(sources[k].fispact_name@),
        decreases sources.len() - i,
    {
        ranks.push(name_codes(sources[i].fispact_name.as_str()));
        i += 1;
    }
    assert(rank_views(ranks@) =~= sources@.map_values(name_rank()));
    let (sorted, order) = stable_sort(sources, &ranks);
    sorted
}

/// Puts the nuclides of a time step in order of name and drops repeated
/// entries, keeping the first of each. `None` where there is no nuclide at
/// all.
pub fn parse_nuclides(candidates: Vec<Source>) -> (out: Option<Vec<Source>>)
    ensures
        out is None <==> candidates.len() == 0,
        out is Some ==> exists|sorted: Seq<Source>| #[trigger]
            is_stable_sort(candidates@, sorted, name_rank()) && out->0@ == without_repeats(sorted),
        out is Some ==> forall|i: int|
            0 <= i < out->0.len() - 1 ==> !(#[trigger] out->0[i]).same(out->0[i + 1]),
        out is Some ==> names_in_order(out->0@),
{
    let sorted = sort_by_name(candidates);
    let ghost ordered = sorted@;
    let mut keep: Vec<bool> = Vec::new();
    let mut i: usize = 0;
    while i < sorted.len()
        invariant
            i <= sorted.len(),
            keep.len() == i,
            forall|k: int| 0 <= k < i ==> keep[k] == (k == 0 || !sorted[k - 1].same(sorted[k])),
        decreases sorted.len() - i,
    {
        let first = i == 0 || !(sorted[i - 1] == sorted[i]);
        keep.push(first);
        i += 1;
    }
    assert(keep@ =~= starts_run(ordered));
    let unique = keep_marked(sorted, &keep);
    proof {
        lemma_marked_positions(ordered, keep@);
        let at = marked_positions(keep@);
        assert forall|a: int, b: int| 0 <= a <= b < unique@.len() implies !lex_lt(
            char_codes((#[trigger] unique@[b]).fispact_name@),
            char_codes((#[trigger] unique@[a]).fispact_name@),
        ) by {
            if a < b {
                assert(at[a] < at[b]);
            }
            assert(unique@[a] == ordered[at[a]]);
            assert(unique@[b] == ordered[at[b]]);
            lemma_sorted_ranks(candidates@, ordered, name_rank(), at[a], at[b]);
        }
        lemma_sort_keeps_length(candidates@, ordered, name_rank());
        lemma_runs(ordered, ordered.len() as int);
        assert(ordered.subrange(0, ordered.len() as int) =~= ordered);
        assert(starts_run(ordered).subrange(0, ordered.len() as int) =~= starts_run(ordered));
    }
    if unique.len() == 0 {
        None
    } else {
        Some(unique)
    }
}

/// Cutting runs down leaves a list in which no entry is the same as the
/// next, which ends as the full list ends, and which is empty only where
/// the full list is.
pub proof fn lemma_runs(list: Seq<Source>, n: int)
    requires
        0 <= n <= list.len(),
    ensures
        ({
            let cut = marked(list.subrange(0, n), starts_run(list).subrange(0, n));
            &&& (cut.len() == 0 <==> n == 0)
            &&& n > 0 ==> cut.last().same(list[n - 1])
            &&& forall|i: int| 0 <= i < cut.len() - 1 ==> !(#[trigger] cut[i]).same(cut[i + 1])
        }),
    decreases n,
{
    if n > 0 {
        lemma_runs(list, n - 1);
        let head = list.subrange(0, n);
        let marks = starts_run(list).subrange(0, n);
        assert(head.drop_last() =~= list.subrange(0, n - 1));
        assert(marks.drop_last() =~= starts_run(list).subrange(0, n - 1));
        let shorter = marked(list.subrange(0, n - 1), starts_run(list).subrange(0, n - 1));
        let cut = marked(head, marks);
        assert(marks.last() == starts_run(list)[n - 1]);
        assert(head.last() == list[n - 1]);
        if marks.last() {
            assert(cut == shorter.push(list[n - 1]));
            assert forall|i: int| 0 <= i < cut.len() - 1 implies !(#[trigger] cut[i]).same(
                cut[i + 1],
            ) by {
                if i < shorter.len() - 1 {
                    assert(cut[i] == shorter[i]);
                    assert(cut[i + 1] == shorter[i + 1]);
                } else {
                    assert(cut[i] == shorter.last());
                    assert(cut[i + 1] == list[n - 1]);
                }
            }
        } else {
            assert(cut == shorter);
        }
    } else {
        assert(list.subrange(0, 0).len() == 0);
    }
}

/// Gives each source the records found for it, drops those never
/// observed, sorts the rest, and returns the sources that still have
/// records, in order of name. `None` where no source has any.
pub fn get_sources(
    sources: Vec<Source>,
    lookups: Vec<Option<Vec<DecayRecord>>>,
    property: &SortProperty,
) -> (out: Option<Vec<Source>>)
    requires
        lookups.len() == sources.len(),
    ensures
        exists|stage: Seq<Source>| #[trigger]
            all_prepared(sources@, lookups@, *property, stage) && (out is None <==> stage.filter(
                with_records(),
            ).len() == 0) && (out is Some ==> is_stable_sort(
                stage.filter(with_records()),
                out->0@,
                name_rank(),
            )),
        out is Some ==> out->0.len() > 0,
        out is Some ==> forall|i: int| 0 <= i < out->0.len() ==> ready(*property)(#[trigger] out->0[i]),
        out is Some ==> names_in_order(out->0@),
{
    let ghost all_sources = sources@;
    let ghost all_lookups = lookups@;
    let n = sources.len();
    let mut sources = sources;
    let mut lookups = lookups;
    let mut stage: Vec<Source> = Vec::new();
    let mut keep: Vec<bool> = Vec::new();
    let mut i: usize = 0;
    while i < n
        invariant
            n == all_sources.len(),
            n == all_lookups.len(),
            i <= n,
            sources@ == all_sources.subrange(i as int, n as int),
            lookups@ == all_lookups.subrange(i as int, n as int),
            stage.len() == i,
            keep.len() == i,
            forall|k: int|
                0 <= k < i ==> prepared(all_sources[k], all_lookups[k], *property, #[trigger] stage[k]),
            forall|k: int| 0 <= k < i ==> keep[k] == with_records()(#[trigger] stage[k]),
            forall|k: int|
                0 <= k < i ==> all_observed((#[trigger] stage[k]).iaea_records@) && in_order(
                    stage[k].iaea_records@,
                    *property,
                ),
        decreases n - i,
    {
        let mut source = sources.remove(0);
        let lookup = lookups.remove(0);
        assert(source == all_sources[i as int]);
        assert(lookup == all_lookups[i as int]);
        assert(sources@ =~= all_sources.subrange(i + 1, n as int));
        assert(lookups@ =~= all_lookups.subrange(i + 1, n as int));
        source.find_records(lookup);
        let ghost found = source.iaea_records@;
        source.remove_unobserved_records();
        let ghost clean = source.iaea_records@;
        source.sort_records(property);
        proof {
            lemma_sort_keeps_property(
                clean,
                source.iaea_records@,
                record_rank(*property),
                observed_records(),
            );
        }
        assert(prepared(all_sources[i as int], all_lookups[i as int], *property, source)) by {
            assert(resolves(lookup, all_sources[i as int].iaea_nuclide.state.level(), found)
                && is_stable_sort(
                found.filter(observed_records()),
                source.iaea_records@,
                record_rank(*property),
            ));
        }
        keep.push(source.iaea_records.len() > 0);
        stage.push(source);
        i += 1;
    }
    let ghost staged = stage@;
    proof {
        lemma_marked_filter(staged, keep@, with_records());
    }
    let kept = keep_marked(stage, &keep);
    if kept.len() == 0 {
        assert(all_prepared(all_sources, all_lookups, *property, staged));
        None
    } else {
        let ghost unsorted = kept@;
        let sorted = sort_by_name(kept);
        proof {
            assert(all_prepared(all_sources, all_lookups, *property, staged));
            lemma_sort_keeps_length(unsorted, sorted@, name_rank());
            assert forall|k: int| 0 <= k < unsorted.len() implies ready(*property)(
                #[trigger] unsorted[k],
            ) by {
                staged.lemma_filter_pred(with_records(), k);
                assert(unsorted.contains(unsorted[k]));
                staged.lemma_filter_contains_rev(with_records(), unsorted[k]);
                let at = choose|at: int| 0 <= at < staged.len() && staged[at] == unsorted[k];
                assert(all_observed(staged[at].iaea_records@));
            }
            lemma_sort_keeps_property(unsorted, sorted@, name_rank(), ready(*property));
            assert forall|a: int, b: int| 0 <= a <= b < sorted@.len() implies !lex_lt(
                char_codes((#[trigger] sorted@[b]).fispact_name@),
                char_codes((#[trigger] sorted@[a]).fispact_name@),
            ) by {
                lemma_sorted_ranks(unsorted, sorted@, name_rank(), a, b);
            }
        }
        Some(sorted)
    }
}

/// A source is prepared in one way only: whatever is prepared from a
/// source and its lookup has the same records.
pub proof fn lemma_prepared_unique(
    before: Source,
    lookup: Option<Vec<DecayRecord>>,
    property: SortProperty,
    first: Source,
    second: Source,
)
    requires
        prepared(before, lookup, property, first),
        prepared(before, lookup, property, second),
    ensures
        first.iaea_records@ == second.iaea_records@,
        first.same_but_records(second),
{
    let level = before.iaea_nuclide.state.level();
    let one = choose|found: Seq<DecayRecord>| #[trigger]
        resolves(lookup, level, found) && is_stable_sort(
            found.filter(observed_records()),
            first.iaea_records@,
            record_rank(property),
        );
    let two = choose|found: Seq<DecayRecord>| #[trigger]
        resolves(lookup, level, found) && is_stable_sort(
            found.filter(observed_records()),
            second.iaea_records@,
            record_rank(property),
        );
    lemma_resolves_unique(lookup, level, one, two);
    crate::order::lemma_stable_sort_unique(
        one.filter(observed_records()),
        first.iaea_records@,
        second.iaea_records@,
        record_rank(property),
    );
}

/// Whether each name stands for one nuclide only: entries of the same name
/// are the same entry.
pub open spec fn names_decide(list: Seq<Source>) -> bool {
    forall|i: int, j: int|
        0 <= i < list.len() && 0 <= j < list.len() && (#[trigger] list[i]).fispact_name@ == (
        #[trigger] list[j]).fispact_name@ ==> list[i].same(list[j])
}

/// Names with the same code points are the same name.
pub proof fn lemma_codes_decide_name(a: Seq<char>, b: Seq<char>)
    requires
        char_codes(a) == char_codes(b),
    ensures
        a == b,
{
    assert(a.len() == char_codes(a).len());
    assert(b.len() == char_codes(b).len());
    assert forall|k: int| 0 <= k < a.len() implies a[k] == b[k] by {
        vstd::utf8::char_is_scalar(a[k]);
        vstd::utf8::char_is_scalar(b[k]);
        assert(char_codes(a)[k] == a[k] as u32 as i64);
        assert(char_codes(b)[k] == b[k] as u32 as i64);
        assert(a[k] as u32 == b[k] as u32);
        vstd::utf8::char_u32_cast(a[k], a[k] as u32);
        vstd::utf8::char_u32_cast(b[k], a[k] as u32);
    }
    assert(a =~= b);
}

/// In a list sorted by name, the entries between two entries of one name
/// have that name too.
pub proof fn lemma_names_run_together(candidates: Seq<Source>, sorted: Seq<Source>, a: int, b: int, c: int)
    requires
        is_stable_sort(candidates, sorted, name_rank()),
        0 <= a <= b <= c < sorted.len(),
        sorted[a].fispact_name@ == sorted[c].fispact_name@,
    ensures
        sorted[b].fispact_name@ == sorted[a].fispact_name@,
{
    let ra = char_codes(sorted[a].fispact_name@);
    let rb = char_codes(sorted[b].fispact_name@);
    let rc = char_codes(sorted[c].fispact_name@);
    lemma_sorted_ranks(candidates, sorted, name_rank(), a, b);
    lemma_sorted_ranks(candidates, sorted, name_rank(), b, c);
    assert(name_rank()(sorted[a]) == ra);
    assert(name_rank()(sorted[b]) == rb);
    assert(name_rank()(sorted[c]) == rc);
    if lex_lt(ra, rb) {
        lemma_lex_between(ra, rb, rc, 0);
        if lex_lt(ra, rc) {
            lemma_lex_asymmetric(ra, rc, 0);
        }
    }
    lemma_lex_tie(ra, rb, 0);
    assert(ra.subrange(0, ra.len() as int) =~= ra);
    assert(rb.subrange(0, rb.len() as int) =~= rb);
    lemma_codes_decide_name(sorted[a].fispact_name@, sorted[b].fispact_name@);
}

/// Sorting keeps names deciding nuclides.
pub proof fn lemma_sorted_names_decide(candidates: Seq<Source>, sorted: Seq<Source>)
    requires
        is_stable_sort(candidates, sorted, name_rank()),
        names_decide(candidates),
    ensures
        names_decide(sorted),
{
    let order = choose|order: Seq<usize>| #[trigger]
        sorts(order, candidates.map_values(name_rank())) && sorted == arranged(candidates, order);
    assert forall|i: int, j: int|
        0 <= i < sorted.len() && 0 <= j < sorted.len() && (#[trigger] sorted[i]).fispact_name@ == (
        #[trigger] sorted[j]).fispact_name@ implies sorted[i].same(sorted[j]) by {
        assert(sorted[i] == candidates[order[i] as int]);
        assert(sorted[j] == candidates[order[j] as int]);
    }
}

/// Where each name stands for one nuclide only, no source is listed twice:
/// of all the entries of one name and nuclide, whatever their activity, one
/// is left.
pub proof fn lemma_listed_once(candidates: Seq<Source>, sorted: Seq<Source>, p: int, q: int)
    requires
        is_stable_sort(candidates, sorted, name_rank()),
        names_decide(candidates),
        0 <= p < q < without_repeats(sorted).len(),
    ensures
        !without_repeats(sorted)[p].same(without_repeats(sorted)[q]),
{
    let keep = starts_run(sorted);
    let left = without_repeats(sorted);
    let at = marked_positions(keep);
    lemma_marked_positions(sorted, keep);
    lemma_sorted_names_decide(candidates, sorted);
    let i = at[p];
    let j = at[q];
    assert(i < j);
    assert(left[p] == sorted[i]);
    assert(left[q] == sorted[j]);
    assert(keep[j]);
    if left[p].same(left[q]) {
        lemma_names_run_together(candidates, sorted, i, j - 1, j);
        assert(sorted[j - 1].fispact_name@ == sorted[j].fispact_name@);
        assert(sorted[j - 1].same(sorted[j]));
        assert(!keep[j]);
    }
}

/// Two entries of the same name and nuclide are cut down to one, the first
/// of them, whatever else they hold.
pub proof fn lemma_pair_listed_once(first: Source, second: Source, sorted: Seq<Source>)
    requires
        first.same(second),
        is_stable_sort(seq![first, second], sorted, name_rank()),
    ensures
        without_repeats(sorted) == seq![first],
{
    let pair = seq![first, second];
    let ranks = pair.map_values(name_rank());
    let order = choose|order: Seq<usize>| #[trigger]
        sorts(order, ranks) && sorted == arranged(pair, order);
    assert(ranks[0] == char_codes(first.fispact_name@));
    assert(ranks[1] == char_codes(second.fispact_name@));
    assert(ranks[0] == ranks[1]);
    if lex_lt(ranks[0], ranks[0]) {
        lemma_lex_asymmetric(ranks[0], ranks[0], 0);
    }
    assert(crate::order::precedes(ranks, order[0] as int, order[1] as int));
    assert(order[0] < 2 && order[1] < 2);
    assert(order[0] == 0 && order[1] == 1);
    assert(sorted =~= pair);
    let keep = starts_run(sorted);
    assert(keep[0] && !keep[1]);
    assert(keep.drop_last() =~= seq![true]);
    assert(sorted.drop_last() =~= seq![first]);
    assert(seq![true].drop_last() =~= Seq::<bool>::empty());
    assert(seq![first].drop_last() =~= Seq::<Source>::empty());
    assert(marked(seq![first], seq![true]) =~= seq![first]) by {
        reveal_with_fuel(marked, 3);
    }
    assert(marked(sorted, keep) == marked(sorted.drop_last(), keep.drop_last()));
}

/// No nuclide is lost: each entry that went in is the same entry as one
/// that is left.
pub proof fn lemma_each_listed(candidates: Seq<Source>, sorted: Seq<Source>, i: int)
    requires
        is_stable_sort(candidates, sorted, name_rank()),
        0 <= i < candidates.len(),
    ensures
        exists|k: int|
            0 <= k < without_repeats(sorted).len() && (#[trigger] without_repeats(sorted)[k]).same(
                candidates[i],
            ),
{
    lemma_sort_keeps_items(candidates, sorted, name_rank(), i);
    let a = choose|a: int| 0 <= a < sorted.len() && #[trigger] sorted[a] == candidates[i];
    lemma_run_has_start(sorted, a);
    let keep = starts_run(sorted);
    let r = choose|r: int| 0 <= r <= a && keep[r] && sorted[r].same(sorted[a]);
    lemma_marked_positions(sorted, keep);
    let at = marked_positions(keep);
    let k = choose|k: int| 0 <= k < at.len() && #[trigger] at[k] == r;
    assert(without_repeats(sorted)[k] == sorted[r]);
}

/// Each entry belongs to a run, whose first member is the same entry.
pub proof fn lemma_run_has_start(list: Seq<Source>, a: int)
    requires
        0 <= a < list.len(),
    ensures
        exists|r: int| 0 <= r <= a && starts_run(list)[r] && list[r].same(list[a]),
    decreases a,
{
    if starts_run(list)[a] {
        assert(0 <= a <= a && starts_run(list)[a] && list[a].same(list[a]));
    } else {
        lemma_run_has_start(list, a - 1);
        let r = choose|r: int| 0 <= r <= a - 1 && starts_run(list)[r] && list[r].same(list[a - 1]);
        assert(list[a - 1].same(list[a]));
        assert(0 <= r <= a && starts_run(list)[r] && list[r].same(list[a]));
    }
}

} // verus!
