//! From what the user asked for to the time steps that exist.

use vstd::prelude::*;
use vstd::string::*;
use crate::cli::{MultiRange, Selection};
use crate::text::{decimal, push_decimal};

verus! {

/// None of the steps asked for exists.
#[derive(Debug, Clone)]
pub struct OutOfRange {
    /// What was asked for, as a user would type it.
    pub requested: String,
    /// How many steps there are.
    pub intervals: usize,
}

/// The last step that exists, or zero where there is none.
pub open spec fn last_step(intervals: nat) -> nat {
    if intervals == 0 {
        0
    } else {
        (intervals - 1) as nat
    }
}

impl OutOfRange {
    /// What to tell the user: what was asked for, and the steps that
    /// exist.
    pub open spec fn explanation(self) -> Seq<char> {
        "\""@ + self.requested@ + "\" not valid for expected 0-"@ + decimal(
            last_step(self.intervals as nat),
        ) + " range"@
    }

    /// What to tell the user.
    pub fn message(&self) -> (out: String)
        ensures
            out@ == self.explanation(),
    {
        let mut out = String::new();
        out.append("\"");
        out.append(self.requested.as_str());
        out.append("\" not valid for expected 0-");
        let last: usize = if self.intervals == 0 {
            0
        } else {
            self.intervals - 1
        };
        push_decimal(&mut out, last);
        out.append(" range");
        assert(out@ =~= self.explanation());
        out
    }
}

/// Whether each entry is smaller than the next.
pub open spec fn ascending(list: Seq<usize>) -> bool {
    forall|i: int, j: int| 0 <= i < j < list.len() ==> list[i] < list[j]
}

/// Whether `list` holds exactly the steps below `count` that are asked
/// for.
pub open spec fn holds_selected(list: Seq<usize>, selection: Selection, count: nat) -> bool {
    forall|x: usize| #[trigger] list.contains(x) <==> x < count && selection.selects(x as int, count)
}

/// Whether any step below `count` is asked for.
pub open spec fn any_selected(selection: Selection, count: nat) -> bool {
    exists|i: int| 0 <= i < count && selection.selects(i, count)
}

/// Two ascending lists that hold the same steps are the same list.
pub proof fn lemma_ascending_unique(first: Seq<usize>, second: Seq<usize>)
    requires
        ascending(first),
        ascending(second),
        forall|x: usize| first.contains(x) <==> second.contains(x),
    ensures
        first == second,
    decreases first.len(),
{
    if first.len() == 0 {
        if second.len() > 0 {
            assert(second.contains(second[0]));
        }
        assert(first =~= second);
    } else {
        let x = first.last();
        assert(first.contains(x));
        if second.len() == 0 {
            assert(!second.contains(x));
        }
        let y = second.last();
        assert(second.contains(y));
        let at = choose|i: int| 0 <= i < second.len() && second[i] == x;
        let back = choose|i: int| 0 <= i < first.len() && first[i] == y;
        assert(x <= y) by {
            if at < second.len() - 1 {
                assert(second[at] < second[second.len() - 1]);
            }
        }
        assert(y <= x) by {
            if back < first.len() - 1 {
                assert(first[back] < first[first.len() - 1]);
            }
        }
        let a = first.drop_last();
        let b = second.drop_last();
        assert forall|z: usize| a.contains(z) <==> b.contains(z) by {
            if a.contains(z) {
                let i = choose|i: int| 0 <= i < a.len() && a[i] == z;
                assert(first[i] == z);
                assert(first[i] < first[first.len() - 1]);
                assert(first.contains(z));
                let j = choose|j: int| 0 <= j < second.len() && second[j] == z;
                assert(b[j] == z);
            }
            if b.contains(z) {
                let i = choose|i: int| 0 <= i < b.len() && b[i] == z;
                assert(second[i] == z);
                assert(second[i] < second[second.len() - 1]);
                assert(second.contains(z));
                let j = choose|j: int| 0 <= j < first.len() && first[j] == z;
                assert(a[j] == z);
            }
        }
        assert(ascending(a)) by {
            assert forall|i: int, j: int| 0 <= i < j < a.len() implies a[i] < a[j] by {
                assert(first[i] < first[j]);
            }
        }
        assert(ascending(b)) by {
            assert forall|i: int, j: int| 0 <= i < j < b.len() implies b[i] < b[j] by {
                assert(second[i] < second[j]);
            }
        }
        lemma_ascending_unique(a, b);
        assert(first =~= a.push(x));
        assert(second =~= b.push(y));
    }
}

/// A selection picks one list of steps only: the steps asked for that
/// exist, in ascending order, can be listed in one way.
pub proof fn lemma_selected_once(first: Seq<usize>, second: Seq<usize>, selection: Selection, count: nat)
    requires
        ascending(first),
        ascending(second),
        holds_selected(first, selection, count),
        holds_selected(second, selection, count),
    ensures
        first == second,
{
    assert forall|x: usize| first.contains(x) <==> second.contains(x) by {
        assert(first.contains(x) <==> x < count && selection.selects(x as int, count));
        assert(second.contains(x) <==> x < count && selection.selects(x as int, count));
    }
    lemma_ascending_unique(first, second);
}

/// Puts `step` in its place in an ascending list, unless it is there.
pub fn insert_step(list: &mut Vec<usize>, step: usize)
    requires
        ascending(old(list)@),
    ensures
        ascending(final(list)@),
        forall|x: usize| final(list)@.contains(x) <==> old(list)@.contains(x) || x == step,
{
    let ghost before = list@;
    let mut p: usize = 0;
    while p < list.len() && list[p] < step
        invariant
            p <= list.len(),
            list@ == before,
            forall|k: int| 0 <= k < p ==> before[k] < step,
        decreases list.len() - p,
    {
        p += 1;
    }
    if p < list.len() && list[p] == step {
        assert(before.contains(step));
    } else {
        list.insert(p, step);
        proof {
            let after = list@;
            assert forall|k: int| p <= k < before.len() implies before[k] > step by {
                assert(before[p as int] <= before[k]);
            }
            assert forall|i: int, j: int| 0 <= i < j < after.len() implies after[i] < after[j] by {
                let i0 = if i < p {
                    i
                } else {
                    i - 1
                };
                let j0 = if j < p {
                    j
                } else {
                    j - 1
                };
                if i != p {
                    assert(after[i] == before[i0]);
                }
                if j != p {
                    assert(after[j] == before[j0]);
                }
                if i != p && j != p {
                    assert(before[i0] < before[j0]);
                }
            }
            assert forall|x: usize| after.contains(x) <==> before.contains(x) || x == step by {
                if after.contains(x) {
                    let k = choose|k: int| 0 <= k < after.len() && after[k] == x;
                    if k < p {
                        assert(before[k] == x);
                    } else if k > p {
                        assert(before[k - 1] == x);
                    }
                }
                if before.contains(x) {
                    let k = choose|k: int| 0 <= k < before.len() && before[k] == x;
                    if k < p {
                        assert(after[k] == x);
                    } else {
                        assert(after[k + 1] == x);
                    }
                }
                if x == step {
                    assert(after[p as int] == x);
                }
            }
        }
    }
}

/// The steps from `first` to `last`, both included.
fn run_of_steps(first: usize, last: usize) -> (out: Vec<usize>)
    requires
        first <= last,
    ensures
        ascending(out@),
        out.len() == last - first + 1,
        forall|k: int| 0 <= k < out.len() ==> out[k] == first + k,
{
    let mut out: Vec<usize> = Vec::new();
    let mut step: usize = first;
    out.push(step);
    while step < last
        invariant
            first <= step <= last,
            out.len() == step - first + 1,
            forall|k: int| 0 <= k < out.len() ==> out[k] == first + k,
        decreases last - step,
    {
        step += 1;
        out.push(step);
    }
    out
}

/// The time steps to work on: those asked for that exist, in ascending
/// order and each once. Fails where none of them exists.
pub fn index_list(user_idx: &MultiRange, n: usize) -> (out: Result<Vec<usize>, OutOfRange>)
    ensures
        out is Ok <==> any_selected(user_idx@, n as nat),
        out is Ok ==> ascending(out->Ok_0@) && out->Ok_0.len() > 0 && holds_selected(
            out->Ok_0@,
            user_idx@,
            n as nat,
        ),
        out is Err ==> out->Err_0.intervals == n && out->Err_0.requested@ == user_idx@.rendering(),
{
    let list: Vec<usize> = match user_idx {
        MultiRange::Single(idx) => {
            if *idx < n {
                let mut one: Vec<usize> = Vec::new();
                one.push(*idx);
                assert(one@[0] == *idx);
                one
            } else {
                Vec::new()
            }
        },
        MultiRange::List(values) => {
            let ghost model = Seq::new(values.len() as nat, |k: int| values[k] as nat);
            let mut found: Vec<usize> = Vec::new();
            let mut k: usize = 0;
            while k < values.len()
                invariant
                    k <= values.len(),
                    ascending(found@),
                    forall|x: usize|
                        found@.contains(x) <==> x < n && exists|j: int|
                            0 <= j < k && #[trigger] values[j] == x,
                decreases values.len() - k,
            {
                let ghost before = found@;
                if values[k] < n {
                    insert_step(&mut found, values[k]);
                }
                proof {
                    assert forall|x: usize|
                        found@.contains(x) <==> x < n && exists|j: int|
                            0 <= j < k + 1 && #[trigger] values[j] == x by {
                        if before.contains(x) {
                            let j = choose|j: int| 0 <= j < k && #[trigger] values[j] == x;
                            assert(0 <= j < k + 1 && values[j] == x);
                        }
                        if x < n && exists|j: int| 0 <= j < k + 1 && #[trigger] values[j] == x {
                            let j = choose|j: int| 0 <= j < k + 1 && #[trigger] values[j] == x;
                            if j < k {
                                assert(before.contains(x));
                            }
                        }
                    }
                }
                k += 1;
            }
            proof {
                assert forall|x: usize| #[trigger]
                    found@.contains(x) <==> x < n && user_idx@.selects(x as int, n as nat) by {
                    let i = x as int;
                    assert(user_idx@ == Selection::List(model));
                    if found@.contains(x) {
                        assert(x < n && exists|j: int| 0 <= j < k && #[trigger] values[j] == x);
                        let j = choose|j: int| 0 <= j < k && #[trigger] values[j] == x;
                        assert(model[j] == i as nat);
                        assert(model.contains(i as nat));
                    }
                    if i < n && user_idx@.selects(i, n as nat) {
                        let j = choose|j: int| 0 <= j < model.len() && model[j] == i as nat;
                        assert(values[j] == x);
                        assert(found@.contains(x));
                    }
                }
            }
            found
        },
        MultiRange::Range(start, end) => {
            if *start < n && *start <= *end {
                let last: usize = if *end < n {
                    *end
                } else {
                    n - 1
                };
                let steps = run_of_steps(*start, last);
                proof {
                    assert forall|x: usize| #[trigger]
                        steps@.contains(x) <==> x < n && user_idx@.selects(x as int, n as nat) by {
                        if steps@.contains(x) {
                            let k = choose|k: int| 0 <= k < steps.len() && steps[k] == x;
                            assert(steps[k] == *start + k);
                        }
                        if x < n && *start <= x <= *end {
                            assert(steps[x - *start] == x);
                        }
                    }
                }
                steps
            } else {
                Vec::new()
            }
        },
        MultiRange::All => {
            if n > 0 {
                let steps = run_of_steps(0, n - 1);
                proof {
                    assert forall|x: usize| #[trigger]
                        steps@.contains(x) <==> x < n && user_idx@.selects(x as int, n as nat) by {
                        if steps@.contains(x) {
                            let k = choose|k: int| 0 <= k < steps.len() && steps[k] == x;
                            assert(steps[k] == 0 + k);
                        }
                        if x < n {
                            assert(steps[x as int] == x);
                        }
                    }
                }
                steps
            } else {
                Vec::new()
            }
        },
    };
    assert(ascending(list@));
    assert(holds_selected(list@, user_idx@, n as nat));
    if list.len() == 0 {
        proof {
            if any_selected(user_idx@, n as nat) {
                let i = choose|i: int| 0 <= i < n && user_idx@.selects(i, n as nat);
                assert(list@.contains(i as usize));
            }
        }
        Err(OutOfRange { requested: user_idx.text(), intervals: n })
    } else {
        proof {
            let x = list@[0];
            assert(list@.contains(x));
            assert(x < n && user_idx@.selects(x as int, n as nat));
        }
        Ok(list)
    }
}

} // verus!
