//! Fault areas: which NYPA DB variable a fault area drives, how it is set,
//! and the decisions that keep an area's faulted state in line with its
//! variable.

use vstd::prelude::*;

use crate::control::NypaDbSetVariableOptions;

verus! {

/// The NYPA DB variable that a fault area drives.
#[derive(Clone, Debug, PartialEq, Eq)]
pub struct FaultVariable {
    pub stream_id: usize,
    pub name: String,
}

/// A world entity that can be faulted, optionally tied to a variable.
#[derive(Clone, Debug)]
pub struct FaultArea {
    pub variable: Option<FaultVariable>,
    pub set_variable_options: NypaDbSetVariableOptions,
}

impl FaultArea {
    /// An area driving `variable`, set with no options.
    pub fn new(variable: Option<FaultVariable>) -> (r: FaultArea)
        ensures
            r.variable == variable,
            r.set_variable_options.start_region is None,
    {
        FaultArea { variable, set_variable_options: NypaDbSetVariableOptions::default() }
    }

    /// An area driving `variable`, set with these options.
    pub fn with_options(
        variable: Option<FaultVariable>,
        set_variable_options: NypaDbSetVariableOptions,
    ) -> (r: FaultArea)
        ensures
            r.variable == variable,
            r.set_variable_options == set_variable_options,
    {
        FaultArea { variable, set_variable_options }
    }

    /// An area driving variable `name` of stream `stream_id`.
    pub fn variable(stream_id: usize, name: String) -> (r: FaultArea)
        ensures
            r.variable == Some(FaultVariable { stream_id, name }),
            r.set_variable_options.start_region is None,
    {
        FaultArea::new(Some(FaultVariable { stream_id, name }))
    }

    /// An area driving variable `name` of stream `stream_id`, set with these
    /// options.
    pub fn variable_with_options(
        stream_id: usize,
        name: String,
        set_variable_options: NypaDbSetVariableOptions,
    ) -> (r: FaultArea)
        ensures
            r.variable == Some(FaultVariable { stream_id, name }),
            r.set_variable_options == set_variable_options,
    {
        FaultArea::with_options(Some(FaultVariable { stream_id, name }), set_variable_options)
    }
}

/// How an area's faulted marker changes.
#[derive(Clone, Copy, Debug, PartialEq, Eq, Structural)]
pub enum FaultChange {
    /// The area becomes faulted.
    Insert,
    /// The area is no longer faulted.
    Remove,
    /// Nothing changes.
    Keep,
}

/// The change that brings an area's faulted state to what its variable says.
pub fn fault_change(is_faulted: bool, should_be_faulted: bool) -> (r: FaultChange)
    ensures
        r == (if !is_faulted && should_be_faulted {
            FaultChange::Insert
        } else if is_faulted && !should_be_faulted {
            FaultChange::Remove
        } else {
            FaultChange::Keep
        }),
{
    if !is_faulted && should_be_faulted {
        FaultChange::Insert
    } else if is_faulted && !should_be_faulted {
        FaultChange::Remove
    } else {
        FaultChange::Keep
    }
}

/// Which of an area's two markers show: the option marker while the area
/// is not faulted, the active marker while it is.
pub fn marker_visibility(is_faulted: bool) -> (r: (bool, bool))
    ensures
        r == (!is_faulted, is_faulted),
{
    (!is_faulted, is_faulted)
}

/// `i` is the first position of `x` in `s`.
pub open spec fn is_first_occurrence(s: Seq<usize>, x: usize, i: int) -> bool {
    &&& 0 <= i < s.len()
    &&& s[i] == x
    &&& forall|j: int| 0 <= j < i ==> s[j] != x
}

/// The first position of `x` in `s`, or -1.
pub open spec fn first_index_of(s: Seq<usize>, x: usize) -> int {
    if exists|i: int| is_first_occurrence(s, x, i) {
        choose|i: int| is_first_occurrence(s, x, i)
    } else {
        -1
    }
}

proof fn lemma_first_index_of(s: Seq<usize>, x: usize, i: int)
    requires
        is_first_occurrence(s, x, i),
    ensures
        first_index_of(s, x) == i,
{
    let c = choose|c: int| is_first_occurrence(s, x, c);
    assert(is_first_occurrence(s, x, c));
    if c < i {
        assert(s[c] != x);
    } else if c > i {
        assert(s[i] != x);
    }
}

proof fn lemma_push_to_set(s: Seq<usize>, x: usize)
    ensures
        s.push(x).to_set() == s.to_set().insert(x),
{
    assert forall|a: usize| s.push(x).contains(a) <==> s.to_set().insert(x).contains(a) by {
        if s.push(x).contains(a) {
            let j = choose|j: int| 0 <= j < s.len() + 1 && s.push(x)[j] == a;
            if j < s.len() {
                assert(s[j] == a);
            }
        }
        if s.contains(a) {
            let j = choose|j: int| 0 <= j < s.len() && s[j] == a;
            assert(s.push(x)[j] == a);
        }
        if a == x {
            assert(s.push(x)[s.len() as int] == a);
        }
    }
    assert(s.push(x).to_set() =~= s.to_set().insert(x));
}

/// The stream ids of `ids` without repeats, in the order of their first
/// occurrence: each stream is asked for its variables once per poll.
pub fn streams_to_poll(ids: &Vec<usize>) -> (r: Vec<usize>)
    ensures
        r@.to_set() == ids@.to_set(),
        r@.no_duplicates(),
        forall|k: int, l: int|
            0 <= k < l < r.len() ==> first_index_of(ids@, #[trigger] r@[k]) < first_index_of(
                ids@,
                #[trigger] r@[l],
            ),
{
    let mut r: Vec<usize> = Vec::new();
    let mut i: usize = 0;
    while i < ids.len()
        invariant
            i <= ids.len(),
            r@.to_set() == ids@.take(i as int).to_set(),
            r@.no_duplicates(),
            forall|k: int, l: int|
                0 <= k < l < r.len() ==> first_index_of(ids@, #[trigger] r@[k]) < first_index_of(
                    ids@,
                    #[trigger] r@[l],
                ),
            forall|k: int|
                0 <= k < r.len() ==> 0 <= first_index_of(ids@, #[trigger] r@[k]) < i,
        decreases ids.len() - i,
    {
        let x = ids[i];
        let mut seen = false;
        let mut k: usize = 0;
        while k < r.len()
            invariant
                k <= r.len(),
                seen == exists|j: int| 0 <= j < k && r@[j] == x,
            decreases r.len() - k,
        {
            if r[k] == x {
                seen = true;
            }
            k = k + 1;
        }
        let ghost before = r@;
        proof {
            assert(ids@.take(i + 1) =~= ids@.take(i as int).push(x));
        }
        if !seen {
            r.push(x);
            proof {
                assert(!before.contains(x));
                assert(!ids@.take(i as int).to_set().contains(x));
                assert forall|j: int| 0 <= j < i implies ids@[j] != x by {
                    assert(ids@.take(i as int)[j] == ids@[j]);
                    if ids@[j] == x {
                        assert(ids@.take(i as int).contains(x));
                    }
                }
                assert(is_first_occurrence(ids@, x, i as int));
                lemma_first_index_of(ids@, x, i as int);
                assert forall|k: int| 0 <= k < r.len() implies 0 <= first_index_of(
                    ids@,
                    #[trigger] r@[k],
                ) < i + 1 by {
                    if k < r.len() - 1 {
                        assert(r@[k] == before[k]);
                    }
                }
                assert forall|k: int, l: int|
                    0 <= k < l < r.len() implies first_index_of(ids@, #[trigger] r@[k])
                    < first_index_of(ids@, #[trigger] r@[l]) by {
                    assert(r@[k] == before[k]);
                    if l < r.len() - 1 {
                        assert(r@[l] == before[l]);
                    }
                }
                lemma_push_to_set(before, x);
                lemma_push_to_set(ids@.take(i as int), x);
            }
        } else {
            proof {
                let j = choose|j: int| 0 <= j < r.len() && r@[j] == x;
                assert(r@.to_set().contains(x));
                lemma_push_to_set(ids@.take(i as int), x);
                assert(r@.to_set() =~= r@.to_set().insert(x));
            }
        }
        i = i + 1;
    }
    assert(ids@.take(ids.len() as int) =~= ids@);
    r
}

} // verus!
