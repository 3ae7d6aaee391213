//! Combinations of a sequence, in the order of their positions.

use vstd::prelude::*;

verus! {

/// All ways to pick `k` entries of `data` while keeping their order: first
/// those that hold `data[0]`, then those that do not.
pub open spec fn combinations<T>(data: Seq<T>, k: nat) -> Seq<Seq<T>>
    decreases data.len(),
{
    if k == 0 {
        seq![Seq::<T>::empty()]
    } else if data.len() < k {
        Seq::<Seq<T>>::empty()
    } else {
        combinations(data.drop_first(), (k - 1) as nat).map_values(
            |c: Seq<T>| seq![data[0]] + c,
        ) + combinations(data.drop_first(), k)
    }
}

/// What a vector of vectors holds, as a sequence of sequences.
pub open spec fn contents<T>(v: Seq<Vec<T>>) -> Seq<Seq<T>> {
    v.map_values(|c: Vec<T>| c@)
}

/// Every combination has `k` entries.
pub proof fn lemma_combinations_len<T>(data: Seq<T>, k: nat)
    ensures
        forall|i: int|
            0 <= i < combinations(data, k).len() ==> (#[trigger] combinations(data, k)[i]).len()
                == k,
    decreases data.len(),
{
    if k == 0 {
    } else if data.len() < k {
    } else {
        lemma_combinations_len(data.drop_first(), (k - 1) as nat);
        lemma_combinations_len(data.drop_first(), k);
        let shorter = combinations(data.drop_first(), (k - 1) as nat);
        let picked = shorter.map_values(|c: Seq<T>| seq![data[0]] + c);
        let rest = combinations(data.drop_first(), k);
        assert forall|i: int| 0 <= i < combinations(data, k).len() implies (#[trigger] combinations(
            data,
            k,
        )[i]).len() == k by {
            if i < picked.len() {
                assert(picked[i] == seq![data[0]] + shorter[i]);
            } else {
                assert((picked + rest)[i] == rest[i - picked.len()]);
            }
        }
    }
}

/// There is a combination whenever `data` has at least `k` entries.
pub proof fn lemma_combinations_nonempty<T>(data: Seq<T>, k: nat)
    requires
        k <= data.len(),
    ensures
        combinations(data, k).len() > 0,
    decreases data.len(),
{
    if k > 0 {
        lemma_combinations_nonempty(data.drop_first(), (k - 1) as nat);
    }
}

/// A copy of `c` with `first` put in front.
fn with_front<T: Copy>(first: T, c: &Vec<T>) -> (out: Vec<T>)
    ensures
        out@ == seq![first] + c@,
{
    let mut out: Vec<T> = Vec::new();
    out.push(first);
    let mut i: usize = 0;
    while i < c.len()
        invariant
            i <= c.len(),
            out@ == seq![first] + c@.take(i as int),
        decreases c.len() - i,
    {
        out.push(c[i]);
        i += 1;
    }
    out
}

/// All combinations of `k` entries of `data`.
pub fn get_combinations<T: Copy>(data: &[T], k: usize) -> (result: Vec<Vec<T>>)
    ensures
        contents(result@) == combinations(data@, k as nat),
    decreases data@.len(),
{
    if k == 0 {
        let mut result: Vec<Vec<T>> = Vec::new();
        result.push(Vec::new());
        return result;
    }
    if data.len() < k {
        let result: Vec<Vec<T>> = Vec::new();
        return result;
    }
    let (first, rest) = data.split_at(1);
    let head = first[0];
    let shorter = get_combinations(rest, k - 1);
    let ghost picked = combinations(rest@, (k - 1) as nat).map_values(|c: Seq<T>| seq![head] + c);
    let mut result: Vec<Vec<T>> = Vec::new();
    let mut i: usize = 0;
    while i < shorter.len()
        invariant
            i <= shorter.len(),
            contents(shorter@) == combinations(rest@, (k - 1) as nat),
            picked == combinations(rest@, (k - 1) as nat).map_values(|c: Seq<T>| seq![head] + c),
            contents(result@) == picked.take(i as int),
        decreases shorter.len() - i,
    {
        let combo = with_front(head, &shorter[i]);
        let ghost before = result@;
        result.push(combo);
        proof {
            assert(contents(before).len() == i);
        }
        i += 1;
    }
    assert(picked.take(shorter.len() as int) =~= picked);
    let mut without = get_combinations(rest, k);
    result.append(&mut without);
    result
}

} // verus!
