//! Counting helpers behind the task-intelligence report summary.
use vstd::prelude::*;

verus! {

broadcast use vstd::seq_lib::group_seq_properties;

/// The text views of a sequence of strings.
pub open spec fn texts(s: Seq<String>) -> Seq<Seq<char>> {
    s.map_values(|x: String| x@)
}

/// Whether `items` holds a string equal to `x`.
fn holds_text(items: &Vec<String>, x: &String) -> (r: bool)
    ensures
        r == texts(items@).contains(x@),
{
    let n = items.len();
    let mut i: usize = 0;
    while i < n
        invariant
            i <= n,
            n == items@.len(),
            forall|j: int| 0 <= j < i ==> texts(items@)[j] != x@,
        decreases n - i,
    {
        if items[i] == *x {
            assert(texts(items@)[i as int] == x@);
            return true;
        }
        i = i + 1;
    }
    false
}

/// The number of distinct strings among `items`: how many different causes (or
/// effects) a list of starvation pairs names.
pub fn count_distinct(items: &Vec<String>) -> (r: usize)
    ensures
        r == texts(items@).to_set().len(),
{
    let n = items.len();
    let mut seen: Vec<String> = Vec::new();
    let mut i: usize = 0;
    assert(texts(items@).take(0).to_set() =~= Set::<Seq<char>>::empty());
    assert(texts(seen@) =~= Seq::<Seq<char>>::empty());
    while i < n
        invariant
            i <= n,
            n == items@.len(),
            texts(seen@).no_duplicates(),
            texts(seen@).to_set() == texts(items@).take(i as int).to_set(),
            seen@.len() <= i,
        decreases n - i,
    {
        let ghost prefix = texts(items@).take(i as int);
        assert(texts(items@).take(i + 1) =~= prefix.push(items@[i as int]@));
        proof {
            prefix.lemma_push_to_set_commute(items@[i as int]@);
        }
        if !holds_text(&seen, &items[i]) {
            let ghost s0 = texts(seen@);
            seen.push(items[i].clone());
            assert(texts(seen@) =~= s0.push(items@[i as int]@));
        }
        i = i + 1;
    }
    proof {
        texts(seen@).unique_seq_to_set();
        assert(texts(items@).take(n as int) =~= texts(items@));
    }
    seen.len()
}

} // verus!
