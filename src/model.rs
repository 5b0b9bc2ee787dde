//! The mathematical model of insertion: which values are stored and which are
//! handed back, over sequences of values compared by `PartialEq`.
use vstd::prelude::*;
use vstd::std_specs::cmp::PartialEqSpec;

verus! {

/// Some value of `s` compares equal to `x` (the stored value on the left, as
/// `Vec::contains` compares).
pub open spec fn contains_eq<T: PartialEq>(s: Seq<T>, x: T) -> bool {
    exists|i: int| 0 <= i < s.len() && (#[trigger] s[i]).eq_spec(&x)
}

/// No value of `s` compares equal to a value stored after it.
pub open spec fn unique_seq<T: PartialEq>(s: Seq<T>) -> bool {
    forall|i: int, j: int| 0 <= i < j < s.len() ==> !(#[trigger] s[i].eq_spec(&s[j]))
}

/// One insertion into `s`: a value equal to a stored one is handed back,
/// any other value is appended.
pub open spec fn push_model<T: PartialEq>(s: Seq<T>, x: T) -> (Seq<T>, Option<T>) {
    if contains_eq(s, x) {
        (s, Some(x))
    } else {
        (s.push(x), None)
    }
}

/// Inserting the values of `input` into `acc` one after another: the stored
/// values, and the values handed back in the order they were met.
pub open spec fn dedup_into<T: PartialEq>(acc: Seq<T>, input: Seq<T>) -> (Seq<T>, Seq<T>)
    decreases input.len(),
{
    if input.len() == 0 {
        (acc, Seq::empty())
    } else {
        let (stored, back) = push_model(acc, input[0]);
        let (rest, dups) = dedup_into(stored, input.drop_first());
        (
            rest,
            match back {
                Some(x) => seq![x] + dups,
                None => dups,
            },
        )
    }
}

/// Values of `input` at the positions `idx`, in that order.
pub open spec fn picks<T>(input: Seq<T>, idx: Seq<int>) -> Seq<T> {
    Seq::new(idx.len(), |k: int| input[idx[k]])
}

/// `idx` holds positions below `n`, strictly increasing.
pub open spec fn increasing_below(idx: Seq<int>, n: int) -> bool {
    &&& forall|k: int| 0 <= k < idx.len() ==> 0 <= #[trigger] idx[k] < n
    &&& forall|k: int, l: int| 0 <= k < l < idx.len() ==> #[trigger] idx[k] < #[trigger] idx[l]
}

/// The values of `input` whose flag in `keep` is set, and the others, each
/// in the order of `input`.
pub open spec fn split_by<T>(input: Seq<T>, keep: Seq<bool>) -> (Seq<T>, Seq<T>)
    decreases input.len(),
{
    if input.len() == 0 {
        (Seq::empty(), Seq::empty())
    } else {
        let (kept, others) = split_by(input.drop_last(), keep.drop_last());
        if keep.last() {
            (kept.push(input.last()), others)
        } else {
            (kept, others.push(input.last()))
        }
    }
}

/// Extending by one more value is one further insertion: after the values of
/// `input`, inserting `x` stores what `push_model` stores, and the value it
/// hands back, if any, follows the values handed back so far.
pub proof fn lemma_dedup_step<T: PartialEq>(acc: Seq<T>, input: Seq<T>, x: T)
    ensures
        dedup_into(acc, input.push(x)) == ({
            let (stored, dups) = dedup_into(acc, input);
            let (next, back) = push_model(stored, x);
            (
                next,
                match back {
                    Some(y) => dups.push(y),
                    None => dups,
                },
            )
        }),
    decreases input.len(),
{
    let whole = input.push(x);
    if input.len() == 0 {
        assert(whole.drop_first() =~= Seq::<T>::empty());
        assert(whole[0] == x);
        let (stored, back) = push_model(acc, x);
        assert(dedup_into(stored, Seq::<T>::empty()) == (stored, Seq::<T>::empty()));
        assert(seq![x] + Seq::<T>::empty() =~= Seq::<T>::empty().push(x));
    } else {
        assert(whole[0] == input[0]);
        let (stored, back) = push_model(acc, input[0]);
        assert(whole.drop_first() =~= input.drop_first().push(x));
        lemma_dedup_step(stored, input.drop_first(), x);
        let (rest, dups) = dedup_into(stored, input.drop_first());
        let (next, back2) = push_model(rest, x);
        if let Some(y) = back {
            if let Some(z) = back2 {
                assert(seq![y] + dups.push(z) =~= (seq![y] + dups).push(z));
            }
        }
    }
}

/// Inserting `a` and then `b` gives what inserting `a + b` at once gives:
/// the same stored values, and the values handed back for `a` followed by
/// those handed back for `b`.
pub proof fn lemma_dedup_concat<T: PartialEq>(acc: Seq<T>, a: Seq<T>, b: Seq<T>)
    ensures
        dedup_into(acc, a + b) == ({
            let (mid, dups_a) = dedup_into(acc, a);
            let (end, dups_b) = dedup_into(mid, b);
            (end, dups_a + dups_b)
        }),
    decreases b.len(),
{
    let (mid, dups_a) = dedup_into(acc, a);
    if b.len() == 0 {
        assert(a + b =~= a);
        assert(dups_a + Seq::<T>::empty() =~= dups_a);
    } else {
        let p = b.drop_last();
        let x = b.last();
        assert(a + b =~= (a + p).push(x));
        assert(p.push(x) =~= b);
        lemma_dedup_concat(acc, a, p);
        lemma_dedup_step(acc, a + p, x);
        lemma_dedup_step(mid, p, x);
        let (end0, dups_p) = dedup_into(mid, p);
        let (next, back) = push_model(end0, x);
        if let Some(y) = back {
            assert((dups_a + dups_p).push(y) =~= dups_a + dups_p.push(y));
        }
    }
}

/// Inserting a value keeps a sequence free of duplicates.
pub proof fn lemma_push_keeps_unique<T: PartialEq>(s: Seq<T>, x: T)
    requires
        unique_seq(s),
    ensures
        unique_seq(push_model(s, x).0),
{
    if !contains_eq(s, x) {
        let t = s.push(x);
        assert forall|i: int, j: int| 0 <= i < j < t.len() implies !(#[trigger] t[i].eq_spec(
            &t[j],
        )) by {
            if j == s.len() {
                assert(t[i] == s[i]);
            } else {
                assert(t[i] == s[i] && t[j] == s[j]);
            }
        }
    }
}

/// Removing the last value keeps a sequence free of duplicates.
pub proof fn lemma_drop_last_keeps_unique<T: PartialEq>(s: Seq<T>)
    requires
        unique_seq(s),
        s.len() > 0,
    ensures
        unique_seq(s.drop_last()),
{
    let t = s.drop_last();
    assert forall|i: int, j: int| 0 <= i < j < t.len() implies !(#[trigger] t[i].eq_spec(&t[j])) by {
        assert(t[i] == s[i] && t[j] == s[j]);
    }
}

/// In a sequence free of duplicates no two distinct positions hold values
/// that compare equal each to the other.
pub proof fn lemma_no_mutual_duplicates<T: PartialEq>(s: Seq<T>)
    requires
        unique_seq(s),
    ensures
        forall|i: int, j: int|
            0 <= i < s.len() && 0 <= j < s.len() && i != j ==> !(#[trigger] s[i].eq_spec(&s[j])
                && #[trigger] s[j].eq_spec(&s[i])),
{
}

/// Inserting the values of a sequence free of duplicates into an empty one
/// stores exactly that sequence and hands nothing back.
pub proof fn lemma_unique_is_fixed_point<T: PartialEq>(s: Seq<T>)
    requires
        unique_seq(s),
    ensures
        dedup_into(Seq::empty(), s) == (s, Seq::<T>::empty()),
    decreases s.len(),
{
    if s.len() > 0 {
        let p = s.drop_last();
        let x = s.last();
        lemma_drop_last_keeps_unique(s);
        lemma_unique_is_fixed_point(p);
        lemma_dedup_step(Seq::empty(), p, x);
        assert(p.push(x) =~= s);
        if contains_eq(p, x) {
            let i = choose|i: int| 0 <= i < p.len() && (#[trigger] p[i]).eq_spec(&x);
            assert(s[i] == p[i]);
            assert(s[s.len() - 1] == x);
        }
    }
}

/// The values stored from `input` come in the order of `input`: the result is
/// `acc` followed by the values of `input` at strictly increasing positions.
pub proof fn lemma_accepted_keep_input_order<T: PartialEq>(acc: Seq<T>, input: Seq<T>)
    ensures
        exists|idx: Seq<int>|
            increasing_below(idx, input.len() as int) && dedup_into(acc, input).0 == acc
                + #[trigger] picks(input, idx),
    decreases input.len(),
{
    if input.len() == 0 {
        let idx = Seq::<int>::empty();
        assert(acc + picks(input, idx) =~= acc);
        assert(increasing_below(idx, 0));
    } else {
        let p = input.drop_last();
        let x = input.last();
        lemma_accepted_keep_input_order(acc, p);
        let idx0 = choose|idx: Seq<int>|
            increasing_below(idx, p.len() as int) && dedup_into(acc, p).0 == acc
                + #[trigger] picks(p, idx);
        lemma_dedup_step(acc, p, x);
        assert(p.push(x) =~= input);
        let stored = dedup_into(acc, p).0;
        if contains_eq(stored, x) {
            assert(picks(input, idx0) =~= picks(p, idx0));
            assert(increasing_below(idx0, input.len() as int));
        } else {
            let idx = idx0.push(input.len() - 1);
            assert(picks(input, idx) =~= picks(p, idx0).push(x));
            assert(acc + picks(p, idx0).push(x) =~= (acc + picks(p, idx0)).push(x));
            assert(increasing_below(idx, input.len() as int));
            assert(dedup_into(acc, input).0 == acc + picks(input, idx));
        }
    }
}

} // verus!
