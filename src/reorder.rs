//! Moving a set of entries of a sequence to new positions: remove each
//! source position in turn, then insert the removed entries in removal order.
use vstd::prelude::*;

verus! {

/// The sequence after the first `k` removals: the `i`-th removal takes the
/// entry at `from[i] - i`, which makes up for the shifts of the earlier ones.
pub open spec fn after_removals<A>(s: Seq<A>, from: Seq<usize>, k: nat) -> Seq<A>
    decreases k,
{
    if k == 0 || k > from.len() {
        s
    } else {
        let prev = after_removals(s, from, (k - 1) as nat);
        prev.remove(from[k - 1] - (k - 1))
    }
}

/// The entries taken out by the first `k` removals, in removal order.
pub open spec fn removed_entries<A>(s: Seq<A>, from: Seq<usize>, k: nat) -> Seq<A>
    decreases k,
{
    if k == 0 || k > from.len() {
        seq![]
    } else {
        let prev = after_removals(s, from, (k - 1) as nat);
        removed_entries(s, from, (k - 1) as nat).push(prev[from[k - 1] - (k - 1)])
    }
}

/// `base` after the first `k` insertions: the `i`-th puts `entries[i]` at `to[i]`.
pub open spec fn after_inserts<A>(base: Seq<A>, entries: Seq<A>, to: Seq<usize>, k: nat) -> Seq<A>
    decreases k,
{
    if k == 0 || k > to.len() || k > entries.len() {
        base
    } else {
        after_inserts(base, entries, to, (k - 1) as nat).insert(to[k - 1] as int, entries[k - 1])
    }
}

/// The sequence after moving the entries at `from` to the positions `to`.
pub open spec fn moved<A>(s: Seq<A>, from: Seq<usize>, to: Seq<usize>) -> Seq<A> {
    after_inserts(
        after_removals(s, from, from.len()),
        removed_entries(s, from, from.len()),
        to,
        from.len(),
    )
}

/// Whether the positions are usable on a sequence of length `n`: as many
/// sources as destinations, each removal inside the sequence as it stands
/// after the earlier ones, and each insertion inside the sequence as it
/// stands after all removals and the earlier insertions.
pub open spec fn moves_valid(n: nat, from: Seq<usize>, to: Seq<usize>) -> bool {
    &&& from.len() == to.len()
    &&& forall|k: int| 0 <= k < from.len() ==> k <= #[trigger] from[k] && from[k] < n
    &&& forall|k: int| 0 <= k < to.len() ==> #[trigger] to[k] + from.len() <= n + k
}

/// Whether `from` and `to` are usable on a sequence of length `n`.
pub fn check_moves(n: usize, from: &Vec<usize>, to: &Vec<usize>) -> (r: bool)
    ensures
        r == moves_valid(n as nat, from@, to@),
{
    if from.len() != to.len() {
        return false;
    }
    let m = from.len();
    let mut k: usize = 0;
    while k < m
        invariant
            k <= m == from@.len() == to@.len(),
            forall|i: int| 0 <= i < k ==> i <= #[trigger] from@[i] && from@[i] < n,
            forall|i: int| 0 <= i < k ==> #[trigger] to@[i] + m <= n + i,
        decreases m - k,
    {
        if from[k] < k || from[k] >= n || to[k] as u128 + m as u128 > n as u128 + k as u128 {
            return false;
        }
        k = k + 1;
    }
    true
}

/// Moves the entries of `v` at positions `from` to positions `to`.
pub fn move_entries<A>(v: &mut Vec<A>, from: &Vec<usize>, to: &Vec<usize>)
    requires
        moves_valid(old(v)@.len(), from@, to@),
    ensures
        final(v)@ == moved(old(v)@, from@, to@),
{
    let ghost s = v@;
    let m = from.len();
    let mut taken: Vec<A> = Vec::new();
    let mut j: usize = 0;
    while j < m
        invariant
            m == from@.len() == to@.len(),
            j <= m,
            moves_valid(s.len(), from@, to@),
            v@ == after_removals(s, from@, j as nat),
            taken@ == removed_entries(s, from@, j as nat),
            v@.len() == s.len() - j,
            taken@.len() == j,
        decreases m - j,
    {
        let e = v.remove(from[j] - j);
        taken.push(e);
        j = j + 1;
    }
    let ghost base = v@;
    let ghost entries = taken@;
    assert(entries.subrange(0, m as int) =~= entries);
    let mut k: usize = 0;
    while k < m
        invariant
            m == from@.len() == to@.len() == entries.len(),
            k <= m,
            moves_valid(s.len(), from@, to@),
            base.len() == s.len() - m,
            v@ == after_inserts(base, entries, to@, k as nat),
            v@.len() == base.len() + k,
            taken@ == entries.subrange(k as int, m as int),
        decreases m - k,
    {
        let e = taken.remove(0);
        assert(e == entries[k as int]);
        assert(taken@ =~= entries.subrange(k + 1, m as int));
        v.insert(to[k], e);
        k = k + 1;
    }
}

} // verus!
