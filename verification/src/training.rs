use vstd::prelude::*;

use crate::error::ConfigError;

verus! {

/// The indices `0, 1, ..., n - 1` in order.
pub open spec fn identity_order(n: nat) -> Seq<usize> {
    Seq::new(n, |k: int| k as usize)
}

/// `s` holds each of `0, 1, ..., n - 1` exactly once and nothing else.
pub open spec fn is_permutation_of_range(s: Seq<usize>, n: nat) -> bool {
    &&& s.len() == n
    &&& forall|p: int| 0 <= p < n ==> #[trigger] s[p] < n
    &&& forall|p: int, q: int| 0 <= p < n && 0 <= q < n && p != q ==> #[trigger] s[p] != #[trigger] s[q]
    &&& forall|k: usize| k < n ==> #[trigger] s.contains(k)
}

/// `s` with the entries at `i` and `j` exchanged.
pub open spec fn swapped(s: Seq<usize>, i: int, j: int) -> Seq<usize> {
    s.update(i, s[j]).update(j, s[i])
}

/// The position that step `i` of the shuffle exchanges with position `i`.
pub open spec fn swap_partner(draws: Seq<usize>, i: int) -> int {
    (draws[i] as int) % (i + 1)
}

/// Steps `i, i - 1, ..., 1` of the shuffle applied to `s`: step `k` exchanges the
/// entries at `k` and `draws[k] % (k + 1)`.
pub open spec fn shuffle_steps(s: Seq<usize>, draws: Seq<usize>, i: int) -> Seq<usize>
    decreases i,
{
    if i <= 0 {
        s
    } else {
        shuffle_steps(swapped(s, i, swap_partner(draws, i)), draws, i - 1)
    }
}

/// The visiting order of an epoch over `n` samples: the identity order with the
/// shuffle steps `n - 1` down to `1` applied.
pub open spec fn shuffled_order(n: nat, draws: Seq<usize>) -> Seq<usize> {
    shuffle_steps(identity_order(n), draws, n - 1)
}

/// Exchanging two entries keeps a permutation of `0..n` one.
pub proof fn lemma_swap_keeps_permutation(s: Seq<usize>, n: nat, i: int, j: int)
    requires
        is_permutation_of_range(s, n),
        0 <= i < n,
        0 <= j < n,
    ensures
        is_permutation_of_range(swapped(s, i, j), n),
{
    let t = swapped(s, i, j);
    assert forall|k: usize| k < n implies #[trigger] t.contains(k) by {
        assert(s.contains(k));
        let p = choose|p: int| 0 <= p < s.len() && s[p] == k;
        if p == i {
            assert(t[j] == k);
        } else if p == j {
            assert(t[i] == k);
        } else {
            assert(t[p] == k);
        }
    }
    assert forall|p: int, q: int| 0 <= p < n && 0 <= q < n && p != q implies #[trigger] t[p]
        != #[trigger] t[q] by {
        let sp = if p == j { s[i] } else if p == i { s[j] } else { s[p] };
        let sq = if q == j { s[i] } else if q == i { s[j] } else { s[q] };
        assert(t[p] == sp);
        assert(t[q] == sq);
    }
}

/// The identity order is a permutation.
pub proof fn lemma_identity_is_permutation(n: nat)
    requires
        n <= usize::MAX,
    ensures
        is_permutation_of_range(identity_order(n), n),
{
    let s = identity_order(n);
    assert forall|p: int| 0 <= p < n implies #[trigger] s[p] == p by {}
    assert forall|k: usize| k < n implies #[trigger] s.contains(k) by {
        assert(s[k as int] == k);
    }
}

/// The shuffle steps keep a permutation of `0..n` one.
pub proof fn lemma_shuffle_steps_keep_permutation(s: Seq<usize>, draws: Seq<usize>, n: nat, i: int)
    requires
        is_permutation_of_range(s, n),
        i < n,
    ensures
        is_permutation_of_range(shuffle_steps(s, draws, i), n),
    decreases i,
{
    if i > 0 {
        let j = swap_partner(draws, i);
        lemma_swap_keeps_permutation(s, n, i, j);
        lemma_shuffle_steps_keep_permutation(swapped(s, i, j), draws, n, i - 1);
    }
}

/// Whatever the draws, the visiting order of an epoch holds each sample index
/// `0..n` exactly once.
pub proof fn lemma_shuffled_order_is_permutation(n: usize, draws: Seq<usize>)
    ensures
        is_permutation_of_range(shuffled_order(n as nat, draws), n as nat),
{
    lemma_identity_is_permutation(n as nat);
    lemma_shuffle_steps_keep_permutation(identity_order(n as nat), draws, n as nat, n - 1);
}

proof fn lemma_shuffle_steps_push(s: Seq<usize>, draws: Seq<usize>, i: int, x: usize)
    requires
        i < s.len(),
    ensures
        shuffle_steps(s.push(x), draws, i) == shuffle_steps(s, draws, i).push(x),
    decreases i,
{
    if i > 0 {
        let j = swap_partner(draws, i);
        assert(0 <= j <= i) by {
            vstd::arithmetic::div_mod::lemma_mod_bound(draws[i] as int, i + 1);
        }
        assert(swapped(s.push(x), i, j) =~= swapped(s, i, j).push(x));
        lemma_shuffle_steps_push(swapped(s, i, j), draws, i - 1, x);
    }
}

/// Replaces the value `from` by `to` and keeps every other value.
pub open spec fn relabel(from: usize, to: usize) -> spec_fn(usize) -> usize {
    |v: usize| if v == from { to } else { v }
}

proof fn lemma_shuffle_steps_relabel(
    s: Seq<usize>,
    draws: Seq<usize>,
    i: int,
    f: spec_fn(usize) -> usize,
)
    requires
        i < s.len(),
    ensures
        shuffle_steps(s.map_values(f), draws, i) == shuffle_steps(s, draws, i).map_values(f),
    decreases i,
{
    if i > 0 {
        let j = swap_partner(draws, i);
        assert(0 <= j <= i) by {
            vstd::arithmetic::div_mod::lemma_mod_bound(draws[i] as int, i + 1);
        }
        assert(swapped(s.map_values(f), i, j) =~= swapped(s, i, j).map_values(f));
        lemma_shuffle_steps_relabel(swapped(s, i, j), draws, i - 1, f);
    } else {
        assert(s.map_values(f) =~= s.map_values(f));
    }
}

/// The visiting order over `n + 1` samples, built from the one over `n`: the new
/// last entry is `j = draws[n] % (n + 1)`, and the first `n` entries are the order
/// over `n` samples with the index `j` replaced by `n`. With the empty order over
/// no samples, this fixes every order: step `n` exchanges positions `n` and
/// `draws[n] % (n + 1)`, and no later step touches position `n`.
pub proof fn lemma_shuffled_order_extends(n: usize, draws: Seq<usize>)
    requires
        n < usize::MAX,
    ensures
        shuffled_order(0, draws) == Seq::<usize>::empty(),
        shuffled_order((n + 1) as nat, draws) == shuffled_order(n as nat, draws).map_values(
            relabel(((draws[n as int] as int) % (n + 1)) as usize, n),
        ).push(((draws[n as int] as int) % (n + 1)) as usize),
{
    assert(identity_order(0) =~= Seq::<usize>::empty());
    let j = (draws[n as int] as int) % (n + 1);
    assert(0 <= j <= n) by {
        vstd::arithmetic::div_mod::lemma_mod_bound(draws[n as int] as int, n + 1);
    }
    let f = relabel(j as usize, n);
    let id = identity_order(n as nat);
    assert(swapped(identity_order((n + 1) as nat), n as int, j) =~= id.map_values(f).push(
        j as usize,
    ));
    if n == 0 {
        assert(shuffled_order(1, draws) == identity_order(1));
        assert(id.map_values(f) =~= Seq::<usize>::empty());
    } else {
        lemma_shuffle_steps_push(id.map_values(f), draws, n - 1, j as usize);
        lemma_shuffle_steps_relabel(id, draws, n - 1, f);
    }
}

/// The last entry of the visiting order over `n >= 1` samples is
/// `draws[n - 1] % n`.
pub proof fn lemma_shuffled_order_last(n: usize, draws: Seq<usize>)
    requires
        n >= 1,
    ensures
        shuffled_order(n as nat, draws)[n - 1] == ((draws[n - 1] as int) % (n as int)) as usize,
{
    let m = (n - 1) as usize;
    lemma_shuffled_order_extends(m, draws);
    lemma_shuffled_order_is_permutation(m, draws);
    let j = ((draws[m as int] as int) % (m + 1)) as usize;
    let prefix = shuffled_order(m as nat, draws).map_values(relabel(j, m));
    assert(prefix.len() == m);
    assert(prefix.push(j)[m as int] == j);
}

/// Builds the visiting order of an epoch over `n` samples. For each `i` from
/// `n - 1` down to `1`, the entry at `i` is exchanged with the entry at
/// `draws[i] % (i + 1)`; `draws[0]` is not used.
pub fn shuffle_order(n: usize, draws: &Vec<usize>) -> (order: Vec<usize>)
    requires
        draws.len() == n,
    ensures
        order@ == shuffled_order(n as nat, draws@),
        is_permutation_of_range(order@, n as nat),
{
    let mut order: Vec<usize> = Vec::new();
    let mut k: usize = 0;
    while k < n
        invariant
            k <= n,
            order@ == identity_order(k as nat),
        decreases n - k,
    {
        order.push(k);
        k = k + 1;
        assert(order@ =~= identity_order(k as nat));
    }
    proof {
        lemma_identity_is_permutation(n as nat);
    }
    if n == 0 {
        return order;
    }
    let mut i: usize = n - 1;
    while i > 0
        invariant
            i < n,
            draws.len() == n,
            is_permutation_of_range(order@, n as nat),
            shuffle_steps(order@, draws@, i as int) == shuffled_order(n as nat, draws@),
        decreases i,
    {
        let j = draws[i] % (i + 1);
        proof {
            lemma_swap_keeps_permutation(order@, n as nat, i as int, j as int);
        }
        let ghost before = order@;
        let at_i = order[i];
        let at_j = order[j];
        order.set(i, at_j);
        order.set(j, at_i);
        assert(order@ =~= swapped(before, i as int, j as int));
        i = i - 1;
    }
    order
}

/// The number of mini-batches that `n` samples make with batches of `size`:
/// `n / size` rounded up.
pub open spec fn batch_count(n: nat, size: nat) -> nat {
    if size == 0 {
        0
    } else {
        ((n + size - 1) / size as int) as nat
    }
}

/// Mini-batch `b` of `order` with batches of `size`: the entries from `b * size`
/// up to `(b + 1) * size`, or to the end of `order` if that comes first.
pub open spec fn batch_at(order: Seq<usize>, size: nat, b: int) -> Seq<usize> {
    let start = b * size;
    let end = if start + size <= order.len() {
        start + size
    } else {
        order.len() as int
    };
    order.subrange(start, end)
}

/// The index sequences that a list of batches holds.
pub open spec fn batch_views(batches: Seq<Vec<usize>>) -> Seq<Seq<usize>> {
    batches.map_values(|batch: Vec<usize>| batch@)
}

proof fn lemma_batch_count_exact(n: nat, size: nat, count: nat)
    requires
        size > 0,
        count * size >= n,
        count == 0 || (count - 1) * size < n,
    ensures
        count == batch_count(n, size),
{
    let q = (n + size - 1) / size as int;
    let r = (n + size - 1) % size as int;
    assert(q * size + r == n + size - 1 && 0 <= r < size) by {
        vstd::arithmetic::div_mod::lemma_fundamental_div_mod(n + size - 1, size as int);
    }
    if count == 0 {
        assert(n == 0);
        assert(q == 0) by (nonlinear_arith)
            requires
                q * size + r == size - 1,
                0 <= r < size,
        ;
    } else {
        assert(q == count) by (nonlinear_arith)
            requires
                q * size + r == n + size - 1,
                0 <= r < size,
                count * size >= n,
                (count - 1) * size < n,
                size > 0,
        ;
    }
}

proof fn lemma_batch_count_bounds(n: nat, size: nat)
    requires
        size > 0,
    ensures
        batch_count(n, size) * size >= n,
        batch_count(n, size) == 0 || (batch_count(n, size) - 1) * size < n,
{
    let q = (n + size - 1) / size as int;
    let r = (n + size - 1) % size as int;
    assert(q * size + r == n + size - 1 && 0 <= r < size) by {
        vstd::arithmetic::div_mod::lemma_fundamental_div_mod(n + size - 1, size as int);
    }
    assert(q * size >= n && (q - 1) * size < n) by (nonlinear_arith)
        requires
            q * size + r == n + size - 1,
            0 <= r < size,
    ;
}

/// Every mini-batch holds at least one and at most `size` indices, and every one
/// but the last holds exactly `size`.
pub proof fn lemma_batch_sizes(order: Seq<usize>, size: nat, b: int)
    requires
        size > 0,
        0 <= b < batch_count(order.len(), size),
    ensures
        0 < batch_at(order, size, b).len() <= size,
        b < batch_count(order.len(), size) - 1 ==> batch_at(order, size, b).len() == size,
{
    let n = order.len();
    let count = batch_count(n, size);
    lemma_batch_count_bounds(n, size);
    assert(b * size < n && b * size >= 0) by (nonlinear_arith)
        requires
            0 <= b <= count - 1,
            (count - 1) * size < n,
            size > 0,
    ;
    if b < count - 1 {
        assert((b + 1) * size < n) by (nonlinear_arith)
            requires
                0 <= b < count - 1,
                (count - 1) * size < n,
                size > 0,
        ;
        assert((b + 1) * size == b * size + size) by (nonlinear_arith);
    }
}

/// Cuts `order` into mini-batches of `batch_size` indices each; the last one holds
/// what is left and may be shorter.
pub fn batches(order: &Vec<usize>, batch_size: usize) -> (chunks: Vec<Vec<usize>>)
    requires
        batch_size > 0,
    ensures
        chunks.len() == batch_count(order.len() as nat, batch_size as nat),
        forall|b: int|
            0 <= b < chunks.len() ==> (#[trigger] chunks[b])@ == batch_at(
                order@,
                batch_size as nat,
                b,
            ),
        batch_views(chunks@).flatten() == order@,
        forall|b: int| 0 <= b < chunks.len() ==> 0 < (#[trigger] chunks[b]).len() <= batch_size,
        forall|b: int| 0 <= b < chunks.len() - 1 ==> (#[trigger] chunks[b]).len() == batch_size,
{
    let n = order.len();
    let mut chunks: Vec<Vec<usize>> = Vec::new();
    let mut start: usize = 0;
    assert(chunks.len() * batch_size == 0) by (nonlinear_arith)
        requires
            chunks.len() == 0,
    ;
    while start < n
        invariant
            n == order.len(),
            batch_size > 0,
            start <= n,
            start < n ==> start == chunks.len() * batch_size,
            chunks.len() * batch_size >= start,
            chunks.len() == 0 || (chunks.len() - 1) * batch_size < start,
            forall|b: int|
                0 <= b < chunks.len() ==> (#[trigger] chunks[b])@ == batch_at(
                    order@,
                    batch_size as nat,
                    b,
                ),
            batch_views(chunks@).flatten() == order@.subrange(0, start as int),
        decreases n - start,
    {
        let end: usize = if n - start > batch_size {
            start + batch_size
        } else {
            n
        };
        let mut chunk: Vec<usize> = Vec::new();
        let mut k: usize = start;
        while k < end
            invariant
                start <= k <= end <= n,
                n == order.len(),
                chunk@ == order@.subrange(start as int, k as int),
            decreases end - k,
        {
            chunk.push(order[k]);
            k = k + 1;
            assert(chunk@ =~= order@.subrange(start as int, k as int));
        }
        let ghost old_chunks = chunks@;
        let ghost b = chunks.len() as int;
        assert(chunk@ == batch_at(order@, batch_size as nat, b));
        chunks.push(chunk);
        proof {
            assert(batch_views(chunks@) =~= batch_views(old_chunks).push(chunk@));
            batch_views(old_chunks).lemma_flatten_push(chunk@);
            assert(order@.subrange(0, start as int) + order@.subrange(start as int, end as int)
                =~= order@.subrange(0, end as int));
            assert((b + 1) * batch_size == b * batch_size + batch_size) by (nonlinear_arith);
        }
        start = end;
    }
    proof {
        assert(order@.subrange(0, n as int) =~= order@);
        lemma_batch_count_exact(n as nat, batch_size as nat, chunks.len() as nat);
        assert forall|b: int| 0 <= b < chunks.len() implies 0 < (#[trigger] chunks[b]).len()
            <= batch_size && (b < chunks.len() - 1 ==> chunks[b].len() == batch_size) by {
            lemma_batch_sizes(order@, batch_size as nat, b);
        }
    }
    chunks
}

/// The mini-batches of one epoch over `n` samples: the shuffled visiting order
/// cut into batches of `batch_size`. Across its batches an epoch visits every
/// sample index `0..n` exactly once.
pub fn epoch_batches(n: usize, draws: &Vec<usize>, batch_size: usize) -> (plan: Vec<Vec<usize>>)
    requires
        draws.len() == n,
        batch_size > 0,
    ensures
        plan.len() == batch_count(n as nat, batch_size as nat),
        forall|b: int|
            0 <= b < plan.len() ==> (#[trigger] plan[b])@ == batch_at(
                shuffled_order(n as nat, draws@),
                batch_size as nat,
                b,
            ),
        batch_views(plan@).flatten() == shuffled_order(n as nat, draws@),
        is_permutation_of_range(batch_views(plan@).flatten(), n as nat),
{
    let order = shuffle_order(n, draws);
    batches(&order, batch_size)
}

/// How many epochs pass between two reports of the training loss.
pub const REPORT_INTERVAL: usize = 100;

/// Whether the average loss of `epoch` is reported: every hundredth epoch,
/// starting with the first.
pub fn reports_loss(epoch: usize) -> (report: bool)
    ensures
        report == (epoch % 100 == 0),
{
    epoch % REPORT_INTERVAL == 0
}

/// Whether training may start: an optimizer must have been chosen, then a loss.
pub fn check_configured(has_optimizer: bool, has_loss: bool) -> (ready: Result<(), ConfigError>)
    ensures
        !has_optimizer ==> ready == Err::<(), ConfigError>(ConfigError::OptimizerNotSet),
        has_optimizer && !has_loss ==> ready == Err::<(), ConfigError>(ConfigError::LossNotSet),
        has_optimizer && has_loss ==> ready == Ok::<(), ConfigError>(()),
{
    if !has_optimizer {
        Err(ConfigError::OptimizerNotSet)
    } else if !has_loss {
        Err(ConfigError::LossNotSet)
    } else {
        Ok(())
    }
}

} // verus!
