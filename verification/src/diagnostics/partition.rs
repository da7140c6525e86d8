//! Round-robin partition of the root files into one batch per worker.

use vstd::prelude::*;
use vstd::arithmetic::div_mod::{
    lemma_fundamental_div_mod, lemma_fundamental_div_mod_converse, lemma_mod_bound,
};
use vstd::arithmetic::mul::{lemma_mul_inequality, lemma_mul_is_distributive_add_other_way};
use crate::handles::FileHandle;

verus! {

/// How many of the positions below `total` are congruent to `i` modulo `n`.
pub open spec fn batch_len(total: nat, n: nat, i: nat) -> nat
    recommends
        n > 0,
        i < n,
{
    if i < total % n {
        total / n + 1
    } else {
        total / n
    }
}

/// The position in the input of slot `k` of batch `i`.
pub open spec fn position_of(n: nat, i: nat, k: nat) -> nat {
    i + k * n
}

/// Batch `i` of `n`: the items at the positions `i`, `i + n`, `i + 2n`, ...
pub open spec fn batch_of<T>(input: Seq<T>, n: nat, i: nat) -> Seq<T>
    recommends
        n > 0,
        i < n,
{
    Seq::new(batch_len(input.len(), n, i), |k: int| input[position_of(n, i, k as nat) as int])
}

/// Slot `k` of batch `i` exists exactly when position `i + k * n` does.
pub proof fn lemma_slot_exists(total: nat, n: nat, i: nat, k: nat)
    requires
        n > 0,
        i < n,
    ensures
        i + k * n < total <==> k < batch_len(total, n, i),
{
    let q = total / n;
    let r = total % n;
    lemma_fundamental_div_mod(total as int, n as int);
    lemma_mod_bound(total as int, n as int);
    assert(total == n * q + r);
    assert(n * q == q * n) by (nonlinear_arith);
    if k < q {
        lemma_mul_inequality(k as int + 1, q as int, n as int);
        lemma_mul_is_distributive_add_other_way(n as int, k as int, 1);
        assert((k + 1) * n == k * n + n) by (nonlinear_arith);
    } else if k == q {
    } else {
        lemma_mul_inequality(q as int + 1, k as int, n as int);
        assert((q + 1) * n == q * n + n) by (nonlinear_arith);
    }
}

/// Position `i + k * n` leads back to batch `i` and slot `k`.
pub proof fn lemma_slot_position(n: nat, i: nat, k: nat)
    requires
        n > 0,
        i < n,
    ensures
        (i + k * n) % n == i,
        (i + k * n) / n == k,
{
    assert(i + k * n == n * k + i) by (nonlinear_arith);
    lemma_fundamental_div_mod_converse((i + k * n) as int, n as int, k as int, i as int);
}

/// Every position of the input is one slot of one batch: that of its
/// remainder, at its quotient.
pub proof fn lemma_position_has_one_slot<T>(input: Seq<T>, n: nat, j: nat)
    requires
        n > 0,
        j < input.len(),
    ensures
        j % n < n,
        j / n < batch_len(input.len(), n, j % n),
        batch_of(input, n, j % n)[(j / n) as int] == input[j as int],
        forall|i: nat, k: nat| i < n && #[trigger] position_of(n, i, k) == j ==> i == j % n && k == j / n,
{
    lemma_fundamental_div_mod(j as int, n as int);
    lemma_mod_bound(j as int, n as int);
    assert(n * (j / n) == (j / n) * n) by (nonlinear_arith);
    lemma_slot_exists(input.len(), n, j % n, j / n);
    assert forall|i: nat, k: nat| i < n && #[trigger] position_of(n, i, k) == j implies i == j % n && k
        == j / n by {
        lemma_slot_position(n, i, k);
    }
}

/// Two batches differ in size by at most one.
pub proof fn lemma_batch_sizes_balanced(total: nat, n: nat, a: nat, b: nat)
    requires
        n > 0,
        a < n,
        b < n,
    ensures
        batch_len(total, n, a) <= batch_len(total, n, b) + 1,
        batch_len(total, n, b) <= batch_len(total, n, a) + 1,
{
}

/// Where no item occurs twice in the input, every item of the input is in
/// exactly one batch, once, and the batches hold nothing else.
pub proof fn lemma_items_land_once<T>(input: Seq<T>, n: nat)
    requires
        n > 0,
        input.no_duplicates(),
    ensures
        forall|x: T|
            input.contains(x) <==> exists|i: nat| i < n && #[trigger] batch_of(input, n, i).contains(x),
        forall|x: T, a: nat, b: nat|
            a < n && b < n && #[trigger] batch_of(input, n, a).contains(x) && #[trigger] batch_of(
                input,
                n,
                b,
            ).contains(x) ==> a == b,
        forall|i: nat| i < n ==> (#[trigger] batch_of(input, n, i)).no_duplicates(),
{
    assert forall|x: T| input.contains(x) implies exists|i: nat|
        i < n && #[trigger] batch_of(input, n, i).contains(x) by {
        let j = choose|j: int| 0 <= j < input.len() && input[j] == x;
        lemma_position_has_one_slot(input, n, j as nat);
        let i = (j as nat) % n;
        assert(batch_of(input, n, i)[(j as nat / n) as int] == x);
        assert(batch_of(input, n, i).contains(x));
    }
    assert forall|x: T| (exists|i: nat| i < n && #[trigger] batch_of(input, n, i).contains(x))
        implies input.contains(x) by {
        let i = choose|i: nat| i < n && #[trigger] batch_of(input, n, i).contains(x);
        let k = choose|k: int| 0 <= k < batch_of(input, n, i).len() && batch_of(input, n, i)[k] == x;
        lemma_slot_exists(input.len(), n, i, k as nat);
        assert(input[i + k * n] == x);
    }
    assert forall|x: T, a: nat, b: nat|
        a < n && b < n && #[trigger] batch_of(input, n, a).contains(x) && #[trigger] batch_of(
            input,
            n,
            b,
        ).contains(x) implies a == b by {
        let ka = choose|k: int| 0 <= k < batch_of(input, n, a).len() && batch_of(input, n, a)[k] == x;
        let kb = choose|k: int| 0 <= k < batch_of(input, n, b).len() && batch_of(input, n, b)[k] == x;
        lemma_slot_exists(input.len(), n, a, ka as nat);
        lemma_slot_exists(input.len(), n, b, kb as nat);
        assert(input[a + ka * n] == input[b + kb * n]);
        lemma_slot_position(n, a, ka as nat);
        lemma_slot_position(n, b, kb as nat);
    }
    assert forall|i: nat| i < n implies (#[trigger] batch_of(input, n, i)).no_duplicates() by {
        let batch = batch_of(input, n, i);
        assert forall|s: int, t: int| 0 <= s < batch.len() && 0 <= t < batch.len() && s != t implies batch[s]
            != batch[t] by {
            lemma_slot_exists(input.len(), n, i, s as nat);
            lemma_slot_exists(input.len(), n, i, t as nat);
            lemma_slot_position(n, i, s as nat);
            lemma_slot_position(n, i, t as nat);
        }
    }
}

/// Whether `result` is the round-robin partition of `input` into `n` batches.
pub open spec fn is_partition(input: Seq<FileHandle>, n: nat, result: Seq<Vec<FileHandle>>) -> bool {
    &&& result.len() == n
    &&& forall|i: int| 0 <= i < n ==> (#[trigger] result[i])@ == batch_of(input, n, i as nat)
}

/// The partition is exact and balanced: every position of the input is one
/// slot of one batch, every slot of every batch is one position of the input,
/// no two slots are the same position, and two batches differ in size by at
/// most one.
pub proof fn lemma_partition_is_exact_and_balanced(
    input: Seq<FileHandle>,
    n: nat,
    result: Seq<Vec<FileHandle>>,
)
    requires
        n > 0,
        is_partition(input, n, result),
    ensures
        forall|j: int|
            0 <= j < input.len() ==> j / (n as int) < (#[trigger] result[j % (n as int)]).len()
                && result[j % (n as int)]@[j / (n as int)] == input[j],
        forall|i: int, k: int|
            0 <= i < n && 0 <= k < result[i].len() ==> #[trigger] position_of(n, i as nat, k as nat)
                < input.len() && result[i]@[k] == input[position_of(n, i as nat, k as nat) as int],
        forall|i: int, k: int|
            0 <= i < n && 0 <= k ==> #[trigger] position_of(n, i as nat, k as nat) % n == i
                && position_of(n, i as nat, k as nat) / n == k,
        forall|a: int, b: int|
            0 <= a < n && 0 <= b < n ==> (#[trigger] result[a]).len() <= (#[trigger] result[b]).len()
                + 1,
{
    assert forall|j: int| 0 <= j < input.len() implies j / (n as int) < (#[trigger] result[j % (
    n as int)]).len() && result[j % (n as int)]@[j / (n as int)] == input[j] by {
        lemma_position_has_one_slot(input, n, j as nat);
    }
    assert forall|i: int, k: int| 0 <= i < n && 0 <= k < result[i].len() implies #[trigger] position_of(
        n,
        i as nat,
        k as nat,
    ) < input.len() && result[i]@[k] == input[position_of(n, i as nat, k as nat) as int] by {
        lemma_slot_exists(input.len(), n, i as nat, k as nat);
    }
    assert forall|i: int, k: int| 0 <= i < n && 0 <= k implies #[trigger] position_of(
        n,
        i as nat,
        k as nat,
    ) % n == i && position_of(n, i as nat, k as nat) / n == k by {
        lemma_slot_position(n, i as nat, k as nat);
    }
    assert forall|a: int, b: int| 0 <= a < n && 0 <= b < n implies (#[trigger] result[a]).len() <= (
    #[trigger] result[b]).len() + 1 by {
        lemma_batch_sizes_balanced(input.len(), n, a as nat, b as nat);
    }
}

/// Where no file occurs twice in the input, every file of the input is in
/// exactly one batch of the partition, once, and the batches hold nothing else.
pub proof fn lemma_partition_of_distinct_files(
    input: Seq<FileHandle>,
    n: nat,
    result: Seq<Vec<FileHandle>>,
)
    requires
        n > 0,
        input.no_duplicates(),
        is_partition(input, n, result),
    ensures
        forall|f: FileHandle|
            input.contains(f) <==> exists|i: int| 0 <= i < n && (#[trigger] result[i])@.contains(f),
        forall|f: FileHandle, a: int, b: int|
            0 <= a < n && 0 <= b < n && #[trigger] result[a]@.contains(f) && #[trigger] result[b]@.contains(
                f,
            ) ==> a == b,
        forall|i: int| 0 <= i < n ==> (#[trigger] result[i])@.no_duplicates(),
{
    lemma_items_land_once(input, n);
    assert forall|f: FileHandle| input.contains(f) implies exists|i: int|
        0 <= i < n && (#[trigger] result[i])@.contains(f) by {
        let i = choose|i: nat| i < n && #[trigger] batch_of(input, n, i).contains(f);
        assert(result[i as int]@.contains(f));
    }
    assert forall|f: FileHandle|
        (exists|i: int| 0 <= i < n && (#[trigger] result[i])@.contains(f)) implies input.contains(
        f,
    ) by {
        let i = choose|i: int| 0 <= i < n && (#[trigger] result[i])@.contains(f);
        assert(batch_of(input, n, i as nat).contains(f));
    }
    assert forall|f: FileHandle, a: int, b: int|
        0 <= a < n && 0 <= b < n && #[trigger] result[a]@.contains(f) && #[trigger] result[b]@.contains(
            f,
        ) implies a == b by {
        assert(batch_of(input, n, a as nat).contains(f));
        assert(batch_of(input, n, b as nat).contains(f));
    }
    assert forall|i: int| 0 <= i < n implies (#[trigger] result[i])@.no_duplicates() by {
        assert(batch_of(input, n, i as nat).no_duplicates());
    }
}

/// Splits `input` into `n` batches: batch `i` receives the files at the
/// positions congruent to `i` modulo `n`, in their order. Batches beyond the
/// number of files are empty.
pub fn batches(input: &[FileHandle], n: usize) -> (result: Vec<Vec<FileHandle>>)
    requires
        n > 0,
    ensures
        is_partition(input@, n as nat, result@),
{
    let len = input.len();
    let mut result: Vec<Vec<FileHandle>> = Vec::new();
    let mut offset: usize = 0;
    while offset < n
        invariant
            n > 0,
            len == input@.len(),
            offset <= n,
            result.len() == offset,
            forall|i: int|
                0 <= i < offset ==> (#[trigger] result[i])@ == batch_of(input@, n as nat, i as nat),
        decreases n - offset,
    {
        let mut batch: Vec<FileHandle> = Vec::new();
        let mut position: usize = offset;
        let mut more: bool = position < len;
        proof {
            lemma_slot_exists(len as nat, n as nat, offset as nat, 0);
        }
        while more
            invariant
                n > 0,
                offset < n,
                len == input@.len(),
                batch.len() <= batch_len(len as nat, n as nat, offset as nat),
                more ==> position == offset + batch.len() * n && position < len,
                !more ==> batch.len() == batch_len(len as nat, n as nat, offset as nat),
                forall|k: int| 0 <= k < batch.len() ==> #[trigger] batch@[k] == input@[offset + k * n],
            decreases len - position + if more { 1int } else { 0int },
        {
            let ghost taken = batch.len() as nat;
            proof {
                lemma_slot_exists(len as nat, n as nat, offset as nat, taken);
                lemma_slot_exists(len as nat, n as nat, offset as nat, taken + 1);
                assert((taken + 1) * n == taken * n + n) by (nonlinear_arith);
            }
            batch.push(input[position]);
            if len - position > n {
                position = position + n;
            } else {
                more = false;
            }
        }
        proof {
            assert(batch@ =~= batch_of(input@, n as nat, offset as nat));
        }
        result.push(batch);
        offset += 1;
    }
    result
}

} // verus!
