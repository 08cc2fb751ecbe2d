//! Counting the instructions of a kind in a piece of code.

use vstd::prelude::*;

use crate::instr::InsnView;

verus! {

/// How many of the first `n` instructions are of the kind.
pub open spec fn count_to(code: Seq<InsnView>, n: nat, kind: spec_fn(InsnView) -> bool) -> nat
    decreases n,
{
    if n == 0 {
        0
    } else {
        count_to(code, (n - 1) as nat, kind) + one(kind, code[n - 1])
    }
}

/// 1 for an instruction of the kind, and 0 for any other.
pub open spec fn one(kind: spec_fn(InsnView) -> bool, i: InsnView) -> nat {
    if kind(i) {
        1
    } else {
        0
    }
}

/// How many of the instructions are of the kind.
#[verifier::opaque]
pub open spec fn count(code: Seq<InsnView>, kind: spec_fn(InsnView) -> bool) -> nat {
    count_to(code, code.len(), kind)
}

proof fn lemma_count_prefix(
    a: Seq<InsnView>,
    b: Seq<InsnView>,
    n: nat,
    kind: spec_fn(InsnView) -> bool,
)
    requires
        n <= a.len(),
        n <= b.len(),
        forall|i: int| 0 <= i < n ==> a[i] == b[i],
    ensures
        count_to(a, n, kind) == count_to(b, n, kind),
    decreases n,
{
    if n > 0 {
        lemma_count_prefix(a, b, (n - 1) as nat, kind);
    }
}

pub broadcast proof fn lemma_count_push(
    s: Seq<InsnView>,
    i: InsnView,
    kind: spec_fn(InsnView) -> bool,
)
    ensures
        #[trigger] count(s.push(i), kind) == count(s, kind) + one(kind, i),
{
    reveal(count);
    lemma_count_prefix(s, s.push(i), s.len(), kind);
}

proof fn lemma_count_add_to(
    a: Seq<InsnView>,
    b: Seq<InsnView>,
    n: nat,
    kind: spec_fn(InsnView) -> bool,
)
    requires
        n <= b.len(),
    ensures
        count_to(a + b, a.len() + n, kind) == count(a, kind) + count_to(b, n, kind),
    decreases n,
{
    reveal(count);
    if n > 0 {
        lemma_count_add_to(a, b, (n - 1) as nat, kind);
        assert((a + b)[a.len() + n - 1] == b[n - 1]);
    } else {
        lemma_count_prefix(a, a + b, a.len(), kind);
    }
}

pub broadcast proof fn lemma_count_add(
    a: Seq<InsnView>,
    b: Seq<InsnView>,
    kind: spec_fn(InsnView) -> bool,
)
    ensures
        #[trigger] count(a + b, kind) == count(a, kind) + count(b, kind),
{
    reveal(count);
    lemma_count_add_to(a, b, b.len(), kind);
    assert((a + b).len() == a.len() + b.len());
}

/// The counts of short pieces of code, written out.
pub broadcast proof fn lemma_count_short(s: Seq<InsnView>, kind: spec_fn(InsnView) -> bool)
    ensures
        #![trigger count(s, kind)]
        s.len() == 0 ==> count(s, kind) == 0,
        s.len() == 2 ==> count(s, kind) == one(kind, s[0]) + one(kind, s[1]),
        s.len() == 3 ==> count(s, kind) == one(kind, s[0]) + one(kind, s[1]) + one(kind, s[2]),
        s.len() == 4 ==> count(s, kind) == one(kind, s[0]) + one(kind, s[1]) + one(kind, s[2])
            + one(kind, s[3]),
        s.len() == 6 ==> count(s, kind) == one(kind, s[0]) + one(kind, s[1]) + one(kind, s[2])
            + one(kind, s[3]) + one(kind, s[4]) + one(kind, s[5]),
        s.len() == 10 ==> count(s, kind) == one(kind, s[0]) + one(kind, s[1]) + one(kind, s[2])
            + one(kind, s[3]) + one(kind, s[4]) + one(kind, s[5]) + one(kind, s[6]) + one(
            kind,
            s[7],
        ) + one(kind, s[8]) + one(kind, s[9]),
        s.len() == 12 ==> count(s, kind) == one(kind, s[0]) + one(kind, s[1]) + one(kind, s[2])
            + one(kind, s[3]) + one(kind, s[4]) + one(kind, s[5]) + one(kind, s[6]) + one(
            kind,
            s[7],
        ) + one(kind, s[8]) + one(kind, s[9]) + one(kind, s[10]) + one(kind, s[11]),
        s.len() == 17 ==> count(s, kind) == one(kind, s[0]) + one(kind, s[1]) + one(kind, s[2])
            + one(kind, s[3]) + one(kind, s[4]) + one(kind, s[5]) + one(kind, s[6]) + one(
            kind,
            s[7],
        ) + one(kind, s[8]) + one(kind, s[9]) + one(kind, s[10]) + one(kind, s[11]) + one(
            kind,
            s[12],
        ) + one(kind, s[13]) + one(kind, s[14]) + one(kind, s[15]) + one(kind, s[16]),
{
    reveal(count);
    reveal_with_fuel(count_to, 18);
}

proof fn lemma_count_fewer_to(
    s: Seq<InsnView>,
    n: nat,
    a: spec_fn(InsnView) -> bool,
    b: spec_fn(InsnView) -> bool,
)
    requires
        forall|i: InsnView| #[trigger] a(i) ==> b(i),
    ensures
        count_to(s, n, a) <= count_to(s, n, b),
    decreases n,
{
    if n > 0 {
        lemma_count_fewer_to(s, (n - 1) as nat, a, b);
        assert(a(s[n - 1]) ==> b(s[n - 1]));
    }
}

/// Instructions of a kind that is part of another.
pub proof fn lemma_count_fewer(
    s: Seq<InsnView>,
    a: spec_fn(InsnView) -> bool,
    b: spec_fn(InsnView) -> bool,
)
    requires
        forall|i: InsnView| #[trigger] a(i) ==> b(i),
    ensures
        count(s, a) <= count(s, b),
{
    reveal(count);
    lemma_count_fewer_to(s, s.len(), a, b);
}

/// A kind of which the code has no instruction.
pub proof fn lemma_count_none(s: Seq<InsnView>, kind: spec_fn(InsnView) -> bool, i: int)
    requires
        count(s, kind) == 0,
        0 <= i < s.len(),
    ensures
        !kind(s[i]),
{
    reveal(count);
    lemma_count_none_to(s, s.len(), kind, i);
}

proof fn lemma_count_none_to(s: Seq<InsnView>, n: nat, kind: spec_fn(InsnView) -> bool, i: int)
    requires
        count_to(s, n, kind) == 0,
        0 <= i < n <= s.len(),
    ensures
        !kind(s[i]),
    decreases n,
{
    if i < n - 1 {
        lemma_count_none_to(s, (n - 1) as nat, kind, i);
    }
}

proof fn lemma_count_some_to(s: Seq<InsnView>, n: nat, kind: spec_fn(InsnView) -> bool, i: int)
    requires
        0 <= i < n <= s.len(),
        kind(s[i]),
    ensures
        count_to(s, n, kind) >= 1,
    decreases n,
{
    if i < n - 1 {
        lemma_count_some_to(s, (n - 1) as nat, kind, i);
    }
}

proof fn lemma_count_two_to(
    s: Seq<InsnView>,
    n: nat,
    kind: spec_fn(InsnView) -> bool,
    i: int,
    j: int,
)
    requires
        0 <= i < j < n <= s.len(),
        kind(s[i]),
        kind(s[j]),
    ensures
        count_to(s, n, kind) >= 2,
    decreases n,
{
    if j < n - 1 {
        lemma_count_two_to(s, (n - 1) as nat, kind, i, j);
    } else {
        lemma_count_some_to(s, (n - 1) as nat, kind, i);
    }
}

/// A kind of which the code has instructions in two places.
pub proof fn lemma_count_two(s: Seq<InsnView>, kind: spec_fn(InsnView) -> bool, i: int, j: int)
    requires
        0 <= i < s.len(),
        0 <= j < s.len(),
        i != j,
        kind(s[i]),
        kind(s[j]),
    ensures
        count(s, kind) >= 2,
{
    reveal(count);
    if i < j {
        lemma_count_two_to(s, s.len(), kind, i, j);
    } else {
        lemma_count_two_to(s, s.len(), kind, j, i);
    }
}

pub broadcast group group_count {
    lemma_count_push,
    lemma_count_add,
    lemma_count_short,
}

} // verus!
