//! Word-level Levenshtein distance and the alignment that realizes it.

use vstd::prelude::*;

verus! {

/// One step of an alignment between a reference (`a`) and a hypothesis (`b`):
/// the indices point at the words on each side.
#[derive(Clone, Copy, Debug, PartialEq, Eq)]
pub enum Op {
    /// Equal words.
    Equal(usize, usize),
    /// A reference word replaced by a different hypothesis word.
    Substitution(usize, usize),
    /// A reference word missing from the hypothesis.
    Deletion(usize),
    /// An extra word in the hypothesis.
    Insertion(usize),
}

pub open spec fn word_cost(x: Seq<char>, y: Seq<char>) -> nat {
    if x == y { 0 } else { 1 }
}

pub open spec fn min3(x: nat, y: nat, z: nat) -> nat {
    if x <= y && x <= z { x } else if y <= z { y } else { z }
}

/// Levenshtein distance between the first `i` words of `a` and the first `j`
/// words of `b` (the textbook recurrence).
pub open spec fn dist(a: Seq<Seq<char>>, b: Seq<Seq<char>>, i: nat, j: nat) -> nat
    decreases i + j,
{
    if i == 0 {
        j
    } else if j == 0 {
        i
    } else {
        min3(
            dist(a, b, (i - 1) as nat, (j - 1) as nat) + word_cost(a[i - 1], b[j - 1]),
            dist(a, b, (i - 1) as nat, j) + 1,
            dist(a, b, i, (j - 1) as nat) + 1,
        )
    }
}

/// Word edit distance between `a` and `b`.
pub open spec fn edit_distance(a: Seq<Seq<char>>, b: Seq<Seq<char>>) -> nat {
    dist(a, b, a.len(), b.len())
}

/// The alignment's steps, read backwards from `(i, j)`: at each step the
/// diagonal (match or substitution) is preferred when it realizes the
/// distance, then a deletion, then an insertion.
pub open spec fn trace_back(a: Seq<Seq<char>>, b: Seq<Seq<char>>, i: nat, j: nat) -> Seq<Op>
    decreases i + j,
{
    if i > 0 && j > 0 && dist(a, b, i, j) == dist(a, b, (i - 1) as nat, (j - 1) as nat)
        + word_cost(a[i - 1], b[j - 1]) {
        let op = if a[i - 1] == b[j - 1] {
            Op::Equal((i - 1) as usize, (j - 1) as usize)
        } else {
            Op::Substitution((i - 1) as usize, (j - 1) as usize)
        };
        seq![op] + trace_back(a, b, (i - 1) as nat, (j - 1) as nat)
    } else if i > 0 && dist(a, b, i, j) == dist(a, b, (i - 1) as nat, j) + 1 {
        seq![Op::Deletion((i - 1) as usize)] + trace_back(a, b, (i - 1) as nat, j)
    } else if j > 0 {
        seq![Op::Insertion((j - 1) as usize)] + trace_back(a, b, i, (j - 1) as nat)
    } else {
        Seq::empty()
    }
}

/// The alignment of `a` and `b`, in reading order.
pub open spec fn alignment(a: Seq<Seq<char>>, b: Seq<Seq<char>>) -> Seq<Op> {
    trace_back(a, b, a.len(), b.len()).reverse()
}

pub open spec fn op_cost(op: Op) -> nat {
    match op {
        Op::Equal(_, _) => 0,
        _ => 1,
    }
}

/// Number of edits in a script.
pub open spec fn script_cost(ops: Seq<Op>) -> nat
    decreases ops.len(),
{
    if ops.len() == 0 {
        0
    } else {
        script_cost(ops.drop_last()) + op_cost(ops.last())
    }
}

/// `ops` is an edit script that turns the first `i` words of `a` into the
/// first `j` words of `b`: each step consumes the next word on the side(s)
/// it names, an `Equal` step pairs equal words and a `Substitution` step
/// pairs different ones.
pub open spec fn aligns(a: Seq<Seq<char>>, b: Seq<Seq<char>>, ops: Seq<Op>, i: int, j: int) -> bool
    decreases ops.len(),
{
    if ops.len() == 0 {
        i == 0 && j == 0
    } else {
        let rest = ops.drop_last();
        match ops.last() {
            Op::Equal(x, y) => 0 < i && 0 < j && x == i - 1 && y == j - 1 && a[x as int]
                == b[y as int] && aligns(a, b, rest, i - 1, j - 1),
            Op::Substitution(x, y) => 0 < i && 0 < j && x == i - 1 && y == j - 1 && a[x as int]
                != b[y as int] && aligns(a, b, rest, i - 1, j - 1),
            Op::Deletion(x) => 0 < i && x == i - 1 && aligns(a, b, rest, i - 1, j),
            Op::Insertion(y) => 0 < j && y == j - 1 && aligns(a, b, rest, i, j - 1),
        }
    }
}

/// The indices an operation points at are in range.
pub open spec fn op_in_range(op: Op, n: int, m: int) -> bool {
    match op {
        Op::Equal(x, y) => x < n && y < m,
        Op::Substitution(x, y) => x < n && y < m,
        Op::Deletion(x) => x < n,
        Op::Insertion(y) => y < m,
    }
}

pub proof fn lemma_dist_le_max(a: Seq<Seq<char>>, b: Seq<Seq<char>>, i: nat, j: nat)
    ensures
        dist(a, b, i, j) <= if i >= j { i } else { j },
    decreases i + j,
{
    if i > 0 && j > 0 {
        lemma_dist_le_max(a, b, (i - 1) as nat, (j - 1) as nat);
    }
}

proof fn lemma_trace_back_aligns(a: Seq<Seq<char>>, b: Seq<Seq<char>>, i: nat, j: nat)
    requires
        i <= usize::MAX,
        j <= usize::MAX,
    ensures
        aligns(a, b, trace_back(a, b, i, j).reverse(), i as int, j as int),
        script_cost(trace_back(a, b, i, j).reverse()) == dist(a, b, i, j),
    decreases i + j,
{
    let t = trace_back(a, b, i, j);
    if i > 0 && j > 0 && dist(a, b, i, j) == dist(a, b, (i - 1) as nat, (j - 1) as nat)
        + word_cost(a[i - 1], b[j - 1]) {
        let rest = trace_back(a, b, (i - 1) as nat, (j - 1) as nat);
        lemma_trace_back_aligns(a, b, (i - 1) as nat, (j - 1) as nat);
        assert(t.reverse().drop_last() =~= rest.reverse());
        assert(t.reverse().last() == t[0]);
    } else if i > 0 && dist(a, b, i, j) == dist(a, b, (i - 1) as nat, j) + 1 {
        let rest = trace_back(a, b, (i - 1) as nat, j);
        lemma_trace_back_aligns(a, b, (i - 1) as nat, j);
        assert(t.reverse().drop_last() =~= rest.reverse());
        assert(t.reverse().last() == t[0]);
    } else if j > 0 {
        let rest = trace_back(a, b, i, (j - 1) as nat);
        lemma_trace_back_aligns(a, b, i, (j - 1) as nat);
        assert(t.reverse().drop_last() =~= rest.reverse());
        assert(t.reverse().last() == t[0]);
        if i > 0 {
            // the recurrence's minimum is reached by the third term
            assert(dist(a, b, i, j) == dist(a, b, i, (j - 1) as nat) + 1);
        }
    } else {
        assert(t.reverse() =~= Seq::<Op>::empty());
    }
}

/// The alignment is an edit script from `a` to `b` whose number of edits is
/// the edit distance.
pub proof fn lemma_alignment_realizes_distance(a: Seq<Seq<char>>, b: Seq<Seq<char>>)
    requires
        a.len() <= usize::MAX,
        b.len() <= usize::MAX,
    ensures
        aligns(a, b, alignment(a, b), a.len() as int, b.len() as int),
        script_cost(alignment(a, b)) == edit_distance(a, b),
{
    lemma_trace_back_aligns(a, b, a.len(), b.len());
}

/// No edit script from `a` to `b` uses fewer edits than the edit distance:
/// `edit_distance` is the minimum over all scripts.
pub proof fn lemma_distance_is_minimal(a: Seq<Seq<char>>, b: Seq<Seq<char>>, ops: Seq<Op>, i: nat, j: nat)
    requires
        aligns(a, b, ops, i as int, j as int),
    ensures
        dist(a, b, i, j) <= script_cost(ops),
    decreases ops.len(),
{
    if ops.len() > 0 {
        let rest = ops.drop_last();
        match ops.last() {
            Op::Equal(_, _) => lemma_distance_is_minimal(a, b, rest, (i - 1) as nat, (j - 1) as nat),
            Op::Substitution(_, _) => lemma_distance_is_minimal(a, b, rest, (i - 1) as nat, (j - 1) as nat),
            Op::Deletion(_) => lemma_distance_is_minimal(a, b, rest, (i - 1) as nat, j),
            Op::Insertion(_) => lemma_distance_is_minimal(a, b, rest, i, (j - 1) as nat),
        }
    }
}

/// Every step of an edit script points at words that exist.
pub proof fn lemma_aligns_in_range(a: Seq<Seq<char>>, b: Seq<Seq<char>>, ops: Seq<Op>, i: int, j: int)
    requires
        aligns(a, b, ops, i, j),
    ensures
        forall|k: int| 0 <= k < ops.len() ==> op_in_range(#[trigger] ops[k], i, j),
    decreases ops.len(),
{
    if ops.len() > 0 {
        let rest = ops.drop_last();
        match ops.last() {
            Op::Equal(_, _) => lemma_aligns_in_range(a, b, rest, i - 1, j - 1),
            Op::Substitution(_, _) => lemma_aligns_in_range(a, b, rest, i - 1, j - 1),
            Op::Deletion(_) => lemma_aligns_in_range(a, b, rest, i - 1, j),
            Op::Insertion(_) => lemma_aligns_in_range(a, b, rest, i, j - 1),
        }
        assert forall|k: int| 0 <= k < ops.len() implies op_in_range(#[trigger] ops[k], i, j) by {
            if k < ops.len() - 1 {
                assert(ops[k] == rest[k]);
            }
        }
    }
}


/// The character sequences of a list of words.
pub open spec fn views(ws: Seq<String>) -> Seq<Seq<char>> {
    ws.map_values(|w: String| w@)
}

fn min_of3(x: usize, y: usize, z: usize) -> (r: usize)
    ensures
        r == min3(x as nat, y as nat, z as nat),
{
    if x <= y && x <= z {
        x
    } else if y <= z {
        y
    } else {
        z
    }
}

/// Levenshtein distance over words, with the alignment that realizes it
/// (ties prefer the diagonal, then a deletion).
pub fn align(a: &[String], b: &[String]) -> (r: (usize, Vec<Op>))
    requires
        a.len() < usize::MAX,
        b.len() < usize::MAX,
    ensures
        r.0 == edit_distance(views(a@), views(b@)),
        r.1@ == alignment(views(a@), views(b@)),
{
    let n = a.len();
    let m = b.len();
    let ghost va = views(a@);
    let ghost vb = views(b@);
    let mut d: Vec<Vec<usize>> = Vec::new();
    let mut row0: Vec<usize> = Vec::new();
    let mut j0: usize = 0;
    while j0 <= m
        invariant
            j0 <= m + 1,
            m == b.len(),
            m < usize::MAX,
            row0@.len() == j0,
            forall|c: int| 0 <= c < j0 ==> #[trigger] row0@[c] == dist(va, vb, 0, c as nat),
        decreases m + 1 - j0,
    {
        row0.push(j0);
        j0 += 1;
    }
    d.push(row0);
    let mut i: usize = 1;
    while i <= n
        invariant
            1 <= i <= n + 1,
            n == a.len(),
            m == b.len(),
            n < usize::MAX,
            m < usize::MAX,
            va == views(a@),
            vb == views(b@),
            d@.len() == i,
            forall|r: int| 0 <= r < i ==> (#[trigger] d@[r])@.len() == m + 1,
            forall|r: int, c: int|
                0 <= r < i && 0 <= c <= m ==> #[trigger] d@[r]@[c] == dist(va, vb, r as nat, c as nat),
        decreases n + 1 - i,
    {
        let mut row: Vec<usize> = Vec::new();
        row.push(i);
        let mut j: usize = 1;
        while j <= m
            invariant
                1 <= i <= n,
                1 <= j <= m + 1,
                n == a.len(),
                m == b.len(),
                n < usize::MAX,
                m < usize::MAX,
                va == views(a@),
                vb == views(b@),
                d@.len() == i,
                forall|r: int| 0 <= r < i ==> (#[trigger] d@[r])@.len() == m + 1,
                forall|r: int, c: int|
                    0 <= r < i && 0 <= c <= m ==> #[trigger] d@[r]@[c] == dist(va, vb, r as nat, c as nat),
                row@.len() == j,
                forall|c: int| 0 <= c < j ==> #[trigger] row@[c] == dist(va, vb, i as nat, c as nat),
            decreases m + 1 - j,
        {
            proof {
                lemma_dist_le_max(va, vb, (i - 1) as nat, (j - 1) as nat);
                lemma_dist_le_max(va, vb, (i - 1) as nat, j as nat);
                lemma_dist_le_max(va, vb, i as nat, (j - 1) as nat);
            }
            let cost: usize = if a[i - 1] == b[j - 1] { 0 } else { 1 };
            assert(cost == word_cost(va[i - 1], vb[j - 1]));
            let diag = d[i - 1][j - 1] + cost;
            let up = d[i - 1][j] + 1;
            let left = row[j - 1] + 1;
            let v = min_of3(diag, up, left);
            row.push(v);
            j += 1;
        }
        d.push(row);
        i += 1;
    }
    let ghost full = trace_back(va, vb, n as nat, m as nat);
    let mut rev: Vec<Op> = Vec::new();
    let mut i: usize = n;
    let mut j: usize = m;
    while i > 0 || j > 0
        invariant
            i <= n,
            j <= m,
            n == a.len(),
            m == b.len(),
            va == views(a@),
            vb == views(b@),
            d@.len() == n + 1,
            forall|r: int| 0 <= r <= n ==> (#[trigger] d@[r])@.len() == m + 1,
            forall|r: int, c: int|
                0 <= r <= n && 0 <= c <= m ==> #[trigger] d@[r]@[c] == dist(va, vb, r as nat, c as nat),
            rev@ + trace_back(va, vb, i as nat, j as nat) == full,
            n < usize::MAX,
            m < usize::MAX,
        decreases i + j,
    {
        let ghost before = rev@;
        proof {
            if i > 0 && j > 0 {
                lemma_dist_le_max(va, vb, (i - 1) as nat, (j - 1) as nat);
            }
            if i > 0 {
                lemma_dist_le_max(va, vb, (i - 1) as nat, j as nat);
            }
        }
        if i > 0 && j > 0 {
            let cost: usize = if a[i - 1] == b[j - 1] { 0 } else { 1 };
            assert(cost == word_cost(va[i - 1], vb[j - 1]));
            if d[i][j] == d[i - 1][j - 1] + cost {
                let op = if cost == 0 { Op::Equal(i - 1, j - 1) } else { Op::Substitution(i - 1, j - 1) };
                rev.push(op);
                assert(rev@ + trace_back(va, vb, (i - 1) as nat, (j - 1) as nat) =~= before + trace_back(va, vb, i as nat, j as nat));
                i -= 1;
                j -= 1;
                continue;
            }
        }
        if i > 0 && d[i][j] == d[i - 1][j] + 1 {
            rev.push(Op::Deletion(i - 1));
            assert(rev@ + trace_back(va, vb, (i - 1) as nat, j as nat) =~= before + trace_back(va, vb, i as nat, j as nat));
            i -= 1;
        } else {
            rev.push(Op::Insertion(j - 1));
            assert(rev@ + trace_back(va, vb, i as nat, (j - 1) as nat) =~= before + trace_back(va, vb, i as nat, j as nat));
            j -= 1;
        }
    }
    assert(rev@ =~= full);
    let mut ops: Vec<Op> = Vec::new();
    let mut k: usize = rev.len();
    while k > 0
        invariant
            k <= rev.len(),
            ops@ == rev@.reverse().take((rev.len() - k) as int),
        decreases k,
    {
        k -= 1;
        ops.push(rev[k]);
        assert(ops@ =~= rev@.reverse().take((rev.len() - k) as int));
    }
    assert(ops@ =~= rev@.reverse());
    (d[n][m], ops)
}


proof fn lemma_dist_ge_diff(a: Seq<Seq<char>>, b: Seq<Seq<char>>, i: nat, j: nat)
    ensures
        dist(a, b, i, j) >= if i >= j { i - j } else { j - i },
    decreases i + j,
{
    if i > 0 && j > 0 {
        lemma_dist_ge_diff(a, b, (i - 1) as nat, (j - 1) as nat);
        lemma_dist_ge_diff(a, b, (i - 1) as nat, j);
        lemma_dist_ge_diff(a, b, i, (j - 1) as nat);
    }
}

/// The distance is at least the difference of the lengths and at most the
/// larger length.
pub proof fn lemma_edit_distance_bounds(a: Seq<Seq<char>>, b: Seq<Seq<char>>)
    ensures
        edit_distance(a, b) <= if a.len() >= b.len() { a.len() } else { b.len() },
        edit_distance(a, b) >= if a.len() >= b.len() { a.len() - b.len() } else { b.len() - a.len() },
{
    lemma_dist_le_max(a, b, a.len(), b.len());
    lemma_dist_ge_diff(a, b, a.len(), b.len());
}

proof fn lemma_dist_symmetric(a: Seq<Seq<char>>, b: Seq<Seq<char>>, i: nat, j: nat)
    ensures
        dist(a, b, i, j) == dist(b, a, j, i),
    decreases i + j,
{
    if i > 0 && j > 0 {
        lemma_dist_symmetric(a, b, (i - 1) as nat, (j - 1) as nat);
        lemma_dist_symmetric(a, b, (i - 1) as nat, j);
        lemma_dist_symmetric(a, b, i, (j - 1) as nat);
        assert(word_cost(a[i - 1], b[j - 1]) == word_cost(b[j - 1], a[i - 1]));
    }
}

/// The distance does not depend on which text is the reference.
pub proof fn lemma_edit_distance_symmetric(a: Seq<Seq<char>>, b: Seq<Seq<char>>)
    ensures
        edit_distance(a, b) == edit_distance(b, a),
{
    lemma_dist_symmetric(a, b, a.len(), b.len());
}

proof fn lemma_dist_zero(a: Seq<Seq<char>>, b: Seq<Seq<char>>, i: nat, j: nat)
    requires
        i <= a.len(),
        j <= b.len(),
    ensures
        dist(a, b, i, j) == 0 <==> (i == j && a.take(i as int) == b.take(j as int)),
    decreases i + j,
{
    lemma_dist_ge_diff(a, b, i, j);
    if i > 0 && j > 0 {
        lemma_dist_zero(a, b, (i - 1) as nat, (j - 1) as nat);
        lemma_dist_ge_diff(a, b, (i - 1) as nat, j);
        lemma_dist_ge_diff(a, b, i, (j - 1) as nat);
        if i == j && a.take(i as int) == b.take(j as int) {
            assert(a.take(i - 1) =~= a.take(i as int).take(i - 1));
            assert(b.take(j - 1) =~= b.take(j as int).take(j - 1));
            assert(a[i - 1] == a.take(i as int)[i - 1]);
            assert(b[j - 1] == b.take(j as int)[j - 1]);
        }
        if dist(a, b, i, j) == 0 {
            assert(a.take(i as int) =~= a.take(i - 1).push(a[i - 1]));
            assert(b.take(j as int) =~= b.take(j - 1).push(b[j - 1]));
        }
    } else {
        assert(a.take(0) =~= b.take(0));
    }
}

/// Two word lists are at distance zero exactly when they are equal; a text
/// compared with itself has no word error.
pub proof fn lemma_edit_distance_zero_iff_equal(a: Seq<Seq<char>>, b: Seq<Seq<char>>)
    ensures
        edit_distance(a, b) == 0 <==> a == b,
{
    lemma_dist_zero(a, b, a.len(), b.len());
    assert(a.take(a.len() as int) =~= a);
    assert(b.take(b.len() as int) =~= b);
}

} // verus!
