//! The rows that a benchmark run writes: an integer identifier and a payload
//! of repeated `x` characters.

use vstd::prelude::*;
use vstd::string::*;

verus! {

/// A row of the table: its integer identifier, and its payload.
pub type Row = (int, Seq<char>);

/// The payload of every row: `size` times the character `x`.
pub open spec fn payload_of(size: nat) -> Seq<char> {
    Seq::new(size, |_i: int| 'x')
}

/// The `count` rows with identifiers `start`, `start + 1`, ..., each with
/// payload `name`.
pub open spec fn rows_from(start: nat, count: nat, name: Seq<char>) -> Seq<Row> {
    Seq::new(count, |i: int| (start + i, name))
}

/// The rows of `count` batches of `size` rows each, numbered on from `start`.
pub open spec fn batches(start: nat, size: nat, count: nat, name: Seq<char>) -> Seq<Row>
    decreases count,
{
    if count == 0 {
        Seq::empty()
    } else {
        rows_from(start, size, name) + batches(start + size, size, (count - 1) as nat, name)
    }
}

/// The payload of every row: `row_size` times the character `x`.
pub fn payload(row_size: usize) -> (r: String)
    ensures
        r@ == payload_of(row_size as nat),
{
    let mut s = String::new();
    let mut i: usize = 0;
    while i < row_size
        invariant
            i <= row_size,
            s@ == payload_of(i as nat),
        decreases row_size - i,
    {
        proof {
            reveal_strlit("x");
        }
        s.append("x");
        i = i + 1;
        assert(s@ =~= payload_of(i as nat));
    }
    s
}

proof fn lemma_rows_from_split(start: nat, a: nat, b: nat, name: Seq<char>)
    ensures
        rows_from(start, a, name) + rows_from(start + a, b, name) == rows_from(start, a + b, name),
{
    assert(rows_from(start, a, name) + rows_from(start + a, b, name) =~= rows_from(start, a + b, name));
}

proof fn lemma_batches_from(start: nat, size: nat, count: nat, name: Seq<char>)
    ensures
        batches(start, size, count, name) == rows_from(start, size * count, name),
    decreases count,
{
    if count == 0 {
        assert(rows_from(start, 0, name) =~= Seq::empty());
    } else {
        let rest = (count - 1) as nat;
        lemma_batches_from(start + size, size, rest, name);
        lemma_rows_from_split(start, size, size * rest, name);
        assert(size + size * rest == size * count) by (nonlinear_arith)
            requires
                rest == count - 1,
        ;
    }
}

/// However a run is cut into batches, the rows it writes are the rows
/// numbered `0` to `size * count - 1`, in order, each with payload `name`.
pub proof fn law_batches_contiguous(size: nat, count: nat, name: Seq<char>)
    ensures
        batches(0, size, count, name) == rows_from(0, size * count, name),
{
    lemma_batches_from(0, size, count, name);
}

/// A run of `count` batches of `size` rows writes exactly `size * count`
/// rows; the row at position `i` has identifier `i`, and every payload is
/// `row_size` times the character `x`.
pub proof fn law_run_rows(size: nat, count: nat, row_size: nat)
    ensures
        batches(0, size, count, payload_of(row_size)).len() == size * count,
        forall|i: int|
            0 <= i < size * count ==> #[trigger] batches(0, size, count, payload_of(row_size))[i].0
                == i,
        forall|i: int|
            0 <= i < size * count ==> #[trigger] batches(0, size, count, payload_of(row_size))[i].1.len()
                == row_size,
        forall|i: int, j: int|
            0 <= i < size * count && 0 <= j < row_size ==> #[trigger] batches(
                0,
                size,
                count,
                payload_of(row_size),
            )[i].1[j] == 'x',
{
    law_batches_contiguous(size, count, payload_of(row_size));
}

} // verus!
