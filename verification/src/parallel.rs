use vstd::prelude::*;

use crate::error::EngineError;
use vstd::seq_lib::lemma_flatten_concat;

verus! {

/// Number of ranges that `len` items are split into for `partitions` workers.
pub open spec fn partition_count(len: nat, partitions: nat) -> nat {
    if partitions < len { partitions } else { len }
}

/// Where range `i` starts when `len` items are split into `count` ranges:
/// the first `len % count` ranges hold one item more than the others.
pub open spec fn range_start(len: nat, count: nat, i: nat) -> nat {
    let base = len / count;
    let rem = len % count;
    i * base + if i < rem { i } else { rem }
}

/// The ranges that `partition_ranges` returns for valid arguments.
pub open spec fn spec_partition_ranges(len: nat, partitions: nat) -> Seq<(usize, usize)> {
    let count = partition_count(len, partitions);
    Seq::new(count, |i: int| (range_start(len, count, i as nat) as usize, range_start(len, count, (i + 1) as nat) as usize))
}

proof fn lemma_range_start_bounds(len: nat, count: nat, i: nat)
    requires
        0 < count <= len,
        i < count,
    ensures
        range_start(len, count, i) < range_start(len, count, i + 1) <= len,
        range_start(len, count, i + 1) == range_start(len, count, i) + len / count + if i < len % count { 1int } else { 0 },
        range_start(len, count, count) == len,
        range_start(len, count, 0) == 0,
{
    let base = len / count;
    let rem = len % count;
    vstd::arithmetic::div_mod::lemma_fundamental_div_mod(len as int, count as int);
    assert(base >= 1) by {
        vstd::arithmetic::div_mod::lemma_div_is_ordered(count as int, len as int, count as int);
        vstd::arithmetic::div_mod::lemma_div_by_self(count as int);
    }
    assert((i + 1) * base == i * base + base) by (nonlinear_arith);
    assert((i + 1) * base <= count * base) by (nonlinear_arith)
        requires i + 1 <= count, base >= 0;
    assert(count * base == base * count) by (nonlinear_arith);
}

/// Splits `0..len` into at most `partitions` contiguous ranges whose widths
/// differ by at most one, the wider ones first.
pub fn partition_ranges(len: usize, partitions: usize) -> (r: Result<Vec<(usize, usize)>, EngineError>)
    ensures
        len == 0 ==> r == Err::<Vec<(usize, usize)>, EngineError>(EngineError::EmptyInput { context: "parallel input" }),
        len != 0 && partitions == 0 ==> r == Err::<Vec<(usize, usize)>, EngineError>(
            EngineError::InvalidConfig { context: "parallel workers must be greater than zero" },
        ),
        len != 0 && partitions != 0 ==> (r matches Ok(ranges) && ranges@ == spec_partition_ranges(len as nat, partitions as nat)),
{
    if len == 0 {
        return Err(EngineError::EmptyInput { context: "parallel input" });
    }
    if partitions == 0 {
        return Err(EngineError::InvalidConfig { context: "parallel workers must be greater than zero" });
    }
    let actual = if partitions < len { partitions } else { len };
    let base = len / actual;
    let remainder = len % actual;
    let mut start: usize = 0;
    let mut ranges: Vec<(usize, usize)> = Vec::with_capacity(actual);
    let ghost spec = spec_partition_ranges(len as nat, partitions as nat);
    proof {
        lemma_range_start_bounds(len as nat, actual as nat, 0);
    }
    for index in 0..actual
        invariant
            actual == partition_count(len as nat, partitions as nat),
            0 < actual <= len,
            base == len / actual,
            remainder == len % actual,
            spec == spec_partition_ranges(len as nat, partitions as nat),
            start == range_start(len as nat, actual as nat, index as nat),
            ranges@ == spec.subrange(0, index as int),
    {
        proof {
            lemma_range_start_bounds(len as nat, actual as nat, index as nat);
        }
        let width: usize = if index < remainder { base + 1 } else { base };
        let end = start + width;
        ranges.push((start, end));
        proof {
            assert(ranges@ =~= spec.subrange(0, index + 1));
        }
        start = end;
    }
    proof {
        assert(ranges@ =~= spec);
    }
    Ok(ranges)
}

/// The ranges of `partition_ranges` cover `0..len` in order, without gap or
/// overlap: the first starts at 0, each ends where the next starts, the last
/// ends at `len`, none is empty, and widths differ by at most one.
pub proof fn partition_ranges_cover_input(len: nat, partitions: nat)
    requires
        len > 0,
        partitions > 0,
        len <= usize::MAX,
    ensures
        ({
            let ranges = spec_partition_ranges(len, partitions);
            &&& ranges.len() == if partitions < len { partitions } else { len }
            &&& ranges[0].0 == 0
            &&& ranges[ranges.len() - 1].1 == len
            &&& forall|i: int| 0 <= i < ranges.len() ==> #[trigger] ranges[i].0 < ranges[i].1
            &&& forall|i: int| 0 <= i < ranges.len() - 1 ==> #[trigger] ranges[i].1 == ranges[i + 1].0
            &&& forall|i: int, j: int| 0 <= i < ranges.len() && 0 <= j < ranges.len() ==>
                (ranges[i].1 - ranges[i].0) - (ranges[j].1 - ranges[j].0) <= 1
        }),
{
    let count = partition_count(len, partitions);
    let ranges = spec_partition_ranges(len, partitions);
    lemma_range_start_bounds(len, count, 0);
    lemma_range_start_bounds(len, count, (count - 1) as nat);
    assert forall|i: int| 0 <= i < ranges.len() implies #[trigger] ranges[i].0 < ranges[i].1 by {
        lemma_range_start_bounds(len, count, i as nat);
    }
    assert forall|i: int| 0 <= i < ranges.len() - 1 implies #[trigger] ranges[i].1 == ranges[i + 1].0 by {
        lemma_range_start_bounds(len, count, i as nat);
        lemma_range_start_bounds(len, count, (i + 1) as nat);
    }
    assert forall|i: int, j: int| 0 <= i < ranges.len() && 0 <= j < ranges.len() implies
        (ranges[i].1 - ranges[i].0) - (ranges[j].1 - ranges[j].0) <= 1 by {
        lemma_range_start_bounds(len, count, i as nat);
        lemma_range_start_bounds(len, count, j as nat);
    }
}

/// `items` cut along `ranges`, one piece per range.
pub open spec fn cut<T>(items: Seq<T>, ranges: Seq<(usize, usize)>) -> Seq<Seq<T>> {
    Seq::new(ranges.len(), |i: int| items.subrange(ranges[i].0 as int, ranges[i].1 as int))
}

proof fn lemma_rejoin_prefix<T>(items: Seq<T>, count: nat, k: nat)
    requires
        0 < count <= items.len(),
        k <= count,
    ensures
        Seq::new(k, |i: int| items.subrange(
            range_start(items.len(), count, i as nat) as int,
            range_start(items.len(), count, (i + 1) as nat) as int,
        )).flatten() == items.subrange(0, range_start(items.len(), count, k) as int),
    decreases k,
{
    let len = items.len();
    let f = |i: int| items.subrange(range_start(len, count, i as nat) as int, range_start(len, count, (i + 1) as nat) as int);
    lemma_range_start_bounds(len, count, 0);
    if k == 0 {
        assert(Seq::new(0, f) =~= Seq::<Seq<T>>::empty());
        assert(items.subrange(0, 0) =~= Seq::<T>::empty());
    } else {
        let j = (k - 1) as nat;
        lemma_rejoin_prefix(items, count, j);
        lemma_range_start_bounds(len, count, j);
        assert(Seq::new(k, f) =~= Seq::new(j, f).push(f(j as int)));
        Seq::new(j, f).lemma_flatten_push(f(j as int));
        assert(items.subrange(0, range_start(len, count, j) as int) + f(j as int) =~= items.subrange(
            0,
            range_start(len, count, k) as int,
        ));
    }
}

/// The pieces that `partition_ranges` cuts a sequence into, joined in order,
/// give the sequence back: work spread over the ranges covers every item
/// once, in the order of the sequence.
pub proof fn partition_pieces_rejoin<T>(items: Seq<T>, partitions: nat)
    requires
        items.len() > 0,
        partitions > 0,
        items.len() <= usize::MAX,
    ensures
        cut(items, spec_partition_ranges(items.len(), partitions)).flatten() == items,
{
    let len = items.len();
    let count = partition_count(len, partitions);
    let ranges = spec_partition_ranges(len, partitions);
    let f = |i: int| items.subrange(range_start(len, count, i as nat) as int, range_start(len, count, (i + 1) as nat) as int);
    assert forall|i: int| 0 <= i < count implies #[trigger] cut(items, ranges)[i] == f(i) by {
        lemma_range_start_bounds(len, count, i as nat);
    }
    assert(cut(items, ranges) =~= Seq::new(count, f));
    lemma_rejoin_prefix(items, count, count);
    lemma_range_start_bounds(len, count, 0);
    assert(items.subrange(0, len as int) =~= items);
}

/// Running the pieces of a grid on separate workers and collecting their
/// outcomes in range order gives what collecting all outcomes in order gives:
/// the same values in the same order, or the same first error.
pub proof fn parallel_collect_matches_sequential<T>(outcomes: Seq<Result<T, EngineError>>, partitions: nat)
    requires
        outcomes.len() > 0,
        partitions > 0,
        outcomes.len() <= usize::MAX,
    ensures
        collect_outcomes(cut(outcomes, spec_partition_ranges(outcomes.len(), partitions)).flatten())
            == collect_outcomes(outcomes),
{
    partition_pieces_rejoin(outcomes, partitions);
}

/// What collecting `outcomes` into a `Result` gives, as `Iterator::collect`
/// does: the first error in order, or else every value.
pub open spec fn collect_outcomes<T>(outcomes: Seq<Result<T, EngineError>>) -> Result<Seq<T>, EngineError>
    decreases outcomes.len(),
{
    if outcomes.len() == 0 {
        Ok(Seq::empty())
    } else {
        match collect_outcomes(outcomes.drop_last()) {
            Err(e) => Err(e),
            Ok(values) => match outcomes.last() {
                Ok(v) => Ok(values.push(v)),
                Err(e) => Err(e),
            },
        }
    }
}

pub open spec fn pieces_view<T>(pieces: Seq<Vec<Result<T, EngineError>>>) -> Seq<Seq<Result<T, EngineError>>> {
    pieces.map_values(|p: Vec<Result<T, EngineError>>| p@)
}

proof fn lemma_collect_stops<T>(prefix: Seq<Result<T, EngineError>>, whole: Seq<Result<T, EngineError>>)
    requires
        prefix.len() <= whole.len(),
        whole.take(prefix.len() as int) == prefix,
        collect_outcomes(prefix) is Err,
    ensures
        collect_outcomes(whole) == collect_outcomes(prefix),
    decreases whole.len(),
{
    if whole.len() > prefix.len() {
        assert(whole.drop_last().take(prefix.len() as int) =~= prefix);
        lemma_collect_stops(prefix, whole.drop_last());
    } else {
        assert(whole =~= prefix);
    }
}

/// Joins the outcomes of the pieces of a run in order and collects them:
/// the first error in that order, or every value in that order.
pub fn collect_pieces<T>(pieces: Vec<Vec<Result<T, EngineError>>>) -> (r: Result<Vec<T>, EngineError>)
    ensures
        match collect_outcomes(pieces_view(pieces@).flatten()) {
            Ok(values) => r is Ok && r->Ok_0@ == values,
            Err(e) => r == Err::<Vec<T>, EngineError>(e),
        },
{
    let ghost all = pieces_view(pieces@);
    let ghost joined = all.flatten();
    let mut values: Vec<T> = Vec::new();
    let mut remaining = pieces;
    let ghost mut done: Seq<Seq<Result<T, EngineError>>> = Seq::empty();
    // Pieces are taken from the back and put back in order.
    let mut reversed: Vec<Vec<Result<T, EngineError>>> = Vec::new();
    while remaining.len() > 0
        invariant
            all == pieces_view(remaining@) + pieces_view(reversed@).reverse(),
        decreases remaining.len(),
    {
        let p = remaining.pop().unwrap();
        proof {
            assert(pieces_view(reversed@.push(p)).reverse() =~= seq![p@] + pieces_view(reversed@).reverse());
        }
        reversed.push(p);
        proof {
            assert(all =~= pieces_view(remaining@) + pieces_view(reversed@).reverse());
        }
    }
    assert(pieces_view(remaining@) =~= Seq::<Seq<Result<T, EngineError>>>::empty());
    assert(all =~= pieces_view(reversed@).reverse());
    while reversed.len() > 0
        invariant
            all == pieces_view(pieces@),
            joined == all.flatten(),
            all == done + pieces_view(reversed@).reverse(),
            collect_outcomes(done.flatten()) == Ok::<Seq<T>, EngineError>(values@),
        decreases reversed.len(),
    {
        let mut piece = reversed.pop().unwrap();
        proof {
            assert(pieces_view(reversed@.push(piece)).reverse() =~= seq![piece@] + pieces_view(reversed@).reverse());
        }
        let ghost piece_view = piece@;
        let ghost rest = pieces_view(reversed@).reverse();
        assert(all =~= done + seq![piece_view] + rest);
        let mut inner: Vec<Result<T, EngineError>> = Vec::new();
        while piece.len() > 0
            invariant
                piece_view == piece@ + inner@.reverse(),
            decreases piece.len(),
        {
            let o = piece.pop().unwrap();
            proof {
                assert(inner@.push(o).reverse() =~= seq![o] + inner@.reverse());
            }
            inner.push(o);
            proof {
                assert(piece_view =~= piece@ + inner@.reverse());
            }
        }
        assert(piece_view =~= inner@.reverse());
        let ghost mut taken: Seq<Result<T, EngineError>> = Seq::empty();
        while inner.len() > 0
            invariant
                piece_view == taken + inner@.reverse(),
                collect_outcomes(done.flatten() + taken) == Ok::<Seq<T>, EngineError>(values@),
                all == pieces_view(pieces@),
                joined == all.flatten(),
                all == done + seq![piece_view] + rest,
            decreases inner.len(),
        {
            let o = inner.pop().unwrap();
            proof {
                assert(inner@.push(o).reverse() =~= seq![o] + inner@.reverse());
                assert((done.flatten() + taken.push(o)).drop_last() =~= done.flatten() + taken);
            }
            match o {
                Ok(v) => {
                    values.push(v);
                    proof {
                        taken = taken.push(o);
                    }
                },
                Err(e) => {
                    proof {
                        let pre = done.flatten() + taken.push(o);
                        assert(collect_outcomes(pre) == Err::<Seq<T>, EngineError>(e));
                        lemma_flatten_concat(done, seq![piece_view] + rest);
                        assert(done + (seq![piece_view] + rest) =~= all);
                        lemma_flatten_concat(seq![piece_view], rest);
                        seq![piece_view].lemma_flatten_one_element();
                        assert(joined =~= done.flatten() + (taken.push(o) + inner@.reverse() + rest.flatten()));
                        assert(joined.take(pre.len() as int) =~= pre);
                        lemma_collect_stops(pre, joined);
                    }
                    return Err(e);
                },
            }
        }
        proof {
            assert(taken =~= piece_view);
            done.lemma_flatten_push(piece_view);
            done = done.push(piece_view);
            assert(all =~= done + pieces_view(reversed@).reverse());
        }
    }
    proof {
        assert(done =~= all);
    }
    Ok(values)
}

} // verus!
