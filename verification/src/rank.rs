//! Rank statistics of a field: how many values lie at or below a threshold,
//! and which value stands at a given rank.

use vstd::prelude::*;

verus! {

/// How many values of `field` are at most `threshold`.
pub open spec fn count_upto(field: Seq<int>, threshold: int) -> int
    decreases field.len(),
{
    if field.len() == 0 {
        0
    } else {
        count_upto(field.drop_last(), threshold) + if field.last() <= threshold {
            1int
        } else {
            0int
        }
    }
}

/// Whether `value` stands at rank `rank` of `field`, counting from zero in
/// ascending order: at most `rank` values are smaller, and more than `rank`
/// are no larger.
pub open spec fn is_ranked(field: Seq<int>, rank: int, value: int) -> bool {
    count_upto(field, value - 1) <= rank < count_upto(field, value)
}

/// The value that stands at rank `rank` of `field`, where there is one.
pub open spec fn ranked_value(field: Seq<int>, rank: int) -> int {
    choose|value: int| is_ranked(field, rank, value)
}

/// Whether `value` occurs in `field` and no value of `field` is smaller.
pub open spec fn is_minimum(field: Seq<int>, value: int) -> bool {
    &&& exists|c: int| 0 <= c < field.len() && #[trigger] field[c] == value
    &&& forall|c: int| 0 <= c < field.len() ==> value <= #[trigger] field[c]
}

/// Whether `value` occurs in `field` and no value of `field` is larger.
pub open spec fn is_maximum(field: Seq<int>, value: int) -> bool {
    &&& exists|c: int| 0 <= c < field.len() && #[trigger] field[c] == value
    &&& forall|c: int| 0 <= c < field.len() ==> #[trigger] field[c] <= value
}

/// A count lies between zero and the number of values, and grows with the
/// threshold.
pub proof fn lemma_count_bounds(field: Seq<int>, low: int, high: int)
    requires
        low <= high,
    ensures
        0 <= count_upto(field, low) <= count_upto(field, high) <= field.len(),
    decreases field.len(),
{
    if field.len() > 0 {
        lemma_count_bounds(field.drop_last(), low, high);
    }
}

/// The count is zero exactly when every value exceeds the threshold.
pub proof fn lemma_count_none(field: Seq<int>, threshold: int)
    ensures
        count_upto(field, threshold) == 0 <==> forall|c: int|
            0 <= c < field.len() ==> threshold < #[trigger] field[c],
    decreases field.len(),
{
    if field.len() > 0 {
        let rest = field.drop_last();
        lemma_count_none(rest, threshold);
        lemma_count_bounds(rest, threshold, threshold);
        assert(forall|c: int| 0 <= c < rest.len() ==> rest[c] == field[c]);
        if count_upto(field, threshold) == 0 {
            assert forall|c: int| 0 <= c < field.len() implies threshold < #[trigger] field[c] by {
                if c < rest.len() {
                    assert(rest[c] == field[c]);
                }
            }
        } else if field.last() <= threshold {
            assert(!(threshold < field[field.len() - 1]));
        } else {
            let c = choose|c: int| 0 <= c < rest.len() && !(threshold < #[trigger] rest[c]);
            assert(!(threshold < field[c]));
        }
    }
}

/// The count is the number of values exactly when none exceeds the threshold.
pub proof fn lemma_count_all(field: Seq<int>, threshold: int)
    ensures
        count_upto(field, threshold) == field.len() <==> forall|c: int|
            0 <= c < field.len() ==> #[trigger] field[c] <= threshold,
    decreases field.len(),
{
    if field.len() > 0 {
        let rest = field.drop_last();
        lemma_count_all(rest, threshold);
        lemma_count_bounds(rest, threshold, threshold);
        assert(forall|c: int| 0 <= c < rest.len() ==> rest[c] == field[c]);
        if count_upto(field, threshold) == field.len() {
            assert forall|c: int| 0 <= c < field.len() implies #[trigger] field[c] <= threshold by {
                if c < rest.len() {
                    assert(rest[c] == field[c]);
                }
            }
        } else if field.last() <= threshold {
            let c = choose|c: int| 0 <= c < rest.len() && !(#[trigger] rest[c] <= threshold);
            assert(!(field[c] <= threshold));
        } else {
            assert(!(field[field.len() - 1] <= threshold));
        }
    }
}

/// Where the count rises from one threshold to the next, the field holds the
/// higher threshold.
pub proof fn lemma_count_step(field: Seq<int>, value: int)
    requires
        count_upto(field, value - 1) < count_upto(field, value),
    ensures
        exists|c: int| 0 <= c < field.len() && #[trigger] field[c] == value,
    decreases field.len(),
{
    if field.len() > 0 {
        let rest = field.drop_last();
        if field.last() == value {
            assert(field[field.len() - 1] == value);
        } else {
            lemma_count_step(rest, value);
            let c = choose|c: int| 0 <= c < rest.len() && #[trigger] rest[c] == value;
            assert(field[c] == value);
        }
    }
}

/// At most one value stands at a rank.
pub proof fn lemma_rank_unique(field: Seq<int>, rank: int, first: int, second: int)
    requires
        is_ranked(field, rank, first),
        is_ranked(field, rank, second),
    ensures
        first == second,
{
    if first < second {
        lemma_count_bounds(field, first, second - 1);
    } else if second < first {
        lemma_count_bounds(field, second, first - 1);
    }
}

/// A value that stands at a rank is the value at that rank.
pub proof fn lemma_ranked_value(field: Seq<int>, rank: int, value: int)
    requires
        is_ranked(field, rank, value),
    ensures
        ranked_value(field, rank) == value,
{
    lemma_rank_unique(field, rank, value, ranked_value(field, rank));
}

/// The value at a rank occurs in the field.
pub proof fn lemma_ranked_occurs(field: Seq<int>, rank: int, value: int)
    requires
        is_ranked(field, rank, value),
    ensures
        exists|c: int| 0 <= c < field.len() && #[trigger] field[c] == value,
{
    lemma_count_step(field, value);
}

/// The value at rank zero is the minimum of the field.
pub proof fn lemma_first_rank_is_minimum(field: Seq<int>, value: int)
    requires
        is_ranked(field, 0, value),
    ensures
        is_minimum(field, value),
{
    lemma_count_step(field, value);
    lemma_count_bounds(field, value - 1, value - 1);
    lemma_count_none(field, value - 1);
}

/// The value at the last rank is the maximum of the field.
pub proof fn lemma_last_rank_is_maximum(field: Seq<int>, value: int)
    requires
        is_ranked(field, field.len() - 1, value),
    ensures
        is_maximum(field, value),
{
    lemma_count_step(field, value);
    lemma_count_bounds(field, value, value);
    lemma_count_all(field, value);
}

} // verus!
