//! How many display units are shown together in smart mode.

use vstd::prelude::*;

verus! {

/// The character count of each unit of a sequence of strings.
pub open spec fn units_view(words: Seq<String>) -> Seq<Seq<char>> {
    words.map_values(|w: String| w@)
}

/// Total characters of the `k` units that begin at `start`.
pub open spec fn span_chars(units: Seq<Seq<char>>, start: int, k: int) -> int
    decreases k,
{
    if k <= 0 {
        0
    } else {
        span_chars(units, start, k - 1) + units[start + k - 1].len()
    }
}

/// The number of units the scan may look at: twice the base, or what is left.
pub open spec fn scan_limit(units: Seq<Seq<char>>, start: int, base: int) -> int {
    if 2 * base <= units.len() - start {
        2 * base
    } else {
        units.len() - start
    }
}

/// From `k` units already taken, the count at which the scan stops: the first
/// count whose characters exceed `target`, or `limit` when none does.
pub open spec fn stop_count(units: Seq<Seq<char>>, start: int, target: int, k: int, limit: int) -> int
    decreases limit - k,
{
    if k >= limit {
        limit
    } else if span_chars(units, start, k + 1) > target {
        k + 1
    } else {
        stop_count(units, start, target, k + 1, limit)
    }
}

/// The adaptive chunk size: the scan's count, with a budget of five
/// characters per unit of the base, floored at one. Past the end of the
/// units nothing is scanned, so the size is one.
pub open spec fn adaptive_chunk_size(units: Seq<Seq<char>>, start: int, base: int) -> int {
    if start >= units.len() {
        1
    } else {
        let n = stop_count(units, start, 5 * base, 0, scan_limit(units, start, base));
        if n < 1 {
            1
        } else {
            n
        }
    }
}

/// Number of units to show (and to advance by) from `current_index` in smart
/// mode, for a nominal chunk of `base_chunk_size` units.
pub fn get_adaptive_chunk_size(words: &[String], current_index: usize, base_chunk_size: usize) -> (r: usize)
    ensures
        r as int == adaptive_chunk_size(units_view(words@), current_index as int, base_chunk_size as int),
{
    let ghost units = units_view(words@);
    if current_index >= words.len() {
        return 1;
    }
    let n: usize = words.len();
    let remaining: usize = n - current_index;
    let limit: usize = if base_chunk_size <= remaining / 2 {
        2 * base_chunk_size
    } else {
        remaining
    };
    assert(limit as int == scan_limit(units, current_index as int, base_chunk_size as int));
    let target: u128 = base_chunk_size as u128 * 5;
    let mut total: u128 = 0;
    let mut count: usize = 0;
    while count < limit
        invariant
            units == units_view(words@),
            n == words@.len(),
            current_index < n,
            limit <= n - current_index,
            limit as int == scan_limit(units, current_index as int, base_chunk_size as int),
            target as int == 5 * base_chunk_size,
            count <= limit,
            total as int == span_chars(units, current_index as int, count as int),
            total <= target,
            stop_count(units, current_index as int, target as int, 0, limit as int) == stop_count(
                units,
                current_index as int,
                target as int,
                count as int,
                limit as int,
            ),
        decreases limit - count,
    {
        let len: usize = words[current_index + count].as_str().unicode_len();
        assert(len as int == units[current_index + count].len());
        count = count + 1;
        if len as u128 > target - total {
            return count;
        }
        total = total + len as u128;
    }
    if count < 1 {
        1
    } else {
        count
    }
}

/// The adaptive size is at least one, whatever the base and the start.
pub proof fn lemma_adaptive_size_positive(units: Seq<Seq<char>>, start: int, base: int)
    ensures
        adaptive_chunk_size(units, start, base) >= 1,
{
}

proof fn lemma_span_of_short_units(units: Seq<Seq<char>>, start: int, k: int)
    requires
        0 <= start,
        0 <= k,
        start + k <= units.len(),
        forall|i: int| 0 <= i < units.len() ==> #[trigger] units[i].len() <= 1,
    ensures
        span_chars(units, start, k) <= k,
    decreases k,
{
    if k > 0 {
        lemma_span_of_short_units(units, start, k - 1);
    }
}

proof fn lemma_short_units_reach_limit(units: Seq<Seq<char>>, start: int, target: int, k: int, limit: int)
    requires
        0 <= start,
        0 <= k <= limit,
        start + limit <= units.len(),
        limit <= target,
        forall|i: int| 0 <= i < units.len() ==> #[trigger] units[i].len() <= 1,
    ensures
        stop_count(units, start, target, k, limit) == limit,
    decreases limit - k,
{
    if k < limit {
        lemma_span_of_short_units(units, start, k + 1);
        lemma_short_units_reach_limit(units, start, target, k + 1, limit);
    }
}

/// When no unit is longer than one character, the scan never stops early: the
/// size is twice the base or the number of units left, whichever is smaller.
pub proof fn lemma_short_units_fill_scan(units: Seq<Seq<char>>, start: int, base: int)
    requires
        base >= 1,
        0 <= start < units.len(),
        forall|i: int| 0 <= i < units.len() ==> #[trigger] units[i].len() <= 1,
    ensures
        adaptive_chunk_size(units, start, base) == if 2 * base <= units.len() - start {
            2 * base
        } else {
            units.len() - start
        },
{
    lemma_short_units_reach_limit(units, start, 5 * base, 0, scan_limit(units, start, base));
}

/// A first unit longer than the whole character budget is shown alone.
pub proof fn lemma_long_unit_alone(units: Seq<Seq<char>>, start: int, base: int)
    requires
        0 <= start < units.len(),
        units[start].len() > 5 * base,
    ensures
        adaptive_chunk_size(units, start, base) == 1,
{
    assert(span_chars(units, start, 0) == 0);
    assert(span_chars(units, start, 1) == units[start].len());
}

} // verus!
