//! The match finder of the compressor: for a position in a buffer, the
//! earlier distance at which the longest repetition starts.
//!
//! A repetition at distance `d` compares the bytes from the position on with
//! the `d` bytes before it, taken cyclically, so that a run longer than its
//! distance is found as well.

use crate::encoder::PngEncoder;
use vstd::prelude::*;

verus! {

/// How far back a match may start.
pub const WINDOW_SIZE: usize = 32768;

/// The longest repetition that is looked for.
pub const MAX_MATCH_LENGTH: usize = 258;

/// The largest distance tried at `pos`: the position itself, at most the window.
pub open spec fn max_distance_at(pos: int) -> int {
    if pos < WINDOW_SIZE as int {
        pos
    } else {
        WINDOW_SIZE as int
    }
}

/// The largest length tried at `pos`: what is left of the buffer, at most 258.
pub open spec fn max_length_at(data: Seq<u8>, pos: int) -> int {
    if data.len() - pos < MAX_MATCH_LENGTH as int {
        data.len() - pos
    } else {
        MAX_MATCH_LENGTH as int
    }
}

/// Byte `k` after `pos` equals byte `k` of the cyclic repetition of the
/// `distance` bytes before `pos`.
pub open spec fn repeats_at(data: Seq<u8>, pos: int, distance: int, k: int) -> bool {
    data[pos + k] == data[pos - distance + k % distance]
}

/// The end of the run of repeating bytes that has reached `k`.
pub open spec fn match_run(data: Seq<u8>, pos: int, distance: int, k: int) -> int
    decreases max_length_at(data, pos) - k,
{
    if 0 <= k < max_length_at(data, pos) && repeats_at(data, pos, distance, k) {
        match_run(data, pos, distance, k + 1)
    } else {
        k
    }
}

/// The length of the match at `pos` with `distance`: the number of leading
/// bytes that repeat, up to the largest length tried.
pub open spec fn match_length(data: Seq<u8>, pos: int, distance: int) -> int {
    match_run(data, pos, distance, 0)
}

/// The best `(distance, length)` among the distances `1..=max_distance`: a
/// later distance replaces an earlier one only with a strictly longer match.
/// `(0, 0)` where no distance matches a single byte.
pub open spec fn best_match(data: Seq<u8>, pos: int, max_distance: int) -> (int, int)
    decreases max_distance,
{
    if max_distance <= 0 {
        (0, 0)
    } else {
        let earlier = best_match(data, pos, max_distance - 1);
        let length = match_length(data, pos, max_distance);
        if length > earlier.1 {
            (max_distance, length)
        } else {
            earlier
        }
    }
}

/// The match that the compressor considers at `pos`.
pub open spec fn longest_match(data: Seq<u8>, pos: int) -> (int, int) {
    best_match(data, pos, max_distance_at(pos))
}

/// A run that has reached `k` ends between `k` and the largest length; every
/// byte from `k` to its end repeats, and the byte at its end, if one is left
/// to try, does not.
pub proof fn lemma_match_run(data: Seq<u8>, pos: int, distance: int, k: int)
    requires
        0 <= k <= max_length_at(data, pos),
    ensures
        k <= match_run(data, pos, distance, k) <= max_length_at(data, pos),
        forall|j: int|
            k <= j < match_run(data, pos, distance, k) ==> repeats_at(data, pos, distance, j),
        match_run(data, pos, distance, k) < max_length_at(data, pos) ==> !repeats_at(
            data,
            pos,
            distance,
            match_run(data, pos, distance, k),
        ),
    decreases max_length_at(data, pos) - k,
{
    if k < max_length_at(data, pos) && repeats_at(data, pos, distance, k) {
        lemma_match_run(data, pos, distance, k + 1);
    }
}

/// The match length is the length of the longest repeating prefix that fits.
pub proof fn lemma_match_length(data: Seq<u8>, pos: int, distance: int)
    requires
        0 <= pos <= data.len(),
    ensures
        0 <= match_length(data, pos, distance) <= max_length_at(data, pos),
        forall|j: int|
            0 <= j < match_length(data, pos, distance) ==> repeats_at(data, pos, distance, j),
        match_length(data, pos, distance) < max_length_at(data, pos) ==> !repeats_at(
            data,
            pos,
            distance,
            match_length(data, pos, distance),
        ),
{
    lemma_match_run(data, pos, distance, 0);
}

/// The best match is the longest among the distances tried, and among the
/// longest the one with the smallest distance.
pub proof fn lemma_best_match(data: Seq<u8>, pos: int, max_distance: int)
    requires
        0 <= pos <= data.len(),
        0 <= max_distance,
    ensures
        ({
            let (distance, length) = best_match(data, pos, max_distance);
            &&& 0 <= distance <= max_distance
            &&& 0 <= length <= max_length_at(data, pos)
            &&& distance == 0 <==> length == 0
            &&& distance > 0 ==> length == match_length(data, pos, distance)
            &&& forall|d: int|
                1 <= d <= max_distance ==> #[trigger] match_length(data, pos, d) <= length
            &&& forall|d: int| 1 <= d < distance ==> #[trigger] match_length(data, pos, d) < length
        }),
    decreases max_distance,
{
    if max_distance > 0 {
        lemma_best_match(data, pos, max_distance - 1);
        lemma_match_length(data, pos, max_distance);
    }
}

impl PngEncoder {
    /// The distance and length of the longest match at `pos`, `(0, 0)` where
    /// there is none.
    pub fn find_longest_match(&self, data: &[u8], pos: usize) -> (found: (usize, usize))
        requires
            pos <= data.len(),
        ensures
            (found.0 as int, found.1 as int) == longest_match(data@, pos as int),
            found.0 <= max_distance_at(pos as int),
            found.1 <= max_length_at(data@, pos as int),
            found.0 == 0 <==> found.1 == 0,
            found.0 > 0 ==> found.1 == match_length(data@, pos as int, found.0 as int),
            forall|d: int|
                1 <= d <= max_distance_at(pos as int) ==> #[trigger] match_length(
                    data@,
                    pos as int,
                    d,
                ) <= found.1,
            forall|d: int|
                1 <= d < found.0 ==> #[trigger] match_length(data@, pos as int, d) < found.1,
    {
        let mut best_distance: usize = 0;
        let mut best_length: usize = 0;
        let max_distance: usize = if pos < WINDOW_SIZE {
            pos
        } else {
            WINDOW_SIZE
        };
        let remaining: usize = data.len() - pos;
        let max_length: usize = if remaining < MAX_MATCH_LENGTH {
            remaining
        } else {
            MAX_MATCH_LENGTH
        };

        let mut distance: usize = 1;
        while distance <= max_distance
            invariant
                pos <= data.len(),
                max_distance == max_distance_at(pos as int),
                max_length == max_length_at(data@, pos as int),
                1 <= distance <= max_distance + 1,
                (best_distance as int, best_length as int) == best_match(
                    data@,
                    pos as int,
                    distance - 1,
                ),
            decreases max_distance + 1 - distance,
        {
            let start: usize = pos - distance;
            let mut length: usize = 0;
            while length < max_length && data[start + length % distance] == data[pos + length]
                invariant
                    pos <= data.len(),
                    max_length == max_length_at(data@, pos as int),
                    1 <= distance <= pos,
                    start == pos - distance,
                    length <= max_length,
                    match_run(data@, pos as int, distance as int, length as int) == match_length(
                        data@,
                        pos as int,
                        distance as int,
                    ),
                decreases max_length - length,
            {
                length += 1;
            }

            if length > best_length {
                best_length = length;
                best_distance = distance;
            }
            distance += 1;
        }

        proof {
            lemma_best_match(data@, pos as int, max_distance_at(pos as int));
        }
        (best_distance, best_length)
    }
}

} // verus!
