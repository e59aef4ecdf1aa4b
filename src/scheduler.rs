use vstd::prelude::*;

use crate::types::Height;

verus! {

/// The height bisection picks between the trusted height and the height that
/// could not be reached in one hop.
pub open spec fn bisect(trusted_height: Height, next_height: Height) -> Height {
    if next_height == trusted_height + 1 {
        next_height
    } else {
        (trusted_height + (next_height - trusted_height) / 2) as Height
    }
}

/// Each step of repeated bisection after a hop that could not be trusted
/// (which is never an adjacent one) yields a height strictly lower than the
/// one before and still above `trusted_height`.
pub proof fn lemma_bisection_progress(trusted_height: Height, heights: Seq<Height>)
    requires
        heights.len() > 0,
        trusted_height < heights[0],
        forall|i: int| 0 <= i < heights.len() - 1 ==> #[trigger] heights[i] > trusted_height + 1,
        forall|i: int|
            1 <= i < heights.len() ==> #[trigger] heights[i] == bisect(trusted_height, heights[i - 1]),
    ensures
        forall|i: int| 0 <= i < heights.len() ==> #[trigger] heights[i] > trusted_height,
        forall|i: int, j: int| 0 <= i < j < heights.len() ==> #[trigger] heights[j] < #[trigger] heights[i],
    decreases heights.len(),
{
    if heights.len() > 1 {
        let prefix = heights.drop_last();
        assert forall|i: int| 1 <= i < prefix.len() implies #[trigger] prefix[i] == bisect(
            trusted_height,
            prefix[i - 1],
        ) by {
            assert(heights[i] == bisect(trusted_height, heights[i - 1]));
        }
        assert forall|i: int| 0 <= i < prefix.len() - 1 implies #[trigger] prefix[i]
            > trusted_height + 1 by {
            assert(heights[i] > trusted_height + 1);
        }
        assert(prefix[0] == heights[0]);
        lemma_bisection_progress(trusted_height, prefix);
        let n = heights.len() - 1;
        assert(heights[n] == bisect(trusted_height, heights[n - 1]));
        assert(prefix[n - 1] > trusted_height);
        assert forall|i: int, j: int| 0 <= i < j < heights.len() implies #[trigger] heights[j]
            < #[trigger] heights[i] by {
            if j < n {
                assert(prefix[j] < prefix[i]);
            } else if i < n - 1 {
                assert(prefix[n - 1] < prefix[i]);
            }
        }
        assert forall|i: int| 0 <= i < heights.len() implies #[trigger] heights[i] > trusted_height by {
            if i < n {
                assert(prefix[i] > trusted_height);
            }
        }
    }
}

/// Chooses the next height to try after `next_height` could not be trusted in
/// one hop from the block at `trusted_height`: the midpoint, or `next_height`
/// itself when it is adjacent.
pub fn schedule(trusted_height: Height, next_height: Height) -> (r: Height)
    requires
        trusted_height < next_height,
    ensures
        r == bisect(trusted_height, next_height),
        next_height == trusted_height + 1 ==> r == next_height,
        next_height > trusted_height + 1 ==> trusted_height < r < next_height,
{
    if next_height == trusted_height + 1 {
        next_height
    } else {
        trusted_height + (next_height - trusted_height) / 2
    }
}

} // verus!
