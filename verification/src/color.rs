//! Colours, and the way of a channel to the display.

use vstd::prelude::*;
use vstd::arithmetic::power2::{lemma2_to64, lemma2_to64_rest};
use crate::interval::Interval;
use crate::root::{is_root_of, lemma_root_is_one, lemma_roots_keep_order, square_root};
use crate::scalar::{at_most, is_nan, lemma_stands_nearly_for, less, stands_nearly_for, truncated, Scalar, ZERO};
use crate::vec3::Vec3;

verus! {

/// A vector read as red, green and blue.
pub type Color = Vec3;

/// The code of 999 thousandths, the brightest that a channel of the display
/// gets.
pub const BRIGHTEST: Scalar = 0x3FEF_F7CE_D916_872B;

/// The range of a channel of the display.
pub open spec fn spec_intensity() -> Interval {
    Interval { min: ZERO, max: BRIGHTEST }
}

/// Whether `shown` is what the display shows for a channel of the value
/// `linear`: the square root of the value, brought into the range of the
/// display. A value that is not above zero has no root to speak of and shows
/// as zero.
pub open spec fn shown_for(linear: Scalar, shown: Scalar) -> bool {
    if less(ZERO, linear) {
        exists|root: Scalar| #[trigger] is_root_of(root, linear) && shown == spec_intensity().clamp(root)
    } else {
        shown == ZERO
    }
}

/// The range of a channel of the display, from zero to [`BRIGHTEST`].
#[verifier::when_used_as_spec(spec_intensity)]
pub fn intensity() -> (range: Interval)
    ensures
        range == spec_intensity(),
{
    Interval::new(ZERO, BRIGHTEST)
}

/// Corrects a channel for the display: the square root of its value, brought
/// into the range of the display, and zero for a value that is not above
/// zero.
pub fn linear_to_gamma(linear: Scalar) -> (shown: Scalar)
    ensures
        shown_for(linear, shown),
        intensity().contains(shown),
{
    if less(ZERO, linear) {
        let root = square_root(linear);
        let shown = intensity().clamp(root);
        assert(is_root_of(root, linear));
        shown
    } else {
        ZERO
    }
}

/// The three whole numbers that go to the image for a colour whose channels
/// are already on the scale of the image, from zero to two hundred and
/// fifty-six: each channel cut down to its whole part.
pub fn write_color(pixel_color: &Color) -> (bytes: (i32, i32, i32))
    ensures
        bytes == (truncated(pixel_color.x), truncated(pixel_color.y), truncated(pixel_color.z)),
{
    (truncated(pixel_color.x), truncated(pixel_color.y), truncated(pixel_color.z))
}

/// The brightest channel stands for the double nearest to 999 thousandths.
pub proof fn lemma_brightest()
    ensures
        stands_nearly_for(BRIGHTEST, 999, 1000),
{
    lemma2_to64();
    lemma2_to64_rest();
    lemma_stands_nearly_for(BRIGHTEST, 53, 999, 1000);
}

/// What is shown of a channel is one number and no other.
pub proof fn lemma_gamma_is_one(linear: Scalar, shown: Scalar, other: Scalar)
    requires
        shown_for(linear, shown),
        shown_for(linear, other),
    ensures
        shown == other,
{
    if less(ZERO, linear) {
        let root = choose|root: Scalar| #[trigger] is_root_of(root, linear) && shown == intensity().clamp(root);
        let second = choose|root: Scalar| #[trigger]
            is_root_of(root, linear) && other == intensity().clamp(root);
        lemma_root_is_one(root, second, linear);
    }
}

/// What is shown of a channel lies in the range of the display and is a
/// number, whatever the channel holds; to clamp it once more changes nothing.
pub proof fn lemma_gamma_stays_in_range(linear: Scalar, shown: Scalar)
    requires
        shown_for(linear, shown),
    ensures
        intensity().contains(shown),
        !is_nan(shown),
        intensity().clamp(shown) == shown,
{
}

/// What is shown is the root itself up to the brightest, and the brightest
/// above that.
pub proof fn lemma_gamma_is_the_root(linear: Scalar, root: Scalar, shown: Scalar)
    requires
        less(ZERO, linear),
        is_root_of(root, linear),
        shown_for(linear, shown),
    ensures
        shown == (if at_most(root, BRIGHTEST) { root } else { BRIGHTEST }),
{
    let found = choose|found: Scalar| #[trigger] is_root_of(found, linear) && shown == intensity().clamp(found);
    lemma_root_is_one(root, found, linear);
}

/// What is shown keeps the order: of two channels, the larger never shows as
/// the smaller.
pub proof fn lemma_gamma_is_monotonic(linear_a: Scalar, shown_a: Scalar, linear_b: Scalar, shown_b: Scalar)
    requires
        at_most(linear_a, linear_b),
        shown_for(linear_a, shown_a),
        shown_for(linear_b, shown_b),
    ensures
        at_most(shown_a, shown_b),
{
    if less(ZERO, linear_a) {
        let root_a = choose|root: Scalar| #[trigger]
            is_root_of(root, linear_a) && shown_a == intensity().clamp(root);
        let root_b = choose|root: Scalar| #[trigger]
            is_root_of(root, linear_b) && shown_b == intensity().clamp(root);
        lemma_roots_keep_order(root_a, linear_a, root_b, linear_b);
    } else if less(ZERO, linear_b) {
        let root_b = choose|root: Scalar| #[trigger]
            is_root_of(root, linear_b) && shown_b == intensity().clamp(root);
    }
}

} // verus!
