//! From clip space to the screen.
//!
//! A point in clip space is put on the screen by dividing it by its `w` and
//! moving it by one, so that the screen reaches from zero to two either
//! way. Points in or behind the plane of the camera, whose `w` is not
//! positive, have no place on it.

use crate::camera::CameraError;
use crate::fixed::{
    floor_div, lemma_floor_keeps_order, lemma_quotient_fits, quotient, saturate, saturated, ONE,
};
use crate::vector::{Vec2, Vec4};
use vstd::prelude::*;

verus! {

/// The place on the screen of a coordinate in clip space, for a positive
/// `w`: the coordinate divided by `w`, moved by one.
pub open spec fn on_screen(coordinate: int, w: int) -> int
    recommends
        w > 0,
{
    saturated(quotient(coordinate, w) + ONE)
}

/// The place on the screen of a point in clip space with a positive `w`.
pub open spec fn screen_point(clip: Vec4) -> Vec2
    recommends
        clip.w > 0,
{
    Vec2 {
        x: on_screen(clip.x as int, clip.w as int) as i64,
        y: on_screen(clip.y as int, clip.w as int) as i64,
    }
}

/// The size of the rectangle between two corners on the screen.
pub open spec fn screen_size(top_left: Vec2, bottom_right: Vec2) -> Vec2 {
    Vec2 {
        x: saturated(bottom_right.x - top_left.x) as i64,
        y: saturated(bottom_right.y - top_left.y) as i64,
    }
}

/// The place on the screen of a point in clip space; an error for a point
/// in or behind the plane of the camera.
pub fn clip_to_screen_space(clip_space_position: Vec4) -> (result: Result<Vec2, CameraError>)
    ensures
        clip_space_position.w <= 0 ==> result == Err::<Vec2, CameraError>(CameraError::BehindCamera),
        clip_space_position.w > 0 ==> result == Ok::<Vec2, CameraError>(
            screen_point(clip_space_position),
        ),
{
    if clip_space_position.w <= 0 {
        return Err(CameraError::BehindCamera);
    }
    let w: i128 = clip_space_position.w as i128;
    proof {
        lemma_quotient_fits(clip_space_position.x as int, w as int);
        lemma_quotient_fits(clip_space_position.y as int, w as int);
    }
    let x: i128 = floor_div(clip_space_position.x as i128 * ONE as i128, w);
    let y: i128 = floor_div(clip_space_position.y as i128 * ONE as i128, w);
    Ok(Vec2 { x: saturate(x + ONE as i128), y: saturate(y + ONE as i128) })
}

/// The sign of a size on the screen follows the order of the corners: if,
/// seen from the camera, the second corner is not left of the first, the
/// width is not negative, and if it is not above the first, neither is the
/// height.
pub proof fn lemma_screen_size_follows_corners(top_left: Vec4, bottom_right: Vec4)
    requires
        top_left.w > 0,
        bottom_right.w > 0,
    ensures
        top_left.x * bottom_right.w <= bottom_right.x * top_left.w ==> screen_size(
            screen_point(top_left),
            screen_point(bottom_right),
        ).x >= 0,
        top_left.y * bottom_right.w <= bottom_right.y * top_left.w ==> screen_size(
            screen_point(top_left),
            screen_point(bottom_right),
        ).y >= 0,
{
    let one = ONE as int;
    if top_left.x * bottom_right.w <= bottom_right.x * top_left.w {
        assert((top_left.x * one) * bottom_right.w <= (bottom_right.x * one) * top_left.w)
            by (nonlinear_arith)
            requires
                top_left.x * bottom_right.w <= bottom_right.x * top_left.w,
                one > 0,
        ;
        lemma_floor_keeps_order(
            top_left.x * one,
            top_left.w as int,
            bottom_right.x * one,
            bottom_right.w as int,
        );
    }
    if top_left.y * bottom_right.w <= bottom_right.y * top_left.w {
        assert((top_left.y * one) * bottom_right.w <= (bottom_right.y * one) * top_left.w)
            by (nonlinear_arith)
            requires
                top_left.y * bottom_right.w <= bottom_right.y * top_left.w,
                one > 0,
        ;
        lemma_floor_keeps_order(
            top_left.y * one,
            top_left.w as int,
            bottom_right.y * one,
            bottom_right.w as int,
        );
    }
}

} // verus!
