//! A camera that orbits a focus point at a smoothed distance and angle.
//!
//! The camera sits above its focus by the zoom distance and as far to the
//! side, on a circle around the vertical axis through the focus. All lengths
//! and angles are fixed-point (see [`crate::fixed`]); time is counted in
//! microseconds. The matrices of a frame are built by the renderer and kept
//! here as an opaque value of type `M`.

use crate::direction::{direction, sector_of, DIRECTIONS};
use crate::fixed::{
    floor_sqrt_of, is_floor_sqrt, lemma_floor_sqrt_at_least, lemma_floor_sqrt_exists,
    lemma_negative_quotient, lemma_no_quotient, product, quotient, saturate, saturated, scale,
    ONE,
};
use crate::screen::{clip_to_screen_space, screen_point, screen_size};
use crate::smoothed::{lemma_update_approaches, SmoothedValue, Smoothing, FRACTION_ONE};
use crate::vector::{
    lemma_normalized_is_not_zero, lemma_normalized_is_short, square, Vec2, Vec3, Vec4,
};
use vstd::prelude::*;

verus! {

/// Change of the zoom target per unit of zoom input: 2.
pub const ZOOM_SPEED: i64 = 131072;

/// Change of the angle target per unit of rotation input: 0.02.
pub const ROTATION_SPEED: i64 = 1311;

/// The nearest the camera comes to its focus: 150.
pub const MINIMUM_ZOOM: i64 = 9830400;

/// The farthest the camera moves from its focus: 600.
pub const MAXIMUM_ZOOM: i64 = 39321600;

/// The distance at which a new camera starts: 400.
pub const DEFAULT_ZOOM: i64 = 26214400;

/// The angle at which a new camera starts: a quarter turn, in radians.
pub const DEFAULT_VIEW_ANGLE: i64 = 102944;

/// Share of a gap in zoom or angle that survives one microsecond; one
/// hundredth of the gap survives a second.
pub const SMOOTHING_FACTOR: u32 = 4294947517;

/// Least change of the zoom per second: 5.
pub const ZOOM_RATE: u64 = 327680;

/// Least change of the angle per second: 15 radians.
pub const ROTATION_RATE: u64 = 983040;

/// How far the squared length of a heading may be from one.
pub const HEADING_TOLERANCE: i64 = 196608;

/// Why the camera cannot answer.
#[derive(Clone, Copy, Debug, PartialEq, Eq, Structural)]
pub enum CameraError {
    /// No view and projection have been generated yet.
    Uninitialized,
    /// The window has no area, or no invertible view and projection exist
    /// for the camera as it stands.
    DegenerateConfiguration,
    /// A point lies in or behind the plane of the camera and has no place
    /// on the screen.
    BehindCamera,
}

/// The cosine and sine of a view angle: a fixed-point vector of length one,
/// up to rounding.
#[derive(Clone, Copy, Debug, PartialEq, Eq)]
pub struct Heading {
    cos: i64,
    sin: i64,
}

/// The pair `(cos, sin)` is as long as one, up to rounding.
pub open spec fn is_heading(cos: int, sin: int) -> bool {
    -HEADING_TOLERANCE <= cos * cos + sin * sin - ONE * ONE <= HEADING_TOLERANCE
}

impl Heading {
    #[verifier::type_invariant]
    spec fn well_formed(self) -> bool {
        is_heading(self.cos as int, self.sin as int)
    }

    /// The cosine of the angle.
    pub closed spec fn cosine(self) -> int {
        self.cos as int
    }

    /// The sine of the angle.
    pub closed spec fn sine(self) -> int {
        self.sin as int
    }

    /// The heading with the given cosine and sine, unless they are not
    /// those of any angle.
    pub fn new(cos: i64, sin: i64) -> (result: Option<Heading>)
        ensures
            result is Some <==> is_heading(cos as int, sin as int),
            result matches Some(heading) ==> heading.cosine() == cos && heading.sine() == sin,
    {
        let limit: i64 = 2 * ONE;
        if cos < -limit || cos > limit || sin < -limit || sin > limit {
            proof {
                let far = if cos < -limit || cos > limit {
                    cos as int
                } else {
                    sin as int
                };
                assert(far * far > 4 * (ONE * ONE)) by (nonlinear_arith)
                    requires
                        far < -2 * ONE || far > 2 * ONE,
                ;
                assert(cos * cos >= 0 && sin * sin >= 0) by (nonlinear_arith);
            }
            return None;
        }
        assert(0 <= cos * cos <= 4 * (ONE * ONE)) by (nonlinear_arith)
            requires
                -2 * ONE <= cos <= 2 * ONE,
        ;
        assert(0 <= sin * sin <= 4 * (ONE * ONE)) by (nonlinear_arith)
            requires
                -2 * ONE <= sin <= 2 * ONE,
        ;
        let excess: i64 = cos * cos + sin * sin - ONE * ONE;
        if -HEADING_TOLERANCE <= excess && excess <= HEADING_TOLERANCE {
            Some(Heading { cos, sin })
        } else {
            None
        }
    }

    /// The cosine of the angle.
    pub fn cos(&self) -> (result: i64)
        ensures
            result == self.cosine(),
    {
        self.cos
    }

    /// The sine of the angle.
    pub fn sin(&self) -> (result: i64)
        ensures
            result == self.sine(),
    {
        self.sin
    }
}

/// What the renderer needs to build the view and projection of a frame.
#[derive(Clone, Copy, Debug, PartialEq, Eq)]
pub struct FrameState {
    /// Where the camera is.
    pub camera_position: Vec3,
    /// What the camera looks at.
    pub focus_position: Vec3,
    /// Which way is up.
    pub look_up_vector: Vec3,
    /// Width and height of the window; their quotient is the aspect ratio.
    pub window_size: (usize, usize),
}

/// The mathematical state of a [`PlayerCamera`].
pub struct CameraState<M> {
    /// The point that the camera orbits and looks at.
    pub focus_position: Vec3,
    /// Which way is up.
    pub look_up_vector: Vec3,
    /// The angle of the orbit around the vertical axis, in radians.
    pub view_angle: Smoothing,
    /// The radius of the orbit.
    pub zoom: Smoothing,
    /// Width and height of the window of the last frame.
    pub window_size: (usize, usize),
    /// The matrices of the last frame.
    pub matrices: Option<M>,
}

/// A window of this size has no area.
pub open spec fn is_empty_window(window_size: (usize, usize)) -> bool {
    window_size.0 == 0 || window_size.1 == 0
}

impl<M> CameraState<M> {
    /// The state of a new camera.
    pub open spec fn initial() -> CameraState<M> {
        CameraState {
            focus_position: Vec3 { x: 0, y: 0, z: 0 },
            look_up_vector: Vec3 { x: 0, y: (-ONE) as i64, z: 0 },
            view_angle: Smoothing {
                current: DEFAULT_VIEW_ANGLE as int,
                desired: DEFAULT_VIEW_ANGLE as int,
                smoothing_factor: SMOOTHING_FACTOR as nat,
                rate: ROTATION_RATE as nat,
            },
            zoom: Smoothing {
                current: DEFAULT_ZOOM as int,
                desired: DEFAULT_ZOOM as int,
                smoothing_factor: SMOOTHING_FACTOR as nat,
                rate: ZOOM_RATE as nat,
            },
            window_size: (0, 0),
            matrices: None,
        }
    }

    /// What holds of every camera: the zoom and its target stay within
    /// their limits, the smoothing factors are below one, the up vector
    /// points along `-y`, and matrices are kept only for a window with an
    /// area.
    pub open spec fn valid(self) -> bool {
        &&& MINIMUM_ZOOM <= self.zoom.current <= MAXIMUM_ZOOM
        &&& MINIMUM_ZOOM <= self.zoom.desired <= MAXIMUM_ZOOM
        &&& self.zoom.smoothing_factor < FRACTION_ONE
        &&& self.view_angle.smoothing_factor < FRACTION_ONE
        &&& self.look_up_vector == (Vec3 { x: 0, y: (-ONE) as i64, z: 0 })
        &&& self.matrices is Some ==> !is_empty_window(self.window_size)
    }

    /// The state after a zoom input.
    pub open spec fn zoomed(self, zoom_factor: int) -> CameraState<M> {
        CameraState {
            zoom: self.zoom.moved_clamped(
                product(zoom_factor, ZOOM_SPEED as int),
                MINIMUM_ZOOM as int,
                MAXIMUM_ZOOM as int,
            ),
            ..self
        }
    }

    /// The state after a run of zoom inputs.
    pub open spec fn zoomed_all(self, zoom_factors: Seq<int>) -> CameraState<M>
        decreases zoom_factors.len(),
    {
        if zoom_factors.len() == 0 {
            self
        } else {
            self.zoomed_all(zoom_factors.drop_last()).zoomed(zoom_factors.last())
        }
    }

    /// The state after a rotation input.
    pub open spec fn rotated(self, rotation: int) -> CameraState<M> {
        CameraState {
            view_angle: self.view_angle.moved(product(rotation, ROTATION_SPEED as int)),
            ..self
        }
    }

    /// The state after `ticks` microseconds have passed.
    pub open spec fn updated(self, ticks: nat) -> CameraState<M> {
        CameraState {
            zoom: self.zoom.updated(ticks),
            view_angle: self.view_angle.updated(ticks),
            ..self
        }
    }

    /// Where the camera is, seen from its focus, when the view angle has
    /// the given cosine and sine.
    pub open spec fn orbit_offset(self, cos: int, sin: int) -> Vec3 {
        Vec3 {
            x: saturated(product(self.zoom.current, cos)) as i64,
            y: self.zoom.current as i64,
            z: saturated(product(-self.zoom.current, sin)) as i64,
        }
    }

    /// Where the camera is.
    pub open spec fn camera_position(self, cos: int, sin: int) -> Vec3 {
        self.focus_position.plus(self.orbit_offset(cos, sin))
    }

    /// Where the focus is, seen from the camera.
    pub open spec fn focus_offset(self, cos: int, sin: int) -> Vec3 {
        Vec3 {
            x: saturated(product(-self.zoom.current, cos)) as i64,
            y: (-self.zoom.current) as i64,
            z: saturated(product(self.zoom.current, sin)) as i64,
        }
    }

    /// The direction in which the camera looks: a vector of length one.
    pub open spec fn view_direction(self, cos: int, sin: int) -> Vec3 {
        self.focus_offset(cos, sin).normalized()
    }

    /// A vector to the right on a surface that faces the camera: at right
    /// angles to the up vector and to the view direction.
    pub open spec fn sideways(self, cos: int, sin: int) -> Vec3 {
        self.look_up_vector.cross_product(self.view_direction(cos, sin))
    }

    /// A vector upward on a surface that faces the camera: at right angles
    /// to the view direction and to the right.
    pub open spec fn upward(self, cos: int, sin: int) -> Vec3 {
        self.view_direction(cos, sin).cross_product(self.sideways(cos, sin).normalized())
    }

    /// The directions to the right and upward on a surface that faces the
    /// camera, each of length one.
    pub open spec fn billboard_basis(self, cos: int, sin: int) -> (Vec3, Vec3) {
        (self.sideways(cos, sin).normalized(), self.upward(cos, sin).normalized())
    }

    /// Two opposite corners, the upper left one first, of the square of
    /// half the side `size` around `position` that faces the camera.
    pub open spec fn billboard_corners(self, cos: int, sin: int, position: Vec3, size: int) -> (
        Vec3,
        Vec3,
    ) {
        let (right, up) = self.billboard_basis(cos, sin);
        (
            position.plus(up.minus(right).times(size)),
            position.plus(right.minus(up).times(size)),
        )
    }

    /// What the renderer is handed for a frame in a window of the given
    /// size.
    pub open spec fn frame_state(self, window_size: (usize, usize), cos: int, sin: int) -> FrameState {
        FrameState {
            camera_position: self.camera_position(cos, sin),
            focus_position: self.focus_position,
            look_up_vector: self.look_up_vector,
            window_size,
        }
    }
}

/// A camera that follows a focus point.
pub struct PlayerCamera<M> {
    focus_position: Vec3,
    look_up_vector: Vec3,
    view_angle: SmoothedValue,
    zoom: SmoothedValue,
    window_size: (usize, usize),
    matrices: Option<M>,
}

impl<M> View for PlayerCamera<M> {
    type V = CameraState<M>;

    closed spec fn view(&self) -> CameraState<M> {
        CameraState {
            focus_position: self.focus_position,
            look_up_vector: self.look_up_vector,
            view_angle: self.view_angle@,
            zoom: self.zoom@,
            window_size: self.window_size,
            matrices: self.matrices,
        }
    }
}

impl<M> PlayerCamera<M> {
    #[verifier::type_invariant]
    spec fn well_formed(self) -> bool {
        self@.valid()
    }

    /// A camera at the default distance from the origin, a quarter turn
    /// round, without a frame.
    pub fn new() -> (result: Self)
        ensures
            result@ == CameraState::<M>::initial(),
            result@.valid(),
    {
        PlayerCamera {
            focus_position: Vec3 { x: 0, y: 0, z: 0 },
            look_up_vector: Vec3 { x: 0, y: -ONE, z: 0 },
            view_angle: SmoothedValue::new(DEFAULT_VIEW_ANGLE, SMOOTHING_FACTOR, ROTATION_RATE),
            zoom: SmoothedValue::new(DEFAULT_ZOOM, SMOOTHING_FACTOR, ZOOM_RATE),
            window_size: (0, 0),
            matrices: None,
        }
    }

    /// Moves the point that the camera orbits and looks at.
    pub fn set_focus_point(&mut self, position: Vec3)
        ensures
            final(self)@ == (CameraState { focus_position: position, ..old(self)@ }),
            final(self)@.valid(),
    {
        proof {
            use_type_invariant(&*self);
        }
        self.focus_position = position;
    }

    /// Moves the zoom target by `zoom_factor` times [`ZOOM_SPEED`], and back
    /// into its limits.
    pub fn soft_zoom(&mut self, zoom_factor: i64)
        ensures
            final(self)@ == old(self)@.zoomed(zoom_factor as int),
            MINIMUM_ZOOM <= final(self)@.zoom.desired <= MAXIMUM_ZOOM,
            final(self)@.valid(),
    {
        proof {
            use_type_invariant(&*self);
        }
        let delta: i64 = scale(zoom_factor, ZOOM_SPEED);
        let mut zoom = self.zoom;
        zoom.move_desired_clamp(delta, MINIMUM_ZOOM, MAXIMUM_ZOOM);
        self.zoom = zoom;
    }

    /// Moves the angle target by `rotation` times [`ROTATION_SPEED`].
    pub fn soft_rotate(&mut self, rotation: i64)
        ensures
            final(self)@ == old(self)@.rotated(rotation as int),
            final(self)@.valid(),
    {
        proof {
            use_type_invariant(&*self);
            lemma_rotation_fits(rotation as int);
        }
        let delta: i64 = scale(rotation, ROTATION_SPEED);
        let mut view_angle = self.view_angle;
        view_angle.move_desired(delta);
        self.view_angle = view_angle;
    }

    /// Lets `delta_time` microseconds pass: zoom and angle approach their
    /// targets.
    pub fn update(&mut self, delta_time: u64)
        ensures
            final(self)@ == old(self)@.updated(delta_time as nat),
            final(self)@.valid(),
    {
        proof {
            use_type_invariant(&*self);
        }
        let mut zoom = self.zoom;
        zoom.update(delta_time);
        self.zoom = zoom;
        let mut view_angle = self.view_angle;
        view_angle.update(delta_time);
        self.view_angle = view_angle;
    }

    /// Where the camera is, given the cosine and sine of its view angle.
    pub fn camera_position(&self, heading: Heading) -> (result: Vec3)
        ensures
            result == self@.camera_position(heading.cosine(), heading.sine()),
    {
        proof {
            use_type_invariant(self);
        }
        let zoom: i64 = self.zoom.get_current();
        let offset = Vec3 {
            x: scale(zoom, heading.cos()),
            y: zoom,
            z: scale(-zoom, heading.sin()),
        };
        self.focus_position.saturating_add(offset)
    }

    /// The direction in which the camera looks, given the cosine and sine
    /// of its view angle.
    pub fn view_direction(&self, heading: Heading) -> (result: Vec3)
        ensures
            result == self@.view_direction(heading.cosine(), heading.sine()),
    {
        proof {
            use_type_invariant(self);
        }
        let zoom: i64 = self.zoom.get_current();
        let offset = Vec3 {
            x: scale(-zoom, heading.cos()),
            y: -zoom,
            z: scale(zoom, heading.sin()),
        };
        proof {
            lemma_focus_offset_has_length(self@, heading.cosine(), heading.sine());
        }
        offset.unit()
    }

    /// The directions to the right and upward on a surface that faces the
    /// camera, given the cosine and sine of the view angle.
    pub fn billboard_basis(&self, heading: Heading) -> (result: (Vec3, Vec3))
        ensures
            result == self@.billboard_basis(heading.cosine(), heading.sine()),
    {
        proof {
            use_type_invariant(self);
            use_type_invariant(heading);
            lemma_view_direction_is_short(self@, heading.cosine(), heading.sine());
            lemma_billboard_basis_has_length(self@, heading.cosine(), heading.sine());
        }
        let direction = self.view_direction(heading);
        let sideways = self.look_up_vector.cross(direction);
        let right = sideways.unit();
        proof {
            lemma_normalized_is_short(sideways);
        }
        let upward = direction.cross(right);
        (right, upward.unit())
    }

    /// Two opposite corners, the upper left one first, of the square of
    /// half the side `size` around `position` that faces the camera, given
    /// the cosine and sine of the view angle.
    pub fn billboard_corners(&self, heading: Heading, position: Vec3, size: i64) -> (result: (
        Vec3,
        Vec3,
    ))
        ensures
            result == self@.billboard_corners(
                heading.cosine(),
                heading.sine(),
                position,
                size as int,
            ),
    {
        let (right, up) = self.billboard_basis(heading);
        let top_left = position.saturating_add(up.saturating_sub(right).scaled(size));
        let bottom_right = position.saturating_add(right.saturating_sub(up).scaled(size));
        (top_left, bottom_right)
    }

    /// The sector that the camera faces, given the cosine and sine of its
    /// view angle.
    pub fn get_camera_direction(&self, heading: Heading) -> (result: usize)
        ensures
            result == sector_of(
                self@.view_direction(heading.cosine(), heading.sine()).x as int,
                self@.view_direction(heading.cosine(), heading.sine()).z as int,
            ),
            result < DIRECTIONS,
    {
        let view_direction = self.view_direction(heading);
        direction(view_direction.x, view_direction.z)
    }

    /// The distance from the camera to `position`, rounded down.
    pub fn distance_to(&self, heading: Heading, position: Vec3) -> (result: i64)
        ensures
            result == saturated(
                floor_sqrt_of(
                    self@.camera_position(heading.cosine(), heading.sine()).squared_distance(
                        position,
                    ),
                ) as int,
            ),
    {
        self.camera_position(heading).distance(position)
    }

    /// What the renderer needs to build the view and projection of a frame
    /// in a window of the given size; an error for a window without area.
    pub fn frame_state(&self, window_size: (usize, usize), heading: Heading) -> (result: Result<
        FrameState,
        CameraError,
    >)
        ensures
            is_empty_window(window_size) ==> result == Err::<FrameState, CameraError>(
                CameraError::DegenerateConfiguration,
            ),
            !is_empty_window(window_size) ==> result == Ok::<FrameState, CameraError>(
                self@.frame_state(window_size, heading.cosine(), heading.sine()),
            ),
    {
        if window_size.0 == 0 || window_size.1 == 0 {
            return Err(CameraError::DegenerateConfiguration);
        }
        Ok(
            FrameState {
                camera_position: self.camera_position(heading),
                focus_position: self.focus_position,
                look_up_vector: self.look_up_vector,
                window_size,
            },
        )
    }

    /// Takes over the matrices that the renderer built for a frame in a
    /// window of the given size. Where the window has no area or no
    /// matrices could be built, the camera keeps those of the frame before
    /// and reports the error.
    pub fn generate_view_projection(&mut self, window_size: (usize, usize), matrices: Option<M>) -> (result:
        Result<(), CameraError>)
        ensures
            is_empty_window(window_size) || matrices is None ==> {
                &&& result == Err::<(), CameraError>(CameraError::DegenerateConfiguration)
                &&& final(self)@ == old(self)@
            },
            !is_empty_window(window_size) && matrices is Some ==> {
                &&& result is Ok
                &&& final(self)@ == (CameraState { window_size, matrices, ..old(self)@ })
            },
            final(self)@.valid(),
    {
        proof {
            use_type_invariant(&*self);
        }
        if window_size.0 == 0 || window_size.1 == 0 {
            return Err(CameraError::DegenerateConfiguration);
        }
        match matrices {
            None => Err(CameraError::DegenerateConfiguration),
            Some(built) => {
                self.window_size = window_size;
                self.matrices = Some(built);
                Ok(())
            },
        }
    }

    /// The matrices of the last frame.
    pub fn view_projection_matrices(&self) -> (result: Result<&M, CameraError>)
        ensures
            self@.matrices is None ==> result == Err::<&M, CameraError>(CameraError::Uninitialized),
            self@.matrices matches Some(matrices) ==> result == Ok::<&M, CameraError>(&matrices),
    {
        match &self.matrices {
            Some(matrices) => Ok(matrices),
            None => Err(CameraError::Uninitialized),
        }
    }

    /// Width and height of the window of the last frame; their quotient is
    /// the aspect ratio.
    pub fn aspect_ratio(&self) -> (result: Result<(usize, usize), CameraError>)
        ensures
            self@.matrices is None ==> result == Err::<(usize, usize), CameraError>(
                CameraError::Uninitialized,
            ),
            self@.matrices is Some ==> result == Ok::<(usize, usize), CameraError>(
                self@.window_size,
            ) && !is_empty_window(self@.window_size),
    {
        proof {
            use_type_invariant(self);
        }
        match &self.matrices {
            Some(_) => Ok(self.window_size),
            None => Err(CameraError::Uninitialized),
        }
    }

    /// The point that the camera orbits and looks at.
    pub fn focus_position(&self) -> (result: Vec3)
        ensures
            result == self@.focus_position,
    {
        self.focus_position
    }

    /// The distance of the camera from its focus, along the ground as well
    /// as above it.
    pub fn zoom(&self) -> (result: i64)
        ensures
            result == self@.zoom.current,
            MINIMUM_ZOOM <= result <= MAXIMUM_ZOOM,
    {
        proof {
            use_type_invariant(self);
        }
        self.zoom.get_current()
    }

    /// The distance that the camera is moving to.
    pub fn zoom_target(&self) -> (result: i64)
        ensures
            result == self@.zoom.desired,
            MINIMUM_ZOOM <= result <= MAXIMUM_ZOOM,
    {
        proof {
            use_type_invariant(self);
        }
        self.zoom.get_desired()
    }

    /// The angle of the camera around its focus, in radians.
    pub fn view_angle(&self) -> (result: i64)
        ensures
            result == self@.view_angle.current,
    {
        self.view_angle.get_current()
    }

    /// The angle that the camera is turning to, in radians.
    pub fn view_angle_target(&self) -> (result: i64)
        ensures
            result == self@.view_angle.desired,
    {
        self.view_angle.get_desired()
    }

    /// The place and the size on the screen of the rectangle between two
    /// corners given in clip space; an error where a corner lies in or
    /// behind the plane of the camera.
    pub fn screen_position_size(&self, top_left_position: Vec4, bottom_right_position: Vec4) -> (result:
        Result<(Vec2, Vec2), CameraError>)
        ensures
            top_left_position.w <= 0 || bottom_right_position.w <= 0 ==> result == Err::<
                (Vec2, Vec2),
                CameraError,
            >(CameraError::BehindCamera),
            top_left_position.w > 0 && bottom_right_position.w > 0 ==> result == Ok::<
                (Vec2, Vec2),
                CameraError,
            >(
                (
                    screen_point(top_left_position),
                    screen_size(screen_point(top_left_position), screen_point(bottom_right_position)),
                ),
            ),
    {
        let top_left = match clip_to_screen_space(top_left_position) {
            Ok(point) => point,
            Err(error) => {
                return Err(error);
            },
        };
        let bottom_right = match clip_to_screen_space(bottom_right_position) {
            Ok(point) => point,
            Err(error) => {
                return Err(error);
            },
        };
        let size = Vec2 {
            x: saturate(bottom_right.x as i128 - top_left.x as i128),
            y: saturate(bottom_right.y as i128 - top_left.y as i128),
        };
        Ok((top_left, size))
    }
}

/// A rotation input changes the angle target by less than itself.
proof fn lemma_rotation_fits(rotation: int)
    requires
        i64::MIN <= rotation <= i64::MAX,
    ensures
        i64::MIN <= product(rotation, ROTATION_SPEED as int) <= i64::MAX,
{
    assert(i64::MIN * 1311 <= rotation * 1311 <= i64::MAX * 1311);
}

/// Zooming, rotating, waiting and moving the focus keep a camera as it
/// should be; in particular the zoom never leaves its limits.
pub proof fn lemma_camera_stays_valid<M>(
    camera: CameraState<M>,
    zoom_factor: int,
    rotation: int,
    ticks: nat,
    position: Vec3,
)
    requires
        camera.valid(),
    ensures
        camera.zoomed(zoom_factor).valid(),
        camera.rotated(rotation).valid(),
        camera.updated(ticks).valid(),
        (CameraState { focus_position: position, ..camera }).valid(),
{
    lemma_update_approaches(camera.zoom, ticks);
}

/// Whatever zoom inputs arrive, and however many, the zoom target ends
/// within its limits.
pub proof fn lemma_zoom_target_stays_in_limits<M>(camera: CameraState<M>, zoom_factors: Seq<int>)
    requires
        camera.valid() || zoom_factors.len() > 0,
    ensures
        MINIMUM_ZOOM <= camera.zoomed_all(zoom_factors).zoom.desired <= MAXIMUM_ZOOM,
{
}

/// No component of the view direction is longer than one.
pub proof fn lemma_view_direction_is_short<M>(camera: CameraState<M>, cos: int, sin: int)
    requires
        camera.valid(),
    ensures
        -ONE <= camera.view_direction(cos, sin).x <= ONE,
        -ONE <= camera.view_direction(cos, sin).y <= ONE,
        -ONE <= camera.view_direction(cos, sin).z <= ONE,
{
    lemma_focus_offset_has_length(camera, cos, sin);
    lemma_normalized_is_short(camera.focus_offset(cos, sin));
}

/// The cosine and sine of an angle are not both small, and neither is
/// large.
proof fn lemma_heading_reaches(cos: int, sin: int)
    requires
        is_heading(cos, sin),
    ensures
        -2 * ONE <= cos <= 2 * ONE,
        -2 * ONE <= sin <= 2 * ONE,
        cos >= 32768 || cos <= -32768 || sin >= 32768 || sin <= -32768,
{
    assert(-131072 <= cos <= 131072 && -131072 <= sin <= 131072) by (nonlinear_arith)
        requires
            -196608 <= cos * cos + sin * sin - 65536 * 65536 <= 196608,
    ;
    assert(cos >= 32768 || cos <= -32768 || sin >= 32768 || sin <= -32768) by (nonlinear_arith)
        requires
            -196608 <= cos * cos + sin * sin - 65536 * 65536 <= 196608,
    ;
}

/// The camera looks down on its focus and never straight down: the view
/// direction points toward lower `y` and has a part along the ground.
pub proof fn lemma_view_direction_leans<M>(camera: CameraState<M>, cos: int, sin: int)
    requires
        camera.valid(),
        is_heading(cos, sin),
    ensures
        camera.view_direction(cos, sin).y < 0,
        camera.view_direction(cos, sin).x != 0 || camera.view_direction(cos, sin).z != 0,
{
    let zoom = camera.zoom.current;
    let offset = camera.focus_offset(cos, sin);
    let length = offset.magnitude() as int;
    let one = ONE as int;
    lemma_heading_reaches(cos, sin);
    lemma_focus_offset_has_length(camera, cos, sin);
    lemma_normalized_is_short(offset);
    lemma_floor_sqrt_exists(offset.squared_magnitude());
    assert(is_floor_sqrt(offset.squared_magnitude(), offset.magnitude()));
    let along = -zoom * cos;
    let aside = zoom * sin;
    assert(-2 * one * zoom <= along <= 2 * one * zoom && -2 * one * zoom <= aside <= 2 * one * zoom)
        by (nonlinear_arith)
        requires
            along == -zoom * cos,
            aside == zoom * sin,
            zoom > 0,
            one > 0,
            -2 * one <= cos <= 2 * one,
            -2 * one <= sin <= 2 * one,
    ;
    let x = along / 65536;
    let z = aside / 65536;
    assert(-131072 * zoom <= along <= 131072 * zoom && -131072 * zoom <= aside <= 131072 * zoom);
    assert(-2 * zoom <= x <= 2 * zoom && -2 * zoom <= z <= 2 * zoom);
    assert(offset.x == x && offset.z == z && offset.y == -zoom);
    lemma_negative_quotient(-zoom * one, length);
    if x < 0 {
        lemma_negative_quotient(x * one, length);
    } else if z < 0 {
        lemma_negative_quotient(z * one, length);
    } else if quotient(x, length) == 0 && quotient(z, length) == 0 {
        lemma_no_quotient(x * one, length);
        lemma_no_quotient(z * one, length);
        assert(x * x >= 0 && z * z >= 0 && zoom * zoom >= 0) by (nonlinear_arith);
        assert((-zoom) * (-zoom) == zoom * zoom) by (nonlinear_arith);
        assert(length <= x + zoom + z) by (nonlinear_arith)
            requires
                x >= 0,
                z >= 0,
                zoom >= 0,
                length >= 0,
                length * length <= x * x + zoom * zoom + z * z,
        ;
        assert(along >= 32768 * zoom || aside >= 32768 * zoom) by (nonlinear_arith)
            requires
                along == -zoom * cos,
                aside == zoom * sin,
                zoom > 0,
                along >= 0,
                aside >= 0,
                cos >= 32768 || cos <= -32768 || sin >= 32768 || sin <= -32768,
        ;
        assert(false);
    }
}

/// A surface that faces the camera always has a right and an upward
/// direction: the two vectors that they are taken from have a length.
pub proof fn lemma_billboard_basis_has_length<M>(camera: CameraState<M>, cos: int, sin: int)
    requires
        camera.valid(),
        is_heading(cos, sin),
    ensures
        camera.sideways(cos, sin).magnitude() > 0,
        camera.upward(cos, sin).magnitude() > 0,
{
    let one = ONE as int;
    let direction = camera.view_direction(cos, sin);
    lemma_view_direction_is_short(camera, cos, sin);
    lemma_view_direction_leans(camera, cos, sin);
    let dx = direction.x as int;
    let dy = direction.y as int;
    let dz = direction.z as int;
    let sideways = camera.sideways(cos, sin);
    assert(sideways.x == -one * dz && sideways.y == 0 && sideways.z == one * dx) by {
        assert(0 * dx == 0 && 0 * dy == 0 && 0 * dz == 0) by (nonlinear_arith);
        assert((-one) * dz == -one * dz && (-one) * dx == -(one * dx)) by (nonlinear_arith);
    }
    assert(sideways.squared_magnitude() >= 1) by {
        assert((one * dx) * (one * dx) >= 1 || (-one * dz) * (-one * dz) >= 1) by (nonlinear_arith)
            requires
                dx != 0 || dz != 0,
                one == 65536,
        ;
        assert((one * dx) * (one * dx) >= 0 && (-one * dz) * (-one * dz) >= 0) by (nonlinear_arith);
        assert(0int * 0int == 0);
    }
    lemma_floor_sqrt_at_least(sideways.squared_magnitude(), 1);
    let right = sideways.normalized();
    lemma_normalized_is_short(sideways);
    lemma_normalized_is_not_zero(sideways);
    let rx = right.x as int;
    let rz = right.z as int;
    assert(right.y == 0) by {
        assert(0 * one == 0);
        assert(0int / (sideways.magnitude() as int) == 0) by (nonlinear_arith)
            requires
                sideways.magnitude() > 0,
        ;
    }
    let upward = camera.upward(cos, sin);
    assert(-one * one <= dy * rz <= one * one && -one * one <= dy * rx <= one * one) by (nonlinear_arith)
        requires
            -one <= dy <= one,
            -one <= rx <= one,
            -one <= rz <= one,
    ;
    assert(upward.x == dy * rz && upward.z == -(dy * rx)) by {
        assert(dz * 0 == 0 && dx * 0 == 0) by (nonlinear_arith);
    }
    assert(upward.squared_magnitude() >= 1) by {
        assert((dy * rz) * (dy * rz) >= 1 || (dy * rx) * (dy * rx) >= 1) by (nonlinear_arith)
            requires
                dy < 0,
                rx != 0 || rz != 0,
        ;
        assert((-(dy * rx)) * (-(dy * rx)) == (dy * rx) * (dy * rx)) by (nonlinear_arith);
        assert((dy * rz) * (dy * rz) >= 0 && (dy * rx) * (dy * rx) >= 0) by (nonlinear_arith);
        assert(square(upward.y as int) >= 0);
    }
    lemma_floor_sqrt_at_least(upward.squared_magnitude(), 1);
}

/// The focus is never where the camera is: it lies at least the zoom
/// distance away.
pub proof fn lemma_focus_offset_has_length<M>(camera: CameraState<M>, cos: int, sin: int)
    requires
        camera.valid(),
    ensures
        camera.focus_offset(cos, sin).magnitude() >= camera.zoom.current,
        camera.focus_offset(cos, sin).magnitude() > 0,
{
    let offset = camera.focus_offset(cos, sin);
    let zoom = camera.zoom.current;
    assert(offset.y == -zoom);
    assert(offset.y * offset.y == zoom * zoom && zoom * zoom >= 0) by (nonlinear_arith)
        requires
            offset.y == -zoom,
    ;
    assert(square(offset.x as int) >= 0 && square(offset.z as int) >= 0);
    lemma_floor_sqrt_at_least(offset.squared_magnitude(), zoom as nat);
}

} // verus!
