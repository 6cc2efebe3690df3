//! The integer side of gradient rendering: which gradients the renderer
//! takes, and how stops are laid out for the shader's uniform arrays.
use vstd::prelude::*;

use crate::config::{GradientProfile, GradientSpec, GradientType, Stop};

verus! {

/// The number of stops that the gradient shader holds.
pub const MAX_STOPS: usize = 32;

/// Why a gradient cannot be rendered.
#[derive(Debug, Clone, Copy, PartialEq, Eq, Structural)]
pub enum RenderError {
    /// The renderer has not been initialized.
    NotInitialized,
    /// The gradient has more stops than the shader holds.
    TooManyStops { count: usize },
}

/// The uniform values of a gradient, before scaling: stop positions in
/// percent and color channels from 0 to 255, padded with zeros to
/// [`MAX_STOPS`] entries.
pub struct StopUniforms {
    pub gradient_type: i32,
    pub stop_count: i32,
    pub positions: Vec<u8>,
    pub colors: Vec<u8>,
}

/// The number by which the shader knows a gradient type.
pub open spec fn gradient_type_code(t: GradientType) -> i32 {
    match t {
        GradientType::Linear => 0,
    }
}

/// Entry `i` of the position array for `stops`.
pub open spec fn position_entry(stops: Seq<Stop>, i: int) -> u8 {
    if i < stops.len() {
        stops[i].position
    } else {
        0
    }
}

/// Entry `i` of the color array for `stops`: channel `i % 3` of stop `i / 3`.
pub open spec fn color_entry(stops: Seq<Stop>, i: int) -> u8 {
    if i / 3 < stops.len() {
        stops[i / 3].color@[i % 3]
    } else {
        0
    }
}

/// What rendering `g` hands to the shader, or why it cannot.
pub open spec fn uniforms_ok(u: StopUniforms, g: GradientSpec) -> bool {
    &&& u.gradient_type == gradient_type_code(g.gradient_type)
    &&& u.stop_count == g.stops.len()
    &&& u.positions@.len() == MAX_STOPS
    &&& u.colors@.len() == MAX_STOPS * 3
    &&& forall|i: int| 0 <= i < MAX_STOPS ==> #[trigger] u.positions@[i] == position_entry(g.stops, i)
    &&& forall|i: int| 0 <= i < MAX_STOPS * 3 ==> #[trigger] u.colors@[i] == color_entry(g.stops, i)
}

/// The gradient-type code, stop count, and padded stop arrays for rendering
/// `gradient`; refused before initialization and beyond [`MAX_STOPS`] stops.
pub fn stop_uniforms(initialized: bool, gradient: &GradientProfile) -> (r: Result<
    StopUniforms,
    RenderError,
>)
    ensures
        !initialized ==> r == Err::<StopUniforms, RenderError>(RenderError::NotInitialized),
        initialized && gradient.stops@.len() > MAX_STOPS ==> r == Err::<StopUniforms, RenderError>(
            RenderError::TooManyStops { count: gradient.stops@.len() as usize },
        ),
        initialized && gradient.stops@.len() <= MAX_STOPS ==> (r matches Ok(u) && uniforms_ok(
            u,
            gradient@,
        )),
        r matches Ok(u) ==> layout_matches(u, gradient.stops@) && u.gradient_type
            == gradient_type_code(gradient.gradient_type),
{
    if !initialized {
        return Err(RenderError::NotInitialized);
    }
    let n = gradient.stops.len();
    if n > MAX_STOPS {
        return Err(RenderError::TooManyStops { count: n });
    }
    let ghost stops = gradient.stops@;
    let mut positions: Vec<u8> = Vec::new();
    let mut colors: Vec<u8> = Vec::new();
    let mut i: usize = 0;
    while i < MAX_STOPS
        invariant
            stops == gradient.stops@,
            n == stops.len(),
            n <= MAX_STOPS,
            i <= MAX_STOPS,
            positions@.len() == i,
            colors@.len() == 3 * i,
            forall|j: int| 0 <= j < i ==> #[trigger] positions@[j] == position_entry(stops, j),
            forall|j: int| 0 <= j < 3 * i ==> #[trigger] colors@[j] == color_entry(stops, j),
        decreases MAX_STOPS - i,
    {
        if i < n {
            let s = gradient.stops[i];
            positions.push(s.position);
            colors.push(s.color[0]);
            colors.push(s.color[1]);
            colors.push(s.color[2]);
        } else {
            positions.push(0);
            colors.push(0);
            colors.push(0);
            colors.push(0);
        }
        proof {
            assert forall|j: int| 0 <= j < 3 * (i + 1) implies #[trigger] colors@[j] == color_entry(
                stops,
                j,
            ) by {
                if j >= 3 * i {
                    assert(j / 3 == i as int) by (nonlinear_arith)
                        requires
                            3 * i <= j < 3 * (i + 1),
                    ;
                    assert(j % 3 == j - 3 * i) by (nonlinear_arith)
                        requires
                            3 * i <= j < 3 * (i + 1),
                    ;
                }
            }
        }
        i = i + 1;
    }
    let gradient_type: i32 = match gradient.gradient_type {
        GradientType::Linear => 0,
    };
    let u = StopUniforms { gradient_type, stop_count: n as i32, positions, colors };
    proof {
        lemma_uniform_layout(u, gradient@);
    }
    Ok(u)
}

/// The layout the shader reads: entry `k` of the position array is stop
/// `k`'s position and entries `3k`, `3k + 1`, `3k + 2` of the color array are
/// its red, green and blue channels, for every stop; every later entry is
/// zero.
pub open spec fn layout_matches(u: StopUniforms, stops: Seq<Stop>) -> bool {
    &&& u.stop_count == stops.len()
    &&& u.positions@.len() == MAX_STOPS
    &&& u.colors@.len() == MAX_STOPS * 3
    &&& forall|k: int| 0 <= k < stops.len() ==> #[trigger] u.positions@[k] == stops[k].position
    &&& forall|k: int, c: int|
        0 <= k < stops.len() && 0 <= c < 3 ==> #[trigger] u.colors@[3 * k + c]
            == #[trigger] stops[k].color@[c]
    &&& forall|k: int| stops.len() <= k < MAX_STOPS ==> #[trigger] u.positions@[k] == 0
    &&& forall|j: int| 3 * stops.len() <= j < MAX_STOPS * 3 ==> #[trigger] u.colors@[j] == 0
}

/// Uniforms made for a gradient lay its stops out channel by channel, in
/// stop order, padded with zeros.
pub proof fn lemma_uniform_layout(u: StopUniforms, g: GradientSpec)
    requires
        uniforms_ok(u, g),
        g.stops.len() <= MAX_STOPS,
    ensures
        layout_matches(u, g.stops),
{
    let stops = g.stops;
    assert forall|k: int, c: int| 0 <= k < stops.len() && 0 <= c < 3 implies #[trigger] u.colors@[3 * k
        + c] == #[trigger] stops[k].color@[c] by {
        assert((3 * k + c) / 3 == k && (3 * k + c) % 3 == c) by (nonlinear_arith)
            requires
                0 <= c < 3,
        ;
        assert(0 <= 3 * k + c < MAX_STOPS * 3);
        assert(u.colors@[3 * k + c] == color_entry(stops, 3 * k + c));
    }
    assert forall|j: int| 3 * stops.len() <= j < MAX_STOPS * 3 implies #[trigger] u.colors@[j] == 0 by {
        assert(j / 3 >= stops.len()) by (nonlinear_arith)
            requires
                3 * stops.len() <= j,
        ;
        assert(u.colors@[j] == color_entry(stops, j));
    }
    assert forall|k: int| 0 <= k < stops.len() implies #[trigger] u.positions@[k] == stops[k].position by {
        assert(u.positions@[k] == position_entry(stops, k));
    }
    assert forall|k: int| stops.len() <= k < MAX_STOPS implies #[trigger] u.positions@[k] == 0 by {
        assert(u.positions@[k] == position_entry(stops, k));
    }
}

} // verus!
