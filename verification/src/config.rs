//! The configuration model: gradient profiles with their color stops, global
//! settings, validation of a loaded configuration, and the preparation of the
//! list of gradients to cycle through.
use vstd::prelude::*;

use rand::seq::SliceRandom;

use crate::order::{
    lemma_sort_ordered, lemma_sort_permutes, lemma_sort_stable, positions_ordered, sort_by_position,
    sort_stops, with_position,
};
use crate::text::{trim, trimmed};

verus! {

/// A color stop of a gradient: a position in percent and an RGB color.
#[derive(Debug, Clone, Copy)]
pub struct Stop {
    pub position: u8,
    pub color: [u8; 3],
}

/// The shape of a gradient.
#[derive(Debug, Clone, Copy, PartialEq, Eq, Structural)]
pub enum GradientType {
    Linear,
}

/// One gradient of the configuration.
///
/// `direction_bits` holds the IEEE-754 single-precision bit pattern of the
/// direction in degrees, so that the library itself handles no float.
#[derive(Debug)]
pub struct GradientProfile {
    pub name: String,
    pub active: bool,
    pub gradient_type: GradientType,
    pub direction_bits: u32,
    pub stops: Vec<Stop>,
}

fn copy_stops(stops: &Vec<Stop>) -> (r: Vec<Stop>)
    ensures
        r@ == stops@,
{
    let mut r: Vec<Stop> = Vec::new();
    let n = stops.len();
    let mut i: usize = 0;
    while i < n
        invariant
            n == stops@.len(),
            i <= n,
            r@ == stops@.take(i as int),
        decreases n - i,
    {
        r.push(stops[i]);
        i = i + 1;
        assert(r@ =~= stops@.take(i as int));
    }
    assert(stops@.take(n as int) =~= stops@);
    r
}

impl Clone for GradientProfile {
    fn clone(&self) -> (r: Self)
        ensures
            r@ == self@,
    {
        GradientProfile {
            name: self.name.clone(),
            active: self.active,
            gradient_type: self.gradient_type,
            direction_bits: self.direction_bits,
            stops: copy_stops(&self.stops),
        }
    }
}

/// The mathematical value of a [`GradientProfile`].
pub struct GradientSpec {
    pub name: Seq<char>,
    pub active: bool,
    pub gradient_type: GradientType,
    pub direction_bits: u32,
    pub stops: Seq<Stop>,
}

impl View for GradientProfile {
    type V = GradientSpec;

    open spec fn view(&self) -> GradientSpec {
        GradientSpec {
            name: self.name@,
            active: self.active,
            gradient_type: self.gradient_type,
            direction_bits: self.direction_bits,
            stops: self.stops@,
        }
    }
}

/// The values of a sequence of profiles.
pub open spec fn gradient_views(s: Seq<GradientProfile>) -> Seq<GradientSpec> {
    s.map_values(|g: GradientProfile| g@)
}

/// Global settings of the configuration.
#[derive(Debug)]
pub struct Settings {
    pub texture_resolution: u32,
    pub cycle_interval: u64,
    pub monitor: String,
    pub randomize: bool,
    pub random_direction: bool,
}

/// A whole configuration.
#[derive(Debug)]
pub struct Config {
    pub settings: Settings,
    pub gradients: Vec<GradientProfile>,
}

/// Why a configuration is refused. Gradients are named by their index in
/// the configuration.
#[derive(Debug, Clone, Copy, PartialEq, Eq, Structural)]
pub enum ConfigError {
    /// `texture_resolution` is zero.
    ZeroTextureResolution,
    /// The configuration holds no gradient.
    NoGradients,
    /// The gradient's name is empty or only whitespace.
    EmptyName { index: usize },
    /// The gradient has no color stop.
    NoStops { index: usize },
    /// The gradient's direction is infinite or NaN.
    InvalidDirection { index: usize },
    /// A stop of the gradient lies beyond 100 percent.
    InvalidStopPosition { index: usize, position: u8 },
    /// No gradient is marked active.
    NoActiveGradient,
}

/// The monitor setting used when the configuration names none.
pub fn default_monitor() -> (r: String)
    ensures
        r@ == "all"@,
{
    String::from_str("all")
}

/// The texture resolution used when the configuration names none.
pub fn default_texture_resolution() -> (r: u32)
    ensures
        r == 256,
{
    256
}

/// Whether an IEEE-754 single-precision bit pattern is a finite number:
/// its exponent field is not all ones.
pub open spec fn finite_bits(bits: u32) -> bool {
    (bits >> 23u32) & 0xffu32 != 0xffu32
}

/// The position of the first stop at or after `i` that lies beyond 100 percent.
pub open spec fn first_bad_position(stops: Seq<Stop>, i: int) -> Option<u8>
    decreases stops.len() - i,
{
    if i < 0 || i >= stops.len() {
        None
    } else if stops[i].position > 100 {
        Some(stops[i].position)
    } else {
        first_bad_position(stops, i + 1)
    }
}

/// What is wrong with gradient number `index`, checked in the order: name,
/// stops, direction, stop positions.
pub open spec fn gradient_error(g: GradientSpec, index: usize) -> Option<ConfigError> {
    if trimmed(g.name).len() == 0 {
        Some(ConfigError::EmptyName { index })
    } else if g.stops.len() == 0 {
        Some(ConfigError::NoStops { index })
    } else if !finite_bits(g.direction_bits) {
        Some(ConfigError::InvalidDirection { index })
    } else {
        match first_bad_position(g.stops, 0) {
            Some(position) => Some(ConfigError::InvalidStopPosition { index, position }),
            None => None,
        }
    }
}

/// The error of the first faulty gradient at or after `i`.
pub open spec fn first_gradient_error(gs: Seq<GradientSpec>, i: int) -> Option<ConfigError>
    decreases gs.len() - i,
{
    if i < 0 || i >= gs.len() {
        None
    } else {
        match gradient_error(gs[i], i as usize) {
            Some(e) => Some(e),
            None => first_gradient_error(gs, i + 1),
        }
    }
}

/// The first reason, if any, to refuse a configuration.
pub open spec fn validation_error(texture_resolution: u32, gs: Seq<GradientSpec>) -> Option<
    ConfigError,
> {
    if texture_resolution == 0 {
        Some(ConfigError::ZeroTextureResolution)
    } else if gs.len() == 0 {
        Some(ConfigError::NoGradients)
    } else {
        first_gradient_error(gs, 0)
    }
}

/// The result that validation owes for a given first error.
pub open spec fn as_validation_result(e: Option<ConfigError>) -> Result<(), ConfigError> {
    match e {
        Some(e) => Err(e),
        None => Ok(()),
    }
}

fn check_gradient(g: &GradientProfile, index: usize) -> (r: Option<ConfigError>)
    ensures
        r == gradient_error(g@, index),
{
    let t = trim(g.name.as_str());
    if t.as_str().is_empty() {
        return Some(ConfigError::EmptyName { index });
    }
    if g.stops.len() == 0 {
        return Some(ConfigError::NoStops { index });
    }
    if (g.direction_bits >> 23u32) & 0xffu32 == 0xffu32 {
        return Some(ConfigError::InvalidDirection { index });
    }
    let n = g.stops.len();
    let mut i: usize = 0;
    while i < n
        invariant
            n == g.stops@.len(),
            n > 0,
            i <= n,
            trimmed(g.name@).len() != 0,
            finite_bits(g.direction_bits),
            first_bad_position(g.stops@, 0) == first_bad_position(g.stops@, i as int),
        decreases n - i,
    {
        let p = g.stops[i].position;
        if p > 100 {
            assert(first_bad_position(g.stops@, i as int) == Some(p));
            return Some(ConfigError::InvalidStopPosition { index, position: p });
        }
        i = i + 1;
    }
    None
}

/// `p` lists each index below `n` exactly once.
pub open spec fn is_index_permutation(p: Seq<int>, n: nat) -> bool {
    &&& p.len() == n
    &&& forall|i: int| 0 <= i < n ==> 0 <= #[trigger] p[i] < n
    &&& forall|i: int, j: int| 0 <= i < n && 0 <= j < n && i != j ==> p[i] != p[j]
}

/// `a` holds the elements of `b`, rearranged.
pub open spec fn is_permutation<T>(a: Seq<T>, b: Seq<T>) -> bool {
    &&& a.len() == b.len()
    &&& exists|p: Seq<int>|
        is_index_permutation(p, a.len()) && forall|i: int|
            0 <= i < a.len() ==> #[trigger] a[i] == b[p[i]]
}

/// `g` with its stops ordered by position.
pub open spec fn with_sorted_stops(g: GradientSpec) -> GradientSpec {
    GradientSpec {
        name: g.name,
        active: g.active,
        gradient_type: g.gradient_type,
        direction_bits: g.direction_bits,
        stops: sort_by_position(g.stops),
    }
}

/// The active gradients of `gs`, in order, each with its stops ordered by
/// position.
pub open spec fn prepared_gradients(gs: Seq<GradientSpec>) -> Seq<GradientSpec>
    decreases gs.len(),
{
    if gs.len() == 0 {
        Seq::empty()
    } else if gs.last().active {
        prepared_gradients(gs.drop_last()).push(with_sorted_stops(gs.last()))
    } else {
        prepared_gradients(gs.drop_last())
    }
}

/// Calls `rand::seq::SliceRandom::shuffle` with the thread-local generator of
/// `rand::rng`. Claimed: the vector afterwards holds the same elements,
/// rearranged (the shuffle only swaps elements). Which arrangement comes out
/// depends on chance and is left unsaid. `rand::rng` panics only when the
/// operating system's random source fails at first seeding.
#[verifier::external_body]
fn shuffle_gradients(pool: &mut Vec<GradientProfile>)
    ensures
        is_permutation(final(pool)@, old(pool)@),
{
    pool.shuffle(&mut rand::rng());
}

proof fn lemma_permutation_views(a: Seq<GradientProfile>, b: Seq<GradientProfile>)
    requires
        is_permutation(a, b),
    ensures
        is_permutation(gradient_views(a), gradient_views(b)),
{
    let p = choose|p: Seq<int>|
        is_index_permutation(p, a.len()) && forall|i: int|
            0 <= i < a.len() ==> #[trigger] a[i] == b[p[i]];
    assert forall|i: int| 0 <= i < a.len() implies #[trigger] gradient_views(a)[i] == gradient_views(
        b,
    )[p[i]] by {
        assert(a[i] == b[p[i]]);
    }
}

fn copy_profile_sorted(g: &GradientProfile) -> (r: GradientProfile)
    ensures
        r@ == with_sorted_stops(g@),
{
    GradientProfile {
        name: g.name.clone(),
        active: g.active,
        gradient_type: g.gradient_type,
        direction_bits: g.direction_bits,
        stops: sort_stops(&g.stops),
    }
}

impl Config {
    /// Check the configuration; the error names the first problem found.
    pub fn validate(&self) -> (r: Result<(), ConfigError>)
        ensures
            r == as_validation_result(
                validation_error(self.settings.texture_resolution, gradient_views(self.gradients@)),
            ),
            (r is Ok) == config_acceptable(
                self.settings.texture_resolution,
                gradient_views(self.gradients@),
            ),
            r matches Err(e) ==> error_explained(
                self.settings.texture_resolution,
                gradient_views(self.gradients@),
                e,
            ),
    {
        let _len = self.gradients.len();
        proof {
            lemma_validation_error_meaning(
                self.settings.texture_resolution,
                gradient_views(self.gradients@),
            );
        }
        if self.settings.texture_resolution == 0 {
            return Err(ConfigError::ZeroTextureResolution);
        }
        let n = self.gradients.len();
        if n == 0 {
            return Err(ConfigError::NoGradients);
        }
        let ghost gs = gradient_views(self.gradients@);
        let mut i: usize = 0;
        while i < n
            invariant
                n == self.gradients@.len(),
                n > 0,
                self.settings.texture_resolution != 0,
                (validation_error(self.settings.texture_resolution, gs) is None) == config_acceptable(
                    self.settings.texture_resolution,
                    gs,
                ),
                validation_error(self.settings.texture_resolution, gs) matches Some(e)
                    ==> error_explained(self.settings.texture_resolution, gs, e),
                gs == gradient_views(self.gradients@),
                i <= n,
                first_gradient_error(gs, 0) == first_gradient_error(gs, i as int),
            decreases n - i,
        {
            assert(gs[i as int] == self.gradients@[i as int]@);
            match check_gradient(&self.gradients[i], i) {
                Some(e) => {
                    return Err(e);
                },
                None => {},
            }
            i = i + 1;
        }
        Ok(())
    }

    /// The gradients to cycle through: the active ones, each with its stops
    /// ordered by position (stable), in configuration order, or shuffled when
    /// `randomize` is set. Fails when no gradient is active.
    pub fn active_gradients(&self) -> (r: Result<Vec<GradientProfile>, ConfigError>)
        ensures
            match r {
                Err(e) => e == ConfigError::NoActiveGradient && prepared_gradients(
                    gradient_views(self.gradients@),
                ).len() == 0,
                Ok(pool) => {
                    let want = prepared_gradients(gradient_views(self.gradients@));
                    &&& want.len() > 0
                    &&& !self.settings.randomize ==> gradient_views(pool@) == want
                    &&& self.settings.randomize ==> is_permutation(gradient_views(pool@), want)
                    &&& pool@.len() == active_of(gradient_views(self.gradients@)).len()
                    &&& !self.settings.randomize ==> forall|i: int|
                        0 <= i < pool@.len() ==> prepared_from(
                            #[trigger] gradient_views(pool@)[i],
                            active_of(gradient_views(self.gradients@))[i],
                        )
                },
            },
    {
        proof {
            lemma_prepared_rearranges_stops(gradient_views(self.gradients@));
        }
        let ghost gs = gradient_views(self.gradients@);
        let n = self.gradients.len();
        let mut pool: Vec<GradientProfile> = Vec::new();
        let mut i: usize = 0;
        while i < n
            invariant
                n == self.gradients@.len(),
                gs == gradient_views(self.gradients@),
                i <= n,
                gradient_views(pool@) == prepared_gradients(gs.take(i as int)),
            decreases n - i,
        {
            proof {
                let t = gs.take(i + 1);
                assert(t.drop_last() =~= gs.take(i as int));
                assert(t.last() == self.gradients@[i as int]@);
            }
            if self.gradients[i].active {
                let g = copy_profile_sorted(&self.gradients[i]);
                let ghost before = pool@;
                pool.push(g);
                assert(gradient_views(pool@) =~= gradient_views(before).push(g@));
            }
            i = i + 1;
        }
        assert(gs.take(n as int) =~= gs);
        if pool.len() == 0 {
            return Err(ConfigError::NoActiveGradient);
        }
        if self.settings.randomize {
            let ghost before = pool@;
            shuffle_gradients(&mut pool);
            proof {
                lemma_permutation_views(pool@, before);
            }
        }
        Ok(pool)
    }

    /// The number of seconds each gradient stays on screen.
    pub fn cycle_interval(&self) -> (r: u64)
        ensures
            r == self.settings.cycle_interval,
    {
        self.settings.cycle_interval
    }

    /// The side length, in pixels, of the square gradient texture.
    pub fn texture_resolution(&self) -> (r: u32)
        ensures
            r == self.settings.texture_resolution,
    {
        self.settings.texture_resolution
    }
}

proof fn lemma_no_bad_position(stops: Seq<Stop>, i: int)
    requires
        0 <= i,
        first_bad_position(stops, i) is None,
    ensures
        forall|j: int| i <= j < stops.len() ==> #[trigger] stops[j].position <= 100,
    decreases stops.len() - i,
{
    if i < stops.len() {
        lemma_no_bad_position(stops, i + 1);
    }
}

proof fn lemma_no_gradient_error(gs: Seq<GradientSpec>, i: int)
    requires
        0 <= i,
        first_gradient_error(gs, i) is None,
    ensures
        forall|k: int| i <= k < gs.len() ==> #[trigger] gradient_error(gs[k], k as usize) is None,
    decreases gs.len() - i,
{
    if i < gs.len() {
        lemma_no_gradient_error(gs, i + 1);
    }
}

/// A configuration that passes validation has a nonzero texture resolution
/// and at least one gradient, and every gradient has a name that is not
/// blank, at least one stop, a finite direction, and stops within 100 percent.
pub proof fn lemma_valid_config(texture_resolution: u32, gs: Seq<GradientSpec>)
    requires
        validation_error(texture_resolution, gs) is None,
    ensures
        texture_resolution != 0,
        gs.len() > 0,
        forall|k: int|
            0 <= k < gs.len() ==> {
                &&& trimmed(#[trigger] gs[k].name).len() > 0
                &&& gs[k].stops.len() > 0
                &&& finite_bits(gs[k].direction_bits)
                &&& forall|j: int| 0 <= j < gs[k].stops.len() ==> gs[k].stops[j].position <= 100
            },
{
    lemma_no_gradient_error(gs, 0);
    assert forall|k: int| 0 <= k < gs.len() implies {
        &&& trimmed(#[trigger] gs[k].name).len() > 0
        &&& gs[k].stops.len() > 0
        &&& finite_bits(gs[k].direction_bits)
        &&& forall|j: int| 0 <= j < gs[k].stops.len() ==> gs[k].stops[j].position <= 100
    } by {
        assert(gradient_error(gs[k], k as usize) is None);
        lemma_no_bad_position(gs[k].stops, 0);
    }
}

/// The gradients to cycle through are all active, each has its stops in
/// order of position, and there are as many as there are active gradients
/// in the configuration.
pub proof fn lemma_prepared_gradients(gs: Seq<GradientSpec>)
    ensures
        forall|i: int|
            0 <= i < prepared_gradients(gs).len() ==> (#[trigger] prepared_gradients(gs)[i]).active
                && positions_ordered(prepared_gradients(gs)[i].stops),
        prepared_gradients(gs).len() == gs.filter(|g: GradientSpec| g.active).len(),
    decreases gs.len(),
{
    reveal(Seq::filter);
    if gs.len() > 0 {
        let t = gs.drop_last();
        lemma_prepared_gradients(t);
        lemma_sort_ordered(gs.last().stops);
        let p = prepared_gradients(gs);
        let q = prepared_gradients(t);
        assert forall|i: int| 0 <= i < p.len() implies (#[trigger] p[i]).active && positions_ordered(
            p[i].stops,
        ) by {
            if i < q.len() {
                assert(p[i] == q[i]);
            }
        }
    }
}

/// The conditions every gradient of an accepted configuration meets: a name
/// that is not blank, at least one stop, a finite direction, and no stop
/// beyond 100 percent. Stops may be listed in any order.
pub open spec fn gradient_acceptable(g: GradientSpec) -> bool {
    &&& trimmed(g.name).len() > 0
    &&& g.stops.len() > 0
    &&& finite_bits(g.direction_bits)
    &&& forall|j: int| 0 <= j < g.stops.len() ==> #[trigger] g.stops[j].position <= 100
}

/// The conditions of an accepted configuration.
pub open spec fn config_acceptable(texture_resolution: u32, gs: Seq<GradientSpec>) -> bool {
    &&& texture_resolution != 0
    &&& gs.len() > 0
    &&& forall|k: int| 0 <= k < gs.len() ==> #[trigger] gradient_acceptable(gs[k])
}

/// Gradient `g`, number `index`, is refused with `e`: the reason that `e`
/// names holds of `g`, and the checks made before it passed.
pub open spec fn gradient_refusal(g: GradientSpec, index: usize, e: ConfigError) -> bool {
    match e {
        ConfigError::EmptyName { index: i } => i == index && trimmed(g.name).len() == 0,
        ConfigError::NoStops { index: i } => i == index && trimmed(g.name).len() > 0
            && g.stops.len() == 0,
        ConfigError::InvalidDirection { index: i } => i == index && trimmed(g.name).len() > 0
            && g.stops.len() > 0 && !finite_bits(g.direction_bits),
        ConfigError::InvalidStopPosition { index: i, position } => {
            &&& i == index
            &&& trimmed(g.name).len() > 0
            &&& g.stops.len() > 0
            &&& finite_bits(g.direction_bits)
            &&& position > 100
            &&& exists|j: int|
                0 <= j < g.stops.len() && #[trigger] g.stops[j].position == position && forall|
                    m: int,
                | 0 <= m < j ==> #[trigger] g.stops[m].position <= 100
        },
        _ => false,
    }
}

/// Gradient `index` is the first refused one, and `e` says why.
pub open spec fn refused_at(
    texture_resolution: u32,
    gs: Seq<GradientSpec>,
    index: int,
    e: ConfigError,
) -> bool {
    &&& texture_resolution != 0
    &&& 0 <= index < gs.len()
    &&& forall|k: int| 0 <= k < index ==> #[trigger] gradient_acceptable(gs[k])
    &&& gradient_refusal(gs[index], index as usize, e)
}

/// A refusal with `e` is justified: its reason holds and every earlier check
/// passed.
pub open spec fn error_explained(texture_resolution: u32, gs: Seq<GradientSpec>, e: ConfigError) -> bool {
    match e {
        ConfigError::ZeroTextureResolution => texture_resolution == 0,
        ConfigError::NoGradients => texture_resolution != 0 && gs.len() == 0,
        ConfigError::EmptyName { index } => refused_at(texture_resolution, gs, index as int, e),
        ConfigError::NoStops { index } => refused_at(texture_resolution, gs, index as int, e),
        ConfigError::InvalidDirection { index } => refused_at(
            texture_resolution,
            gs,
            index as int,
            e,
        ),
        ConfigError::InvalidStopPosition { index, position } => refused_at(
            texture_resolution,
            gs,
            index as int,
            e,
        ),
        ConfigError::NoActiveGradient => false,
    }
}

/// The first stop beyond 100 percent: none exactly when every stop is within
/// 100 percent; otherwise its position is above 100 and every earlier stop
/// is within 100 percent, whatever order the stops are listed in.
pub proof fn lemma_first_bad_position(stops: Seq<Stop>, i: int)
    requires
        0 <= i,
    ensures
        match first_bad_position(stops, i) {
            None => forall|j: int| i <= j < stops.len() ==> #[trigger] stops[j].position <= 100,
            Some(p) => p > 100 && exists|j: int|
                i <= j < stops.len() && #[trigger] stops[j].position == p && forall|m: int|
                    i <= m < j ==> #[trigger] stops[m].position <= 100,
        },
    decreases stops.len() - i,
{
    if i < stops.len() && stops[i].position <= 100 {
        lemma_first_bad_position(stops, i + 1);
        match first_bad_position(stops, i + 1) {
            Some(p) => {
                let j = choose|j: int|
                    i + 1 <= j < stops.len() && #[trigger] stops[j].position == p && forall|m: int|
                        i + 1 <= m < j ==> #[trigger] stops[m].position <= 100;
                assert forall|m: int| i <= m < j implies #[trigger] stops[m].position <= 100 by {
                    if m > i {
                        assert(stops[m].position <= 100);
                    }
                }
            },
            None => {},
        }
    } else if i < stops.len() {
        assert(stops[i].position == stops[i].position);
    }
}

proof fn lemma_gradient_error_meaning(g: GradientSpec, index: usize)
    ensures
        (gradient_error(g, index) is None) == gradient_acceptable(g),
        gradient_error(g, index) matches Some(e) ==> gradient_refusal(g, index, e),
{
    lemma_first_bad_position(g.stops, 0);
    match first_bad_position(g.stops, 0) {
        Some(p) => {
            let j = choose|j: int|
                0 <= j < g.stops.len() && #[trigger] g.stops[j].position == p && forall|m: int|
                    0 <= m < j ==> #[trigger] g.stops[m].position <= 100;
            assert(g.stops[j].position > 100);
        },
        None => {},
    }
}

proof fn lemma_first_gradient_error_from(gs: Seq<GradientSpec>, i: int)
    requires
        0 <= i,
    ensures
        match first_gradient_error(gs, i) {
            None => forall|k: int| i <= k < gs.len() ==> #[trigger] gradient_acceptable(gs[k]),
            Some(e) => exists|index: int|
                i <= index < gs.len() && #[trigger] gradient_refusal(gs[index], index as usize, e)
                    && forall|k: int| i <= k < index ==> #[trigger] gradient_acceptable(gs[k]),
        },
    decreases gs.len() - i,
{
    if i < gs.len() {
        lemma_gradient_error_meaning(gs[i], i as usize);
        if gradient_error(gs[i], i as usize) is None {
            lemma_first_gradient_error_from(gs, i + 1);
            match first_gradient_error(gs, i + 1) {
                Some(e) => {
                    let index = choose|index: int|
                        i + 1 <= index < gs.len() && #[trigger] gradient_refusal(
                            gs[index],
                            index as usize,
                            e,
                        ) && forall|k: int| i + 1 <= k < index ==> #[trigger] gradient_acceptable(gs[k]);
                    assert forall|k: int| i <= k < index implies #[trigger] gradient_acceptable(gs[k]) by {
                        if k > i {
                            assert(gradient_acceptable(gs[k]));
                        }
                    }
                },
                None => {
                    assert forall|k: int| i <= k < gs.len() implies #[trigger] gradient_acceptable(gs[k]) by {
                        if k > i {
                            assert(gradient_acceptable(gs[k]));
                        }
                    }
                },
            }
        } else {
            let e = gradient_error(gs[i], i as usize).unwrap();
            assert(gradient_refusal(gs[i], i as usize, e));
        }
    }
}

/// Validation refuses a configuration exactly when it breaks one of the
/// conditions of the format, and a refusal names the first broken condition:
/// its reason holds and every check before it passed.
pub proof fn lemma_validation_error_meaning(texture_resolution: u32, gs: Seq<GradientSpec>)
    requires
        gs.len() <= usize::MAX,
    ensures
        (validation_error(texture_resolution, gs) is None) == config_acceptable(texture_resolution, gs),
        validation_error(texture_resolution, gs) matches Some(e) ==> error_explained(
            texture_resolution,
            gs,
            e,
        ),
{
    if texture_resolution != 0 && gs.len() > 0 {
        lemma_first_gradient_error_from(gs, 0);
        match first_gradient_error(gs, 0) {
            Some(e) => {
                let index = choose|index: int|
                    0 <= index < gs.len() && #[trigger] gradient_refusal(gs[index], index as usize, e)
                        && forall|k: int| 0 <= k < index ==> #[trigger] gradient_acceptable(gs[k]);
                assert(!gradient_acceptable(gs[index])) by {
                    lemma_gradient_error_meaning(gs[index], index as usize);
                    assert(gradient_refusal(gs[index], index as usize, e));
                    lemma_refusal_not_acceptable(gs[index], index as usize, e);
                }
                assert(refused_at(texture_resolution, gs, index, e));
            },
            None => {},
        }
    }
}

proof fn lemma_refusal_not_acceptable(g: GradientSpec, index: usize, e: ConfigError)
    requires
        gradient_refusal(g, index, e),
    ensures
        !gradient_acceptable(g),
{
    match e {
        ConfigError::InvalidStopPosition { index: i, position } => {
            let j = choose|j: int|
                0 <= j < g.stops.len() && #[trigger] g.stops[j].position == position && forall|m: int|
                    0 <= m < j ==> #[trigger] g.stops[m].position <= 100;
            assert(g.stops[j].position > 100);
        },
        _ => {},
    }
}

/// The active gradients of `gs`, in order.
pub open spec fn active_of(gs: Seq<GradientSpec>) -> Seq<GradientSpec> {
    gs.filter(|g: GradientSpec| g.active)
}

/// `p` is the active gradient `a` made ready for display: the same name,
/// type and direction, and the same stops (each as often as in `a`),
/// ordered by position, with stops of equal position in their order in `a`.
pub open spec fn prepared_from(p: GradientSpec, a: GradientSpec) -> bool {
    &&& p.name == a.name
    &&& p.active && a.active
    &&& p.gradient_type == a.gradient_type
    &&& p.direction_bits == a.direction_bits
    &&& p.stops.to_multiset() == a.stops.to_multiset()
    &&& positions_ordered(p.stops)
    &&& forall|pos: u8| #[trigger] with_position(p.stops, pos) == with_position(a.stops, pos)
}

/// Preparing the gradients keeps exactly the active ones, in order, and only
/// reorders each one's stops by position: no stop is added, dropped or
/// altered.
pub proof fn lemma_prepared_rearranges_stops(gs: Seq<GradientSpec>)
    ensures
        prepared_gradients(gs).len() == active_of(gs).len(),
        forall|i: int|
            0 <= i < prepared_gradients(gs).len() ==> prepared_from(
                #[trigger] prepared_gradients(gs)[i],
                active_of(gs)[i],
            ),
    decreases gs.len(),
{
    reveal(Seq::filter);
    if gs.len() > 0 {
        let t = gs.drop_last();
        let last = gs.last();
        lemma_prepared_rearranges_stops(t);
        let p = prepared_gradients(gs);
        let q = prepared_gradients(t);
        let a = active_of(gs);
        let b = active_of(t);
        assert(gs.filter(|g: GradientSpec| g.active) == if last.active {
            t.filter(|g: GradientSpec| g.active).push(last)
        } else {
            t.filter(|g: GradientSpec| g.active)
        });
        if last.active {
            lemma_sort_permutes(last.stops);
            lemma_sort_ordered(last.stops);
            assert forall|pos: u8| #[trigger] with_position(sort_by_position(last.stops), pos)
                == with_position(last.stops, pos) by {
                lemma_sort_stable(last.stops, pos);
            }
            assert(prepared_from(p[p.len() - 1], a[a.len() - 1]));
            assert forall|i: int| 0 <= i < p.len() implies prepared_from(#[trigger] p[i], a[i]) by {
                if i < q.len() {
                    assert(p[i] == q[i]);
                    assert(a[i] == b[i]);
                    assert(prepared_from(q[i], b[i]));
                }
            }
        } else {
            assert forall|i: int| 0 <= i < p.len() implies prepared_from(#[trigger] p[i], a[i]) by {
                assert(prepared_from(q[i], b[i]));
            }
        }
    }
}

} // verus!
