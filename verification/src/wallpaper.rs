//! Bookkeeping of the wallpaper surfaces: one per output, with its layer
//! surface and configured size, the gradient to show, and the decisions of
//! when the gradient texture is rendered and which surfaces are drawn.
use vstd::prelude::*;

use crate::config::{GradientProfile, GradientSpec};

verus! {

/// The surface of one output: the output's key, the key of its layer
/// surface, and the size the compositor configured (zero until then).
#[derive(Debug, Clone, Copy)]
pub struct OutputSlot {
    pub output: u64,
    pub layer: u64,
    pub width: u32,
    pub height: u32,
}

/// A surface to draw, with its size.
#[derive(Debug, Clone, Copy)]
pub struct DrawTarget {
    pub output: u64,
    pub width: u32,
    pub height: u32,
}

/// Render `gradient` into the texture with the surface of output `current`
/// made current, then draw the texture on each of `draws`.
#[derive(Debug)]
pub struct RenderPass {
    pub current: u64,
    pub gradient: GradientProfile,
    pub draws: Vec<DrawTarget>,
}

/// What a configure event of a layer surface asks for. Every variant but
/// `Ignore` first resizes the output's window to the target's size.
#[derive(Debug)]
pub enum ConfigureAction {
    /// The layer surface belongs to no known output.
    Ignore,
    /// Resize only.
    Resize(DrawTarget),
    /// Resize, then render the gradient and draw every sized surface.
    Render(DrawTarget, RenderPass),
    /// Resize, then draw the existing texture on this surface.
    Draw(DrawTarget),
}

/// The draw target of a slot.
pub open spec fn target_of(s: OutputSlot) -> DrawTarget {
    DrawTarget { output: s.output, width: s.width, height: s.height }
}

/// The surfaces of `s` that have a size, in order.
pub open spec fn drawable(s: Seq<OutputSlot>) -> Seq<DrawTarget>
    decreases s.len(),
{
    if s.len() == 0 {
        Seq::empty()
    } else if s.last().width != 0 && s.last().height != 0 {
        drawable(s.drop_last()).push(target_of(s.last()))
    } else {
        drawable(s.drop_last())
    }
}

/// The index of the first slot at or after `i` whose layer surface is `layer`.
pub open spec fn find_layer(s: Seq<OutputSlot>, layer: u64, i: int) -> Option<int>
    decreases s.len() - i,
{
    if i < 0 || i >= s.len() {
        None
    } else if s[i].layer == layer {
        Some(i)
    } else {
        find_layer(s, layer, i + 1)
    }
}

/// Whether some slot belongs to `output`.
pub open spec fn has_output_spec(s: Seq<OutputSlot>, output: u64) -> bool {
    exists|i: int| 0 <= i < s.len() && #[trigger] s[i].output == output
}

/// No two slots belong to the same output.
pub open spec fn outputs_distinct(s: Seq<OutputSlot>) -> bool {
    forall|i: int, j: int| 0 <= i < s.len() && 0 <= j < s.len() && i != j ==> s[i].output != s[j].output
}

/// The index of the first slot at or after `i` that belongs to `output`.
pub open spec fn find_output(s: Seq<OutputSlot>, output: u64, i: int) -> Option<int>
    decreases s.len() - i,
{
    if i < 0 || i >= s.len() {
        None
    } else if s[i].output == output {
        Some(i)
    } else {
        find_output(s, output, i + 1)
    }
}

proof fn lemma_remove_distinct(s: Seq<OutputSlot>, k: int)
    requires
        outputs_distinct(s),
        0 <= k < s.len(),
    ensures
        outputs_distinct(s.remove(k)),
{
    let r = s.remove(k);
    assert forall|i: int, j: int|
        0 <= i < r.len() && 0 <= j < r.len() && i != j implies r[i].output != r[j].output by {
        let i2 = if i < k { i } else { i + 1 };
        let j2 = if j < k { j } else { j + 1 };
        assert(r[i] == s[i2]);
        assert(r[j] == s[j2]);
    }
}

proof fn lemma_update_distinct(s: Seq<OutputSlot>, k: int, x: OutputSlot)
    requires
        outputs_distinct(s),
        0 <= k < s.len(),
        x.output == s[k].output,
    ensures
        outputs_distinct(s.update(k, x)),
{
    let r = s.update(k, x);
    assert forall|i: int, j: int|
        0 <= i < r.len() && 0 <= j < r.len() && i != j implies r[i].output != r[j].output by {
        assert(r[i].output == s[i].output);
        assert(r[j].output == s[j].output);
    }
}

/// The gradient to show, as a value.
pub open spec fn gradient_option_view(g: Option<GradientProfile>) -> Option<GradientSpec> {
    match g {
        Some(g) => Some(g@),
        None => None,
    }
}

/// A render pass over `outputs` for gradient `g`.
pub open spec fn pass_ok(p: RenderPass, outputs: Seq<OutputSlot>, g: GradientSpec) -> bool {
    &&& outputs.len() > 0
    &&& p.current == outputs[0].output
    &&& p.gradient@ == g
    &&& p.draws@ == drawable(outputs)
}

/// The surfaces of all outputs, and what is shown on them.
pub struct Presenter {
    outputs: Vec<OutputSlot>,
    current_gradient: Option<GradientProfile>,
    texture_ready: bool,
}

impl Presenter {
    /// The slots, in the order their outputs appeared.
    pub closed spec fn slots(&self) -> Seq<OutputSlot> {
        self.outputs@
    }

    /// The gradient to show, once one has been set.
    pub closed spec fn gradient(&self) -> Option<GradientSpec> {
        gradient_option_view(self.current_gradient)
    }

    /// Whether the gradient texture has been rendered.
    pub closed spec fn ready(&self) -> bool {
        self.texture_ready
    }

    /// Each output has at most one slot.
    pub open spec fn wf(&self) -> bool {
        outputs_distinct(self.slots())
    }

    /// No outputs, no gradient, no texture.
    pub fn new() -> (r: Self)
        ensures
            r.wf(),
            r.slots() == Seq::<OutputSlot>::empty(),
            r.gradient() is None,
            !r.ready(),
    {
        Presenter { outputs: Vec::new(), current_gradient: None, texture_ready: false }
    }

    /// Whether the texture has been rendered.
    pub fn texture_ready(&self) -> (r: bool)
        ensures
            r == self.ready(),
    {
        self.texture_ready
    }

    /// The number of outputs.
    pub fn output_count(&self) -> (r: usize)
        ensures
            r == self.slots().len(),
    {
        self.outputs.len()
    }

    /// Whether `output` already has a surface.
    pub fn has_output(&self, output: u64) -> (r: bool)
        ensures
            r == has_output_spec(self.slots(), output),
    {
        let n = self.outputs.len();
        let mut i: usize = 0;
        while i < n
            invariant
                n == self.outputs@.len(),
                i <= n,
                forall|j: int| 0 <= j < i ==> self.outputs@[j].output != output,
            decreases n - i,
        {
            if self.outputs[i].output == output {
                return true;
            }
            i = i + 1;
        }
        false
    }

    /// Record the surface of a new output, not yet sized.
    pub fn insert_output(&mut self, output: u64, layer: u64)
        requires
            old(self).wf(),
            !has_output_spec(old(self).slots(), output),
        ensures
            final(self).wf(),
            final(self).slots() == old(self).slots().push(
                OutputSlot { output, layer, width: 0, height: 0 },
            ),
            final(self).gradient() == old(self).gradient(),
            final(self).ready() == old(self).ready(),
    {
        self.outputs.push(OutputSlot { output, layer, width: 0, height: 0 });
        proof {
            let s = self.outputs@;
            assert forall|i: int, j: int|
                0 <= i < s.len() && 0 <= j < s.len() && i != j implies s[i].output
                != s[j].output by {
                if i == s.len() - 1 {
                    assert(old(self).slots()[j] == s[j]);
                } else if j == s.len() - 1 {
                    assert(old(self).slots()[i] == s[i]);
                } else {
                    assert(old(self).slots()[i] == s[i]);
                    assert(old(self).slots()[j] == s[j]);
                }
            }
        }
    }

    fn find_output_index(&self, output: u64) -> (r: Option<usize>)
        ensures
            r matches Some(k) ==> find_output(self.slots(), output, 0) == Some(k as int),
            r is None ==> find_output(self.slots(), output, 0) is None,
    {
        let n = self.outputs.len();
        let mut i: usize = 0;
        while i < n
            invariant
                n == self.outputs@.len(),
                i <= n,
                find_output(self.outputs@, output, 0) == find_output(self.outputs@, output, i as int),
            decreases n - i,
        {
            if self.outputs[i].output == output {
                return Some(i);
            }
            i = i + 1;
        }
        None
    }

    fn find_layer_index(&self, layer: u64) -> (r: Option<usize>)
        ensures
            r matches Some(k) ==> find_layer(self.slots(), layer, 0) == Some(k as int),
            r is None ==> find_layer(self.slots(), layer, 0) is None,
    {
        let n = self.outputs.len();
        let mut i: usize = 0;
        while i < n
            invariant
                n == self.outputs@.len(),
                i <= n,
                find_layer(self.outputs@, layer, 0) == find_layer(self.outputs@, layer, i as int),
            decreases n - i,
        {
            if self.outputs[i].layer == layer {
                return Some(i);
            }
            i = i + 1;
        }
        None
    }

    fn render_pass(&self, gradient: GradientProfile) -> (p: RenderPass)
        requires
            self.slots().len() > 0,
        ensures
            pass_ok(p, self.slots(), gradient@),
    {
        let ghost g = gradient@;
        let n = self.outputs.len();
        let mut draws: Vec<DrawTarget> = Vec::new();
        let mut i: usize = 0;
        while i < n
            invariant
                n == self.outputs@.len(),
                i <= n,
                draws@ == drawable(self.outputs@.take(i as int)),
            decreases n - i,
        {
            let slot = self.outputs[i];
            proof {
                let t = self.outputs@.take(i + 1);
                assert(t.drop_last() =~= self.outputs@.take(i as int));
                assert(t.last() == slot);
            }
            if slot.width != 0 && slot.height != 0 {
                draws.push(DrawTarget { output: slot.output, width: slot.width, height: slot.height });
            }
            i = i + 1;
        }
        assert(self.outputs@.take(n as int) =~= self.outputs@);
        RenderPass { current: self.outputs[0].output, gradient, draws }
    }

    /// Show `gradient` from now on. With outputs present, the texture is
    /// rendered and every sized surface drawn; otherwise that waits for the
    /// first configure.
    pub fn set_gradient(&mut self, gradient: GradientProfile) -> (r: Option<RenderPass>)
        requires
            old(self).wf(),
        ensures
            final(self).wf(),
            final(self).slots() == old(self).slots(),
            final(self).gradient() == Some(gradient@),
            old(self).slots().len() == 0 ==> r is None && final(self).ready() == old(self).ready(),
            old(self).slots().len() > 0 ==> final(self).ready() && (r matches Some(p) && pass_ok(
                p,
                old(self).slots(),
                gradient@,
            )),
    {
        self.current_gradient = Some(gradient.clone());
        if self.outputs.len() == 0 {
            return None;
        }
        self.texture_ready = true;
        Some(self.render_pass(gradient))
    }

    /// The compositor configured layer surface `layer` at the given size.
    /// The first sized configure renders the gradient (if one is set);
    /// later ones draw the existing texture at the new size.
    pub fn configure(&mut self, layer: u64, width: u32, height: u32) -> (r: ConfigureAction)
        requires
            old(self).wf(),
        ensures
            final(self).wf(),
            final(self).gradient() == old(self).gradient(),
            (r is Ignore) == !has_layer_spec(old(self).slots(), layer),
            !(r is Ignore) ==> final(self).slots().len() == old(self).slots().len(),
            match find_layer(old(self).slots(), layer, 0) {
                None => {
                    &&& r is Ignore
                    &&& final(self).slots() == old(self).slots()
                    &&& final(self).ready() == old(self).ready()
                },
                Some(k) => {
                    let slot = old(self).slots()[k];
                    let sized = OutputSlot { output: slot.output, layer: slot.layer, width, height };
                    let target = DrawTarget { output: slot.output, width, height };
                    &&& final(self).slots() == old(self).slots().update(k, sized)
                    &&& if width == 0 || height == 0 {
                        r == ConfigureAction::Resize(target) && final(self).ready() == old(self).ready()
                    } else if old(self).ready() {
                        r == ConfigureAction::Draw(target) && final(self).ready()
                    } else {
                        match old(self).gradient() {
                            Some(g) => final(self).ready() && (r matches ConfigureAction::Render(
                                t,
                                p,
                            ) && t == target && pass_ok(p, final(self).slots(), g)),
                            None => r == ConfigureAction::Resize(target) && !final(self).ready(),
                        }
                    }
                },
            },
    {
        proof {
            lemma_find_layer_spec(self.outputs@, layer);
        }
        let k = match self.find_layer_index(layer) {
            Some(k) => k,
            None => {
                return ConfigureAction::Ignore;
            },
        };
        proof {
            lemma_find_layer_bounds(self.outputs@, layer, 0);
        }
        let slot = self.outputs[k];
        let sized = OutputSlot { output: slot.output, layer: slot.layer, width, height };
        proof {
            lemma_update_distinct(self.outputs@, k as int, sized);
        }
        self.outputs.set(k, sized);
        let target = DrawTarget { output: slot.output, width, height };
        if width == 0 || height == 0 {
            return ConfigureAction::Resize(target);
        }
        if self.texture_ready {
            return ConfigureAction::Draw(target);
        }
        match &self.current_gradient {
            Some(g) => {
                let g = g.clone();
                self.texture_ready = true;
                let p = self.render_pass(g);
                ConfigureAction::Render(target, p)
            },
            None => ConfigureAction::Resize(target),
        }
    }

    /// Forget the surface of an output that went away; says whether there
    /// was one.
    pub fn remove_output(&mut self, output: u64) -> (r: bool)
        requires
            old(self).wf(),
        ensures
            final(self).wf(),
            final(self).gradient() == old(self).gradient(),
            final(self).ready() == old(self).ready(),
            match find_output(old(self).slots(), output, 0) {
                Some(k) => r && final(self).slots() == old(self).slots().remove(k),
                None => !r && final(self).slots() == old(self).slots(),
            },
            r == has_output_spec(old(self).slots(), output),
            !has_output_spec(final(self).slots(), output),
            final(self).slots().len() == if r {
                old(self).slots().len() - 1
            } else {
                old(self).slots().len() as int
            },
            forall|x: u64|
                x != output ==> (has_output_spec(final(self).slots(), x) == has_output_spec(
                    old(self).slots(),
                    x,
                )),
    {
        proof {
            lemma_find_output_spec(self.outputs@, output);
        }
        match self.find_output_index(output) {
            Some(k) => {
                proof {
                    lemma_find_output_bounds(self.outputs@, output, 0);
                    lemma_remove_distinct(self.outputs@, k as int);
                    lemma_remove_drops_output(self.outputs@, k as int);
                    assert forall|x: u64| x != output implies (has_output_spec(
                        self.outputs@.remove(k as int),
                        x,
                    ) == has_output_spec(self.outputs@, x)) by {
                        lemma_remove_keeps_others(self.outputs@, k as int, x);
                    }
                }
                self.outputs.remove(k);
                true
            },
            None => false,
        }
    }

    /// Forget the surface whose layer surface the compositor closed; gives
    /// the output it belonged to.
    pub fn close_layer(&mut self, layer: u64) -> (r: Option<u64>)
        requires
            old(self).wf(),
        ensures
            final(self).wf(),
            final(self).gradient() == old(self).gradient(),
            final(self).ready() == old(self).ready(),
            match find_layer(old(self).slots(), layer, 0) {
                Some(k) => r == Some(old(self).slots()[k].output) && final(self).slots() == old(self).slots().remove(k),
                None => r is None && final(self).slots() == old(self).slots(),
            },
            (r is Some) == has_layer_spec(old(self).slots(), layer),
            r matches Some(o) ==> {
                &&& exists|i: int|
                    0 <= i < old(self).slots().len() && #[trigger] old(self).slots()[i].output == o
                        && old(self).slots()[i].layer == layer
                &&& !has_output_spec(final(self).slots(), o)
                &&& final(self).slots().len() == old(self).slots().len() - 1
                &&& forall|x: u64|
                    x != o ==> (has_output_spec(final(self).slots(), x) == has_output_spec(
                        old(self).slots(),
                        x,
                    ))
            },
    {
        proof {
            lemma_find_layer_spec(self.outputs@, layer);
        }
        match self.find_layer_index(layer) {
            Some(k) => {
                proof {
                    lemma_find_layer_bounds(self.outputs@, layer, 0);
                    lemma_remove_distinct(self.outputs@, k as int);
                    lemma_remove_drops_output(self.outputs@, k as int);
                    let o = self.outputs@[k as int].output;
                    assert forall|x: u64| x != o implies (has_output_spec(
                        self.outputs@.remove(k as int),
                        x,
                    ) == has_output_spec(self.outputs@, x)) by {
                        lemma_remove_keeps_others(self.outputs@, k as int, x);
                    }
                }
                let output = self.outputs[k].output;
                self.outputs.remove(k);
                Some(output)
            },
            None => None,
        }
    }
}

proof fn lemma_find_output_bounds(s: Seq<OutputSlot>, output: u64, i: int)
    ensures
        find_output(s, output, i) matches Some(k) ==> i <= k < s.len() && s[k].output == output,
    decreases s.len() - i,
{
    if 0 <= i < s.len() && s[i].output != output {
        lemma_find_output_bounds(s, output, i + 1);
    }
}

proof fn lemma_find_layer_bounds(s: Seq<OutputSlot>, layer: u64, i: int)
    ensures
        find_layer(s, layer, i) matches Some(k) ==> i <= k < s.len() && s[k].layer == layer,
    decreases s.len() - i,
{
    if 0 <= i < s.len() && s[i].layer != layer {
        lemma_find_layer_bounds(s, layer, i + 1);
    }
}

/// A slot that has a size.
pub open spec fn sized(x: OutputSlot) -> bool {
    x.width != 0 && x.height != 0
}

/// A render pass draws exactly the outputs that have a size: each of them,
/// and nothing else.
pub proof fn lemma_drawable(s: Seq<OutputSlot>)
    ensures
        forall|i: int| 0 <= i < s.len() && sized(s[i]) ==> drawable(s).contains(#[trigger] target_of(s[i])),
        forall|j: int|
            0 <= j < drawable(s).len() ==> exists|i: int|
                0 <= i < s.len() && sized(s[i]) && #[trigger] drawable(s)[j] == target_of(s[i]),
    decreases s.len(),
{
    if s.len() > 0 {
        let t = s.drop_last();
        lemma_drawable(t);
        let d = drawable(t);
        let r = drawable(s);
        assert forall|i: int| 0 <= i < s.len() && sized(s[i]) implies r.contains(
            #[trigger] target_of(s[i]),
        ) by {
            if i == s.len() - 1 {
                assert(r[r.len() - 1] == target_of(s[i]));
            } else {
                assert(t[i] == s[i]);
                assert(d.contains(target_of(t[i])));
                let m = choose|m: int| 0 <= m < d.len() && d[m] == target_of(t[i]);
                assert(r[m] == d[m]);
            }
        }
        assert forall|j: int| 0 <= j < r.len() implies exists|i: int|
            0 <= i < s.len() && sized(s[i]) && #[trigger] r[j] == target_of(s[i]) by {
            if j < d.len() {
                assert(r[j] == d[j]);
                let i = choose|i: int| 0 <= i < t.len() && sized(t[i]) && d[j] == target_of(t[i]);
                assert(t[i] == s[i]);
            } else {
                assert(r[j] == target_of(s[s.len() - 1]));
            }
        }
    }
}

/// Whether some slot's layer surface is `layer`.
pub open spec fn has_layer_spec(s: Seq<OutputSlot>, layer: u64) -> bool {
    exists|i: int| 0 <= i < s.len() && #[trigger] s[i].layer == layer
}

proof fn lemma_find_output_from(s: Seq<OutputSlot>, output: u64, i: int)
    requires
        0 <= i,
    ensures
        match find_output(s, output, i) {
            Some(k) => i <= k < s.len() && s[k].output == output && forall|j: int|
                i <= j < k ==> #[trigger] s[j].output != output,
            None => forall|j: int| i <= j < s.len() ==> #[trigger] s[j].output != output,
        },
    decreases s.len() - i,
{
    if i < s.len() && s[i].output != output {
        lemma_find_output_from(s, output, i + 1);
    }
}

/// Looking an output up finds its slot exactly when it has one, and then the
/// first slot that belongs to it.
pub proof fn lemma_find_output_spec(s: Seq<OutputSlot>, output: u64)
    ensures
        (find_output(s, output, 0) is Some) == has_output_spec(s, output),
        find_output(s, output, 0) matches Some(k) ==> 0 <= k < s.len() && s[k].output == output
            && forall|j: int| 0 <= j < k ==> #[trigger] s[j].output != output,
{
    lemma_find_output_from(s, output, 0);
    if has_output_spec(s, output) {
        let i = choose|i: int| 0 <= i < s.len() && #[trigger] s[i].output == output;
        assert(s[i].output == output);
    }
}

proof fn lemma_find_layer_from(s: Seq<OutputSlot>, layer: u64, i: int)
    requires
        0 <= i,
    ensures
        match find_layer(s, layer, i) {
            Some(k) => i <= k < s.len() && s[k].layer == layer && forall|j: int|
                i <= j < k ==> #[trigger] s[j].layer != layer,
            None => forall|j: int| i <= j < s.len() ==> #[trigger] s[j].layer != layer,
        },
    decreases s.len() - i,
{
    if i < s.len() && s[i].layer != layer {
        lemma_find_layer_from(s, layer, i + 1);
    }
}

/// Looking a layer surface up finds a slot exactly when one has it, and then
/// the first such slot.
pub proof fn lemma_find_layer_spec(s: Seq<OutputSlot>, layer: u64)
    ensures
        (find_layer(s, layer, 0) is Some) == has_layer_spec(s, layer),
        find_layer(s, layer, 0) matches Some(k) ==> 0 <= k < s.len() && s[k].layer == layer
            && forall|j: int| 0 <= j < k ==> #[trigger] s[j].layer != layer,
{
    lemma_find_layer_from(s, layer, 0);
    if has_layer_spec(s, layer) {
        let i = choose|i: int| 0 <= i < s.len() && #[trigger] s[i].layer == layer;
        assert(s[i].layer == layer);
    }
}

proof fn lemma_remove_drops_output(s: Seq<OutputSlot>, k: int)
    requires
        outputs_distinct(s),
        0 <= k < s.len(),
    ensures
        !has_output_spec(s.remove(k), s[k].output),
{
    let r = s.remove(k);
    if has_output_spec(r, s[k].output) {
        let i = choose|i: int| 0 <= i < r.len() && #[trigger] r[i].output == s[k].output;
        let i2 = if i < k { i } else { i + 1 };
        assert(r[i] == s[i2]);
    }
}

proof fn lemma_remove_keeps_others(s: Seq<OutputSlot>, k: int, x: u64)
    requires
        0 <= k < s.len(),
        x != s[k].output,
    ensures
        has_output_spec(s.remove(k), x) == has_output_spec(s, x),
{
    let r = s.remove(k);
    if has_output_spec(r, x) {
        let i = choose|i: int| 0 <= i < r.len() && #[trigger] r[i].output == x;
        let i2 = if i < k { i } else { i + 1 };
        assert(r[i] == s[i2]);
        assert(s[i2].output == x);
    }
    if has_output_spec(s, x) {
        let i = choose|i: int| 0 <= i < s.len() && #[trigger] s[i].output == x;
        assert(i != k);
        let i2 = if i < k { i } else { i - 1 };
        assert(r[i2] == s[i]);
        assert(r[i2].output == x);
    }
}

/// A render pass draws the outputs that have a size, each once, in the order
/// the outputs appeared, at their configured size.
pub proof fn lemma_drawable_in_order(s: Seq<OutputSlot>)
    ensures
        drawable(s) == s.filter(|x: OutputSlot| x.width != 0 && x.height != 0).map_values(
            |x: OutputSlot| DrawTarget { output: x.output, width: x.width, height: x.height },
        ),
    decreases s.len(),
{
    reveal(Seq::filter);
    if s.len() > 0 {
        let t = s.drop_last();
        lemma_drawable_in_order(t);
        let f = t.filter(|x: OutputSlot| x.width != 0 && x.height != 0);
        let mapped = f.map_values(
            |x: OutputSlot| DrawTarget { output: x.output, width: x.width, height: x.height },
        );
        let last = s.last();
        if last.width != 0 && last.height != 0 {
            assert(f.push(last).map_values(
                |x: OutputSlot| DrawTarget { output: x.output, width: x.width, height: x.height },
            ) =~= mapped.push(target_of(last)));
        }
    } else {
        assert(s.filter(|x: OutputSlot| x.width != 0 && x.height != 0).map_values(
            |x: OutputSlot| DrawTarget { output: x.output, width: x.width, height: x.height },
        ) =~= Seq::<DrawTarget>::empty());
    }
}

} // verus!
