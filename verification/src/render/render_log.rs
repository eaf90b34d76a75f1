//! Counters that one render pass fills in.

use vstd::prelude::*;
use vstd::std_specs::ops::AddSpecImpl;
use vstd::std_specs::ops::SubSpecImpl;

verus! {

/// The six counters of a render log, as numbers without a bound.
pub struct RenderLogView {
    /// The elements drawn: textures, meshes and texts together.
    pub elements: int,
    /// The textures among them.
    pub textures: int,
    /// The meshes among them.
    pub meshes: int,
    /// The texts among them.
    pub texts: int,
    /// The draw calls issued.
    pub draw_calls: int,
    /// The textures for which a substitute was drawn.
    pub textures_not_found: int,
}

impl RenderLogView {
    /// Every counter fits the machine's counter.
    pub open spec fn fits(self) -> bool {
        &&& i32::MIN <= self.elements <= i32::MAX
        &&& i32::MIN <= self.textures <= i32::MAX
        &&& i32::MIN <= self.meshes <= i32::MAX
        &&& i32::MIN <= self.texts <= i32::MAX
        &&& i32::MIN <= self.draw_calls <= i32::MAX
        &&& i32::MIN <= self.textures_not_found <= i32::MAX
    }

    /// Counter by counter, the sum of two logs.
    pub open spec fn plus(self, other: RenderLogView) -> RenderLogView {
        RenderLogView {
            elements: self.elements + other.elements,
            textures: self.textures + other.textures,
            meshes: self.meshes + other.meshes,
            texts: self.texts + other.texts,
            draw_calls: self.draw_calls + other.draw_calls,
            textures_not_found: self.textures_not_found + other.textures_not_found,
        }
    }

    /// Counter by counter, the difference of two logs.
    pub open spec fn minus(self, other: RenderLogView) -> RenderLogView {
        RenderLogView {
            elements: self.elements - other.elements,
            textures: self.textures - other.textures,
            meshes: self.meshes - other.meshes,
            texts: self.texts - other.texts,
            draw_calls: self.draw_calls - other.draw_calls,
            textures_not_found: self.textures_not_found - other.textures_not_found,
        }
    }
}

/// What one render pass drew: how many elements of each kind, how many draw
/// calls, and how many textures had to be replaced by a substitute.
#[derive(Clone, Copy, Debug, PartialEq, Eq, Structural)]
pub struct RenderLog {
    elements: i32,
    textures: i32,
    meshes: i32,
    texts: i32,
    draw_calls: i32,
    textures_not_found: i32,
}

impl View for RenderLog {
    type V = RenderLogView;

    closed spec fn view(&self) -> RenderLogView {
        RenderLogView {
            elements: self.elements as int,
            textures: self.textures as int,
            meshes: self.meshes as int,
            texts: self.texts as int,
            draw_calls: self.draw_calls as int,
            textures_not_found: self.textures_not_found as int,
        }
    }
}

impl RenderLog {
    /// The log with the counters given.
    pub closed spec fn of(counters: RenderLogView) -> RenderLog {
        RenderLog {
            elements: counters.elements as i32,
            textures: counters.textures as i32,
            meshes: counters.meshes as i32,
            texts: counters.texts as i32,
            draw_calls: counters.draw_calls as i32,
            textures_not_found: counters.textures_not_found as i32,
        }
    }

    /// A log holds counters that fit, and is the log of its counters.
    pub proof fn lemma_view(self)
        ensures
            self@.fits(),
            RenderLog::of(self@) == self,
    {
    }

    /// The log of counters that fit holds just these.
    pub proof fn lemma_of(counters: RenderLogView)
        requires
            counters.fits(),
        ensures
            RenderLog::of(counters)@ == counters,
    {
    }

    /// A log in which nothing has been counted yet.
    pub fn new() -> (log: Self)
        ensures
            log@ == (RenderLogView {
                elements: 0,
                textures: 0,
                meshes: 0,
                texts: 0,
                draw_calls: 0,
                textures_not_found: 0,
            }),
    {
        Self { elements: 0, textures: 0, meshes: 0, texts: 0, draw_calls: 0, textures_not_found: 0 }
    }

    /// Counts one draw call.
    pub fn on_draw_call(&mut self)
        requires
            old(self)@.draw_calls < i32::MAX,
        ensures
            final(self)@ == (RenderLogView {
                draw_calls: old(self)@.draw_calls + 1,
                ..old(self)@
            }),
    {
        self.draw_calls += 1;
    }

    /// Counts one texture, which is one element.
    pub fn on_texture(&mut self)
        requires
            old(self)@.textures < i32::MAX,
            old(self)@.elements < i32::MAX,
        ensures
            final(self)@ == (RenderLogView {
                textures: old(self)@.textures + 1,
                elements: old(self)@.elements + 1,
                ..old(self)@
            }),
    {
        self.textures += 1;
        self.elements += 1;
    }

    /// Counts one mesh, which is one element.
    pub fn on_mesh(&mut self)
        requires
            old(self)@.meshes < i32::MAX,
            old(self)@.elements < i32::MAX,
        ensures
            final(self)@ == (RenderLogView {
                meshes: old(self)@.meshes + 1,
                elements: old(self)@.elements + 1,
                ..old(self)@
            }),
    {
        self.meshes += 1;
        self.elements += 1;
    }

    /// Counts one text, which is one element.
    pub fn on_text(&mut self)
        requires
            old(self)@.texts < i32::MAX,
            old(self)@.elements < i32::MAX,
        ensures
            final(self)@ == (RenderLogView {
                texts: old(self)@.texts + 1,
                elements: old(self)@.elements + 1,
                ..old(self)@
            }),
    {
        self.texts += 1;
        self.elements += 1;
    }

    /// Counts one texture in whose place a substitute was drawn.
    pub fn on_texture_not_found(&mut self)
        requires
            old(self)@.textures_not_found < i32::MAX,
        ensures
            final(self)@ == (RenderLogView {
                textures_not_found: old(self)@.textures_not_found + 1,
                ..old(self)@
            }),
    {
        self.textures_not_found += 1;
    }

    /// The elements counted.
    pub fn elements(&self) -> (count: i32)
        ensures
            count == self@.elements,
    {
        self.elements
    }

    /// The textures counted.
    pub fn textures(&self) -> (count: i32)
        ensures
            count == self@.textures,
    {
        self.textures
    }

    /// The meshes counted.
    pub fn meshes(&self) -> (count: i32)
        ensures
            count == self@.meshes,
    {
        self.meshes
    }

    /// The texts counted.
    pub fn texts(&self) -> (count: i32)
        ensures
            count == self@.texts,
    {
        self.texts
    }

    /// The draw calls counted.
    pub fn draw_calls(&self) -> (count: i32)
        ensures
            count == self@.draw_calls,
    {
        self.draw_calls
    }

    /// The substituted textures counted.
    pub fn textures_not_found(&self) -> (count: i32)
        ensures
            count == self@.textures_not_found,
    {
        self.textures_not_found
    }
}

impl core::ops::Add<RenderLog> for RenderLog {
    type Output = RenderLog;

    /// Counter by counter, the sum of the two logs.
    fn add(self, other: RenderLog) -> (sum: RenderLog) {
        RenderLog {
            elements: self.elements + other.elements,
            textures: self.textures + other.textures,
            meshes: self.meshes + other.meshes,
            texts: self.texts + other.texts,
            draw_calls: self.draw_calls + other.draw_calls,
            textures_not_found: self.textures_not_found + other.textures_not_found,
        }
    }
}

impl AddSpecImpl<RenderLog> for RenderLog {
    open spec fn obeys_add_spec() -> bool {
        true
    }

    open spec fn add_req(self, other: RenderLog) -> bool {
        self@.plus(other@).fits()
    }

    open spec fn add_spec(self, other: RenderLog) -> RenderLog {
        RenderLog::of(self@.plus(other@))
    }
}

impl core::ops::Sub<RenderLog> for RenderLog {
    type Output = RenderLog;

    /// Counter by counter, the difference of the two logs.
    fn sub(self, other: RenderLog) -> (difference: RenderLog) {
        RenderLog {
            elements: self.elements - other.elements,
            textures: self.textures - other.textures,
            meshes: self.meshes - other.meshes,
            texts: self.texts - other.texts,
            draw_calls: self.draw_calls - other.draw_calls,
            textures_not_found: self.textures_not_found - other.textures_not_found,
        }
    }
}

impl SubSpecImpl<RenderLog> for RenderLog {
    open spec fn obeys_sub_spec() -> bool {
        true
    }

    open spec fn sub_req(self, other: RenderLog) -> bool {
        self@.minus(other@).fits()
    }

    open spec fn sub_spec(self, other: RenderLog) -> RenderLog {
        RenderLog::of(self@.minus(other@))
    }
}

impl core::ops::AddAssign for RenderLog {
    fn add_assign(&mut self, other: RenderLog)
        requires
            old(self)@.plus(other@).fits(),
        ensures
            final(self)@ == old(self)@.plus(other@),
    {
        *self = *self + other;
    }
}

impl core::ops::SubAssign for RenderLog {
    fn sub_assign(&mut self, other: RenderLog)
        requires
            old(self)@.minus(other@).fits(),
        ensures
            final(self)@ == old(self)@.minus(other@),
    {
        *self = *self - other;
    }
}

} // verus!
