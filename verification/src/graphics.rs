use vstd::prelude::*;

use crate::chars::str_eq;
use crate::geometry::{DrawCommand, Rect};

verus! {

/// Largest width or height of an application canvas, in pixels.
pub const CANVAS_DIM_LIMIT: u32 = 4096;

/// A persistent pixel buffer the application draws into directly, composed
/// into the frame like any other entity. Four bytes per pixel; the dirty
/// flag is set by writers and cleared only when a frame is actually handed
/// to the renderer.
pub struct Canvas {
    pub width: u32,
    pub height: u32,
    pub data: Vec<u8>,
    pub dirty: bool,
}

impl Canvas {
    /// A fresh canvas, zero-filled and marked dirty so the first frame
    /// paints it.
    pub fn new(width: u32, height: u32) -> (c: Canvas)
        requires
            width <= CANVAS_DIM_LIMIT,
            height <= CANVAS_DIM_LIMIT,
        ensures
            c.width == width,
            c.height == height,
            c.data@.len() == width * height * 4,
            forall|i: int| 0 <= i < c.data@.len() ==> c.data@[i] == 0u8,
            c.dirty,
    {
        proof {
            assert((width * height) * 4 <= 0x400_0000) by (nonlinear_arith)
                requires
                    width <= 4096,
                    height <= 4096,
            ;
        }
        let n: usize = (width as usize) * (height as usize) * 4;
        let mut data: Vec<u8> = Vec::new();
        let mut i: usize = 0;
        while i < n
            invariant
                i <= n,
                data@.len() == i,
                forall|j: int| 0 <= j < i ==> data@[j] == 0u8,
            decreases n - i,
        {
            data.push(0u8);
            i = i + 1;
        }
        Canvas { width, height, data, dirty: true }
    }
}

/// A deferred command the application model queues during an update; the
/// runtime drains and applies them after the update returns.
pub enum ContextCommand {
    ScrollIntoView(String),
}

/// The side channel handed to the application model during an update:
/// the canvas registry, keyed by stable string ids, and the deferred
/// command queue. Canvas ids and buffers live in two parallel vectors.
pub struct Context {
    pub canvas_ids: Vec<String>,
    pub canvases: Vec<Canvas>,
    pub commands: Vec<ContextCommand>,
}

/// The canvas registry is sound: one buffer per id slot. Lookups take the
/// first match, so the pairing is all that matters.
pub open spec fn context_wf(ctx: Context) -> bool {
    ctx.canvas_ids@.len() == ctx.canvases@.len()
}

impl Context {
    /// An empty registry and queue.
    pub fn new() -> (ctx: Context)
        ensures
            context_wf(ctx),
            ctx.canvas_ids@.len() == 0,
            ctx.commands@.len() == 0,
    {
        Context { canvas_ids: Vec::new(), canvases: Vec::new(), commands: Vec::new() }
    }

    /// The registry slot holding `id`, if one exists.
    pub fn canvas_index(&self, id: &str) -> (r: Option<usize>)
        ensures
            match r {
                Option::Some(i) => i < self.canvas_ids@.len() && self.canvas_ids@[i as int]@
                    == id@ && forall|j: int|
                    0 <= j < i ==> (#[trigger] self.canvas_ids@[j])@ != id@,
                Option::None => forall|i: int|
                    0 <= i < self.canvas_ids@.len() ==> (#[trigger] self.canvas_ids@[i])@ != id@,
            },
    {
        let n = self.canvas_ids.len();
        let mut i: usize = 0;
        while i < n
            invariant
                i <= n,
                n == self.canvas_ids@.len(),
                forall|j: int| 0 <= j < i ==> (#[trigger] self.canvas_ids@[j])@ != id@,
            decreases n - i,
        {
            if str_eq(self.canvas_ids[i].as_str(), id) {
                return Option::Some(i);
            }
            i = i + 1;
        }
        Option::None
    }

    /// Mutable access to the canvas registered under `id`, if any.
    pub fn canvas_mut(&mut self, id: &str) -> (r: Option<&mut Canvas>)
        requires
            context_wf(*old(self)),
        ensures
            r is None ==> *final(self) == *old(self) && (forall|i: int|
                0 <= i < old(self).canvas_ids@.len() ==> (#[trigger] old(self).canvas_ids@[i])@
                    != id@),
            r matches Option::Some(c) ==> (exists|i: int|
                {
                    &&& 0 <= i < old(self).canvas_ids@.len()
                    &&& (#[trigger] old(self).canvas_ids@[i])@ == id@
                    &&& *c == old(self).canvases@[i]
                    &&& final(self).canvases@ == old(self).canvases@.update(i, *final(c))
                }) && final(self).canvas_ids == old(self).canvas_ids && final(self).commands
                == old(self).commands,
    {
        let idx = match self.canvas_index(id) {
            Option::Some(i) => i,
            Option::None => {
                return Option::None;
            },
        };
        Option::Some(&mut self.canvases[idx])
    }

    /// Restore the registry pairing after the application model held
    /// mutable access: drop unmatched tail entries from whichever of the
    /// two parallel vectors grew longer. Every paired entry stands.
    pub fn reconcile(&mut self)
        ensures
            context_wf(*final(self)),
            final(self).commands == old(self).commands,
            ({
                let k = if old(self).canvas_ids@.len() <= old(self).canvases@.len() {
                    old(self).canvas_ids@.len() as int
                } else {
                    old(self).canvases@.len() as int
                };
                final(self).canvas_ids@ == old(self).canvas_ids@.take(k) && final(self).canvases@ == old(self).canvases@.take(k)
            }),
    {
        let ghost k = if old(self).canvas_ids@.len() <= old(self).canvases@.len() {
            old(self).canvas_ids@.len() as int
        } else {
            old(self).canvases@.len() as int
        };
        proof {
            assert(old(self).canvas_ids@.take(old(self).canvas_ids@.len() as int) =~= old(
                self,
            ).canvas_ids@);
        }
        while self.canvas_ids.len() > self.canvases.len()
            invariant
                self.commands == old(self).commands,
                self.canvases == old(self).canvases,
                k == (if old(self).canvas_ids@.len() <= old(self).canvases@.len() {
                    old(self).canvas_ids@.len() as int
                } else {
                    old(self).canvases@.len() as int
                }),
                self.canvas_ids@.len() <= old(self).canvas_ids@.len(),
                self.canvas_ids@.len() >= k,
                self.canvas_ids@ == old(self).canvas_ids@.take(self.canvas_ids@.len() as int),
            decreases self.canvas_ids@.len(),
        {
            self.canvas_ids.pop();
            proof {
                assert(self.canvas_ids@ =~= old(self).canvas_ids@.take(
                    self.canvas_ids@.len() as int,
                ));
            }
        }
        let ghost mid_ids = self.canvas_ids@;
        proof {
            assert(mid_ids.len() == k);
            assert(old(self).canvases@.take(old(self).canvases@.len() as int) =~= old(
                self,
            ).canvases@);
        }
        while self.canvases.len() > self.canvas_ids.len()
            invariant
                self.commands == old(self).commands,
                k == (if old(self).canvas_ids@.len() <= old(self).canvases@.len() {
                    old(self).canvas_ids@.len() as int
                } else {
                    old(self).canvases@.len() as int
                }),
                self.canvas_ids@ == mid_ids,
                mid_ids == old(self).canvas_ids@.take(k),
                mid_ids.len() == k,
                self.canvas_ids@.len() <= self.canvases@.len(),
                self.canvases@.len() <= old(self).canvases@.len(),
                self.canvases@ == old(self).canvases@.take(self.canvases@.len() as int),
            decreases self.canvases@.len(),
        {
            self.canvases.pop();
            proof {
                assert(self.canvases@ =~= old(self).canvases@.take(self.canvases@.len() as int));
            }
        }
    }

    /// Queue a deferred scroll of the node registered under the given
    /// interaction id into view.
    pub fn scroll_into_view(&mut self, interaction_id: &str)
        ensures
            final(self).canvas_ids == old(self).canvas_ids,
            final(self).canvases == old(self).canvases,
            final(self).commands@.len() == old(self).commands@.len() + 1,
            final(self).commands@.drop_last() == old(self).commands@,
            final(self).commands@.last() matches ContextCommand::ScrollIntoView(s) && s@
                == interaction_id@,
    {
        let s = interaction_id.to_owned();
        self.commands.push(ContextCommand::ScrollIntoView(s));
        proof {
            assert(final(self).commands@.drop_last() =~= old(self).commands@);
        }
    }
}

/// Measures text for layout: the width and height, in pixels, that a run
/// of text takes at a font size and weight. An implementation must be
/// deterministic across a run, since layout correctness depends on stable
/// sizing.
pub trait TextMeasurer {
    fn measure_text(&self, text: &str, font_size: u32, weight: u16) -> (u32, u32);
}

/// Turns a frame into pixels: receives the command list, the canvas
/// registry, and the dirty rectangle to repaint (`None` repaints all).
pub trait Renderer {
    fn render(
        &mut self,
        commands: &Vec<DrawCommand>,
        canvas_ids: &Vec<String>,
        canvases: &Vec<Canvas>,
        dirty_rect: Option<Rect>,
    );
}

} // verus!
