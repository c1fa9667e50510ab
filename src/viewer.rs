use vstd::prelude::*;

use crate::camera::{reset_spec, scroll_spec, Camera};
use crate::document::{run_texts, Document, LoadError, StyledRun};
use crate::layout::{
    doc_fragments, fragment_views, fragments, lemma_single_run_line_count, placements, strip_cr,
    count_char, Fragment, GlyphPlacement,
};

verus! {

/// Events that the viewer sends itself through the host's event queue.
#[derive(PartialEq, Eq, Structural, Clone, Copy, Debug)]
pub enum DisplayerEvent {
    /// The periodic tick.
    Update,
    /// A request to draw the current state again.
    Render,
}

/// The keys that the viewer tells apart.
#[derive(PartialEq, Eq, Structural, Clone, Copy, Debug)]
pub enum Key {
    /// The key that puts the camera back at the origin.
    R,
    Other,
}

/// What the host hands to the viewer.
#[derive(PartialEq, Eq, Structural, Clone, Copy, Debug)]
pub enum InputEvent {
    /// The window is up and the event channel is bound.
    Start,
    /// An event that the viewer sent itself.
    User(DisplayerEvent),
    /// A key was released; `None` where the host could not name it.
    KeyUp(Option<Key>),
    MouseMove,
    /// A wheel scroll given in pixels.
    WheelPixels { dx: i64, dy: i64 },
    /// A wheel scroll given in lines or pages.
    WheelOther,
    MouseButton,
    Resize,
}

/// What the host should do after an event.
#[derive(PartialEq, Eq, Structural, Clone, Copy, Debug)]
pub enum Action {
    Nothing,
    RequestRedraw,
}

/// Sending before the event channel is bound is a construction-order error.
#[derive(PartialEq, Eq, Structural, Clone, Copy, Debug)]
pub enum SendError {
    Unbound,
}

/// One drawing command of a frame.
#[derive(PartialEq, Eq, Structural, Clone, Copy, Debug)]
pub enum DrawOp {
    /// Fill the surface with the background color.
    Clear,
    /// Draw the measured fragment at the given position, in the foreground color.
    Text { fragment: usize, x: i128, y: i128 },
}

/// The font size of the layout, which is also its line height.
pub const DEFAULT_FONT_SIZE: u32 = 24;

/// Where a placement is drawn: moved by the camera, one line height per line.
pub open spec fn text_op(p: GlyphPlacement, c: Camera, font_size: u32) -> DrawOp {
    DrawOp::Text {
        fragment: p.fragment,
        x: (p.x + c.offset_x) as i128,
        y: line_y(p.line as int, c, font_size) as i128,
    }
}

/// A frame: the surface cleared, then every placement drawn in order.
pub open spec fn frame(ps: Seq<GlyphPlacement>, c: Camera, font_size: u32) -> Seq<DrawOp> {
    seq![DrawOp::Clear] + ps.map_values(|p: GlyphPlacement| text_op(p, c, font_size))
}

/// The state of one viewing session.
pub struct Displayer {
    /// Whether the host has bound the event channel.
    pub sender_bound: bool,
    pub document: Document,
    pub camera: Camera,
    pub font_size: u32,
}

impl Displayer {
    /// The action that the host takes for an event.
    pub open spec fn action_for(e: InputEvent) -> Action {
        match e {
            InputEvent::Start => Action::RequestRedraw,
            InputEvent::User(DisplayerEvent::Render) => Action::RequestRedraw,
            InputEvent::KeyUp(Some(_)) => Action::RequestRedraw,
            InputEvent::MouseMove => Action::RequestRedraw,
            _ => Action::Nothing,
        }
    }

    /// The camera after an event.
    pub open spec fn camera_after(c: Camera, e: InputEvent) -> Camera {
        match e {
            InputEvent::KeyUp(Some(Key::R)) => reset_spec(c),
            InputEvent::WheelPixels { dx, dy } => scroll_spec(c, dx, dy),
            _ => c,
        }
    }

    /// An unbound session on an empty document, with the default camera.
    pub fn new() -> (r: Displayer)
        ensures
            !r.sender_bound,
            r.document.runs@.len() == 0,
            r.camera.offset_x == 0,
            r.camera.offset_y == 0,
            r.camera.lock_x,
            r.font_size == DEFAULT_FONT_SIZE,
    {
        Displayer {
            sender_bound: false,
            document: Document::empty(),
            camera: Camera::default(),
            font_size: DEFAULT_FONT_SIZE,
        }
    }

    /// The event to hand to the bound channel, or the error of sending
    /// before it is bound.
    pub fn send_event(&self, event: DisplayerEvent) -> (r: Result<DisplayerEvent, SendError>)
        ensures
            self.sender_bound ==> r == Ok::<DisplayerEvent, SendError>(event),
            !self.sender_bound ==> r == Err::<DisplayerEvent, SendError>(SendError::Unbound),
    {
        if self.sender_bound {
            Ok(event)
        } else {
            Err(SendError::Unbound)
        }
    }

    /// Takes what the RTF parser made of a text: its body runs, or `None`
    /// where it refused the text. The runs replace the document as they are;
    /// on `None` nothing changes.
    pub fn load_parsed(&mut self, parsed: Option<Vec<StyledRun>>) -> (r: Result<(), LoadError>)
        ensures
            final(self).camera == old(self).camera,
            final(self).sender_bound == old(self).sender_bound,
            final(self).font_size == old(self).font_size,
            match parsed {
                None => r == Err::<(), LoadError>(LoadError::Parse) && final(self).document
                    == old(self).document,
                Some(runs) => r == Ok::<(), LoadError>(()) && final(self).document.runs@ == runs@,
            },
    {
        match parsed {
            Some(runs) => {
                self.document = Document { runs };
                Ok(())
            },
            None => Err(LoadError::Parse),
        }
    }

    /// Loads what the RTF parser made of a text and, where that succeeds,
    /// asks for a redraw: the inner result is what `send_event(Render)` gives.
    pub fn load_and_notify(&mut self, parsed: Option<Vec<StyledRun>>) -> (r: Result<
        Result<DisplayerEvent, SendError>,
        LoadError,
    >)
        ensures
            final(self).camera == old(self).camera,
            final(self).sender_bound == old(self).sender_bound,
            final(self).font_size == old(self).font_size,
            match parsed {
                None => r == Err::<Result<DisplayerEvent, SendError>, LoadError>(LoadError::Parse)
                    && final(self).document == old(self).document,
                Some(runs) => final(self).document.runs@ == runs@ && r == Ok::<
                    Result<DisplayerEvent, SendError>,
                    LoadError,
                >(
                    if old(self).sender_bound {
                        Ok::<DisplayerEvent, SendError>(DisplayerEvent::Render)
                    } else {
                        Err::<DisplayerEvent, SendError>(SendError::Unbound)
                    },
                ),
            },
    {
        match self.load_parsed(parsed) {
            Ok(()) => Ok(self.send_event(DisplayerEvent::Render)),
            Err(e) => Err(e),
        }
    }

    /// The line fragments of the current document, to be measured.
    pub fn layout_text(&self) -> (r: Vec<Fragment>)
        ensures
            fragment_views(r@) == doc_fragments(run_texts(self.document.runs@)),
    {
        fragments(&self.document)
    }

    /// Hovering is not inspected yet: nothing changes.
    pub fn on_mouse_move(&self) {
    }

    /// The frame for the given placements under the current camera.
    pub fn render(&self, placements: &Vec<GlyphPlacement>) -> (r: Vec<DrawOp>)
        ensures
            r@ == frame(placements@, self.camera, self.font_size),
    {
        let mut out: Vec<DrawOp> = Vec::new();
        out.push(DrawOp::Clear);
        let n = placements.len();
        for i in 0..n
            invariant
                n == placements.len(),
                out@ =~= frame(placements@.take(i as int), self.camera, self.font_size),
        {
            let p = &placements[i];
            let x = p.x as i128 + self.camera.offset_x as i128;
            proof {
                assert(p.line * self.font_size <= usize::MAX * u32::MAX) by (nonlinear_arith)
                    requires
                        p.line <= usize::MAX,
                        self.font_size <= u32::MAX,
                ;
            }
            let y = (p.line as i128) * (self.font_size as i128) + self.camera.offset_y as i128;
            out.push(DrawOp::Text { fragment: p.fragment, x, y });
            proof {
                assert(placements@.take(i + 1) =~= placements@.take(i as int).push(placements@[i as int]));
            }
        }
        proof {
            assert(placements@.take(n as int) =~= placements@);
        }
        out
    }

    /// Handles one event from the host: a key release of `R` resets the
    /// camera, a pixel wheel scroll scrolls it, start binds the channel; the
    /// result says whether to redraw.
    pub fn handle_event(&mut self, e: InputEvent) -> (r: Action)
        ensures
            r == Self::action_for(e),
            final(self).camera == Self::camera_after(old(self).camera, e),
            final(self).sender_bound == (old(self).sender_bound || e == InputEvent::Start),
            final(self).document == old(self).document,
            final(self).font_size == old(self).font_size,
    {
        match e {
            InputEvent::Start => {
                self.sender_bound = true;
                Action::RequestRedraw
            },
            InputEvent::User(DisplayerEvent::Render) => Action::RequestRedraw,
            InputEvent::User(DisplayerEvent::Update) => Action::Nothing,
            InputEvent::KeyUp(Some(key)) => {
                if key == Key::R {
                    self.camera.reset();
                }
                Action::RequestRedraw
            },
            InputEvent::KeyUp(None) => Action::Nothing,
            InputEvent::MouseMove => {
                self.on_mouse_move();
                Action::RequestRedraw
            },
            InputEvent::WheelPixels { dx, dy } => {
                self.camera.scroll(dx, dy);
                Action::Nothing
            },
            InputEvent::WheelOther => Action::Nothing,
            InputEvent::MouseButton => Action::Nothing,
            InputEvent::Resize => Action::Nothing,
        }
    }
}

/// The height at which line `l` is drawn.
pub open spec fn line_y(l: int, c: Camera, font_size: u32) -> int {
    l * font_size + c.offset_y
}

/// A frame is a function of the placements, the camera and the font size:
/// two renders of the same layout under the same camera issue the same commands.
pub proof fn lemma_render_deterministic(
    ps: Seq<GlyphPlacement>,
    c: Camera,
    font_size: u32,
    r1: Seq<DrawOp>,
    r2: Seq<DrawOp>,
)
    requires
        r1 == frame(ps, c, font_size),
        r2 == frame(ps, c, font_size),
    ensures
        r1 == r2,
        r1.len() == ps.len() + 1,
        r1[0] == DrawOp::Clear,
{
}

/// A document of one run whose text holds `k` newlines once its carriage
/// returns are dropped is drawn at exactly `k + 1` heights: one line height
/// apart from the camera's vertical offset, for the lines `0..=k`.
pub proof fn lemma_single_run_frame_heights(t: Seq<char>, ws: Seq<u32>, c: Camera, font_size: u32)
    requires
        ws.len() == doc_fragments(seq![t]).len(),
        ws.len() <= usize::MAX,
    ensures
        ({
            let k = count_char(strip_cr(t), '\n') as int;
            let breaks = doc_fragments(seq![t]).map_values(|v: (Seq<char>, bool)| v.1);
            let ops = frame(placements(breaks, ws), c, font_size).drop_first();
            let ys = ops.map_values(|op: DrawOp| op->Text_y as int).to_set();
            &&& ops.len() == k + 1
            &&& ys == Set::new(
                |y: int| exists|l: int| 0 <= l <= k && y == #[trigger] line_y(l, c, font_size),
            )
        }),
{
    let k = count_char(strip_cr(t), '\n') as int;
    let breaks = doc_fragments(seq![t]).map_values(|v: (Seq<char>, bool)| v.1);
    let ps = placements(breaks, ws);
    lemma_single_run_line_count(t, ws);
    let ops = frame(ps, c, font_size).drop_first();
    assert(ops =~= ps.map_values(|p: GlyphPlacement| text_op(p, c, font_size)));
    let yseq = ops.map_values(|op: DrawOp| op->Text_y as int);
    assert forall|i: int| 0 <= i <= k implies #[trigger] yseq[i] == line_y(i, c, font_size) by {
        assert(ps[i].line == i);
        assert(0 <= i * font_size <= usize::MAX * u32::MAX) by (nonlinear_arith)
            requires
                0 <= i <= usize::MAX,
                font_size <= u32::MAX,
        ;
    }
    let target = Set::new(|y: int| exists|l: int| 0 <= l <= k && y == #[trigger] line_y(l, c, font_size));
    assert forall|y: int| yseq.to_set().contains(y) <==> target.contains(y) by {
        if yseq.to_set().contains(y) {
            let i = choose|i: int| 0 <= i < yseq.len() && yseq[i] == y;
            assert(yseq[i] == line_y(i, c, font_size));
        }
        if target.contains(y) {
            let l = choose|l: int| 0 <= l <= k && y == line_y(l, c, font_size);
            assert(yseq[l] == y);
        }
    }
    assert(yseq.to_set() =~= target);
}

} // verus!
