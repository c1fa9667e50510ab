use vstd::prelude::*;

verus! {

/// Scroll position of the viewport. Content only moves up and to the left of
/// its origin, so both offsets stay at or below zero.
#[derive(Clone, Copy, Debug, PartialEq, Eq, Structural)]
pub struct Camera {
    pub offset_x: i64,
    pub offset_y: i64,
    /// When set, horizontal scrolling is disabled.
    pub lock_x: bool,
}

impl Camera {
    /// The camera never shows anything beyond the top-left anchor.
    pub open spec fn wf(&self) -> bool {
        self.offset_x <= 0 && self.offset_y <= 0
    }
}

/// One axis after a scroll: `min(0, offset + delta)`, held to the range of `i64`.
pub open spec fn scrolled(offset: int, delta: int) -> int {
    let s = offset + delta;
    if s > 0 {
        0
    } else if s < i64::MIN {
        i64::MIN as int
    } else {
        s
    }
}

/// The camera after `scroll(dx, dy)`.
pub open spec fn scroll_spec(c: Camera, dx: i64, dy: i64) -> Camera {
    Camera {
        offset_x: if c.lock_x {
            c.offset_x
        } else {
            scrolled(c.offset_x as int, dx as int) as i64
        },
        offset_y: scrolled(c.offset_y as int, dy as int) as i64,
        lock_x: c.lock_x,
    }
}

/// The camera after `reset()`.
pub open spec fn reset_spec(c: Camera) -> Camera {
    Camera { offset_x: 0, offset_y: 0, lock_x: c.lock_x }
}

/// The camera after one `scroll` call for each pair of deltas, in order.
pub open spec fn scroll_all(c: Camera, deltas: Seq<(i64, i64)>) -> Camera
    decreases deltas.len(),
{
    if deltas.len() == 0 {
        c
    } else {
        let last = deltas.last();
        scroll_spec(scroll_all(c, deltas.drop_last()), last.0, last.1)
    }
}

fn scroll_axis(offset: i64, delta: i64) -> (r: i64)
    ensures
        r == scrolled(offset as int, delta as int),
{
    match offset.checked_add(delta) {
        Some(s) => if s > 0 {
            0
        } else {
            s
        },
        None => if delta > 0 {
            0
        } else {
            i64::MIN
        },
    }
}

impl Default for Camera {
    /// The camera at the origin, with horizontal scrolling disabled.
    fn default() -> (r: Camera)
        ensures
            r.offset_x == 0,
            r.offset_y == 0,
            r.lock_x,
    {
        Camera { offset_x: 0, offset_y: 0, lock_x: true }
    }
}

impl Camera {
    /// Moves the content by the given deltas: the horizontal one only when
    /// horizontal scrolling is allowed; neither offset goes above zero.
    pub fn scroll(&mut self, x: i64, y: i64)
        ensures
            *final(self) == scroll_spec(*old(self), x, y),
            final(self).offset_y <= 0,
            old(self).offset_x <= 0 || !old(self).lock_x ==> final(self).offset_x <= 0,
    {
        if !self.lock_x {
            self.offset_x = scroll_axis(self.offset_x, x);
        }
        self.offset_y = scroll_axis(self.offset_y, y);
    }

    /// Puts both offsets back to zero.
    pub fn reset(&mut self)
        ensures
            *final(self) == reset_spec(*old(self)),
            final(self).offset_x == 0,
            final(self).offset_y == 0,
            final(self).lock_x == old(self).lock_x,
    {
        self.offset_x = 0;
        self.offset_y = 0;
    }
}

/// Every scroll keeps a well-formed camera well-formed: after each call of a
/// sequence of scrolls, both offsets are at or below zero.
pub proof fn lemma_scrolls_keep_offsets_nonpositive(c: Camera, deltas: Seq<(i64, i64)>)
    requires
        c.wf(),
    ensures
        forall|k: int| 0 <= k <= deltas.len() ==> #[trigger] scroll_all(c, deltas.take(k)).wf(),
{
    assert forall|k: int| 0 <= k <= deltas.len() implies #[trigger] scroll_all(c, deltas.take(k)).wf() by {
        lemma_scroll_all_wf(c, deltas.take(k));
    }
}

proof fn lemma_scroll_all_wf(c: Camera, deltas: Seq<(i64, i64)>)
    requires
        c.wf(),
    ensures
        scroll_all(c, deltas).wf(),
    decreases deltas.len(),
{
    if deltas.len() > 0 {
        lemma_scroll_all_wf(c, deltas.drop_last());
    }
}

/// With horizontal scrolling locked, no sequence of scrolls moves the
/// horizontal offset, after any of its calls, and the lock stays.
pub proof fn lemma_locked_scrolls_keep_offset_x(c: Camera, deltas: Seq<(i64, i64)>)
    requires
        c.lock_x,
    ensures
        forall|k: int|
            0 <= k <= deltas.len() ==> (#[trigger] scroll_all(c, deltas.take(k))).offset_x
                == c.offset_x,
        scroll_all(c, deltas).lock_x,
{
    assert forall|k: int| 0 <= k <= deltas.len() implies (#[trigger] scroll_all(
        c,
        deltas.take(k),
    )).offset_x == c.offset_x by {
        lemma_locked_scroll_all(c, deltas.take(k));
    }
    lemma_locked_scroll_all(c, deltas);
}

proof fn lemma_locked_scroll_all(c: Camera, deltas: Seq<(i64, i64)>)
    requires
        c.lock_x,
    ensures
        scroll_all(c, deltas).offset_x == c.offset_x,
        scroll_all(c, deltas).lock_x,
    decreases deltas.len(),
{
    if deltas.len() > 0 {
        lemma_locked_scroll_all(c, deltas.drop_last());
    }
}

/// Resetting twice gives the same camera as resetting once: both offsets at zero.
pub proof fn lemma_reset_idempotent(c: Camera)
    ensures
        reset_spec(reset_spec(c)) == reset_spec(c),
        reset_spec(c).offset_x == 0,
        reset_spec(c).offset_y == 0,
{
}

} // verus!
