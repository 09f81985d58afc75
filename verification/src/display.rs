use vstd::prelude::*;
use vstd::string::*;
use crate::alarm::{clock_text, Time};
use crate::canvas::TextCanvas;
use crate::error::DisplayError;
use crate::font::{font_width, large_font, small_font};
use crate::framebuffer::{
    blank_cells, flush_plan, flush_result, flushed_to, painted, BufferEntry, BufferedLcd,
};
use crate::link::ExpanderLink;
use crate::panel::{backlight_plan, onoff_plan};
use crate::trace::{completed, lemma_completed, ran, stepped};

verus! {

/// Three lines of text on the panel: a top line and a bottom line in the
/// small font, and between them the clock in the large one.
pub struct Display<L: ExpanderLink> {
    dev: BufferedLcd<L>,
    clock_canvas: TextCanvas,
    top_canvas: TextCanvas,
    bottom_canvas: TextCanvas,
}

/// Whether `canvas` is the band of the panel from pixel row `top` to just
/// above `bottom`, over all 128 columns.
pub open spec fn is_band(canvas: TextCanvas, top: int, bottom: int) -> bool {
    &&& canvas.wf()
    &&& canvas.left() == 0
    &&& canvas.right() == 128
    &&& canvas.top() == top
    &&& canvas.bottom() == bottom
}

/// The buffer with the blank band of `canvas` laid over it.
pub open spec fn blanked(cells: Seq<BufferEntry>, canvas: TextCanvas) -> Seq<BufferEntry> {
    painted(cells, canvas.grid_of(Seq::empty()), canvas.top(), canvas.left())
}

impl<L: ExpanderLink> Display<L> {
    /// The frame buffer behind the display.
    pub closed spec fn lcd(&self) -> BufferedLcd<L> {
        self.dev
    }

    /// The canvas of the clock.
    pub closed spec fn clock(&self) -> TextCanvas {
        self.clock_canvas
    }

    /// The canvas of the top line.
    pub closed spec fn top(&self) -> TextCanvas {
        self.top_canvas
    }

    /// The canvas of the bottom line.
    pub closed spec fn bottom(&self) -> TextCanvas {
        self.bottom_canvas
    }

    /// The frame buffer is sound, and the three canvases are the bands of
    /// rows 0 to 15, 16 to 47 and 48 to 63: they never overlap.
    pub open spec fn wf(&self) -> bool {
        &&& self.lcd().wf()
        &&& is_band(self.top(), 0, 16)
        &&& is_band(self.clock(), 16, 48)
        &&& is_band(self.bottom(), 48, 64)
        &&& font_width(self.top().font()) == 7
        &&& font_width(self.bottom().font()) == 7
        &&& font_width(self.clock().font()) == 16
    }

    /// Brings up the panel on `link`: resets it, switches it on, clears it,
    /// and leaves the backlight off. Fails only if the link does.
    pub fn new(link: L) -> (res: Result<Display<L>, DisplayError>)
        ensures
            res matches Ok(d) ==> {
                &&& d.wf()
                &&& !d.lcd().backlight()
                &&& ran(d.lcd().accesses(), onoff_plan(true) + flush_plan(blank_cells()), true)
                &&& d.lcd().cells() == flushed_to(blank_cells(), 1024)
            },
            res is Err ==> res->Err_0 == DisplayError::Transport,
    {
        let dev = match BufferedLcd::new(link) {
            Ok(dev) => dev,
            Err(e) => { return Err(e); },
        };
        let large = large_font();
        let small = small_font();
        let clock_canvas = match TextCanvas::new(&large, [0, 16], [128, 48]) {
            Ok(c) => c,
            Err(e) => { return Err(e); },
        };
        let top_canvas = match TextCanvas::new(&small, [0, 0], [128, 16]) {
            Ok(c) => c,
            Err(e) => { return Err(e); },
        };
        let bottom_canvas = match TextCanvas::new(&small, [0, 48], [128, 64]) {
            Ok(c) => c,
            Err(e) => { return Err(e); },
        };
        Ok(Display { dev, clock_canvas, top_canvas, bottom_canvas })
    }

    /// Hands the link back.
    pub fn release(self) -> (link: L)
        ensures
            link == self.lcd().panel().bus().link(),
    {
        self.dev.release()
    }

    /// Whether the backlight is on.
    pub fn get_backlight(&mut self) -> (on: bool)
        ensures
            on == old(self).lcd().backlight(),
            *final(self) == *old(self),
    {
        self.dev.get_backlight()
    }

    /// Switches the backlight. Nothing is sent if it is in the requested
    /// state already.
    pub fn set_backlight(&mut self, on: bool) -> (res: Result<(), DisplayError>)
        requires
            old(self).wf(),
        ensures
            final(self).wf(),
            final(self).lcd().cells() == old(self).lcd().cells(),
            stepped(
                old(self).lcd().accesses(),
                final(self).lcd().accesses(),
                backlight_plan(old(self).lcd().backlight(), on),
                res is Ok,
            ),
            res is Ok ==> final(self).lcd().backlight() == on,
            res is Err ==> final(self).lcd().backlight() == old(self).lcd().backlight(),
            res is Err ==> res->Err_0 == DisplayError::Transport,
    {
        self.dev.set_backlight(on)
    }

    /// Shows `line` centred in the top band. A line of more than 18
    /// characters does not fit and is refused with `Geometry`.
    pub fn set_top_line(&mut self, line: &str) -> (res: Result<(), DisplayError>)
        requires
            old(self).wf(),
        ensures
            final(self).wf(),
            final(self).top().rendered(line@, old(self).lcd(), final(self).lcd(), res),
            (res matches Err(e) && e == DisplayError::Geometry) <==> line@.len() > 18,
    {
        self.top_canvas.render_text(&mut self.dev, line)
    }

    /// Shows `line` centred in the bottom band. A line of more than 18
    /// characters does not fit and is refused with `Geometry`.
    pub fn set_bottom_line(&mut self, line: &str) -> (res: Result<(), DisplayError>)
        requires
            old(self).wf(),
        ensures
            final(self).wf(),
            final(self).bottom().rendered(line@, old(self).lcd(), final(self).lcd(), res),
            (res matches Err(e) && e == DisplayError::Geometry) <==> line@.len() > 18,
    {
        self.bottom_canvas.render_text(&mut self.dev, line)
    }

    /// Shows the time of day, as hour, colon and minute, centred in the
    /// clock band. Every time fits: its text has seven characters at most.
    pub fn show_time(&mut self, now: &Time) -> (res: Result<(), DisplayError>)
        requires
            old(self).wf(),
        ensures
            final(self).wf(),
            final(self).clock().rendered(
                clock_text(now.hour as int, now.min as int),
                old(self).lcd(),
                final(self).lcd(),
                res,
            ),
            res is Err ==> res->Err_0 == DisplayError::Transport,
    {
        let text = now.digits();
        self.clock_canvas.render_chars(&mut self.dev, &text)
    }
    /// What blanking the three bands makes of the frame buffer `before`:
    /// the clock band is blanked and the buffer flushed, then the top band,
    /// then the bottom band, and the first flush that fails ends it.
    pub open spec fn cleared(
        &self,
        before: BufferedLcd<L>,
        after: BufferedLcd<L>,
        res: Result<(), DisplayError>,
    ) -> bool {
        let c0 = blanked(before.cells(), self.clock());
        let a1 = completed(before.accesses(), flush_plan(c0));
        let c1 = blanked(flushed_to(c0, 1024), self.top());
        let a2 = completed(a1, flush_plan(c1));
        let c2 = blanked(flushed_to(c1, 1024), self.bottom());
        &&& after.wf()
        &&& after.backlight() == before.backlight()
        &&& res is Err ==> res->Err_0 == DisplayError::Transport
        &&& {
            ||| res is Err && flush_result(
                c0,
                before.accesses(),
                after.cells(),
                after.accesses(),
                false,
            )
            ||| res is Err && flush_result(c1, a1, after.cells(), after.accesses(), false)
            ||| flush_result(c2, a2, after.cells(), after.accesses(), res is Ok)
        }
    }

    /// Blanks the three bands: the clock, the top line, the bottom line.
    pub fn clear(&mut self) -> (res: Result<(), DisplayError>)
        requires
            old(self).wf(),
        ensures
            final(self).wf(),
            final(self).cleared(old(self).lcd(), final(self).lcd(), res),
    {
        let ghost d0 = self.lcd();
        let r = self.clock_canvas.render_text(&mut self.dev, "");
        proof {
            reveal_strlit("");
            assert(""@ =~= Seq::<char>::empty());
        }
        if r.is_err() {
            return r;
        }
        let ghost d1 = self.lcd();
        proof {
            lemma_completed(
                d0.accesses(),
                d1.accesses(),
                flush_plan(blanked(d0.cells(), self.clock())),
            );
        }
        let r = self.top_canvas.render_text(&mut self.dev, "");
        if r.is_err() {
            return r;
        }
        let ghost d2 = self.lcd();
        proof {
            lemma_completed(
                d1.accesses(),
                d2.accesses(),
                flush_plan(blanked(d1.cells(), self.top())),
            );
        }
        self.bottom_canvas.render_text(&mut self.dev, "")
    }
}

} // verus!
