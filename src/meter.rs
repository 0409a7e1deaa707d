//! The meter overlay: a titled list of bars, one per entry, laid out in
//! whole pixels; the platform layer paints what the layout says.
use vstd::prelude::*;
use crate::bridge::{MeterEntry, OverlayCommand, OverlayData};
use crate::interner::IStr;
use crate::overlay_window::{fits_buffer, steps, OverlayConfig, OverlayWindow, PlatformError, WindowState};

verus! {

/// Margin around the content, in pixels.
pub const PADDING: u32 = 8;
/// Height of one bar.
pub const BAR_HEIGHT: u32 = 20;
/// Gap between bars.
pub const BAR_SPACING: u32 = 4;
/// Top of the first bar: below the title line and its separator.
pub const FIRST_BAR_Y: u32 = 36;

/// Where and how wide one bar is drawn.
#[derive(Clone, Copy, Debug, PartialEq, Eq, Structural)]
pub struct BarLayout {
    pub name: IStr,
    pub value: i128,
    pub y: u32,
    pub fill_width: u32,
}

/// The scale of a list of entries: the largest `max_value`, at least one.
pub open spec fn meter_scale(entries: Seq<MeterEntry>) -> i128
    decreases entries.len(),
{
    if entries.len() == 0 {
        1
    } else {
        let rest = meter_scale(entries.drop_last());
        let v = entries.last().max_value;
        if v > rest { v } else { rest }
    }
}

/// `value` and `scale` halved together until the scale fits in 63 bits.
pub open spec fn reduced(value: int, scale: int) -> (int, int)
    decreases scale,
{
    if scale < 0x8000_0000_0000_0000 {
        (value, scale)
    } else {
        reduced(value / 2, scale / 2)
    }
}

/// The filled part of a bar of `width` pixels for `value` on `scale`:
/// proportional (at 63-bit precision), rounded down, and kept within the bar.
pub open spec fn fill_spec(width: int, value: int, scale: int) -> int {
    if value <= 0 {
        0
    } else if value >= scale {
        width
    } else {
        width * reduced(value, scale).0 / reduced(value, scale).1
    }
}

proof fn lemma_reduced(value: int, scale: int)
    requires
        0 <= value <= scale,
        scale >= 1,
    ensures
        0 <= reduced(value, scale).0 <= reduced(value, scale).1,
        1 <= reduced(value, scale).1 < 0x8000_0000_0000_0000,
    decreases scale,
{
    if scale >= 0x8000_0000_0000_0000 {
        lemma_reduced(value / 2, scale / 2);
    }
}

/// Width of the bars of a window `width` pixels wide.
pub open spec fn bar_width_spec(width: int) -> int {
    if width > 2 * PADDING { width - 2 * PADDING } else { 0 }
}

fn fill(width: u32, value: i128, scale: i128) -> (r: u32)
    requires
        scale >= 1,
    ensures
        r as int == fill_spec(width as int, value as int, scale as int),
        r <= width,
{
    if value <= 0 {
        0
    } else if value >= scale {
        width
    } else {
        let mut v: i128 = value;
        let mut s: i128 = scale;
        proof {
            lemma_reduced(value as int, scale as int);
        }
        while s >= 0x8000_0000_0000_0000
            invariant
                0 <= v <= s,
                reduced(v as int, s as int) == reduced(value as int, scale as int),
            decreases s,
        {
            v = v / 2;
            s = s / 2;
        }
        let ghost rv = reduced(value as int, scale as int);
        assert(v as int == rv.0 && s as int == rv.1);
        assert((width as int) * (v as int) / (s as int) <= width as int) by (nonlinear_arith)
            requires
                0 <= v <= s,
                s >= 1,
        ;
        assert((width as int) * (v as int) <= 0xFFFF_FFFF * 0x8000_0000_0000_0000) by (nonlinear_arith)
            requires
                0 <= v < 0x8000_0000_0000_0000,
                width <= 0xFFFF_FFFF,
        ;
        ((width as u128 * v as u128) / s as u128) as u32
    }
}

/// A meter overlay: its window, its entries and its title.
pub struct MeterOverlay {
    window: OverlayWindow,
    entries: Vec<MeterEntry>,
    title: String,
}

impl MeterOverlay {
    pub closed spec fn wf(&self) -> bool {
        self.window.wf()
    }

    pub closed spec fn spec_entries(&self) -> Seq<MeterEntry> {
        self.entries@
    }

    pub closed spec fn spec_title(&self) -> Seq<char> {
        self.title@
    }

    pub closed spec fn spec_window(&self) -> OverlayWindow {
        self.window
    }

    /// A meter in a new window, with no entries yet.
    pub fn new(config: OverlayConfig, title: &str) -> (r: Result<MeterOverlay, PlatformError>)
        ensures
            r.is_err() == !fits_buffer(config.width as int, config.height as int),
            r.is_ok() ==> {
                &&& r.unwrap().wf()
                &&& r.unwrap().spec_entries().len() == 0
                &&& r.unwrap().spec_title() == title@
                &&& r.unwrap().spec_window()@.width == config.width
                &&& r.unwrap().spec_window()@.height == config.height
            },
    {
        let window = match OverlayWindow::new(config) {
            Ok(w) => w,
            Err(e) => return Err(e),
        };
        Ok(MeterOverlay { window, entries: Vec::new(), title: title.to_owned() })
    }

    /// Replaces the entries.
    pub fn set_entries(&mut self, entries: Vec<MeterEntry>)
        ensures
            final(self).spec_entries() == entries@,
            final(self).spec_title() == old(self).spec_title(),
            final(self).spec_window() == old(self).spec_window(),
            final(self).wf() == old(self).wf(),
    {
        self.entries = entries;
    }

    /// Replaces the title.
    pub fn set_title(&mut self, title: &str)
        ensures
            final(self).spec_title() == title@,
            final(self).spec_entries() == old(self).spec_entries(),
            final(self).spec_window() == old(self).spec_window(),
            final(self).wf() == old(self).wf(),
    {
        self.title = title.to_owned();
    }

    /// The title.
    pub fn title(&self) -> (r: &str)
        ensures
            r@ == self.spec_title(),
    {
        self.title.as_str()
    }

    /// The window the meter draws into.
    pub fn window(&self) -> (r: &OverlayWindow)
        ensures
            *r == self.spec_window(),
    {
        &self.window
    }

    /// Handles the window's pending platform events; `false` once closed.
    pub fn poll_events(&mut self) -> (r: bool)
        requires
            old(self).wf(),
        ensures
            final(self).wf(),
            final(self).spec_window()@ == steps(old(self).spec_window()@, old(self).spec_window().pending_events()),
            final(self).spec_window().pending_events().len() == 0,
            final(self).spec_window().frame_count() == old(self).spec_window().frame_count(),
            r == final(self).spec_window()@.running,
            final(self).spec_entries() == old(self).spec_entries(),
            final(self).spec_title() == old(self).spec_title(),
    {
        self.window.poll_events()
    }

    /// Applies a command from the overlay's channel and tells whether the
    /// overlay keeps running: new metric entries replace the shown ones,
    /// move mode captures the pointer (click-through off) and leaving it
    /// passes the pointer through, a combat start clears the bars, a combat
    /// end freezes them, personal figures are not for a meter, and shutdown
    /// stops it.
    pub fn apply_command(&mut self, cmd: OverlayCommand) -> (running: bool)
        requires
            old(self).wf(),
        ensures
            final(self).wf(),
            final(self).spec_title() == old(self).spec_title(),
            running == !(cmd matches OverlayCommand::Shutdown),
            match cmd {
                OverlayCommand::UpdateData(OverlayData::Metrics(entries)) => {
                    &&& final(self).spec_entries() == entries@
                    &&& final(self).spec_window() == old(self).spec_window()
                },
                OverlayCommand::SetMoveMode(on) => {
                    &&& final(self).spec_entries() == old(self).spec_entries()
                    &&& final(self).spec_window()@ == (WindowState { click_through: !on, ..old(self).spec_window()@ })
                    &&& final(self).spec_window().pending_events() == old(self).spec_window().pending_events()
                    &&& final(self).spec_window().buffer() == old(self).spec_window().buffer()
                },
                OverlayCommand::CombatStarted => {
                    &&& final(self).spec_entries().len() == 0
                    &&& final(self).spec_window() == old(self).spec_window()
                },
                _ => {
                    &&& final(self).spec_entries() == old(self).spec_entries()
                    &&& final(self).spec_window() == old(self).spec_window()
                },
            },
    {
        match cmd {
            OverlayCommand::UpdateData(OverlayData::Metrics(entries)) => {
                self.entries = entries;
                true
            },
            OverlayCommand::UpdateData(OverlayData::Personal(_)) => true,
            OverlayCommand::SetMoveMode(on) => {
                self.window.set_click_through(!on);
                true
            },
            OverlayCommand::CombatStarted => {
                self.entries = Vec::new();
                true
            },
            OverlayCommand::CombatEnded => true,
            OverlayCommand::Shutdown => false,
        }
    }

    /// The bars to draw, top to bottom in entry order: bar `i` starts
    /// `i * (BAR_HEIGHT + BAR_SPACING)` below the first, and is filled in
    /// proportion to its value on the meter's scale. Bars that would start
    /// below the window are left out.
    pub fn layout(&self) -> (r: Vec<BarLayout>)
        ensures
            r@.len() <= self.spec_entries().len(),
            forall|i: int| 0 <= i < r@.len() ==> {
                let e = self.spec_entries()[i];
                &&& (#[trigger] r@[i]).name == e.name
                &&& r@[i].value == e.value
                &&& r@[i].y == FIRST_BAR_Y + i * (BAR_HEIGHT + BAR_SPACING)
                &&& r@[i].y < self.spec_window()@.height
                &&& r@[i].fill_width == fill_spec(
                    bar_width_spec(self.spec_window()@.width as int),
                    e.value as int,
                    meter_scale(self.spec_entries()) as int,
                )
            },
            r@.len() < self.spec_entries().len() ==> FIRST_BAR_Y + r@.len() * (BAR_HEIGHT + BAR_SPACING) >= self.spec_window()@.height,
    {
        let mut scale: i128 = 1;
        let mut k: usize = 0;
        while k < self.entries.len()
            invariant
                k <= self.entries@.len(),
                scale == meter_scale(self.entries@.subrange(0, k as int)),
                scale >= 1,
            decreases self.entries@.len() - k,
        {
            proof {
                assert(self.entries@.subrange(0, k + 1).drop_last() =~= self.entries@.subrange(0, k as int));
            }
            if self.entries[k].max_value > scale {
                scale = self.entries[k].max_value;
            }
            k = k + 1;
        }
        assert(self.entries@.subrange(0, self.entries@.len() as int) =~= self.entries@);
        let width = self.window.width();
        let height = self.window.height();
        let bar_width = if width > 2 * PADDING { width - 2 * PADDING } else { 0 };
        let mut out: Vec<BarLayout> = Vec::new();
        let mut i: usize = 0;
        let mut y: u64 = FIRST_BAR_Y as u64;
        while i < self.entries.len() && y < height as u64
            invariant
                i <= self.entries@.len(),
                out@.len() == i,
                y == FIRST_BAR_Y + i * (BAR_HEIGHT + BAR_SPACING),
                y <= u32::MAX as int + BAR_HEIGHT + BAR_SPACING,
                scale == meter_scale(self.entries@),
                scale >= 1,
                width == self.window@.width,
                height == self.window@.height,
                bar_width as int == bar_width_spec(width as int),
                forall|j: int| 0 <= j < i ==> {
                    let e = self.entries@[j];
                    &&& (#[trigger] out@[j]).name == e.name
                    &&& out@[j].value == e.value
                    &&& out@[j].y == FIRST_BAR_Y + j * (BAR_HEIGHT + BAR_SPACING)
                    &&& out@[j].y < height
                    &&& out@[j].fill_width == fill_spec(bar_width as int, e.value as int, scale as int)
                },
            decreases self.entries@.len() - i,
        {
            let e = &self.entries[i];
            out.push(BarLayout { name: e.name, value: e.value, y: y as u32, fill_width: fill(bar_width, e.value, scale) });
            assert(FIRST_BAR_Y + (i + 1) * (BAR_HEIGHT + BAR_SPACING) == FIRST_BAR_Y + i * (BAR_HEIGHT + BAR_SPACING) + (BAR_HEIGHT + BAR_SPACING)) by (nonlinear_arith);
            i = i + 1;
            y = y + (BAR_HEIGHT + BAR_SPACING) as u64;
        }
        out
    }
}

} // verus!
