//! Platform-neutral state of an always-on-top overlay window: geometry,
//! click-through, the pointer-driven resize gesture and the pixel buffer
//! that the platform layer presents.
use vstd::prelude::*;

verus! {

/// Largest width or height of an overlay, in pixels.
pub const MAX_SIDE: u32 = 16384;

/// Side of the square, at the bottom-right corner, that starts a resize.
pub const RESIZE_CORNER: i64 = 20;

/// Smallest side that a resize gesture leaves.
pub const MIN_SIDE: u32 = 32;

/// Where and how an overlay window is created.
#[derive(Clone, Copy, Debug, PartialEq, Eq, Structural)]
pub struct OverlayConfig {
    pub x: i32,
    pub y: i32,
    pub width: u32,
    pub height: u32,
    pub click_through: bool,
}

/// Why an overlay window could not be created.
#[derive(Clone, Copy, Debug, PartialEq, Eq, Structural)]
pub enum PlatformError {
    /// The pixel buffer of that size could not be addressed.
    InvalidSize,
}

/// What the windowing platform reports to an overlay.
#[derive(Clone, Copy, Debug, PartialEq, Eq, Structural)]
pub enum PlatformEvent {
    /// The compositor fixed the surface size; a zero side keeps the current one.
    Configure { width: u32, height: u32 },
    PointerMotion { x: i32, y: i32 },
    PointerLeave,
    ButtonPress,
    ButtonRelease,
    Closed,
}

/// The observable state of an overlay window.
#[derive(Clone, Copy, Debug)]
pub struct WindowState {
    pub x: i32,
    pub y: i32,
    pub width: u32,
    pub height: u32,
    pub click_through: bool,
    pub running: bool,
    pub configured: bool,
    pub pointer: Option<(i32, i32)>,
    pub resizing: bool,
    pub pending: Option<(u32, u32)>,
}

pub open spec fn valid_side(v: int) -> bool {
    1 <= v <= MAX_SIDE
}

pub open spec fn in_corner(st: WindowState) -> bool {
    match st.pointer {
        Some((px, py)) => {
            &&& st.width - RESIZE_CORNER <= px < st.width
            &&& st.height - RESIZE_CORNER <= py < st.height
        },
        None => false,
    }
}

/// The size a resize gesture proposes for the pointer at `p`: the pointer
/// marks the new bottom-right corner, kept between `MIN_SIDE` and `MAX_SIDE`.
pub open spec fn proposed_side(p: int) -> u32 {
    if p + 1 < MIN_SIDE {
        MIN_SIDE
    } else if p + 1 > MAX_SIDE {
        MAX_SIDE
    } else {
        (p + 1) as u32
    }
}

/// The state after one platform event.
pub open spec fn step(st: WindowState, ev: PlatformEvent) -> WindowState {
    match ev {
        PlatformEvent::Configure { width, height } => if valid_side(width as int) && valid_side(height as int) {
            WindowState { width, height, configured: true, ..st }
        } else {
            WindowState { configured: true, ..st }
        },
        PlatformEvent::PointerMotion { x, y } => if st.resizing {
            WindowState { pointer: Some((x, y)), pending: Some((proposed_side(x as int), proposed_side(y as int))), ..st }
        } else {
            WindowState { pointer: Some((x, y)), ..st }
        },
        PlatformEvent::PointerLeave => WindowState { pointer: None, ..st },
        PlatformEvent::ButtonPress => if !st.click_through && in_corner(st) {
            WindowState { resizing: true, pending: Some((st.width, st.height)), ..st }
        } else {
            st
        },
        PlatformEvent::ButtonRelease => if st.resizing {
            match st.pending {
                Some((w, h)) => WindowState { width: w, height: h, resizing: false, pending: None, ..st },
                None => WindowState { resizing: false, ..st },
            }
        } else {
            st
        },
        PlatformEvent::Closed => WindowState { running: false, ..st },
    }
}

/// The state after a sequence of platform events.
pub open spec fn steps(st: WindowState, evs: Seq<PlatformEvent>) -> WindowState
    decreases evs.len(),
{
    if evs.len() == 0 {
        st
    } else {
        step(steps(st, evs.drop_last()), evs.last())
    }
}

/// A `width` by `height` RGBA buffer can be addressed.
pub open spec fn fits_buffer(width: int, height: int) -> bool {
    width * height * 4 <= usize::MAX
}

proof fn lemma_valid_fits(width: int, height: int)
    requires
        valid_side(width),
        valid_side(height),
    ensures
        fits_buffer(width, height),
{
    assert(width * height * 4 <= MAX_SIDE as int * MAX_SIDE as int * 4) by (nonlinear_arith)
        requires
            0 <= width <= MAX_SIDE,
            0 <= height <= MAX_SIDE,
    ;
}

/// `a + b`, kept at `u64::MAX`.
pub open spec fn saturating_add(a: u64, b: int) -> u64 {
    if a + b > u64::MAX { u64::MAX } else { (a + b) as u64 }
}

/// The state after whole batches `0..k` of platform events, in order.
pub open spec fn run_steps(st: WindowState, batches: Seq<Seq<PlatformEvent>>, k: int) -> WindowState
    decreases k,
{
    if k <= 0 {
        st
    } else {
        steps(run_steps(st, batches, k - 1), batches[k - 1])
    }
}

pub open spec fn batches_view(batches: Seq<Vec<PlatformEvent>>) -> Seq<Seq<PlatformEvent>> {
    batches.map_values(|b: Vec<PlatformEvent>| b@)
}

pub open spec fn state_wf(st: WindowState) -> bool {
    &&& fits_buffer(st.width as int, st.height as int)
    &&& st.pending.is_some() ==> fits_buffer(st.pending.unwrap().0 as int, st.pending.unwrap().1 as int)
}

/// An overlay window: its state, the platform events not yet handled, the
/// RGBA pixel buffer (four bytes per pixel) and the count of committed frames.
pub struct OverlayWindow {
    state: WindowState,
    queue: Vec<PlatformEvent>,
    pixels: Vec<u8>,
    frames: u64,
}

impl View for OverlayWindow {
    type V = WindowState;

    closed spec fn view(&self) -> WindowState {
        self.state
    }
}

impl OverlayWindow {
    pub closed spec fn wf(&self) -> bool {
        &&& state_wf(self.state)
        &&& self.pixels@.len() == self.state.width as int * self.state.height as int * 4
    }

    /// Platform events waiting to be handled.
    pub closed spec fn pending_events(&self) -> Seq<PlatformEvent> {
        self.queue@
    }

    /// Frames committed so far.
    pub closed spec fn frame_count(&self) -> u64 {
        self.frames
    }

    /// The pixel buffer.
    pub closed spec fn buffer(&self) -> Seq<u8> {
        self.pixels@
    }

    /// Creates the window described by `config`, running, not yet configured,
    /// with a cleared pixel buffer.
    pub fn new(config: OverlayConfig) -> (r: Result<OverlayWindow, PlatformError>)
        ensures
            r.is_err() == !fits_buffer(config.width as int, config.height as int),
            r.is_err() ==> r == Err::<OverlayWindow, PlatformError>(PlatformError::InvalidSize),
            r.is_ok() ==> {
                let w = r.unwrap();
                &&& w.wf()
                &&& w@ == WindowState {
                    x: config.x,
                    y: config.y,
                    width: config.width,
                    height: config.height,
                    click_through: config.click_through,
                    running: true,
                    configured: false,
                    pointer: None,
                    resizing: false,
                    pending: None,
                }
                &&& w.pending_events().len() == 0
                &&& w.frame_count() == 0
                &&& forall|i: int| 0 <= i < w.buffer().len() ==> w.buffer()[i] == 0
            },
    {
        assert((config.width as int) * (config.height as int) * 4 <= 0xFFFF_FFFF * 0xFFFF_FFFF * 4) by (nonlinear_arith)
            requires
                config.width <= 0xFFFF_FFFF,
                config.height <= 0xFFFF_FFFF,
        ;
        if (config.width as u128) * (config.height as u128) * 4 > usize::MAX as u128 {
            return Err(PlatformError::InvalidSize);
        }
        let len = OverlayWindow::buffer_len(config.width, config.height);
        let pixels = vec![0u8; len];
        Ok(OverlayWindow {
            state: WindowState {
                x: config.x,
                y: config.y,
                width: config.width,
                height: config.height,
                click_through: config.click_through,
                running: true,
                configured: false,
                pointer: None,
                resizing: false,
                pending: None,
            },
            queue: Vec::new(),
            pixels,
            frames: 0,
        })
    }

    /// Width in pixels.
    pub fn width(&self) -> (r: u32)
        ensures
            r == self@.width,
    {
        self.state.width
    }

    /// Height in pixels.
    pub fn height(&self) -> (r: u32)
        ensures
            r == self@.height,
    {
        self.state.height
    }

    /// Moves the window's top-left corner.
    pub fn set_position(&mut self, x: i32, y: i32)
        requires
            old(self).wf(),
        ensures
            final(self).wf(),
            final(self)@ == (WindowState { x, y, ..old(self)@ }),
            final(self).pending_events() == old(self).pending_events(),
            final(self).frame_count() == old(self).frame_count(),
            final(self).buffer() == old(self).buffer(),
    {
        self.state.x = x;
        self.state.y = y;
    }

    fn buffer_len(width: u32, height: u32) -> (n: usize)
        requires
            fits_buffer(width as int, height as int),
        ensures
            n == width as int * height as int * 4,
    {
        assert((width as int) * (height as int) <= (width as int) * (height as int) * 4) by (nonlinear_arith)
            requires
                width >= 0,
                height >= 0,
        ;
        width as usize * height as usize * 4
    }

    fn resize_buffer(&mut self, width: u32, height: u32)
        requires
            old(self).wf(),
            fits_buffer(width as int, height as int),
        ensures
            final(self).wf(),
            final(self).state == (WindowState { width, height, ..old(self).state }),
            final(self).queue == old(self).queue,
            final(self).frames == old(self).frames,
            final(self).pixels@.len() == width as int * height as int * 4,
            width == old(self).state.width && height == old(self).state.height ==> final(self).pixels == old(self).pixels,
    {
        if width == self.state.width && height == self.state.height {
            return;
        }
        let len = OverlayWindow::buffer_len(width, height);
        self.pixels.resize(len, 0u8);
        self.state.width = width;
        self.state.height = height;
    }

    /// Sets the window size; the pixel buffer follows it, and a size equal
    /// to the current one changes nothing.
    pub fn set_size(&mut self, width: u32, height: u32)
        requires
            old(self).wf(),
            fits_buffer(width as int, height as int),
        ensures
            final(self).wf(),
            final(self)@ == (WindowState { width, height, ..old(self)@ }),
            final(self).buffer().len() == width as int * height as int * 4,
            width == old(self)@.width && height == old(self)@.height ==> final(self).buffer() == old(self).buffer(),
            final(self).pending_events() == old(self).pending_events(),
            final(self).frame_count() == old(self).frame_count(),
    {
        self.resize_buffer(width, height);
    }

    /// Makes pointer input pass through the window, or be captured by it.
    pub fn set_click_through(&mut self, enabled: bool)
        requires
            old(self).wf(),
        ensures
            final(self).wf(),
            final(self)@ == (WindowState { click_through: enabled, ..old(self)@ }),
            final(self).pending_events() == old(self).pending_events(),
            final(self).frame_count() == old(self).frame_count(),
            final(self).buffer() == old(self).buffer(),
    {
        self.state.click_through = enabled;
    }

    /// The pixel buffer, row by row, four bytes per pixel.
    pub fn pixel_buffer(&self) -> (r: &[u8])
        ensures
            r@ == self.buffer(),
    {
        self.pixels.as_slice()
    }

    /// Replaces the pixel buffer with a frame of the window's size.
    pub fn set_pixels(&mut self, data: Vec<u8>)
        requires
            old(self).wf(),
            data@.len() == old(self)@.width as int * old(self)@.height as int * 4,
        ensures
            final(self).wf(),
            final(self)@ == old(self)@,
            final(self).buffer() == data@,
            final(self).pending_events() == old(self).pending_events(),
            final(self).frame_count() == old(self).frame_count(),
    {
        self.pixels = data;
    }

    /// Marks the current pixel buffer as the frame to present.
    pub fn commit(&mut self)
        requires
            old(self).wf(),
        ensures
            final(self).wf(),
            final(self)@ == old(self)@,
            final(self).frame_count() == if old(self).frame_count() < u64::MAX {
                (old(self).frame_count() + 1) as u64
            } else {
                old(self).frame_count()
            },
            final(self).pending_events() == old(self).pending_events(),
            final(self).buffer() == old(self).buffer(),
    {
        if self.frames < u64::MAX {
            self.frames = self.frames + 1;
        }
    }

    /// Frames committed so far.
    pub fn frames(&self) -> (r: u64)
        ensures
            r == self.frame_count(),
    {
        self.frames
    }

    /// Queues an event reported by the platform.
    pub fn push_event(&mut self, ev: PlatformEvent)
        requires
            old(self).wf(),
        ensures
            final(self).wf(),
            final(self)@ == old(self)@,
            final(self).pending_events() == old(self).pending_events().push(ev),
            final(self).frame_count() == old(self).frame_count(),
            final(self).buffer() == old(self).buffer(),
    {
        self.queue.push(ev);
    }

    /// Whether the pointer is over the bottom-right resize corner.
    pub fn in_resize_corner(&self) -> (r: bool)
        ensures
            r == in_corner(self@),
    {
        match self.state.pointer {
            Some((px, py)) => {
                let w = self.state.width as i64;
                let h = self.state.height as i64;
                w - RESIZE_CORNER <= px as i64 && (px as i64) < w && h - RESIZE_CORNER <= py as i64 && (py as i64) < h
            },
            None => false,
        }
    }

    /// Whether a resize gesture is under way.
    pub fn is_resizing(&self) -> (r: bool)
        ensures
            r == self@.resizing,
    {
        self.state.resizing
    }

    /// The size that the resize gesture under way would set.
    pub fn pending_size(&self) -> (r: Option<(u32, u32)>)
        ensures
            r == self@.pending,
    {
        self.state.pending
    }

    fn side_for(p: i32) -> (r: u32)
        ensures
            r == proposed_side(p as int),
            valid_side(r as int),
    {
        if (p as i64) + 1 < MIN_SIDE as i64 {
            MIN_SIDE
        } else if (p as i64) + 1 > MAX_SIDE as i64 {
            MAX_SIDE
        } else {
            (p + 1) as u32
        }
    }

    fn apply(&mut self, ev: PlatformEvent)
        requires
            old(self).wf(),
        ensures
            final(self).wf(),
            final(self)@ == step(old(self)@, ev),
            final(self).queue == old(self).queue,
            final(self).frames == old(self).frames,
    {
        match ev {
            PlatformEvent::Configure { width, height } => {
                if 1 <= width && width <= MAX_SIDE && 1 <= height && height <= MAX_SIDE {
                    proof {
                        lemma_valid_fits(width as int, height as int);
                    }
                    self.resize_buffer(width, height);
                }
                self.state.configured = true;
            },
            PlatformEvent::PointerMotion { x, y } => {
                self.state.pointer = Some((x, y));
                if self.state.resizing {
                    let w = OverlayWindow::side_for(x);
                    let h = OverlayWindow::side_for(y);
                    proof {
                        lemma_valid_fits(w as int, h as int);
                    }
                    self.state.pending = Some((w, h));
                }
            },
            PlatformEvent::PointerLeave => {
                self.state.pointer = None;
            },
            PlatformEvent::ButtonPress => {
                if !self.state.click_through && self.in_resize_corner() {
                    self.state.resizing = true;
                    self.state.pending = Some((self.state.width, self.state.height));
                }
            },
            PlatformEvent::ButtonRelease => {
                if self.state.resizing {
                    match self.state.pending {
                        Some((w, h)) => {
                            self.resize_buffer(w, h);
                            self.state.pending = None;
                        },
                        None => {},
                    }
                    self.state.resizing = false;
                }
            },
            PlatformEvent::Closed => {
                self.state.running = false;
            },
        }
    }

    /// Handles every queued platform event, in order, and tells whether the
    /// window is still running.
    pub fn poll_events(&mut self) -> (r: bool)
        requires
            old(self).wf(),
        ensures
            final(self).wf(),
            final(self)@ == steps(old(self)@, old(self).pending_events()),
            final(self).pending_events().len() == 0,
            final(self).frame_count() == old(self).frame_count(),
            r == final(self)@.running,
    {
        let mut queue: Vec<PlatformEvent> = Vec::new();
        std::mem::swap(&mut queue, &mut self.queue);
        let ghost st0 = self.state;
        let mut i: usize = 0;
        while i < queue.len()
            invariant
                i <= queue@.len(),
                self.wf(),
                self.state == steps(st0, queue@.subrange(0, i as int)),
                self.queue@.len() == 0,
                self.frames == old(self).frames,
            decreases queue@.len() - i,
        {
            let ghost before = self.state;
            self.apply(queue[i]);
            proof {
                assert(queue@.subrange(0, i + 1).drop_last() =~= queue@.subrange(0, i as int));
            }
            i = i + 1;
        }
        assert(queue@.subrange(0, queue@.len() as int) =~= queue@);
        self.state.running
    }

    /// The window's event loop, with the platform's deliveries made
    /// explicit: each batch of events is handled as one `poll_events`; after
    /// each poll that finds the window running, `render` draws a frame from
    /// the window's state, which is shown when it has the window's size, and
    /// the frame is committed. The loop ends after the first poll that finds
    /// the window closed, or when the batches run out. Returns how many
    /// batches were handled.
    pub fn run<F: Fn(WindowState) -> Vec<u8>>(&mut self, batches: Vec<Vec<PlatformEvent>>, render: F) -> (handled: usize)
        requires
            old(self).wf(),
            old(self).pending_events().len() == 0,
            forall|st: WindowState| call_requires(render, (st,)),
        ensures
            final(self).wf(),
            final(self).pending_events().len() == 0,
            handled <= batches@.len(),
            final(self)@ == run_steps(old(self)@, batches_view(batches@), handled as int),
            handled < batches@.len() ==> !final(self)@.running,
            final(self).frame_count() == saturating_add(
                old(self).frame_count(),
                if handled > 0 && !final(self)@.running { handled - 1 } else { handled as int },
            ),
            handled > 0 && final(self)@.running ==> exists|f: Vec<u8>| {
                &&& call_ensures(render, (final(self)@,), f)
                &&& f@.len() == final(self)@.width as int * final(self)@.height as int * 4
                    ==> final(self).buffer() == f@
            },
    {
        let ghost st0 = self.state;
        let ghost all = batches_view(batches@);
        let mut k: usize = 0;
        let n = batches.len();
        let mut stopped = false;
        while k < n && !stopped
            invariant
                k <= n,
                n == batches@.len(),
                all == batches_view(batches@),
                self.wf(),
                self.queue@.len() == 0,
                self.state == run_steps(st0, all, k as int),
                stopped ==> !self.state.running && k > 0,
                !stopped && k > 0 ==> self.state.running,
                forall|st: WindowState| call_requires(render, (st,)),
                self.frames == saturating_add(old(self).frames, if stopped { k - 1 } else { k as int }),
                !stopped && k > 0 ==> exists|f: Vec<u8>| {
                    &&& call_ensures(render, (self.state,), f)
                    &&& f@.len() == self.state.width as int * self.state.height as int * 4 ==> self.pixels@ == f@
                },
            decreases n - k, if stopped { 0int } else { 1int },
        {
            let batch = &batches[k];
            let ghost frames0 = self.frames;
            let mut j: usize = 0;
            while j < batch.len()
                invariant
                    j <= batch@.len(),
                    self.wf(),
                    self.frames == frames0,
                    self.state == run_steps(st0, all, k as int),
                    self.queue@ == batch@.subrange(0, j as int),
                decreases batch@.len() - j,
            {
                self.push_event(batch[j]);
                assert(self.queue@ =~= batch@.subrange(0, j + 1));
                j = j + 1;
            }
            assert(batch@.subrange(0, batch@.len() as int) =~= batch@);
            assert(all[k as int] == batch@);
            let running = self.poll_events();
            k = k + 1;
            if running {
                let frame = render(self.state);
                let ghost f = frame;
                if frame.len() as u64 == self.state.width as u64 * self.state.height as u64 * 4 {
                    self.set_pixels(frame);
                }
                self.commit();
                assert(call_ensures(render, (self.state,), f));
            } else {
                stopped = true;
            }
        }
        k
    }
}

} // verus!
