use vstd::prelude::*;
use crate::frame::Frame;
use crate::color::Rgb;
use crate::frame::{
    band_mean,
    band_sum,
    lemma_band_split_columns,
    lemma_band_split_rows,
    lemma_uniform_band_sum,
    pixel_rgb,
};
use vstd::arithmetic::div_mod::{lemma_div_denominator, lemma_div_multiples_vanish};
use crate::reducer::{
    EdgeColors,
    Side,
    StripTopology,
    cell_height,
    cell_width,
    edge_colors,
    edge_is_tagged,
    lemma_tagged_edge,
    reduce_into,
};
use crate::color::flatten;
use crate::wire::{encode_frame, header, wire_bytes};

verus! {

/// The target time between two LED frames, in microseconds (60 frames a second).
pub const FRAME_INTERVAL_MICROS: u64 = 16666;

/// How long to sleep after a frame whose reduction and encoding took
/// `elapsed_micros`: what is left of `target_micros`, or nothing once the
/// budget is spent (a slow frame is never dropped, the rate simply falls).
pub fn pacing_delay(elapsed_micros: u128, target_micros: u64) -> (r: u64)
    ensures
        elapsed_micros < target_micros ==> elapsed_micros + r == target_micros,
        elapsed_micros >= target_micros ==> r == 0,
{
    if elapsed_micros < target_micros as u128 {
        target_micros - elapsed_micros as u64
    } else {
        0
    }
}

/// The bytes sent for `f`: its edges under `t`, framed for the wire.
pub open spec fn frame_wire_bytes(f: Frame, t: StripTopology, boost: bool) -> Seq<u8> {
    wire_bytes(
        edge_colors(f, t, Side::Bottom, boost),
        edge_colors(f, t, Side::Right, boost),
        edge_colors(f, t, Side::Top, boost),
        edge_colors(f, t, Side::Left, boost),
    )
}

/// Why a frame could not be turned into LED colors.
#[derive(Clone, Copy, Debug, PartialEq, Eq, Structural)]
pub enum FrameError {
    /// The buffer does not hold the frame it describes, or the frame has
    /// fewer pixels than the LED grid has cells across or down.
    Malformed,
}

/// The work done for each frame of the LED-driving capture: reduce, frame
/// for the wire, release the scratch edge buffers.
pub struct FramePipeline {
    pub topology: StripTopology,
    pub boost: bool,
    pub edges: EdgeColors,
}

impl FramePipeline {
    /// The layout is well formed and no frame is half processed.
    pub open spec fn is_well_formed(&self) -> bool {
        &&& self.topology.is_well_formed()
        &&& self.edges.is_empty()
    }

    /// A pipeline for `topology`, boosting saturation when `boost` is set.
    pub fn new(topology: StripTopology, boost: bool) -> (r: FramePipeline)
        requires
            topology.is_well_formed(),
        ensures
            r.is_well_formed(),
            r.topology == topology,
            r.boost == boost,
    {
        FramePipeline { topology, boost, edges: EdgeColors::with_capacity(&topology) }
    }

    /// The bytes to send for one frame; `Malformed` exactly when the frame
    /// does not fit the layout.
    pub fn on_frame(&mut self, frame: &Frame) -> (r: Result<Vec<u8>, FrameError>)
        requires
            old(self).is_well_formed(),
        ensures
            final(self).is_well_formed(),
            final(self).topology == old(self).topology,
            final(self).boost == old(self).boost,
            match r {
                Ok(bytes) => old(self).topology.fits(*frame) && bytes@ == frame_wire_bytes(
                    *frame,
                    old(self).topology,
                    old(self).boost,
                ),
                Err(e) => !old(self).topology.fits(*frame) && e == FrameError::Malformed,
            },
    {
        if !self.topology.check_fits(frame) {
            return Err(FrameError::Malformed);
        }
        let topology = self.topology;
        reduce_into(&mut self.edges, frame, &topology, self.boost);
        let bytes = encode_frame(&self.edges);
        self.edges.release();
        Ok(bytes)
    }
}

/// Where a capture session stands. `Idle` is the absence of a session.
#[derive(Clone, Copy, Debug, PartialEq, Eq, Structural)]
pub enum SessionState {
    Idle,
    Starting,
    Running,
    Stopping,
    Stopped,
}

/// What happened to a capture session.
#[derive(Clone, Copy, Debug, PartialEq, Eq, Structural)]
pub enum SessionEvent {
    /// The user pressed start/stop.
    Toggle,
    /// The frame source and the serial device were both acquired.
    Acquired,
    /// The frame source or the serial device could not be acquired.
    AcquireFailed,
    /// A frame could not be processed or written to the serial device.
    FrameFailed,
    /// The frame source closed by itself (the monitor went away).
    SourceClosed,
    /// The capture resources were fully released.
    Released,
}

/// What the owner of a session must do next.
#[derive(Clone, Copy, Debug, PartialEq, Eq, Structural)]
pub enum SessionAction {
    Nothing,
    /// Acquire the frame source and open the serial device.
    Acquire,
    /// Stop the capture and release its resources.
    Release,
    /// Stop the capture, release its resources and report the failure.
    Abort,
    /// Report that acquisition failed; nothing is held.
    ReportAcquireError,
    /// Report that the session has stopped.
    NotifyStopped,
}

/// A session holds capture resources (or is getting or giving them up).
pub open spec fn holds_session(s: SessionState) -> bool {
    s == SessionState::Starting || s == SessionState::Running || s == SessionState::Stopping
}

/// The transition table of a capture session.
pub open spec fn transition(s: SessionState, e: SessionEvent) -> (SessionState, SessionAction) {
    match (s, e) {
        (SessionState::Idle, SessionEvent::Toggle) | (SessionState::Stopped, SessionEvent::Toggle) => (
            SessionState::Starting,
            SessionAction::Acquire,
        ),
        (SessionState::Running, SessionEvent::Toggle) => (
            SessionState::Stopping,
            SessionAction::Release,
        ),
        (SessionState::Starting, SessionEvent::Acquired) => (
            SessionState::Running,
            SessionAction::Nothing,
        ),
        (SessionState::Starting, SessionEvent::AcquireFailed) => (
            SessionState::Idle,
            SessionAction::ReportAcquireError,
        ),
        (SessionState::Running, SessionEvent::FrameFailed) => (
            SessionState::Stopping,
            SessionAction::Abort,
        ),
        (SessionState::Running, SessionEvent::SourceClosed) => (
            SessionState::Stopping,
            SessionAction::Release,
        ),
        (SessionState::Stopping, SessionEvent::Released) => (
            SessionState::Stopped,
            SessionAction::NotifyStopped,
        ),
        _ => (s, SessionAction::Nothing),
    }
}

/// The primary, LED-driving capture session.
pub struct CaptureSession {
    pub state: SessionState,
}

impl CaptureSession {
    /// No session yet.
    pub fn new() -> (r: CaptureSession)
        ensures
            r.state == SessionState::Idle,
    {
        CaptureSession { state: SessionState::Idle }
    }

    /// Moves the session by `event` and says what to do about it.
    pub fn handle(&mut self, event: SessionEvent) -> (r: SessionAction)
        ensures
            (final(self).state, r) == transition(old(self).state, event),
    {
        let (next, action) = match (self.state, event) {
            (SessionState::Idle, SessionEvent::Toggle) | (
                SessionState::Stopped,
                SessionEvent::Toggle,
            ) => (SessionState::Starting, SessionAction::Acquire),
            (SessionState::Running, SessionEvent::Toggle) => (
                SessionState::Stopping,
                SessionAction::Release,
            ),
            (SessionState::Starting, SessionEvent::Acquired) => (
                SessionState::Running,
                SessionAction::Nothing,
            ),
            (SessionState::Starting, SessionEvent::AcquireFailed) => (
                SessionState::Idle,
                SessionAction::ReportAcquireError,
            ),
            (SessionState::Running, SessionEvent::FrameFailed) => (
                SessionState::Stopping,
                SessionAction::Abort,
            ),
            (SessionState::Running, SessionEvent::SourceClosed) => (
                SessionState::Stopping,
                SessionAction::Release,
            ),
            (SessionState::Stopping, SessionEvent::Released) => (
                SessionState::Stopped,
                SessionAction::NotifyStopped,
            ),
            (s, _) => (s, SessionAction::Nothing),
        };
        self.state = next;
        action
    }

    /// The "capture active" flag: previews stay suspended while it is set.
    pub fn is_active(&self) -> (r: bool)
        ensures
            r == holds_session(self.state),
    {
        match self.state {
            SessionState::Starting | SessionState::Running | SessionState::Stopping => true,
            _ => false,
        }
    }
}

/// A session is acquired only where none is held, and is held after that:
/// there is never more than one primary session.
pub proof fn lemma_single_session(s: SessionState, e: SessionEvent)
    ensures
        transition(s, e).1 == SessionAction::Acquire ==> !holds_session(s) && holds_session(
            transition(s, e).0,
        ),
{
}

/// Toggling twice in a row never starts two sessions: the second toggle
/// does nothing or stops the first.
pub proof fn lemma_toggle_twice(s: SessionState)
    ensures
        ({
            let (s1, a1) = transition(s, SessionEvent::Toggle);
            let (s2, a2) = transition(s1, SessionEvent::Toggle);
            a1 == SessionAction::Acquire ==> a2 == SessionAction::Nothing || a2
                == SessionAction::Release
        }),
{
}

/// Where each LED rectangle is filled with its own color, the reduced edges
/// are those colors in raster order, and the bytes sent carry bottom and left
/// in that order and right and top reversed: the right and top segments,
/// read backwards triple by triple, give raster order back.
pub proof fn lemma_tagged_frame_on_wire(
    f: Frame,
    t: StripTopology,
    top: Seq<Rgb>,
    bottom: Seq<Rgb>,
    left: Seq<Rgb>,
    right: Seq<Rgb>,
)
    requires
        t.fits(f),
        edge_is_tagged(f, t, Side::Top, top),
        edge_is_tagged(f, t, Side::Bottom, bottom),
        edge_is_tagged(f, t, Side::Left, left),
        edge_is_tagged(f, t, Side::Right, right),
    ensures
        edge_colors(f, t, Side::Top, false) == top,
        edge_colors(f, t, Side::Bottom, false) == bottom,
        edge_colors(f, t, Side::Left, false) == left,
        edge_colors(f, t, Side::Right, false) == right,
        frame_wire_bytes(f, t, false) == header() + flatten(bottom) + flatten(right.reverse())
            + flatten(top.reverse()) + flatten(left),
{
    lemma_tagged_edge(f, t, Side::Top, top);
    lemma_tagged_edge(f, t, Side::Bottom, bottom);
    lemma_tagged_edge(f, t, Side::Left, left);
    lemma_tagged_edge(f, t, Side::Right, right);
}

proof fn lemma_cell_index(x: int, i: int, cw: int)
    requires
        cw > 0,
        i * cw <= x < i * cw + cw,
    ensures
        x / cw == i,
{
    assert(x / cw == i) by (nonlinear_arith)
        requires
            cw > 0,
            i * cw <= x < i * cw + cw,
    ;
}

/// Every pixel of the sampled grid has the color of its cell: `tags[cy][cx]`
/// for the cell in column `cx`, row `cy`.
pub open spec fn is_cell_tagged(f: Frame, t: StripTopology, tags: Seq<Seq<Rgb>>) -> bool {
    &&& tags.len() == t.vertical_leds
    &&& forall|cy: int| 0 <= cy < tags.len() ==> #[trigger] tags[cy].len() == t.horizontal_leds
    &&& forall|x: int, y: int|
        0 <= x < t.horizontal_leds * cell_width(f, t) && 0 <= y < t.vertical_leds * cell_height(f, t)
            ==> #[trigger] pixel_rgb(f, x, y) == tags[y / cell_height(f, t)][x / cell_width(f, t)]
}

proof fn lemma_pixel_in_cell(
    f: Frame,
    t: StripTopology,
    tags: Seq<Seq<Rgb>>,
    c: int,
    r: int,
    px: int,
    py: int,
)
    requires
        t.fits(f),
        is_cell_tagged(f, t, tags),
        cell_width(f, t) >= 1,
        cell_height(f, t) >= 1,
        0 <= c < t.horizontal_leds,
        0 <= r < t.vertical_leds,
        c * cell_width(f, t) <= px < c * cell_width(f, t) + cell_width(f, t),
        r * cell_height(f, t) <= py < r * cell_height(f, t) + cell_height(f, t),
    ensures
        pixel_rgb(f, px, py) == tags[r][c],
{
    let cw = cell_width(f, t);
    let ch = cell_height(f, t);
    let hl = t.horizontal_leds as int;
    let vl = t.vertical_leds as int;
    lemma_cell_index(px, c, cw);
    lemma_cell_index(py, r, ch);
    assert(px < hl * cw) by (nonlinear_arith)
        requires
            px < c * cw + cw,
            c + 1 <= hl,
            cw >= 1,
    ;
    assert(py < vl * ch) by (nonlinear_arith)
        requires
            py < r * ch + ch,
            r + 1 <= vl,
            ch >= 1,
    ;
    assert(0 <= px && 0 <= py) by (nonlinear_arith)
        requires
            c * cw <= px,
            r * ch <= py,
            c >= 0,
            r >= 0,
            cw >= 1,
            ch >= 1,
    ;
}

/// Channel `k` of a color: 0 red, 1 green, 2 blue.
pub open spec fn rgb_channel(c: Rgb, k: int) -> int {
    if k == 0 {
        c.r as int
    } else if k == 1 {
        c.g as int
    } else {
        c.b as int
    }
}

/// Sum of channel `k` over the tags of `n` cells of column `c`, from row `r0` down.
pub open spec fn column_tag_sum(tags: Seq<Seq<Rgb>>, c: int, r0: int, n: int, k: int) -> int
    decreases n,
{
    if n <= 0 {
        0
    } else {
        column_tag_sum(tags, c, r0, n - 1, k) + rgb_channel(tags[r0 + n - 1][c], k)
    }
}

/// Sum of channel `k` over the tags of `n` cells of row `r`, from column `c0` on.
pub open spec fn row_tag_sum(tags: Seq<Seq<Rgb>>, r: int, c0: int, n: int, k: int) -> int
    decreases n,
{
    if n <= 0 {
        0
    } else {
        row_tag_sum(tags, r, c0, n - 1, k) + rgb_channel(tags[r][c0 + n - 1], k)
    }
}

/// The floor mean, channel by channel, of the tags of `n` cells of column
/// `c` from row `r0` down.
pub open spec fn column_mean(tags: Seq<Seq<Rgb>>, c: int, r0: int, n: int) -> Rgb {
    Rgb {
        r: (column_tag_sum(tags, c, r0, n, 0) / n) as u8,
        g: (column_tag_sum(tags, c, r0, n, 1) / n) as u8,
        b: (column_tag_sum(tags, c, r0, n, 2) / n) as u8,
    }
}

/// The floor mean, channel by channel, of the tags of `n` cells of row `r`
/// from column `c0` on.
pub open spec fn row_mean(tags: Seq<Seq<Rgb>>, r: int, c0: int, n: int) -> Rgb {
    Rgb {
        r: (row_tag_sum(tags, r, c0, n, 0) / n) as u8,
        g: (row_tag_sum(tags, r, c0, n, 1) / n) as u8,
        b: (row_tag_sum(tags, r, c0, n, 2) / n) as u8,
    }
}

proof fn lemma_cell_sum(f: Frame, t: StripTopology, tags: Seq<Seq<Rgb>>, c: int, r: int, k: int)
    requires
        t.fits(f),
        is_cell_tagged(f, t, tags),
        cell_width(f, t) >= 1,
        cell_height(f, t) >= 1,
        0 <= c < t.horizontal_leds,
        0 <= r < t.vertical_leds,
        0 <= k < 3,
    ensures
        band_sum(f, c * cell_width(f, t), r * cell_height(f, t), cell_width(f, t), cell_height(f, t), k)
            == rgb_channel(tags[r][c], k) * (cell_width(f, t) * cell_height(f, t)),
{
    let cw = cell_width(f, t);
    let ch = cell_height(f, t);
    let v = rgb_channel(tags[r][c], k);
    assert forall|px: int, py: int|
        c * cw <= px < c * cw + cw && r * ch <= py < r * ch + ch implies #[trigger] f.channel(
        px,
        py,
        k,
    ) == v by {
        lemma_pixel_in_cell(f, t, tags, c, r, px, py);
        assert(pixel_rgb(f, px, py) == tags[r][c]);
    }
    lemma_uniform_band_sum(f, c * cw, r * ch, cw, ch, k, v);
}

proof fn lemma_column_cells_sum(
    f: Frame,
    t: StripTopology,
    tags: Seq<Seq<Rgb>>,
    c: int,
    r0: int,
    n: int,
    k: int,
)
    requires
        t.fits(f),
        is_cell_tagged(f, t, tags),
        cell_width(f, t) >= 1,
        cell_height(f, t) >= 1,
        0 <= c < t.horizontal_leds,
        0 <= r0,
        0 <= n,
        r0 + n <= t.vertical_leds,
        0 <= k < 3,
    ensures
        band_sum(f, c * cell_width(f, t), r0 * cell_height(f, t), cell_width(f, t), cell_height(f, t) * n, k)
            == (cell_width(f, t) * cell_height(f, t)) * column_tag_sum(tags, c, r0, n, k),
    decreases n,
{
    let cw = cell_width(f, t);
    let ch = cell_height(f, t);
    let a = cw * ch;
    if n == 0 {
        assert(ch * 0 == 0);
        assert(a * 0 == 0);
    } else {
        lemma_column_cells_sum(f, t, tags, c, r0, n - 1, k);
        lemma_cell_sum(f, t, tags, c, r0 + n - 1, k);
        assert(ch * (n - 1) + ch == ch * n) by (nonlinear_arith);
        assert(ch * (n - 1) >= 0) by (nonlinear_arith)
            requires
                ch >= 1,
                n >= 1,
        ;
        lemma_band_split_rows(f, c * cw, r0 * ch, cw, ch * (n - 1), ch, k);
        assert(r0 * ch + ch * (n - 1) == (r0 + n - 1) * ch) by (nonlinear_arith);
        let s = column_tag_sum(tags, c, r0, n - 1, k);
        let v = rgb_channel(tags[r0 + n - 1][c], k);
        assert(a * s + v * a == a * (s + v)) by (nonlinear_arith);
    }
}

proof fn lemma_row_cells_sum(
    f: Frame,
    t: StripTopology,
    tags: Seq<Seq<Rgb>>,
    r: int,
    c0: int,
    n: int,
    k: int,
)
    requires
        t.fits(f),
        is_cell_tagged(f, t, tags),
        cell_width(f, t) >= 1,
        cell_height(f, t) >= 1,
        0 <= r < t.vertical_leds,
        0 <= c0,
        0 <= n,
        c0 + n <= t.horizontal_leds,
        0 <= k < 3,
    ensures
        band_sum(f, c0 * cell_width(f, t), r * cell_height(f, t), cell_width(f, t) * n, cell_height(f, t), k)
            == (cell_width(f, t) * cell_height(f, t)) * row_tag_sum(tags, r, c0, n, k),
    decreases n,
{
    let cw = cell_width(f, t);
    let ch = cell_height(f, t);
    let a = cw * ch;
    if n == 0 {
        assert(cw * 0 == 0);
        assert(a * 0 == 0);
        assert(band_sum(f, c0 * cw, r * ch, 0, ch, k) == 0) by {
            lemma_uniform_band_sum(f, c0 * cw, r * ch, 0, ch, k, 0);
            assert(0 * (0 * ch) == 0);
        }
    } else {
        lemma_row_cells_sum(f, t, tags, r, c0, n - 1, k);
        lemma_cell_sum(f, t, tags, c0 + n - 1, r, k);
        assert(cw * (n - 1) + cw == cw * n) by (nonlinear_arith);
        assert(cw * (n - 1) >= 0) by (nonlinear_arith)
            requires
                cw >= 1,
                n >= 1,
        ;
        lemma_band_split_columns(f, c0 * cw, r * ch, cw * (n - 1), cw, ch, k);
        assert(c0 * cw + cw * (n - 1) == (c0 + n - 1) * cw) by (nonlinear_arith);
        let s = row_tag_sum(tags, r, c0, n - 1, k);
        let v = rgb_channel(tags[r][c0 + n - 1], k);
        assert(a * s + v * a == a * (s + v)) by (nonlinear_arith);
    }
}

proof fn lemma_scaled_mean(a: int, s: int, n: int)
    requires
        a > 0,
        n > 0,
        s >= 0,
    ensures
        (a * s) / (a * n) == s / n,
{
    assert(a * s >= 0) by (nonlinear_arith)
        requires
            a > 0,
            s >= 0,
    ;
    lemma_div_denominator(a * s, a, n);
    lemma_div_multiples_vanish(s, a);
}

proof fn lemma_tag_sums_nonnegative(tags: Seq<Seq<Rgb>>, c: int, r0: int, n: int, k: int)
    ensures
        column_tag_sum(tags, c, r0, n, k) >= 0,
        row_tag_sum(tags, c, r0, n, k) >= 0,
    decreases n,
{
    if n > 0 {
        lemma_tag_sums_nonnegative(tags, c, r0, n - 1, k);
    }
}

/// A frame whose grid cells each carry their own color, sampled with any
/// oversampling: each top or bottom LED is the floor mean of the tags of its
/// column's first or last `vertical_oversample` cells, each left or right LED
/// that of its row's first or last `horizontal_oversample` cells. The edges
/// come out in raster order, and the bytes sent carry bottom and left in that
/// order and right and top reversed. With two cells per LED, top LED `i` is
/// the floor mean of cells `(i, 0)` and `(i, 1)`.
pub proof fn lemma_cell_tagged_frame_on_wire(f: Frame, t: StripTopology, tags: Seq<Seq<Rgb>>)
    requires
        t.fits(f),
        is_cell_tagged(f, t, tags),
    ensures
        ({
            let hl = t.horizontal_leds as int;
            let vl = t.vertical_leds as int;
            let ho = t.horizontal_oversample as int;
            let vo = t.vertical_oversample as int;
            let top = Seq::new(hl as nat, |i: int| column_mean(tags, i, 0, vo));
            let bottom = Seq::new(hl as nat, |i: int| column_mean(tags, i, vl - vo, vo));
            let left = Seq::new(vl as nat, |j: int| row_mean(tags, j, 0, ho));
            let right = Seq::new(vl as nat, |j: int| row_mean(tags, j, hl - ho, ho));
            &&& edge_colors(f, t, Side::Top, false) == top
            &&& edge_colors(f, t, Side::Bottom, false) == bottom
            &&& edge_colors(f, t, Side::Left, false) == left
            &&& edge_colors(f, t, Side::Right, false) == right
            &&& frame_wire_bytes(f, t, false) == header() + flatten(bottom) + flatten(
                right.reverse(),
            ) + flatten(top.reverse()) + flatten(left)
        }),
{
    let hl = t.horizontal_leds as int;
    let vl = t.vertical_leds as int;
    let ho = t.horizontal_oversample as int;
    let vo = t.vertical_oversample as int;
    let cw = cell_width(f, t);
    let ch = cell_height(f, t);
    let fw = f.width as int;
    let fh = f.height as int;
    assert(cw >= 1) by (nonlinear_arith)
        requires
            cw == fw / hl,
            hl >= 1,
            fw >= hl,
    ;
    assert(ch >= 1) by (nonlinear_arith)
        requires
            ch == fh / vl,
            vl >= 1,
            fh >= vl,
    ;
    let a = cw * ch;
    assert(a > 0) by (nonlinear_arith)
        requires
            a == cw * ch,
            cw >= 1,
            ch >= 1,
    ;
    let top = Seq::new(hl as nat, |i: int| column_mean(tags, i, 0, vo));
    let bottom = Seq::new(hl as nat, |i: int| column_mean(tags, i, vl - vo, vo));
    let left = Seq::new(vl as nat, |j: int| row_mean(tags, j, 0, ho));
    let right = Seq::new(vl as nat, |j: int| row_mean(tags, j, hl - ho, ho));
    assert forall|i: int, r0: int, k: int|
        0 <= i < hl && (r0 == 0 || r0 == vl - vo) && 0 <= k < 3 implies #[trigger] band_mean(
        f,
        i * cw,
        r0 * ch,
        cw,
        ch * vo,
        k,
    ) == column_tag_sum(tags, i, r0, vo, k) / vo by {
        lemma_column_cells_sum(f, t, tags, i, r0, vo, k);
        lemma_tag_sums_nonnegative(tags, i, r0, vo, k);
        assert(cw * (ch * vo) == a * vo) by (nonlinear_arith)
            requires
                a == cw * ch,
        ;
        lemma_scaled_mean(a, column_tag_sum(tags, i, r0, vo, k), vo);
    }
    assert forall|j: int, c0: int, k: int|
        0 <= j < vl && (c0 == 0 || c0 == hl - ho) && 0 <= k < 3 implies #[trigger] band_mean(
        f,
        c0 * cw,
        j * ch,
        cw * ho,
        ch,
        k,
    ) == row_tag_sum(tags, j, c0, ho, k) / ho by {
        lemma_row_cells_sum(f, t, tags, j, c0, ho, k);
        lemma_tag_sums_nonnegative(tags, j, c0, ho, k);
        assert((cw * ho) * ch == a * ho) by (nonlinear_arith)
            requires
                a == cw * ch,
        ;
        lemma_scaled_mean(a, row_tag_sum(tags, j, c0, ho, k), ho);
    }
    assert(0 * ch == 0 && 0 * cw == 0);
    assert(edge_colors(f, t, Side::Top, false) =~= top) by {
        assert forall|i: int| 0 <= i < hl implies edge_colors(f, t, Side::Top, false)[i] == top[i] by {
            assert(band_mean(f, i * cw, 0 * ch, cw, ch * vo, 0) == column_tag_sum(tags, i, 0, vo, 0) / vo);
            assert(band_mean(f, i * cw, 0 * ch, cw, ch * vo, 1) == column_tag_sum(tags, i, 0, vo, 1) / vo);
            assert(band_mean(f, i * cw, 0 * ch, cw, ch * vo, 2) == column_tag_sum(tags, i, 0, vo, 2) / vo);
        }
    }
    assert(edge_colors(f, t, Side::Bottom, false) =~= bottom) by {
        assert forall|i: int| 0 <= i < hl implies edge_colors(f, t, Side::Bottom, false)[i] == bottom[i] by {
            let r0 = vl - vo;
            assert(band_mean(f, i * cw, r0 * ch, cw, ch * vo, 0) == column_tag_sum(tags, i, r0, vo, 0) / vo);
            assert(band_mean(f, i * cw, r0 * ch, cw, ch * vo, 1) == column_tag_sum(tags, i, r0, vo, 1) / vo);
            assert(band_mean(f, i * cw, r0 * ch, cw, ch * vo, 2) == column_tag_sum(tags, i, r0, vo, 2) / vo);
        }
    }
    assert(edge_colors(f, t, Side::Left, false) =~= left) by {
        assert forall|j: int| 0 <= j < vl implies edge_colors(f, t, Side::Left, false)[j] == left[j] by {
            assert(band_mean(f, 0 * cw, j * ch, cw * ho, ch, 0) == row_tag_sum(tags, j, 0, ho, 0) / ho);
            assert(band_mean(f, 0 * cw, j * ch, cw * ho, ch, 1) == row_tag_sum(tags, j, 0, ho, 1) / ho);
            assert(band_mean(f, 0 * cw, j * ch, cw * ho, ch, 2) == row_tag_sum(tags, j, 0, ho, 2) / ho);
        }
    }
    assert(edge_colors(f, t, Side::Right, false) =~= right) by {
        assert forall|j: int| 0 <= j < vl implies edge_colors(f, t, Side::Right, false)[j] == right[j] by {
            let c0 = hl - ho;
            assert(band_mean(f, c0 * cw, j * ch, cw * ho, ch, 0) == row_tag_sum(tags, j, c0, ho, 0) / ho);
            assert(band_mean(f, c0 * cw, j * ch, cw * ho, ch, 1) == row_tag_sum(tags, j, c0, ho, 1) / ho);
            assert(band_mean(f, c0 * cw, j * ch, cw * ho, ch, 2) == row_tag_sum(tags, j, c0, ho, 2) / ho);
        }
    }
}

} // verus!
