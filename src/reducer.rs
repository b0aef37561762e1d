use vstd::prelude::*;
use rayon::iter::{IntoParallelIterator, ParallelIterator};
use crate::color::{Rgb, boost_saturation, finished_color};
use crate::frame::{
    Frame,
    band_average,
    band_color,
    band_in_frame,
    band_is_uniform,
    lemma_uniform_band_color,
    pixel_rgb,
};

verus! {

/// LEDs along the top and bottom edges.
pub const HORIZONTAL_LEDS: usize = 28;

/// LEDs along the left and right edges.
pub const VERTICAL_LEDS: usize = 18;

/// Grid columns merged into one left or right LED.
pub const HORIZONTAL_OVERSAMPLE: usize = 2;

/// Grid rows merged into one top or bottom LED.
pub const VERTICAL_OVERSAMPLE: usize = 2;

/// The LED layout around the screen. The frame is cut into a grid of
/// `horizontal_leds` x `vertical_leds` cells; a top or bottom LED averages
/// `vertical_oversample` cells stacked from its edge, a left or right LED
/// averages `horizontal_oversample` cells side by side from its edge.
#[derive(Clone, Copy, Debug, PartialEq, Eq, Structural)]
pub struct StripTopology {
    pub horizontal_leds: usize,
    pub vertical_leds: usize,
    pub horizontal_oversample: usize,
    pub vertical_oversample: usize,
}

/// One edge of the screen.
#[derive(Clone, Copy, Debug, PartialEq, Eq, Structural)]
pub enum Side {
    Top,
    Bottom,
    Left,
    Right,
}

/// Two edges whose LEDs share an index: top with bottom, left with right.
#[derive(Clone, Copy, Debug, PartialEq, Eq, Structural)]
pub enum EdgePair {
    TopBottom,
    LeftRight,
}

impl StripTopology {
    /// Oversampling is at least one cell, and each LED count covers both
    /// ends' oversampled cells.
    pub open spec fn is_well_formed(&self) -> bool {
        &&& self.horizontal_oversample >= 1
        &&& self.vertical_oversample >= 1
        &&& self.horizontal_leds >= 2 * self.horizontal_oversample
        &&& self.vertical_leds >= 2 * self.vertical_oversample
    }

    /// The frame is well formed and every grid cell holds at least one pixel.
    pub open spec fn fits(&self, f: Frame) -> bool {
        &&& self.is_well_formed()
        &&& f.is_well_formed()
        &&& f.width >= self.horizontal_leds
        &&& f.height >= self.vertical_leds
    }

    /// The number of LEDs on one edge.
    pub open spec fn led_count(&self, side: Side) -> int {
        match side {
            Side::Top | Side::Bottom => self.horizontal_leds as int,
            Side::Left | Side::Right => self.vertical_leds as int,
        }
    }

    /// The layout this strip is built for: 28 LEDs across, 18 down, two
    /// cells merged per LED.
    pub fn standard() -> (r: StripTopology)
        ensures
            r.is_well_formed(),
            r.horizontal_leds == HORIZONTAL_LEDS,
            r.vertical_leds == VERTICAL_LEDS,
            r.horizontal_oversample == HORIZONTAL_OVERSAMPLE,
            r.vertical_oversample == VERTICAL_OVERSAMPLE,
    {
        StripTopology {
            horizontal_leds: HORIZONTAL_LEDS,
            vertical_leds: VERTICAL_LEDS,
            horizontal_oversample: HORIZONTAL_OVERSAMPLE,
            vertical_oversample: VERTICAL_OVERSAMPLE,
        }
    }

    /// A layout from its four numbers; `None` where they are not well formed.
    pub fn new(
        horizontal_leds: usize,
        vertical_leds: usize,
        horizontal_oversample: usize,
        vertical_oversample: usize,
    ) -> (r: Option<StripTopology>)
        ensures
            r == (if (StripTopology {
                horizontal_leds,
                vertical_leds,
                horizontal_oversample,
                vertical_oversample,
            }).is_well_formed() {
                Some(
                    StripTopology {
                        horizontal_leds,
                        vertical_leds,
                        horizontal_oversample,
                        vertical_oversample,
                    },
                )
            } else {
                None
            }),
    {
        let t = StripTopology {
            horizontal_leds,
            vertical_leds,
            horizontal_oversample,
            vertical_oversample,
        };
        if horizontal_oversample >= 1 && vertical_oversample >= 1 && horizontal_leds / 2
            >= horizontal_oversample && vertical_leds / 2 >= vertical_oversample {
            Some(t)
        } else {
            None
        }
    }

    /// Tells whether `f` is well formed and large enough for this layout.
    pub fn check_fits(&self, f: &Frame) -> (r: bool)
        requires
            self.is_well_formed(),
        ensures
            r == self.fits(*f),
    {
        f.check_well_formed() && f.width >= self.horizontal_leds && f.height
            >= self.vertical_leds
    }
}

/// Width of a grid cell in pixels; the remainder columns are not sampled.
pub open spec fn cell_width(f: Frame, t: StripTopology) -> int {
    f.width as int / t.horizontal_leds as int
}

/// Height of a grid cell in pixels; the remainder rows are not sampled.
pub open spec fn cell_height(f: Frame, t: StripTopology) -> int {
    f.height as int / t.vertical_leds as int
}

/// The rectangle `(x, y, w, h)` that LED `i` of `side` averages. Top LEDs take
/// the first `vertical_oversample` cell rows, bottom LEDs the last ones, each
/// one cell wide; left LEDs take the first `horizontal_oversample` cell
/// columns, right LEDs the last ones, each one cell high.
pub open spec fn led_band(f: Frame, t: StripTopology, side: Side, i: int) -> (int, int, int, int) {
    let cw = cell_width(f, t);
    let ch = cell_height(f, t);
    let ho = t.horizontal_oversample as int;
    let vo = t.vertical_oversample as int;
    match side {
        Side::Top => (i * cw, 0, cw, ch * vo),
        Side::Bottom => (i * cw, (t.vertical_leds - vo) * ch, cw, ch * vo),
        Side::Left => (0, i * ch, cw * ho, ch),
        Side::Right => ((t.horizontal_leds - ho) * cw, i * ch, cw * ho, ch),
    }
}

/// The mean color of the rectangle of LED `i` of `side`.
pub open spec fn led_average(f: Frame, t: StripTopology, side: Side, i: int) -> Rgb {
    let (x, y, w, h) = led_band(f, t, side, i);
    band_color(f, x, y, w, h)
}

/// The colors of one edge in ascending index order (left to right along top
/// and bottom, top to bottom along left and right), boosted when `boost` is set.
pub open spec fn edge_colors(f: Frame, t: StripTopology, side: Side, boost: bool) -> Seq<Rgb> {
    Seq::new(t.led_count(side) as nat, |i: int| finished_color(led_average(f, t, side, i), boost))
}

/// The LED pair at index `i`: top and bottom, or left and right.
pub open spec fn led_pair_average(f: Frame, t: StripTopology, pair: EdgePair, i: int) -> (
    Rgb,
    Rgb,
) {
    match pair {
        EdgePair::TopBottom => (
            led_average(f, t, Side::Top, i),
            led_average(f, t, Side::Bottom, i),
        ),
        EdgePair::LeftRight => (
            led_average(f, t, Side::Left, i),
            led_average(f, t, Side::Right, i),
        ),
    }
}

/// The number of LED pairs: the LED count of either edge of the pair.
pub open spec fn pair_count(t: StripTopology, pair: EdgePair) -> int {
    match pair {
        EdgePair::TopBottom => t.horizontal_leds as int,
        EdgePair::LeftRight => t.vertical_leds as int,
    }
}

/// The rectangle of every LED lies inside the frame.
pub proof fn lemma_led_band_in_frame(f: Frame, t: StripTopology, side: Side, i: int)
    requires
        t.fits(f),
        0 <= i < t.led_count(side),
    ensures
        ({
            let (x, y, w, h) = led_band(f, t, side, i);
            band_in_frame(f, x, y, w, h)
        }),
{
    let cw = cell_width(f, t);
    let ch = cell_height(f, t);
    let hl = t.horizontal_leds as int;
    let vl = t.vertical_leds as int;
    let ho = t.horizontal_oversample as int;
    let vo = t.vertical_oversample as int;
    let fw = f.width as int;
    let fh = f.height as int;
    assert(cw >= 1 && hl * cw <= fw) by (nonlinear_arith)
        requires
            cw == fw / hl,
            hl >= 1,
            fw >= hl,
    ;
    assert(ch >= 1 && vl * ch <= fh) by (nonlinear_arith)
        requires
            ch == fh / vl,
            vl >= 1,
            fh >= vl,
    ;
    match side {
        Side::Top | Side::Bottom => {
            assert(i * cw + cw <= fw && 0 <= i * cw) by (nonlinear_arith)
                requires
                    0 <= i < hl,
                    cw >= 1,
                    hl * cw <= fw,
            ;
            assert((vl - vo) * ch + ch * vo <= fh && 0 <= (vl - vo) * ch && ch * vo > 0)
                by (nonlinear_arith)
                requires
                    1 <= vo <= vl,
                    ch >= 1,
                    vl * ch <= fh,
            ;
        },
        Side::Left | Side::Right => {
            assert(i * ch + ch <= fh && 0 <= i * ch) by (nonlinear_arith)
                requires
                    0 <= i < vl,
                    ch >= 1,
                    vl * ch <= fh,
            ;
            assert((hl - ho) * cw + cw * ho <= fw && 0 <= (hl - ho) * cw && cw * ho > 0)
                by (nonlinear_arith)
                requires
                    1 <= ho <= hl,
                    cw >= 1,
                    hl * cw <= fw,
            ;
        },
    }
}

/// The mean color of LED `i` of `side`, before any boost.
pub fn led_color(frame: &Frame, topology: &StripTopology, side: Side, i: usize) -> (r: Rgb)
    requires
        topology.fits(*frame),
        i < topology.led_count(side),
    ensures
        r == led_average(*frame, *topology, side, i as int),
{
    proof {
        lemma_led_band_in_frame(*frame, *topology, side, i as int);
    }
    let cw: usize = frame.width / topology.horizontal_leds;
    let ch: usize = frame.height / topology.vertical_leds;
    let ho = topology.horizontal_oversample;
    let vo = topology.vertical_oversample;
    match side {
        Side::Top => band_average(frame, i * cw, 0, cw, ch * vo),
        Side::Bottom => band_average(
            frame,
            i * cw,
            (topology.vertical_leds - vo) * ch,
            cw,
            ch * vo,
        ),
        Side::Left => band_average(frame, 0, i * ch, cw * ho, ch),
        Side::Right => band_average(
            frame,
            (topology.horizontal_leds - ho) * cw,
            i * ch,
            cw * ho,
            ch,
        ),
    }
}

/// The colors of the LED pair at index `i`.
pub fn led_pair(frame: &Frame, topology: &StripTopology, pair: EdgePair, i: usize) -> (r: (
    Rgb,
    Rgb,
))
    requires
        topology.fits(*frame),
        i < pair_count(*topology, pair),
    ensures
        r == led_pair_average(*frame, *topology, pair, i as int),
{
    match pair {
        EdgePair::TopBottom => (
            led_color(frame, topology, Side::Top, i),
            led_color(frame, topology, Side::Bottom, i),
        ),
        EdgePair::LeftRight => (
            led_color(frame, topology, Side::Left, i),
            led_color(frame, topology, Side::Right, i),
        ),
    }
}

/// Relies on rayon: `(0..n).into_par_iter()` is an indexed parallel iterator,
/// and `map` followed by `collect` into a `Vec` keeps index order, so element
/// `i` is `led_pair` at `i`. All work is joined before `collect` returns.
#[verifier::external_body]
fn par_led_pairs(frame: &Frame, topology: &StripTopology, pair: EdgePair, n: usize) -> (r: Vec<
    (Rgb, Rgb),
>)
    requires
        topology.fits(*frame),
        n == pair_count(*topology, pair),
    ensures
        r@.len() == n,
        forall|i: int| 0 <= i < n ==> r@[i] == led_pair_average(*frame, *topology, pair, i),
{
    (0..n).into_par_iter().map(|i| led_pair(frame, topology, pair, i)).collect()
}

/// The four edge color sequences of one frame, each in ascending index order.
pub struct EdgeColors {
    pub top: Vec<Rgb>,
    pub bottom: Vec<Rgb>,
    pub left: Vec<Rgb>,
    pub right: Vec<Rgb>,
}

impl EdgeColors {
    /// All four sequences are empty.
    pub open spec fn is_empty(&self) -> bool {
        &&& self.top@.len() == 0
        &&& self.bottom@.len() == 0
        &&& self.left@.len() == 0
        &&& self.right@.len() == 0
    }

    /// The four sequences are the edges of `f` under `t`.
    pub open spec fn holds_reduction(&self, f: Frame, t: StripTopology, boost: bool) -> bool {
        &&& self.top@ == edge_colors(f, t, Side::Top, boost)
        &&& self.bottom@ == edge_colors(f, t, Side::Bottom, boost)
        &&& self.left@ == edge_colors(f, t, Side::Left, boost)
        &&& self.right@ == edge_colors(f, t, Side::Right, boost)
    }

    /// Empty sequences with room for one frame of `topology`.
    pub fn with_capacity(topology: &StripTopology) -> (r: EdgeColors)
        ensures
            r.is_empty(),
    {
        EdgeColors {
            top: Vec::with_capacity(topology.horizontal_leds),
            bottom: Vec::with_capacity(topology.horizontal_leds),
            left: Vec::with_capacity(topology.vertical_leds),
            right: Vec::with_capacity(topology.vertical_leds),
        }
    }

    /// Empties the four sequences, keeping their storage for the next frame.
    pub fn release(&mut self)
        ensures
            final(self).is_empty(),
    {
        self.top.clear();
        self.bottom.clear();
        self.left.clear();
        self.right.clear();
    }
}

/// Fills empty edge sequences with the reduction of `frame`.
pub fn reduce_into(edges: &mut EdgeColors, frame: &Frame, topology: &StripTopology, boost: bool)
    requires
        old(edges).is_empty(),
        topology.fits(*frame),
    ensures
        final(edges).holds_reduction(*frame, *topology, boost),
{
    let ghost f = *frame;
    let ghost t = *topology;
    let across = par_led_pairs(frame, topology, EdgePair::TopBottom, topology.horizontal_leds);
    let mut i: usize = 0;
    while i < topology.horizontal_leds
        invariant
            f == *frame,
            t == *topology,
            across@.len() == t.horizontal_leds,
            forall|k: int|
                0 <= k < t.horizontal_leds ==> across@[k] == led_pair_average(
                    f,
                    t,
                    EdgePair::TopBottom,
                    k,
                ),
            i <= t.horizontal_leds,
            edges.top@ == edge_colors(f, t, Side::Top, boost).take(i as int),
            edges.bottom@ == edge_colors(f, t, Side::Bottom, boost).take(i as int),
            edges.left@.len() == 0,
            edges.right@.len() == 0,
        decreases t.horizontal_leds - i,
    {
        let (mut top, mut bottom) = across[i];
        if boost {
            boost_saturation(&mut top);
            boost_saturation(&mut bottom);
        }
        edges.top.push(top);
        edges.bottom.push(bottom);
        i = i + 1;
        assert(edges.top@ =~= edge_colors(f, t, Side::Top, boost).take(i as int));
        assert(edges.bottom@ =~= edge_colors(f, t, Side::Bottom, boost).take(i as int));
    }
    let down = par_led_pairs(frame, topology, EdgePair::LeftRight, topology.vertical_leds);
    let mut j: usize = 0;
    while j < topology.vertical_leds
        invariant
            f == *frame,
            t == *topology,
            down@.len() == t.vertical_leds,
            forall|k: int|
                0 <= k < t.vertical_leds ==> down@[k] == led_pair_average(
                    f,
                    t,
                    EdgePair::LeftRight,
                    k,
                ),
            j <= t.vertical_leds,
            edges.top@ == edge_colors(f, t, Side::Top, boost),
            edges.bottom@ == edge_colors(f, t, Side::Bottom, boost),
            edges.left@ == edge_colors(f, t, Side::Left, boost).take(j as int),
            edges.right@ == edge_colors(f, t, Side::Right, boost).take(j as int),
        decreases t.vertical_leds - j,
    {
        let (mut left, mut right) = down[j];
        if boost {
            boost_saturation(&mut left);
            boost_saturation(&mut right);
        }
        edges.left.push(left);
        edges.right.push(right);
        j = j + 1;
        assert(edges.left@ =~= edge_colors(f, t, Side::Left, boost).take(j as int));
        assert(edges.right@ =~= edge_colors(f, t, Side::Right, boost).take(j as int));
    }
    assert(edges.left@ =~= edge_colors(f, t, Side::Left, boost));
    assert(edges.right@ =~= edge_colors(f, t, Side::Right, boost));
}

/// The edge colors of `frame`: each LED is the floor mean of its rectangle,
/// boosted when `boost` is set, and each edge is in ascending index order.
pub fn reduce(frame: &Frame, topology: &StripTopology, boost: bool) -> (r: EdgeColors)
    requires
        topology.fits(*frame),
    ensures
        r.holds_reduction(*frame, *topology, boost),
{
    let mut edges = EdgeColors::with_capacity(topology);
    reduce_into(&mut edges, frame, topology, boost);
    edges
}

/// Every pixel of the rectangle of LED `i` of `side` has color `tags[i]`,
/// for each LED of that edge.
pub open spec fn edge_is_tagged(f: Frame, t: StripTopology, side: Side, tags: Seq<Rgb>) -> bool {
    &&& tags.len() == t.led_count(side)
    &&& forall|i: int|
        0 <= i < tags.len() ==> {
            let (x, y, w, h) = #[trigger] led_band(f, t, side, i);
            band_is_uniform(f, x, y, w, h, tags[i])
        }
}

/// Where every LED rectangle of an edge is filled with its own color, the
/// reduced edge (without boost) is exactly those colors, in index order.
pub proof fn lemma_tagged_edge(f: Frame, t: StripTopology, side: Side, tags: Seq<Rgb>)
    requires
        t.fits(f),
        edge_is_tagged(f, t, side, tags),
    ensures
        edge_colors(f, t, side, false) == tags,
{
    assert forall|i: int| 0 <= i < tags.len() implies #[trigger] edge_colors(
        f,
        t,
        side,
        false,
    )[i] == tags[i] by {
        lemma_led_band_in_frame(f, t, side, i);
        let (x, y, w, h) = led_band(f, t, side, i);
        lemma_uniform_band_color(f, x, y, w, h, tags[i]);
    }
    assert(edge_colors(f, t, side, false) =~= tags);
}

/// A frame of one solid color `c` gives `c` for every LED of every edge
/// (boosted when `boost` is set), for every well-formed layout that fits it.
pub proof fn lemma_solid_frame(f: Frame, t: StripTopology, c: Rgb, boost: bool)
    requires
        t.fits(f),
        forall|x: int, y: int|
            0 <= x < f.width && 0 <= y < f.height ==> #[trigger] pixel_rgb(f, x, y) == c,
    ensures
        forall|side: Side|
            #[trigger] edge_colors(f, t, side, boost) == Seq::new(
                t.led_count(side) as nat,
                |i: int| finished_color(c, boost),
            ),
{
    assert forall|side: Side|
        #[trigger] edge_colors(f, t, side, boost) == Seq::new(
            t.led_count(side) as nat,
            |i: int| finished_color(c, boost),
        ) by {
        assert forall|i: int| 0 <= i < t.led_count(side) implies #[trigger] led_average(
            f,
            t,
            side,
            i,
        ) == c by {
            lemma_led_band_in_frame(f, t, side, i);
            let (x, y, w, h) = led_band(f, t, side, i);
            assert(band_is_uniform(f, x, y, w, h, c));
            lemma_uniform_band_color(f, x, y, w, h, c);
        }
        assert(edge_colors(f, t, side, boost) =~= Seq::new(
            t.led_count(side) as nat,
            |i: int| finished_color(c, boost),
        ));
    }
}

} // verus!
