use vstd::prelude::*;

verus! {

/// One LED color: red, green and blue channels.
#[derive(Clone, Copy, Debug, PartialEq, Eq, Structural)]
pub struct Rgb {
    pub r: u8,
    pub g: u8,
    pub b: u8,
}

/// A channel must lie strictly above this value to be boosted.
pub const BOOST_FLOOR: u8 = 50;

/// A channel must lie at or below this value to be boosted.
pub const BOOST_CEILING: u8 = 200;

/// What a boosted channel gains.
pub const BOOST_OFFSET: u8 = 40;

/// The largest of the three channels.
pub open spec fn max_channel(c: Rgb) -> u8 {
    if c.r >= c.g && c.r >= c.b {
        c.r
    } else if c.g >= c.b {
        c.g
    } else {
        c.b
    }
}

/// The saturation boost: when the largest channel lies in (50, 200], that
/// channel gains 40. Where several channels share the largest value, the last
/// of them (blue, then green, then red) is the one boosted.
pub open spec fn boosted(c: Rgb) -> Rgb {
    let m = max_channel(c);
    if BOOST_FLOOR < m && m <= BOOST_CEILING {
        if c.b == m {
            Rgb { b: (c.b + BOOST_OFFSET) as u8, ..c }
        } else if c.g == m {
            Rgb { g: (c.g + BOOST_OFFSET) as u8, ..c }
        } else {
            Rgb { r: (c.r + BOOST_OFFSET) as u8, ..c }
        }
    } else {
        c
    }
}

/// The color as it is sent: boosted when `boost` is set, unchanged otherwise.
pub open spec fn finished_color(c: Rgb, boost: bool) -> Rgb {
    if boost {
        boosted(c)
    } else {
        c
    }
}

/// Applies the saturation boost to one color in place.
pub fn boost_saturation(pixel: &mut Rgb)
    ensures
        *final(pixel) == boosted(*old(pixel)),
{
    let c = *pixel;
    let m: u8 = if c.r >= c.g && c.r >= c.b {
        c.r
    } else if c.g >= c.b {
        c.g
    } else {
        c.b
    };
    if BOOST_FLOOR < m && m <= BOOST_CEILING {
        if c.b == m {
            pixel.b = c.b + BOOST_OFFSET;
        } else if c.g == m {
            pixel.g = c.g + BOOST_OFFSET;
        } else {
            pixel.r = c.r + BOOST_OFFSET;
        }
    }
}

/// The three bytes of a color on the wire, in red, green, blue order.
pub open spec fn color_bytes(c: Rgb) -> Seq<u8> {
    seq![c.r, c.g, c.b]
}

/// The bytes of a sequence of colors, three per color, in sequence order.
pub open spec fn flatten(s: Seq<Rgb>) -> Seq<u8>
    decreases s.len(),
{
    if s.len() == 0 {
        Seq::empty()
    } else {
        flatten(s.drop_last()) + color_bytes(s.last())
    }
}

} // verus!
