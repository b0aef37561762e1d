use vstd::prelude::*;
use crate::color::{Rgb, color_bytes, flatten};
use crate::reducer::EdgeColors;

verus! {

/// The three bytes that open every frame on the serial link: `A`, `d`, `a`.
pub open spec fn header() -> Seq<u8> {
    seq![65u8, 100u8, 97u8]
}

/// The bytes of one LED frame on the wire, from edges in ascending index
/// order: the header, then bottom as it is, right reversed, top reversed,
/// left as it is; three bytes per LED, no length, no checksum, no terminator.
pub open spec fn wire_bytes(bottom: Seq<Rgb>, right: Seq<Rgb>, top: Seq<Rgb>, left: Seq<Rgb>) -> Seq<
    u8,
> {
    header() + flatten(bottom) + flatten(right.reverse()) + flatten(top.reverse()) + flatten(left)
}

proof fn lemma_flatten_push(s: Seq<Rgb>, c: Rgb)
    ensures
        flatten(s.push(c)) == flatten(s) + color_bytes(c),
{
    assert(s.push(c).drop_last() =~= s);
}

/// Appends the colors of `colors` to `out`, three bytes each, walking the
/// sequence backwards when `backwards` is set.
fn append_colors(out: &mut Vec<u8>, colors: &Vec<Rgb>, backwards: bool)
    ensures
        final(out)@ == old(out)@ + flatten(
            if backwards {
                colors@.reverse()
            } else {
                colors@
            },
        ),
{
    let ghost order = if backwards {
        colors@.reverse()
    } else {
        colors@
    };
    let ghost start = out@;
    let n = colors.len();
    let mut k: usize = 0;
    while k < n
        invariant
            n == colors@.len(),
            k <= n,
            order == (if backwards {
                colors@.reverse()
            } else {
                colors@
            }),
            order.len() == n,
            out@ == start + flatten(order.take(k as int)),
        decreases n - k,
    {
        let c = if backwards {
            colors[n - 1 - k]
        } else {
            colors[k]
        };
        assert(c == order[k as int]);
        proof {
            lemma_flatten_push(order.take(k as int), c);
            assert(order.take(k as int).push(c) =~= order.take(k as int + 1));
        }
        out.push(c.r);
        out.push(c.g);
        out.push(c.b);
        assert(out@ =~= start + flatten(order.take(k as int + 1)));
        k = k + 1;
    }
    assert(order.take(n as int) =~= order);
}

/// Frames one set of edge colors for the serial link.
pub fn encode_frame(edges: &EdgeColors) -> (r: Vec<u8>)
    ensures
        r@ == wire_bytes(edges.bottom@, edges.right@, edges.top@, edges.left@),
{
    let mut out: Vec<u8> = Vec::new();
    out.push(65u8);
    out.push(100u8);
    out.push(97u8);
    assert(out@ =~= header());
    append_colors(&mut out, &edges.bottom, false);
    append_colors(&mut out, &edges.right, true);
    append_colors(&mut out, &edges.top, true);
    append_colors(&mut out, &edges.left, false);
    out
}

} // verus!
