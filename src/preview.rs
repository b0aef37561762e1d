use vstd::prelude::*;
use ring_channel::{RingReceiver, RingSender, ring_channel};
use std::num::NonZeroUsize;
use crate::frame::Frame;

verus! {

/// A preview picture: `height` rows of `width` RGBA pixels, packed without padding.
pub struct PreviewImage {
    pub width: usize,
    pub height: usize,
    pub pixels: Vec<u8>,
}

/// The first `n` rows of `f`, each cut to its `4 * width` pixel bytes.
pub open spec fn packed_rows(f: Frame, n: int) -> Seq<u8>
    decreases n,
{
    if n <= 0 {
        Seq::empty()
    } else {
        packed_rows(f, n - 1) + f.data@.subrange(
            (n - 1) * f.row_pitch,
            (n - 1) * f.row_pitch + 4 * f.width,
        )
    }
}

/// The preview of a frame: its pixels with the row padding taken out.
pub fn preview_image(frame: &Frame) -> (r: PreviewImage)
    requires
        frame.is_well_formed(),
    ensures
        r.width == frame.width,
        r.height == frame.height,
        r.pixels@ == packed_rows(*frame, frame.height as int),
{
    let ghost f = *frame;
    let len = frame.data.len();
    let row_len: usize = 4 * frame.width;
    let mut pixels: Vec<u8> = Vec::new();
    let mut j: usize = 0;
    while j < frame.height
        invariant
            f == *frame,
            f.is_well_formed(),
            len == f.data@.len(),
            row_len == 4 * f.width,
            j <= f.height,
            pixels@ == packed_rows(f, j as int),
        decreases f.height - j,
    {
        proof {
            let p = f.row_pitch as int;
            assert((j + 1) * p <= f.height * p) by (nonlinear_arith)
                requires
                    j + 1 <= f.height,
                    0 <= p,
            ;
            assert(j * p + p == (j + 1) * p) by (nonlinear_arith);
        }
        let start: usize = j * frame.row_pitch;
        let ghost before = pixels@;
        let mut k: usize = 0;
        while k < row_len
            invariant
                f == *frame,
                len == f.data@.len(),
                row_len == 4 * f.width,
                row_len <= f.row_pitch,
                start + f.row_pitch <= len,
                k <= row_len,
                pixels@ == before + f.data@.subrange(start as int, start + k),
            decreases row_len - k,
        {
            pixels.push(frame.data[start + k]);
            k = k + 1;
            assert(pixels@ =~= before + f.data@.subrange(start as int, start + k));
        }
        j = j + 1;
    }
    PreviewImage { width: frame.width, height: frame.height, pixels }
}

/// What an encoded image decodes to: width, height and RGBA bytes.
pub uninterp spec fn decoded_rgba(bytes: Seq<u8>) -> Option<(u32, u32, Seq<u8>)>;

/// Relies on image::load_from_memory, which guesses the format from the
/// bytes and decodes them, and on DynamicImage::to_rgba8 with
/// ImageBuffer::into_raw for the RGBA bytes. `None` where decoding fails.
#[verifier::external_body]
fn decode_rgba(bytes: &[u8]) -> (r: Option<(u32, u32, Vec<u8>)>)
    ensures
        match r {
            Some((w, h, px)) => decoded_rgba(bytes@) == Some((w, h, px@)),
            None => decoded_rgba(bytes@).is_none(),
        },
{
    match image::load_from_memory(bytes) {
        Ok(img) => {
            let rgba = img.to_rgba8();
            Some((rgba.width(), rgba.height(), rgba.into_raw()))
        },
        Err(_) => None,
    }
}

/// A preview picture from decoded RGBA bytes; `None` unless the bytes are
/// exactly `width` x `height` pixels of four bytes.
pub fn preview_from_rgba(width: u32, height: u32, pixels: Vec<u8>) -> (r: Option<PreviewImage>)
    ensures
        r.is_some() == (pixels@.len() == 4 * width * height),
        r.is_some() ==> r.unwrap().width == width && r.unwrap().height == height
            && r.unwrap().pixels@ == pixels@,
{
    assert(4 * (width as int) * (height as int) <= u128::MAX) by (nonlinear_arith)
        requires
            width <= u32::MAX,
            height <= u32::MAX,
    ;
    let expected: u128 = 4 * (width as u128) * (height as u128);
    if pixels.len() as u128 == expected {
        Some(PreviewImage { width: width as usize, height: height as usize, pixels })
    } else {
        None
    }
}

/// The picture shown for a monitor until its first preview arrives, decoded
/// from an encoded image; `None` where the bytes do not decode.
pub fn placeholder_image(encoded: &[u8]) -> (r: Option<PreviewImage>)
    ensures
        match decoded_rgba(encoded@) {
            Some((w, h, px)) => r.is_some() == (px.len() == 4 * w * h) && (r.is_some()
                ==> r.unwrap().width == w && r.unwrap().height == h && r.unwrap().pixels@ == px),
            None => r.is_none(),
        },
{
    match decode_rgba(encoded) {
        Some((w, h, px)) => preview_from_rgba(w, h, px),
        None => None,
    }
}

/// Declares ring_channel's sending end, held opaque in `PreviewSlot`.
#[verifier::external_type_specification]
#[verifier::external_body]
#[verifier::reject_recursive_types(T)]
pub struct ExRingSender<T>(RingSender<T>);

/// Declares ring_channel's receiving end, held opaque in `PreviewSlot`.
#[verifier::external_type_specification]
#[verifier::external_body]
#[verifier::reject_recursive_types(T)]
pub struct ExRingReceiver<T>(RingReceiver<T>);

/// The messages waiting in a ring channel, oldest first, seen from its receiver.
pub uninterp spec fn ring_pending(rx: RingReceiver<PreviewImage>) -> Seq<PreviewImage>;

/// The capacity a ring channel was made with, seen from its receiver.
pub uninterp spec fn ring_capacity(rx: RingReceiver<PreviewImage>) -> nat;

/// Both ends of one ring channel. Holding the receiver keeps the channel
/// connected, so a send always lands in the buffer.
pub struct PreviewSlot {
    tx: RingSender<PreviewImage>,
    rx: RingReceiver<PreviewImage>,
}

/// Relies on ring_channel::ring_channel: a new channel of the given nonzero
/// capacity, with no message pending.
#[verifier::external_body]
fn open_ring(capacity: usize) -> (r: PreviewSlot)
    requires
        capacity > 0,
    ensures
        ring_pending(r.rx) == Seq::<PreviewImage>::empty(),
        ring_capacity(r.rx) == capacity,
{
    let (tx, rx) = ring_channel(NonZeroUsize::new(capacity).unwrap());
    PreviewSlot { tx, rx }
}

/// Relies on RingSender::send: while a receiver is alive the message is
/// pushed into the ring buffer; when the buffer is full the oldest pending
/// message is overwritten.
#[verifier::external_body]
fn ring_send(slot: &mut PreviewSlot, image: PreviewImage)
    ensures
        ring_capacity(final(slot).rx) == ring_capacity(old(slot).rx),
        ring_pending(final(slot).rx) == (if ring_pending(old(slot).rx).len() < ring_capacity(
            old(slot).rx,
        ) {
            ring_pending(old(slot).rx).push(image)
        } else {
            ring_pending(old(slot).rx).drop_first().push(image)
        }),
{
    let _ = slot.tx.send(image);
}

/// Relies on RingReceiver::try_recv: the oldest pending message, or an error
/// when none is pending.
#[verifier::external_body]
fn ring_try_recv(slot: &mut PreviewSlot) -> (r: Option<PreviewImage>)
    ensures
        ring_capacity(final(slot).rx) == ring_capacity(old(slot).rx),
        ring_pending(old(slot).rx).len() == 0 ==> r.is_none() && ring_pending(final(slot).rx)
            == ring_pending(old(slot).rx),
        ring_pending(old(slot).rx).len() > 0 ==> r == Some(ring_pending(old(slot).rx)[0])
            && ring_pending(final(slot).rx) == ring_pending(old(slot).rx).drop_first(),
{
    slot.rx.try_recv().ok()
}

/// The picture waiting in a ring channel that holds at most one: none, or
/// the oldest pending one.
pub open spec fn front(pending: Seq<PreviewImage>) -> Option<PreviewImage> {
    if pending.len() == 0 {
        None
    } else {
        Some(pending[0])
    }
}

/// One single-slot, last-value-wins channel per monitor, keyed by monitor id.
pub struct PreviewSlots {
    monitors: Vec<u64>,
    slots: Vec<PreviewSlot>,
}

impl PreviewSlots {
    /// Monitor `m` has a slot.
    pub closed spec fn has(&self, m: u64) -> bool {
        self.monitors@.contains(m)
    }

    /// Where the slot of monitor `m` stands.
    pub closed spec fn slot_index(&self, m: u64) -> int {
        choose|i: int| 0 <= i < self.monitors@.len() && self.monitors@[i] == m
    }

    /// What the slot of monitor `m` holds: nothing, or the one picture
    /// waiting there.
    pub closed spec fn pending(&self, m: u64) -> Option<PreviewImage> {
        front(ring_pending(self.slots@[self.slot_index(m)].rx))
    }

    /// One slot per monitor id; every slot has room for one picture and
    /// holds at most one.
    pub closed spec fn is_well_formed(&self) -> bool {
        &&& self.monitors@.len() == self.slots@.len()
        &&& forall|a: int, b: int|
            0 <= a < self.monitors@.len() && 0 <= b < self.monitors@.len() && a != b
                ==> #[trigger] self.monitors@[a] != #[trigger] self.monitors@[b]
        &&& forall|i: int|
            0 <= i < self.slots@.len() ==> #[trigger] ring_capacity(self.slots@[i].rx) == 1
                && ring_pending(self.slots@[i].rx).len() <= 1
    }

    proof fn lemma_slot_index(&self, i: int)
        requires
            self.is_well_formed(),
            0 <= i < self.monitors@.len(),
        ensures
            self.has(self.monitors@[i]),
            self.slot_index(self.monitors@[i]) == i,
    {
        let m = self.monitors@[i];
        assert(self.monitors@[i] == m);
        let j = self.slot_index(m);
        assert(0 <= j < self.monitors@.len() && self.monitors@[j] == m);
    }

    proof fn lemma_has_slot(&self, m: u64)
        requires
            self.is_well_formed(),
            self.has(m),
        ensures
            0 <= self.slot_index(m) < self.monitors@.len(),
            self.monitors@[self.slot_index(m)] == m,
    {
        let i = choose|i: int| 0 <= i < self.monitors@.len() && self.monitors@[i] == m;
        self.lemma_slot_index(i);
    }

    fn position(&self, m: u64) -> (r: Option<usize>)
        requires
            self.is_well_formed(),
        ensures
            match r {
                Some(i) => i < self.monitors@.len() && self.monitors@[i as int] == m
                    && self.slot_index(m) == i,
                None => !self.has(m),
            },
    {
        let mut k: usize = 0;
        while k < self.monitors.len()
            invariant
                self.is_well_formed(),
                k <= self.monitors@.len(),
                forall|j: int| 0 <= j < k ==> self.monitors@[j] != m,
            decreases self.monitors@.len() - k,
        {
            if self.monitors[k] == m {
                proof {
                    self.lemma_slot_index(k as int);
                }
                return Some(k);
            }
            k = k + 1;
        }
        None
    }

    /// No slot yet.
    pub fn new() -> (r: PreviewSlots)
        ensures
            r.is_well_formed(),
            forall|m: u64| !r.has(m),
    {
        PreviewSlots { monitors: Vec::new(), slots: Vec::new() }
    }

    /// Makes sure monitor `m` has a slot: a new, empty one where it had none;
    /// an existing slot and every other slot are left as they were.
    pub fn open(&mut self, m: u64)
        requires
            old(self).is_well_formed(),
        ensures
            final(self).is_well_formed(),
            final(self).has(m),
            old(self).has(m) ==> final(self).pending(m) == old(self).pending(m),
            !old(self).has(m) ==> final(self).pending(m).is_none(),
            others_unchanged(*old(self), *final(self), m),
    {
        if self.position(m).is_some() {
            return;
        }
        let ghost before = *self;
        self.monitors.push(m);
        self.slots.push(open_ring(1));
        proof {
            let n = before.monitors@.len() as int;
            assert(self.monitors@[n] == m);
            assert forall|m2: u64| m2 != m implies #[trigger] self.has(m2) == before.has(m2)
                && (before.has(m2) ==> self.pending(m2) == before.pending(m2)) by {
                if before.has(m2) {
                    before.lemma_has_slot(m2);
                    let j = before.slot_index(m2);
                    assert(self.monitors@[j] == m2);
                }
                if self.has(m2) {
                    let j = choose|j: int| 0 <= j < self.monitors@.len() && self.monitors@[j] == m2;
                    assert(j != n);
                    assert(before.monitors@[j] == m2);
                }
            }
            self.lemma_slot_index(n);
        }
    }

    /// Removes the slot of monitor `m`, with whatever waits in it; every other
    /// slot is left as it was.
    pub fn close(&mut self, m: u64)
        requires
            old(self).is_well_formed(),
        ensures
            final(self).is_well_formed(),
            !final(self).has(m),
            others_unchanged(*old(self), *final(self), m),
    {
        match self.position(m) {
            None => {
                assert(others_unchanged(*self, *self, m));
            },
            Some(i) => {
                let ghost before = *self;
                self.monitors.remove(i);
                self.slots.remove(i);
                proof {
                    let ii = i as int;
                    assert forall|a: int, b: int|
                        0 <= a < self.monitors@.len() && 0 <= b < self.monitors@.len() && a != b
                            implies #[trigger] self.monitors@[a] != #[trigger] self.monitors@[b] by {
                        let a0 = if a < ii { a } else { a + 1 };
                        let b0 = if b < ii { b } else { b + 1 };
                        assert(before.monitors@[a0] != before.monitors@[b0]);
                    }
                    assert forall|k: int| 0 <= k < self.slots@.len() implies #[trigger] ring_capacity(
                        self.slots@[k].rx,
                    ) == 1 && ring_pending(self.slots@[k].rx).len() <= 1 by {
                        let k0 = if k < ii { k } else { k + 1 };
                        assert(self.slots@[k] == before.slots@[k0]);
                        assert(ring_capacity(before.slots@[k0].rx) == 1);
                    }
                    assert(self.is_well_formed());
                    assert forall|m2: u64| m2 != m implies #[trigger] self.has(m2) == before.has(m2)
                        && (before.has(m2) ==> self.pending(m2) == before.pending(m2)) by {
                        if before.has(m2) {
                            before.lemma_has_slot(m2);
                            let j = before.slot_index(m2);
                            assert(j != ii);
                            let jn = if j < ii { j } else { j - 1 };
                            assert(self.monitors@[jn] == m2);
                            self.lemma_slot_index(jn);
                            assert(self.slots@[jn] == before.slots@[j]);
                        }
                        if self.has(m2) {
                            let jn = choose|jn: int| 0 <= jn < self.monitors@.len() && self.monitors@[jn] == m2;
                            let j = if jn < ii { jn } else { jn + 1 };
                            assert(before.monitors@[j] == m2);
                        }
                    }
                    assert(others_unchanged(before, *self, m));
                    if self.has(m) {
                        let jn = choose|jn: int| 0 <= jn < self.monitors@.len() && self.monitors@[jn] == m;
                        let j = if jn < ii { jn } else { jn + 1 };
                        assert(before.monitors@[j] == m);
                    }
                }
            },
        }
    }

    /// Puts `image` into the slot of monitor `m`, replacing whatever was
    /// waiting there. `false`, and nothing changed, when `m` has no slot.
    pub fn publish(&mut self, m: u64, image: PreviewImage) -> (r: bool)
        requires
            old(self).is_well_formed(),
        ensures
            final(self).is_well_formed(),
            r == old(self).has(m),
            r ==> published(*old(self), *final(self), m, image),
            !r ==> *final(self) == *old(self),
    {
        let index = match self.position(m) {
            Some(i) => i,
            None => {
                return false;
            },
        };
        let ghost before = *self;
        ring_send(&mut self.slots[index], image);
        proof {
            let ii = index as int;
            assert(self.monitors@ == before.monitors@);
            assert(self.slots@.len() == before.slots@.len());
            if ring_pending(before.slots@[ii].rx).len() == 1 {
                assert(ring_pending(before.slots@[ii].rx).drop_first().push(image) =~= seq![image]);
            } else {
                assert(ring_pending(before.slots@[ii].rx).push(image) =~= seq![image]);
            }
            assert(ring_pending(self.slots@[ii].rx) =~= seq![image]);
            assert forall|i: int| 0 <= i < self.slots@.len() implies #[trigger] ring_capacity(
                self.slots@[i].rx,
            ) == 1 && ring_pending(self.slots@[i].rx).len() <= 1 by {
                if i != ii {
                    assert(self.slots@[i] == before.slots@[i]);
                }
            }
            self.lemma_slot_index(ii);
            assert forall|m2: u64| m2 != m implies #[trigger] self.has(m2) == before.has(m2)
                && (before.has(m2) ==> self.pending(m2) == before.pending(m2)) by {
                if before.has(m2) {
                    before.lemma_has_slot(m2);
                    let j = before.slot_index(m2);
                    assert(j != ii);
                    assert(self.slots@[j] == before.slots@[j]);
                }
            }
        }
        true
    }

    /// Takes the picture waiting in the slot of monitor `m`, if any, leaving
    /// the slot empty; `None`, and nothing changed, when `m` has no slot.
    /// Never blocks.
    pub fn take(&mut self, m: u64) -> (r: Option<PreviewImage>)
        requires
            old(self).is_well_formed(),
        ensures
            final(self).is_well_formed(),
            old(self).has(m) ==> taken(*old(self), *final(self), m, r),
            !old(self).has(m) ==> r.is_none() && *final(self) == *old(self),
    {
        let index = match self.position(m) {
            Some(i) => i,
            None => {
                return None;
            },
        };
        let ghost before = *self;
        let r = ring_try_recv(&mut self.slots[index]);
        proof {
            let ii = index as int;
            assert(self.monitors@ == before.monitors@);
            assert(self.slots@.len() == before.slots@.len());
            assert forall|i: int| 0 <= i < self.slots@.len() implies #[trigger] ring_capacity(
                self.slots@[i].rx,
            ) == 1 && ring_pending(self.slots@[i].rx).len() <= 1 by {
                if i != ii {
                    assert(self.slots@[i] == before.slots@[i]);
                }
            }
            self.lemma_slot_index(ii);
            if ring_pending(before.slots@[ii].rx).len() > 0 {
                assert(ring_pending(self.slots@[ii].rx).len() == 0);
            }
            assert forall|m2: u64| m2 != m implies #[trigger] self.has(m2) == before.has(m2)
                && (before.has(m2) ==> self.pending(m2) == before.pending(m2)) by {
                if before.has(m2) {
                    before.lemma_has_slot(m2);
                    let j = before.slot_index(m2);
                    assert(j != ii);
                    assert(self.slots@[j] == before.slots@[j]);
                }
            }
        }
        r
    }
}

/// Every monitor but `m` has a slot in `after` exactly when it has one in
/// `before`, holding the same picture.
pub open spec fn others_unchanged(before: PreviewSlots, after: PreviewSlots, m: u64) -> bool {
    forall|m2: u64|
        m2 != m ==> #[trigger] after.has(m2) == before.has(m2) && (before.has(m2) ==> after.pending(
            m2,
        ) == before.pending(m2))
}

/// `after` is `before` with `image` put into the slot of monitor `m`, the
/// old content of that slot dropped and every other slot untouched.
pub open spec fn published(before: PreviewSlots, after: PreviewSlots, m: u64, image: PreviewImage) -> bool {
    &&& after.has(m)
    &&& after.pending(m) == Some(image)
    &&& others_unchanged(before, after, m)
}

/// `r` is what the slot of monitor `m` held in `before`, and `after` is
/// `before` with that slot emptied.
pub open spec fn taken(before: PreviewSlots, after: PreviewSlots, m: u64, r: Option<PreviewImage>) -> bool {
    &&& after.has(m)
    &&& r == before.pending(m)
    &&& after.pending(m).is_none()
    &&& others_unchanged(before, after, m)
}

/// Publishing two pictures for one monitor before anything is taken leaves
/// only the second to be seen: taking then yields the second, and the slot
/// is empty afterwards, with no backlog of the first.
pub proof fn lemma_last_value_wins(
    s0: PreviewSlots,
    s1: PreviewSlots,
    s2: PreviewSlots,
    s3: PreviewSlots,
    m: u64,
    first: PreviewImage,
    second: PreviewImage,
    r: Option<PreviewImage>,
)
    requires
        published(s0, s1, m, first),
        published(s1, s2, m, second),
        taken(s2, s3, m, r),
    ensures
        r == Some(second),
        s3.pending(m).is_none(),
{
}

} // verus!
