//! Colour ramps: an ordered list of colour stops that can be sampled at any
//! position and baked into an RGBA8 lookup texture.

use vstd::prelude::*;
use vstd::arithmetic::div_mod::lemma_fundamental_div_mod;
use vstd::arithmetic::div_mod::lemma_div_multiples_vanish_fancy;

verus! {

/// The fixed-point value of 1.0, for channels and for positions.
pub const UNIT: u32 = 1_000_000;

/// Four fixed-point channels. A channel is nominally within `0..=UNIT`, but
/// nothing clamps it.
#[derive(Clone, Copy, Debug, PartialEq, Eq, Structural)]
pub struct Color {
    pub r: u32,
    pub g: u32,
    pub b: u32,
    pub a: u32,
}

/// A colour stop: a colour anchored at a position.
#[derive(Clone, Copy, Debug, PartialEq, Eq, Structural)]
pub struct Tick {
    pub position: i64,
    pub color: Color,
}

/// Why a ramp could not be baked.
#[derive(Clone, Copy, Debug, PartialEq, Eq, Structural)]
pub enum RampError {
    /// The ramp has fewer than two stops, so it covers no range.
    TooFewStops,
    /// A texture of width zero was asked for.
    ZeroWidth,
}

/// The mean of `c1` and `c2` with weights `span - d` and `d`, rounded to the
/// nearest integer (halves go up). A span of zero leaves `c1`.
pub open spec fn blend_channel(c1: int, c2: int, d: int, span: int) -> int {
    if span <= 0 {
        c1
    } else {
        (c1 * (span - d) + c2 * d + span / 2) / span
    }
}

/// The 8-bit value of a channel: `channel * 255 / UNIT` rounded to the nearest
/// integer (halves go up), and at most 255.
pub open spec fn quantize_spec(channel: int) -> int {
    let q = (channel * 255 + UNIT / 2) / (UNIT as int);
    if q > 255 {
        255
    } else {
        q
    }
}

/// Stops are in ascending order of position.
pub open spec fn sorted(s: Seq<Tick>) -> bool {
    forall|i: int, j: int| 0 <= i <= j < s.len() ==> s[i].position <= s[j].position
}

/// Stops `i` and `i + 1` enclose `pos`.
pub open spec fn brackets(s: Seq<Tick>, i: int, pos: int) -> bool {
    0 <= i && i + 1 < s.len() && s[i].position <= pos && pos <= s[i + 1].position
}

/// Stops `i` and `i + 1` are the first adjacent pair that encloses `pos`.
pub open spec fn first_span(s: Seq<Tick>, i: int, pos: int) -> bool {
    brackets(s, i, pos) && forall|j: int| 0 <= j < i ==> !brackets(s, j, pos)
}

/// The blend of stops `i` and `i + 1` at `pos`.
pub open spec fn blend_at(s: Seq<Tick>, i: int, pos: int) -> Color {
    s[i].color.blend_spec(
        s[i + 1].color,
        pos - s[i].position,
        s[i + 1].position - s[i].position,
    )
}

/// The colour of the ramp at `pos`: the blend of the first adjacent pair of
/// stops that encloses `pos`, and nothing where no pair does.
pub open spec fn sample(s: Seq<Tick>, pos: int) -> Option<Color> {
    if exists|i: int| brackets(s, i, pos) {
        Some(blend_at(s, choose|i: int| first_span(s, i, pos), pos))
    } else {
        None
    }
}

/// The positions of the first and the last stop, where there are two stops or
/// more.
pub open spec fn range_spec(s: Seq<Tick>) -> Option<(i64, i64)> {
    if s.len() < 2 {
        None
    } else {
        Some((s[0].position, s[s.len() - 1].position))
    }
}

/// Where a stop at `position` goes: behind every stop that is not after it.
pub open spec fn slot(s: Seq<Tick>, k: int, position: int) -> bool {
    &&& 0 <= k <= s.len()
    &&& forall|j: int| 0 <= j < k ==> s[j].position <= position
    &&& forall|j: int| k <= j < s.len() ==> s[j].position > position
}

/// The stops of the startup gradient: black, black, dark red, orange, yellow,
/// white, all opaque.
pub open spec fn startup_stops() -> Seq<Tick> {
    seq![
        Tick { position: 0, color: Color { r: 0, g: 0, b: 0, a: 1_000_000 } },
        Tick { position: 40_000, color: Color { r: 0, g: 0, b: 0, a: 1_000_000 } },
        Tick { position: 200_000, color: Color { r: 400_000, g: 0, b: 0, a: 1_000_000 } },
        Tick { position: 500_000, color: Color { r: 1_000_000, g: 400_000, b: 0, a: 1_000_000 } },
        Tick { position: 800_000, color: Color { r: 1_000_000, g: 1_000_000, b: 0, a: 1_000_000 } },
        Tick {
            position: 1_000_000,
            color: Color { r: 1_000_000, g: 1_000_000, b: 1_000_000, a: 1_000_000 },
        },
    ]
}

/// The position of column `p` in a texture `width` wide over `t0..=t1`:
/// `width` even steps from `t0`, the last column moved onto `t1`.
pub open spec fn column_position(t0: int, t1: int, width: int, p: int) -> int {
    if p == width - 1 {
        t1
    } else {
        t0 + (p * (t1 - t0)) / width
    }
}

/// The colour of column `p` of a texture `width` wide.
pub open spec fn column_color(s: Seq<Tick>, width: int, p: int) -> Color {
    sample(
        s,
        column_position(s[0].position as int, s[s.len() - 1].position as int, width, p),
    ).unwrap()
}

/// One row of the texture: four bytes a column, in the order r, g, b, a.
pub open spec fn row_spec(s: Seq<Tick>, width: int) -> Seq<u8> {
    Seq::new(
        (4 * width) as nat,
        |k: int| quantize_spec(column_color(s, width, k / 4).channel(k % 4) as int) as u8,
    )
}

/// The texture: the row, `height` times.
pub open spec fn texture_spec(s: Seq<Tick>, width: int, height: int) -> Seq<u8>
    decreases height,
{
    if height <= 0 {
        Seq::empty()
    } else {
        texture_spec(s, width, height - 1) + row_spec(s, width)
    }
}

/// A blended channel lies between the two channels, and is the nearest
/// integer to the exact weighted mean.
pub proof fn lemma_blend_channel(c1: int, c2: int, d: int, span: int)
    requires
        0 <= c1,
        0 <= c2,
        0 <= d <= span,
        0 < span,
    ensures
        0 <= c1 * (span - d) <= (if c1 >= c2 { c1 } else { c2 }) * (span - d),
        0 <= c2 * d <= (if c1 >= c2 { c1 } else { c2 }) * d,
        (if c1 <= c2 { c1 } else { c2 }) <= blend_channel(c1, c2, d, span),
        blend_channel(c1, c2, d, span) <= (if c1 >= c2 { c1 } else { c2 }),
        -span <= 2 * (blend_channel(c1, c2, d, span) * span - (c1 * (span - d) + c2 * d)) <= span,
{
    let hi = if c1 >= c2 { c1 } else { c2 };
    let lo = if c1 <= c2 { c1 } else { c2 };
    let exact = c1 * (span - d) + c2 * d;
    let num = exact + span / 2;
    let q = num / span;
    assert(0 <= c1 * (span - d) <= hi * (span - d)) by (nonlinear_arith)
        requires 0 <= c1 <= hi, 0 <= span - d;
    assert(0 <= c2 * d <= hi * d) by (nonlinear_arith)
        requires 0 <= c2 <= hi, 0 <= d;
    assert(lo * (span - d) <= c1 * (span - d)) by (nonlinear_arith)
        requires 0 <= lo <= c1, 0 <= span - d;
    assert(lo * d <= c2 * d) by (nonlinear_arith)
        requires 0 <= lo <= c2, 0 <= d;
    assert(hi * (span - d) + hi * d == hi * span) by (nonlinear_arith);
    assert(lo * (span - d) + lo * d == lo * span) by (nonlinear_arith);
    lemma_fundamental_div_mod(num, span);
    assert(num == span * q + num % span);
    assert(0 <= num % span < span);
    assert(q <= hi) by (nonlinear_arith)
        requires span * q <= num, num < hi * span + span, 0 < span;
    assert(lo <= q) by (nonlinear_arith)
        requires num < span * q + span, lo * span <= num, 0 < span;
    assert(q * span == span * q) by (nonlinear_arith);
}

/// A quantized channel fits in a byte.
pub proof fn lemma_quantize_range(channel: int)
    requires
        0 <= channel,
    ensures
        0 <= quantize_spec(channel) <= 255,
{
}

/// Only one adjacent pair of stops is the first to enclose `pos`, so the ramp
/// has the blend of that pair at `pos`.
pub proof fn lemma_sample_at(s: Seq<Tick>, i: int, pos: int)
    requires
        first_span(s, i, pos),
    ensures
        sample(s, pos) == Some(blend_at(s, i, pos)),
{
    let k = choose|k: int| first_span(s, k, pos);
    assert(brackets(s, i, pos));
    assert(first_span(s, k, pos));
    if k < i {
        assert(!brackets(s, k, pos));
    }
    if i < k {
        assert(!brackets(s, i, pos));
    }
}

/// In an ordered ramp some adjacent pair encloses every position from stop
/// `k` to the last stop.
pub proof fn lemma_enclosed_from(s: Seq<Tick>, k: int, pos: int)
    requires
        sorted(s),
        0 <= k,
        k + 1 < s.len(),
        s[k].position <= pos <= s[s.len() - 1].position,
    ensures
        exists|i: int| brackets(s, i, pos),
    decreases s.len() - k,
{
    if pos <= s[k + 1].position {
        assert(brackets(s, k, pos));
    } else {
        lemma_enclosed_from(s, k + 1, pos);
    }
}

/// A blend at either end of a span is the colour of that end, exactly.
pub proof fn lemma_blend_ends(c1: Color, c2: Color, span: int)
    requires
        0 <= span,
    ensures
        c1.blend_spec(c2, 0, span) == c1,
        0 < span ==> c1.blend_spec(c2, span, span) == c2,
{
    if 0 < span {
        lemma_channel_ends(c1.r as int, c2.r as int, span);
        lemma_channel_ends(c1.g as int, c2.g as int, span);
        lemma_channel_ends(c1.b as int, c2.b as int, span);
        lemma_channel_ends(c1.a as int, c2.a as int, span);
    }
}

proof fn lemma_channel_ends(c1: int, c2: int, span: int)
    requires
        0 < span,
    ensures
        blend_channel(c1, c2, 0, span) == c1,
        blend_channel(c1, c2, span, span) == c2,
{
    lemma_div_multiples_vanish_fancy(c1, span / 2, span);
    lemma_div_multiples_vanish_fancy(c2, span / 2, span);
    assert(c1 * (span - 0) + c2 * 0 == span * c1) by (nonlinear_arith);
    assert(c1 * (span - span) + c2 * span == span * c2) by (nonlinear_arith);
}

/// A stop has one place in an ordered ramp.
pub proof fn lemma_slot_unique(s: Seq<Tick>, k1: int, k2: int, position: int)
    requires
        slot(s, k1, position),
        slot(s, k2, position),
    ensures
        k1 == k2,
{
    if k1 < k2 {
        assert(s[k1].position <= position);
    }
    if k2 < k1 {
        assert(s[k2].position <= position);
    }
}

/// A stop that is before no stop of the ramp goes to the end.
pub proof fn lemma_slot_last(s: Seq<Tick>, k: int, position: int)
    requires
        slot(s, k, position),
        forall|j: int| 0 <= j < s.len() ==> s[j].position <= position,
    ensures
        k == s.len(),
{
    if k < s.len() {
        assert(s[k].position > position);
    }
}

/// The ramp has the colour of a stop at that stop's position, exactly, for
/// every stop that is the first at its position.
pub proof fn lemma_sample_at_stop(s: Seq<Tick>, i: int)
    requires
        sorted(s),
        s.len() >= 2,
        0 <= i < s.len(),
        i == 0 || s[i - 1].position < s[i].position,
    ensures
        sample(s, s[i].position as int) == Some(s[i].color),
{
    let pos = s[i].position as int;
    if i == 0 {
        assert(first_span(s, 0, pos));
        lemma_sample_at(s, 0, pos);
        lemma_blend_ends(s[0].color, s[1].color, s[1].position - s[0].position);
    } else {
        assert(brackets(s, i - 1, pos));
        assert forall|j: int| 0 <= j < i - 1 implies !brackets(s, j, pos) by {
            assert(s[j + 1].position <= s[i - 1].position);
        }
        lemma_sample_at(s, i - 1, pos);
        lemma_blend_ends(s[i - 1].color, s[i].color, s[i].position - s[i - 1].position);
    }
}

/// Between two adjacent stops the ramp has the linear blend of their colours
/// (as near as a channel can hold it: see `lemma_blend_channel`). At the
/// position of the first of the two this holds where no earlier stop shares
/// that position.
pub proof fn lemma_sample_between(s: Seq<Tick>, i: int, pos: int)
    requires
        sorted(s),
        0 <= i,
        i + 1 < s.len(),
        s[i].position <= pos <= s[i + 1].position,
        pos > s[i].position || i == 0 || s[i - 1].position < s[i].position,
    ensures
        sample(s, pos) == Some(blend_at(s, i, pos)),
{
    if pos > s[i].position || i == 0 {
        assert(brackets(s, i, pos));
        assert forall|j: int| 0 <= j < i implies !brackets(s, j, pos) by {
            assert(s[j + 1].position <= s[i].position);
        }
        lemma_sample_at(s, i, pos);
    } else {
        lemma_sample_at_stop(s, i);
        lemma_blend_ends(s[i].color, s[i + 1].color, s[i + 1].position - s[i].position);
    }
}

/// The ramp has no colour outside its range, and none anywhere where it has
/// fewer than two stops.
pub proof fn lemma_sample_outside(s: Seq<Tick>, pos: int)
    requires
        sorted(s),
        s.len() < 2 || pos < s[0].position || pos > s[s.len() - 1].position,
    ensures
        sample(s, pos) == None::<Color>,
{
    assert forall|i: int| !brackets(s, i, pos) by {
        if 0 <= i && i + 1 < s.len() {
            assert(s[0].position <= s[i].position);
            assert(s[i + 1].position <= s[s.len() - 1].position);
        }
    }
}

/// The ramp has a colour at every position within its range.
pub proof fn lemma_sample_inside(s: Seq<Tick>, pos: int)
    requires
        sorted(s),
        s.len() >= 2,
        s[0].position <= pos <= s[s.len() - 1].position,
    ensures
        sample(s, pos).is_some(),
{
    lemma_enclosed_from(s, 0, pos);
}

/// A texture holds four bytes for each of its `width * height` pixels.
pub proof fn lemma_texture_len(s: Seq<Tick>, width: int, height: int)
    requires
        0 <= width,
        0 <= height,
    ensures
        texture_spec(s, width, height).len() == width * height * 4,
    decreases height,
{
    if height > 0 {
        lemma_texture_len(s, width, height - 1);
        assert(width * (height - 1) * 4 + 4 * width == width * height * 4) by (nonlinear_arith);
    } else {
        assert(width * height * 4 == 0) by (nonlinear_arith)
            requires height == 0;
    }
}

/// Every row of a texture is the same row.
pub proof fn lemma_texture_rows(s: Seq<Tick>, width: int, height: int, y: int)
    requires
        0 <= width,
        0 <= y < height,
    ensures
        (y + 1) * (4 * width) <= texture_spec(s, width, height).len(),
        texture_spec(s, width, height).subrange(y * (4 * width), (y + 1) * (4 * width))
            == row_spec(s, width),
    decreases height,
{
    let above = texture_spec(s, width, height - 1);
    let row = row_spec(s, width);
    lemma_texture_len(s, width, height - 1);
    lemma_texture_len(s, width, height);
    assert(width * (height - 1) * 4 == (height - 1) * (4 * width)) by (nonlinear_arith);
    assert(width * height * 4 == (height - 1) * (4 * width) + 4 * width) by (nonlinear_arith);
    assert((y + 1) * (4 * width) == y * (4 * width) + 4 * width) by (nonlinear_arith);
    if y == height - 1 {
        assert((above + row).subrange(y * (4 * width), (y + 1) * (4 * width)) =~= row);
    } else {
        lemma_texture_rows(s, width, height - 1, y);
        assert((above + row).subrange(y * (4 * width), (y + 1) * (4 * width)) =~= above.subrange(
            y * (4 * width),
            (y + 1) * (4 * width),
        ));
    }
}

/// The first pixel of a row two or more wide is the quantized colour of the
/// first stop. The last pixel of a row is the quantized colour of the last
/// stop, where no other stop shares its position.
pub proof fn lemma_row_ends(s: Seq<Tick>, width: int, c: int)
    requires
        sorted(s),
        s.len() >= 2,
        1 <= width,
        0 <= c < 4,
    ensures
        width >= 2 ==> row_spec(s, width)[c] == quantize_spec(s[0].color.channel(c) as int),
        s[s.len() - 2].position < s[s.len() - 1].position ==> row_spec(s, width)[4 * (width - 1)
            + c] == quantize_spec(s[s.len() - 1].color.channel(c) as int),
{
    let t0 = s[0].position as int;
    let t1 = s[s.len() - 1].position as int;
    lemma_quantize_range(s[0].color.channel(c) as int);
    lemma_quantize_range(s[s.len() - 1].color.channel(c) as int);
    if width >= 2 {
        assert(0 * (t1 - t0) == 0) by (nonlinear_arith);
        assert(column_position(t0, t1, width, 0) == t0);
        lemma_sample_at_stop(s, 0);
        assert(column_color(s, width, c / 4) == s[0].color);
    }
    if s[s.len() - 2].position < s[s.len() - 1].position {
        lemma_sample_at_stop(s, s.len() - 1);
        assert((4 * (width - 1) + c) / 4 == width - 1);
        assert((4 * (width - 1) + c) % 4 == c);
        assert(column_color(s, width, width - 1) == s[s.len() - 1].color);
    }
}

/// The quantized byte of a channel.
pub fn quantize(channel: u32) -> (r: u8)
    ensures
        r == quantize_spec(channel as int),
{
    let q: u64 = (channel as u64 * 255 + (UNIT / 2) as u64) / (UNIT as u64);
    if q > 255 {
        255
    } else {
        q as u8
    }
}

fn mix_channel(c1: u32, c2: u32, d: u64, span: u64) -> (r: u32)
    requires
        d <= span,
    ensures
        r == blend_channel(c1 as int, c2 as int, d as int, span as int),
{
    if span == 0 {
        return c1;
    }
    proof {
        lemma_blend_channel(c1 as int, c2 as int, d as int, span as int);
        assert(0xffff_ffff * (span - d) + 0xffff_ffff * d == 0xffff_ffff * span) by (nonlinear_arith);
        assert(0xffff_ffff * span <= 0xffff_ffff * 0xffff_ffff_ffff_ffff) by (nonlinear_arith)
            requires span <= 0xffff_ffff_ffff_ffff;
        assert((if c1 >= c2 { c1 } else { c2 }) * (span - d) <= 0xffff_ffff * (span - d)) by (nonlinear_arith)
            requires c1 <= 0xffff_ffff, c2 <= 0xffff_ffff, 0 <= span - d;
        assert((if c1 >= c2 { c1 } else { c2 }) * d <= 0xffff_ffff * d) by (nonlinear_arith)
            requires c1 <= 0xffff_ffff, c2 <= 0xffff_ffff, 0 <= d;
    }
    let w1: u128 = (span - d) as u128;
    let w2: u128 = d as u128;
    let num: u128 = (c1 as u128) * w1 + (c2 as u128) * w2 + (span / 2) as u128;
    let q: u128 = num / (span as u128);
    q as u32
}

impl Color {
    /// Channel `k` of the colour, in the order r, g, b, a.
    pub open spec fn channel(self, k: int) -> u32 {
        if k == 0 {
            self.r
        } else if k == 1 {
            self.g
        } else if k == 2 {
            self.b
        } else {
            self.a
        }
    }

    /// The colour `d` parts of `span` along the way from `self` to `other`,
    /// channel by channel.
    pub open spec fn blend_spec(self, other: Color, d: int, span: int) -> Color {
        Color {
            r: blend_channel(self.r as int, other.r as int, d, span) as u32,
            g: blend_channel(self.g as int, other.g as int, d, span) as u32,
            b: blend_channel(self.b as int, other.b as int, d, span) as u32,
            a: blend_channel(self.a as int, other.a as int, d, span) as u32,
        }
    }

    /// The linear blend of two colours: `self` at `d == 0`, `other` at
    /// `d == span`.
    pub fn blend(self, other: Color, d: u64, span: u64) -> (r: Color)
        requires
            d <= span,
        ensures
            r == self.blend_spec(other, d as int, span as int),
    {
        Color {
            r: mix_channel(self.r, other.r, d, span),
            g: mix_channel(self.g, other.g, d, span),
            b: mix_channel(self.b, other.b, d, span),
            a: mix_channel(self.a, other.a, d, span),
        }
    }
}

/// An ordered list of colour stops.
#[derive(Debug)]
pub struct ColorRamp {
    ticks: Vec<Tick>,
}

impl View for ColorRamp {
    type V = Seq<Tick>;

    closed spec fn view(&self) -> Seq<Tick> {
        self.ticks@
    }
}

impl ColorRamp {
    #[verifier::type_invariant]
    spec fn ordered(&self) -> bool {
        sorted(self.ticks@)
    }

    /// The stops are in ascending order of position. This holds of every
    /// ramp at all times, and `len` and `range` say so of the ramp they read.
    pub open spec fn wf(&self) -> bool {
        sorted(self@)
    }

    /// A ramp without stops.
    pub fn new() -> (r: ColorRamp)
        ensures
            r@ == Seq::<Tick>::empty(),
            r.wf(),
    {
        ColorRamp { ticks: Vec::new() }
    }

    /// The startup gradient, from black at 0 over dark red, orange and
    /// yellow to white at 1.
    pub fn startup() -> (r: ColorRamp)
        ensures
            r@ == startup_stops(),
            r.wf(),
    {
        let mut ramp = ColorRamp::new();
        ramp.add_last(0, 0, 0, 0, UNIT);
        ramp.add_last(40_000, 0, 0, 0, UNIT);
        ramp.add_last(200_000, 400_000, 0, 0, UNIT);
        ramp.add_last(500_000, UNIT, 400_000, 0, UNIT);
        ramp.add_last(800_000, UNIT, UNIT, 0, UNIT);
        ramp.add_last(1_000_000, UNIT, UNIT, UNIT, UNIT);
        assert(ramp@ =~= startup_stops());
        ramp
    }

    fn add_last(&mut self, position: i64, r: u32, g: u32, b: u32, a: u32)
        requires
            forall|j: int| 0 <= j < old(self)@.len() ==> old(self)@[j].position <= position,
        ensures
            final(self).wf(),
            final(self)@ == old(self)@.push((Tick { position, color: (Color { r, g, b, a }) })),
    {
        self.add(position, r, g, b, a);
        proof {
            let before = old(self)@;
            let tick = Tick { position, color: Color { r, g, b, a } };
            let k = choose|k: int|
                slot(before, k, position as int) && self@ == before.insert(k, tick);
            lemma_slot_last(before, k, position as int);
            assert(before.insert(before.len() as int, tick) =~= before.push(tick));
        }
    }

    /// The number of stops.
    pub fn len(&self) -> (r: usize)
        ensures
            r == self@.len(),
            self.wf(),
    {
        proof {
            use_type_invariant(self);
        }
        self.ticks.len()
    }

    /// Stop `i`, in ascending order of position.
    pub fn tick(&self, i: usize) -> (r: Option<Tick>)
        ensures
            r == (if i < self@.len() { Some(self@[i as int]) } else { None }),
    {
        if i < self.ticks.len() {
            Some(self.ticks[i])
        } else {
            None
        }
    }

    /// Adds a stop and keeps the stops in order. The new stop goes behind
    /// every stop that is not after it: of two stops at one position, the one
    /// added first stays first.
    pub fn add(&mut self, position: i64, r: u32, g: u32, b: u32, a: u32)
        ensures
            final(self).wf(),
            exists|k: int|
                slot(old(self)@, k, position as int) && final(self)@ == old(self)@.insert(
                    k,
                    (Tick { position, color: (Color { r, g, b, a }) }),
                ),
    {
        proof {
            use_type_invariant(&*self);
        }
        let tick = Tick { position, color: Color { r, g, b, a } };
        let mut k: usize = 0;
        while k < self.ticks.len() && self.ticks[k].position <= position
            invariant
                self@ == old(self)@,
                sorted(self@),
                k <= self@.len(),
                forall|j: int| 0 <= j < k ==> self@[j].position <= position,
            decreases self@.len() - k,
        {
            k += 1;
        }
        proof {
            assert(slot(self@, k as int, position as int)) by {
                assert forall|j: int| k <= j < self@.len() implies self@[j].position > position by {
                    assert(self@[k as int].position <= self@[j].position);
                }
            }
        }
        let mut ticks: Vec<Tick> = Vec::new();
        std::mem::swap(&mut ticks, &mut self.ticks);
        ticks.insert(k, tick);
        proof {
            let before = old(self)@;
            let after = ticks@;
            assert(after == before.insert(k as int, tick));
            assert forall|i: int, j: int| 0 <= i <= j < after.len() implies after[i].position
                <= after[j].position by {
                if i < k && j > k {
                    assert(before[i].position <= position);
                    assert(before[j - 1].position > position);
                } else if i > k {
                    assert(before[i - 1].position <= before[j - 1].position);
                } else if j < k {
                    assert(before[i].position <= before[j].position);
                }
            }
        }
        self.ticks = ticks;
    }

    /// The colour at `pos`: the linear blend of the first adjacent pair of
    /// stops that encloses `pos`; of two stops at one position that enclose
    /// it, the colour of the first. Nothing where no pair encloses `pos`, so
    /// nothing at all for a ramp of fewer than two stops.
    pub fn interpolate(&self, pos: i64) -> (r: Option<Color>)
        ensures
            r == sample(self@, pos as int),
    {
        let n = self.ticks.len();
        if n < 2 {
            return None;
        }
        let mut i: usize = 0;
        while i < n - 1
            invariant
                n == self@.len(),
                n >= 2,
                forall|j: int| 0 <= j < i ==> !brackets(self@, j, pos as int),
            decreases n - i,
        {
            let t1 = self.ticks[i];
            let t2 = self.ticks[i + 1];
            if pos >= t1.position && pos <= t2.position {
                let d: u64 = (pos as i128 - t1.position as i128) as u64;
                let span: u64 = (t2.position as i128 - t1.position as i128) as u64;
                proof {
                    assert(first_span(self@, i as int, pos as int));
                    lemma_sample_at(self@, i as int, pos as int);
                }
                return Some(t1.color.blend(t2.color, d, span));
            }
            i += 1;
        }
        None
    }

    /// The positions of the first and the last stop. Nothing for a ramp of
    /// fewer than two stops.
    pub fn range(&self) -> (r: Option<(i64, i64)>)
        ensures
            r == range_spec(self@),
            self.wf(),
    {
        proof {
            use_type_invariant(self);
        }
        let n = self.ticks.len();
        if n < 2 {
            None
        } else {
            Some((self.ticks[0].position, self.ticks[n - 1].position))
        }
    }
    /// Bakes the ramp into an RGBA8 texture of `width * height` pixels: one
    /// row of `width` colours spread evenly over the ramp's range, the last of
    /// them at the very end of the range, and that row `height` times.
    ///
    /// A ramp of fewer than two stops is refused first, then a width of zero.
    pub fn build_texture_data(&self, width: usize, height: usize) -> (r: Result<Vec<u8>, RampError>)
        requires
            width * height * 4 <= usize::MAX,
        ensures
            match r {
                Ok(data) => self@.len() >= 2 && width >= 1 && data@ == texture_spec(
                    self@,
                    width as int,
                    height as int,
                ),
                Err(RampError::TooFewStops) => self@.len() < 2,
                Err(RampError::ZeroWidth) => self@.len() >= 2 && width == 0,
            },
    {
        proof {
            use_type_invariant(self);
        }
        let (t0, t1) = match self.range() {
            Some(ends) => ends,
            None => {
                return Err(RampError::TooFewStops);
            },
        };
        if width == 0 {
            return Err(RampError::ZeroWidth);
        }
        let mut out: Vec<u8> = Vec::new();
        if height == 0 {
            return Ok(out);
        }
        assert(self@[0].position <= self@[self@.len() - 1].position);
        let span: u64 = (t1 as i128 - t0 as i128) as u64;
        let mut row: Vec<u8> = Vec::new();
        let mut p: usize = 0;
        while p < width
            invariant
                self.wf(),
                self@.len() >= 2,
                t0 == self@[0].position,
                t1 == self@[self@.len() - 1].position,
                span == t1 - t0,
                p <= width,
                row@.len() == 4 * p,
                forall|k: int| 0 <= k < row@.len() ==> row@[k] == row_spec(self@, width as int)[k],
            decreases width - p,
        {
            let pos: i64 = if p == width - 1 {
                t1
            } else {
                proof {
                    assert(p * span <= width * span) by (nonlinear_arith)
                        requires 0 <= p <= width, 0 <= span;
                    assert(width * span <= 0xffff_ffff_ffff_ffff * 0xffff_ffff_ffff_ffff) by (nonlinear_arith)
                        requires 0 <= width <= 0xffff_ffff_ffff_ffff, 0 <= span <= 0xffff_ffff_ffff_ffff;
                }
                let x: u128 = (p as u128) * (span as u128);
                let q: u128 = x / (width as u128);
                proof {
                    lemma_fundamental_div_mod(x as int, width as int);
                    assert(q <= span) by (nonlinear_arith)
                        requires width * q <= x, x <= width * span, 0 < width;
                }
                (t0 as i128 + q as i128) as i64
            };
            proof {
                assert(pos == column_position(t0 as int, t1 as int, width as int, p as int));
                lemma_sample_inside(self@, pos as int);
            }
            let col = self.interpolate(pos).unwrap();
            let ghost before = row@;
            row.push(quantize(col.r));
            row.push(quantize(col.g));
            row.push(quantize(col.b));
            row.push(quantize(col.a));
            proof {
                assert(col == column_color(self@, width as int, p as int));
                assert forall|k: int| 0 <= k < row@.len() implies row@[k] == row_spec(
                    self@,
                    width as int,
                )[k] by {
                    if k < 4 * p {
                        assert(row@[k] == before[k]);
                    } else {
                        assert(k / 4 == p);
                    }
                }
            }
            p += 1;
        }
        assert(row@ =~= row_spec(self@, width as int));
        let mut y: usize = 0;
        while y < height
            invariant
                y <= height,
                row@ == row_spec(self@, width as int),
                out@ == texture_spec(self@, width as int, y as int),
            decreases height - y,
        {
            let mut k: usize = 0;
            while k < row.len()
                invariant
                    k <= row@.len(),
                    out@ == texture_spec(self@, width as int, y as int) + row@.subrange(0, k as int),
                decreases row@.len() - k,
            {
                out.push(row[k]);
                assert(row@.subrange(0, k as int).push(row@[k as int]) =~= row@.subrange(
                    0,
                    k + 1,
                ));
                k += 1;
            }
            assert(row@.subrange(0, row@.len() as int) =~= row@);
            y += 1;
        }
        Ok(out)
    }
}

} // verus!
