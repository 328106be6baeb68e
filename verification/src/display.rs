//! The compositor: a full-panel RGBA framebuffer and an ordered list of
//! layers. A full redraw clears the framebuffer, blends the layers
//! back-to-front by draw order, converts the result to RGB565 and streams
//! it to the panel.

use vstd::prelude::*;
use vstd::arithmetic::div_mod::lemma_fundamental_div_mod_converse;
use vstd::multiset::Multiset;
use crate::device::{chunk_seqs, Device, DeviceError};
use crate::image_extensions::{rgb565_of_rgba, rgb565_lo, rgb565_hi, rgb565_value};
use crate::layer::{Layer, LayerModel};
use crate::packets::display_image_packet;

verus! {

/// Source-over blending of one channel: dst = src * (a/255) + dst * (1 - a/255),
/// computed in integers, truncating.
pub open spec fn blend_channel(src: u8, dst: u8, alpha: u8) -> u8 {
    (((src as int) * (alpha as int) + (dst as int) * (255 - alpha as int)) / 255) as u8
}

/// The framebuffer after blending one RGBA source pixel onto the pixel at
/// (px, py): the three colour channels blend, and the destination alpha is
/// forced to fully opaque.
pub open spec fn spec_blend_pixel(buf: Seq<u8>, width: u32, px: int, py: int, rgba: Seq<u8>) -> Seq<
    u8,
> {
    let idx = (py * width + px) * 4;
    buf.update(idx, blend_channel(rgba[0], buf[idx], rgba[3])).update(
        idx + 1,
        blend_channel(rgba[1], buf[idx + 1], rgba[3]),
    ).update(idx + 2, blend_channel(rgba[2], buf[idx + 2], rgba[3])).update(idx + 3, 255u8)
}

/// Blending with clipping: a pixel aimed outside the framebuffer is
/// silently dropped.
pub open spec fn spec_draw_pixel(
    buf: Seq<u8>,
    width: u32,
    height: u32,
    x: int,
    y: int,
    rgba: Seq<u8>,
) -> Seq<u8> {
    if 0 <= x < width && 0 <= y < height {
        spec_blend_pixel(buf, width, x, y, rgba)
    } else {
        buf
    }
}

/// The framebuffer after blending the first n pixels of a layer, in
/// row-major order of the layer's own buffer.
pub open spec fn spec_blend_layer_upto(
    buf: Seq<u8>,
    width: u32,
    height: u32,
    layer: LayerModel,
    n: nat,
) -> Seq<u8>
    decreases n,
{
    if n == 0 {
        buf
    } else {
        let k = (n - 1) as int;
        let row = k / (layer.width as int);
        let col = k % (layer.width as int);
        spec_draw_pixel(
            spec_blend_layer_upto(buf, width, height, layer, (n - 1) as nat),
            width,
            height,
            layer.x + col,
            layer.y + row,
            layer.data.subrange(k * 4, k * 4 + 4),
        )
    }
}

/// The framebuffer after blending a whole layer.
pub open spec fn spec_blend_layer(buf: Seq<u8>, width: u32, height: u32, layer: LayerModel) -> Seq<
    u8,
> {
    spec_blend_layer_upto(buf, width, height, layer, (layer.width * layer.height) as nat)
}

/// The layer contents of an ordered layer list, orders stripped.
pub open spec fn models_of(layers: Seq<(u32, LayerModel)>) -> Seq<LayerModel> {
    layers.map_values(|p: (u32, LayerModel)| p.1)
}

/// The framebuffer a full redraw produces: all zero, then each layer
/// blended in sequence.
pub open spec fn composite(width: u32, height: u32, layers: Seq<LayerModel>) -> Seq<u8>
    decreases layers.len(),
{
    if layers.len() == 0 {
        Seq::new((width * height * 4) as nat, |i: int| 0u8)
    } else {
        spec_blend_layer(
            composite(width, height, layers.drop_last()),
            width,
            height,
            layers.last(),
        )
    }
}

/// Where a layer list element lands when inserted into an already-sorted
/// list: after every element with an order less than or equal to its own.
pub open spec fn insert_sorted(s: Seq<(u32, LayerModel)>, item: (u32, LayerModel)) -> Seq<
    (u32, LayerModel),
>
    decreases s.len(),
{
    if s.len() == 0 {
        seq![item]
    } else if s.last().0 <= item.0 {
        s.push(item)
    } else {
        insert_sorted(s.drop_last(), item).push(s.last())
    }
}

/// The layer list sorted ascending by draw order, stably: layers sharing an
/// order keep their registration sequence.
pub open spec fn stable_sorted_by_order(s: Seq<(u32, LayerModel)>) -> Seq<(u32, LayerModel)>
    decreases s.len(),
{
    if s.len() == 0 {
        Seq::empty()
    } else {
        insert_sorted(stable_sorted_by_order(s.drop_last()), s.last())
    }
}

/// Whether a layer list stands in ascending draw order.
pub open spec fn sorted_by_order(s: Seq<(u32, LayerModel)>) -> bool {
    forall|i: int, j: int| 0 <= i < j < s.len() ==> (#[trigger] s[i]).0 <= (#[trigger] s[j]).0
}

proof fn lemma_insert_sorted_bounded(
    s: Seq<(u32, LayerModel)>,
    item: (u32, LayerModel),
    bound: u32,
)
    requires
        forall|i: int| 0 <= i < s.len() ==> (#[trigger] s[i]).0 <= bound,
        item.0 <= bound,
    ensures
        forall|i: int|
            0 <= i < insert_sorted(s, item).len() ==> (#[trigger] insert_sorted(s, item)[i]).0
                <= bound,
    decreases s.len(),
{
    let r = insert_sorted(s, item);
    if s.len() == 0 {
        assert forall|i: int| 0 <= i < r.len() implies (#[trigger] r[i]).0 <= bound by {
            assert(r[i] == item);
        }
    } else if s.last().0 <= item.0 {
        assert forall|i: int| 0 <= i < r.len() implies (#[trigger] r[i]).0 <= bound by {
            if i < s.len() {
                assert(r[i] == s[i]);
            } else {
                assert(r[i] == item);
            }
        }
    } else {
        lemma_insert_sorted_bounded(s.drop_last(), item, bound);
        let t = insert_sorted(s.drop_last(), item);
        assert forall|i: int| 0 <= i < r.len() implies (#[trigger] r[i]).0 <= bound by {
            if i < t.len() {
                assert(r[i] == t[i]);
            } else {
                assert(r[i] == s.last());
            }
        }
    }
}

proof fn lemma_insert_sorted_sorted(s: Seq<(u32, LayerModel)>, item: (u32, LayerModel))
    requires
        sorted_by_order(s),
    ensures
        sorted_by_order(insert_sorted(s, item)),
    decreases s.len(),
{
    if s.len() == 0 {
    } else if s.last().0 <= item.0 {
        let r = s.push(item);
        assert forall|i: int, j: int| 0 <= i < j < r.len() implies (#[trigger] r[i]).0 <= (
        #[trigger] r[j]).0 by {
            if j == s.len() {
                if i < s.len() - 1 {
                    assert(s[i].0 <= s[s.len() - 1].0);
                }
            }
        }
    } else {
        assert(sorted_by_order(s.drop_last()));
        lemma_insert_sorted_sorted(s.drop_last(), item);
        assert forall|i: int| 0 <= i < s.drop_last().len() implies (#[trigger] s.drop_last()[i]).0
            <= s.last().0 by {
            assert(s[i].0 <= s[s.len() - 1].0);
        }
        lemma_insert_sorted_bounded(s.drop_last(), item, s.last().0);
        let t = insert_sorted(s.drop_last(), item);
        let r = t.push(s.last());
        assert forall|i: int, j: int| 0 <= i < j < r.len() implies (#[trigger] r[i]).0 <= (
        #[trigger] r[j]).0 by {
            if j == t.len() {
                assert(t[i].0 <= s.last().0);
            }
        }
    }
}

proof fn lemma_insert_sorted_multiset(s: Seq<(u32, LayerModel)>, item: (u32, LayerModel))
    ensures
        insert_sorted(s, item).to_multiset() == s.to_multiset().insert(item),
    decreases s.len(),
{
    broadcast use vstd::seq_lib::group_to_multiset_ensures;

    if s.len() == 0 {
        assert(seq![item] =~= Seq::<(u32, LayerModel)>::empty().push(item));
        assert(Seq::<(u32, LayerModel)>::empty().push(item).to_multiset() =~= Seq::<
            (u32, LayerModel),
        >::empty().to_multiset().insert(item));
        assert(Seq::<(u32, LayerModel)>::empty().to_multiset() =~= Multiset::<
            (u32, LayerModel),
        >::empty());
        assert(insert_sorted(s, item).to_multiset() =~= s.to_multiset().insert(item));
    } else if s.last().0 <= item.0 {
        assert(insert_sorted(s, item).to_multiset() =~= s.to_multiset().insert(item));
    } else {
        lemma_insert_sorted_multiset(s.drop_last(), item);
        let t = insert_sorted(s.drop_last(), item);
        assert(t.push(s.last()).to_multiset() =~= t.to_multiset().insert(s.last()));
        assert(s.drop_last().push(s.last()) =~= s);
        assert(s.to_multiset() =~= s.drop_last().to_multiset().insert(s.last()));
        assert(s.drop_last().to_multiset().insert(item).insert(s.last())
            =~= s.drop_last().to_multiset().insert(s.last()).insert(item));
        assert(insert_sorted(s, item).to_multiset() =~= s.to_multiset().insert(item));
    }
}

/// The stable sort really sorts: its result stands in ascending draw order
/// and holds exactly the registered layers, counted with multiplicity.
pub proof fn lemma_stable_sort_sorts(s: Seq<(u32, LayerModel)>)
    ensures
        sorted_by_order(stable_sorted_by_order(s)),
        stable_sorted_by_order(s).to_multiset() == s.to_multiset(),
    decreases s.len(),
{
    broadcast use vstd::seq_lib::group_to_multiset_ensures;

    if s.len() == 0 {
    } else {
        lemma_stable_sort_sorts(s.drop_last());
        lemma_insert_sorted_sorted(stable_sorted_by_order(s.drop_last()), s.last());
        lemma_insert_sorted_multiset(stable_sorted_by_order(s.drop_last()), s.last());
        assert(s.drop_last().push(s.last()) =~= s);
        assert(s.to_multiset() =~= s.drop_last().to_multiset().insert(s.last()));
    }
}

/// Blending a prefix of a layer never changes the framebuffer's length.
pub proof fn lemma_blend_upto_len(buf: Seq<u8>, width: u32, height: u32, layer: LayerModel, n: nat)
    requires
        buf.len() == width * height * 4,
    ensures
        spec_blend_layer_upto(buf, width, height, layer, n).len() == buf.len(),
    decreases n,
{
    if n > 0 {
        lemma_blend_upto_len(buf, width, height, layer, (n - 1) as nat);
        let prev = spec_blend_layer_upto(buf, width, height, layer, (n - 1) as nat);
        let k = (n - 1) as int;
        let lw = layer.width as int;
        let x = layer.x + k % lw;
        let y = layer.y + k / lw;
        if 0 <= x < width && 0 <= y < height {
            assert((y * width + x) * 4 + 3 < prev.len()) by (nonlinear_arith)
                requires
                    0 <= x < width,
                    0 <= y < height,
                    prev.len() == width * height * 4,
            ;
        }
    }
}

/// A composited framebuffer is always exactly width * height RGBA pixels.
pub proof fn lemma_composite_len(width: u32, height: u32, layers: Seq<LayerModel>)
    ensures
        composite(width, height, layers).len() == width * height * 4,
    decreases layers.len(),
{
    if layers.len() > 0 {
        lemma_composite_len(width, height, layers.drop_last());
        lemma_blend_upto_len(
            composite(width, height, layers.drop_last()),
            width,
            height,
            layers.last(),
            (layers.last().width * layers.last().height) as nat,
        );
    }
}

/// The framebuffer pixel coordinates a byte index belongs to.
pub open spec fn byte_px(i: int, width: u32) -> int {
    (i / 4) % (width as int)
}

pub open spec fn byte_py(i: int, width: u32) -> int {
    (i / 4) / (width as int)
}

/// A byte index of the pixel at (px, py) resolves back to that pixel.
proof fn lemma_pixel_byte_coords(width: u32, px: int, py: int, c: int)
    requires
        0 <= px < width,
        0 <= py,
        0 <= c < 4,
    ensures
        byte_px((py * width + px) * 4 + c, width) == px,
        byte_py((py * width + px) * 4 + c, width) == py,
        ((py * width + px) * 4 + c) / 4 == py * width + px,
{
    lemma_fundamental_div_mod_converse((py * width + px) * 4 + c, 4, py * width + px, c);
    lemma_fundamental_div_mod_converse(py * width + px, width as int, py, px);
}

/// Clipping law: blending a layer touches only bytes of framebuffer pixels
/// inside the layer's bounding box. A byte whose pixel lies outside the box
/// (as every pixel of an off-panel part of the box does, since framebuffer
/// bytes exist only for on-panel pixels) keeps its value exactly.
pub proof fn lemma_blend_layer_clips(
    buf: Seq<u8>,
    width: u32,
    height: u32,
    layer: LayerModel,
    i: int,
)
    requires
        buf.len() == width * height * 4,
        0 <= i < buf.len(),
        !(layer.x <= byte_px(i, width) < layer.x + layer.width && layer.y <= byte_py(i, width)
            < layer.y + layer.height),
    ensures
        spec_blend_layer(buf, width, height, layer)[i] == buf[i],
{
    lemma_blend_upto_clips(buf, width, height, layer, (layer.width * layer.height) as nat, i);
}

proof fn lemma_blend_upto_clips(
    buf: Seq<u8>,
    width: u32,
    height: u32,
    layer: LayerModel,
    n: nat,
    i: int,
)
    requires
        buf.len() == width * height * 4,
        0 <= i < buf.len(),
        n <= layer.width * layer.height,
        !(layer.x <= byte_px(i, width) < layer.x + layer.width && layer.y <= byte_py(i, width)
            < layer.y + layer.height),
    ensures
        spec_blend_layer_upto(buf, width, height, layer, n)[i] == buf[i],
    decreases n,
{
    if n > 0 {
        lemma_blend_upto_clips(buf, width, height, layer, (n - 1) as nat, i);
        let k = (n - 1) as int;
        let lw = layer.width as int;
        let row = k / lw;
        let col = k % lw;
        assert(lw > 0) by {
            if lw == 0 {
                assert(layer.width * layer.height == 0) by (nonlinear_arith)
                    requires
                        layer.width == 0,
                ;
            }
        }
        vstd::arithmetic::div_mod::lemma_mod_bound(k, lw);
        vstd::arithmetic::div_mod::lemma_div_pos_is_pos(k, lw);
        assert(0 <= col < lw);
        assert(0 <= row);
        let x = layer.x + col;
        let y = layer.y + row;
        if 0 <= x < width && 0 <= y < height {
            // The four updated byte indices belong to pixel (x, y), which
            // lies inside the layer's box; byte i's pixel does not.
            let p = y * width + x;
            let prev = spec_blend_layer_upto(buf, width, height, layer, (n - 1) as nat);
            lemma_blend_upto_len(buf, width, height, layer, (n - 1) as nat);
            assert(row < layer.height) by (nonlinear_arith)
                requires
                    0 <= k < layer.width * layer.height,
                    lw == layer.width,
                    row == k / lw,
                    lw > 0,
            ;
            assert(p * 4 + 3 < buf.len()) by (nonlinear_arith)
                requires
                    0 <= x < width,
                    0 <= y < height,
                    p == y * width + x,
                    buf.len() == width * height * 4,
            ;
            assert(p * 4 != i) by {
                if p * 4 == i {
                    lemma_pixel_byte_coords(width, x, y, 0);
                }
            }
            assert(p * 4 + 1 != i) by {
                if p * 4 + 1 == i {
                    lemma_pixel_byte_coords(width, x, y, 1);
                }
            }
            assert(p * 4 + 2 != i) by {
                if p * 4 + 2 == i {
                    lemma_pixel_byte_coords(width, x, y, 2);
                }
            }
            assert(p * 4 + 3 != i) by {
                if p * 4 + 3 == i {
                    lemma_pixel_byte_coords(width, x, y, 3);
                }
            }
        }
    }
}

/// Whether two axis-aligned rectangles overlap in at least one point.
pub open spec fn spec_rects_intersect(
    x1: int,
    y1: int,
    w1: int,
    h1: int,
    x2: int,
    y2: int,
    w2: int,
    h2: int,
) -> bool {
    !(x2 + w2 <= x1 || x2 >= x1 + w1 || y2 + h2 <= y1 || y2 >= y1 + h1)
}

/// Rectangle intersection test, exact over the mathematical rectangles.
pub fn rects_intersect(
    x1: u32,
    y1: u32,
    w1: u32,
    h1: u32,
    x2: u32,
    y2: u32,
    w2: u32,
    h2: u32,
) -> (r: bool)
    ensures
        r == spec_rects_intersect(
            x1 as int,
            y1 as int,
            w1 as int,
            h1 as int,
            x2 as int,
            y2 as int,
            w2 as int,
            h2 as int,
        ),
{
    let r1x2: u64 = x1 as u64 + w1 as u64;
    let r1y2: u64 = y1 as u64 + h1 as u64;
    let r2x2: u64 = x2 as u64 + w2 as u64;
    let r2y2: u64 = y2 as u64 + h2 as u64;
    !(r2x2 <= x1 as u64 || x2 as u64 >= r1x2 || r2y2 <= y1 as u64 || y2 as u64 >= r1y2)
}

/// Blends one RGBA pixel onto the framebuffer at (x, y), clipping pixels
/// outside the framebuffer.
fn draw_pixel(buffer: &mut Vec<u8>, width: u32, height: u32, x: u32, y: u32, rgba: [u8; 4])
    requires
        old(buffer)@.len() == width * height * 4,
    ensures
        final(buffer)@ == spec_draw_pixel(old(buffer)@, width, height, x as int, y as int, rgba@),
{
    if x >= width || y >= height {
        return ;
    }
    let buffer_len: usize = buffer.len();
    proof {
        assert(((y as int) * (width as int) + (x as int)) * 4 + 3 < buffer_len)
            by (nonlinear_arith)
            requires
                x < width,
                y < height,
                buffer_len == width * height * 4,
        ;
    }
    let idx: usize = ((y as usize) * (width as usize) + (x as usize)) * 4;
    let a: u32 = rgba[3] as u32;
    let inv_a: u32 = 255 - a;
    proof {
        let ai = a as int;
        let ii = inv_a as int;
        let s0 = rgba@[0] as int;
        let s1 = rgba@[1] as int;
        let s2 = rgba@[2] as int;
        let d0 = buffer@[idx as int] as int;
        let d1 = buffer@[idx as int + 1] as int;
        let d2 = buffer@[idx as int + 2] as int;
        assert(s0 * ai + d0 * ii <= 255 * 255 && s1 * ai + d1 * ii <= 255 * 255 && s2 * ai + d2
            * ii <= 255 * 255) by (nonlinear_arith)
            requires
                0 <= s0 <= 255,
                0 <= s1 <= 255,
                0 <= s2 <= 255,
                0 <= d0 <= 255,
                0 <= d1 <= 255,
                0 <= d2 <= 255,
                0 <= ai,
                0 <= ii,
                ai + ii == 255,
        ;
    }
    let b0: u32 = (rgba[0] as u32 * a + buffer[idx] as u32 * inv_a) / 255;
    let b1: u32 = (rgba[1] as u32 * a + buffer[idx + 1] as u32 * inv_a) / 255;
    let b2: u32 = (rgba[2] as u32 * a + buffer[idx + 2] as u32 * inv_a) / 255;
    buffer[idx] = b0 as u8;
    buffer[idx + 1] = b1 as u8;
    buffer[idx + 2] = b2 as u8;
    buffer[idx + 3] = 255;
    proof {
        assert(final(buffer)@ =~= spec_blend_pixel(old(buffer)@, width, x as int, y as int, rgba@));
    }
}

/// Inserting an element into a list whose entries from position j onward
/// all have a larger order, and whose entry before j (if any) does not,
/// places it exactly at position j.
proof fn lemma_insert_sorted_at(s: Seq<(u32, LayerModel)>, item: (u32, LayerModel), j: int)
    requires
        0 <= j <= s.len(),
        forall|k: int| j <= k < s.len() ==> (#[trigger] s[k]).0 > item.0,
        j > 0 ==> s[j - 1].0 <= item.0,
    ensures
        insert_sorted(s, item) == s.take(j) + seq![item] + s.skip(j),
    decreases s.len(),
{
    if j == s.len() {
        if s.len() == 0 {
            assert(insert_sorted(s, item) =~= s.take(j) + seq![item] + s.skip(j));
        } else {
            assert(s.last().0 <= item.0);
            assert(insert_sorted(s, item) =~= s.take(j) + seq![item] + s.skip(j));
        }
    } else {
        assert(s[s.len() - 1].0 > item.0);
        assert(forall|k: int|
            j <= k < s.drop_last().len() ==> (#[trigger] s.drop_last()[k]).0 > item.0);
        lemma_insert_sorted_at(s.drop_last(), item, j);
        assert(insert_sorted(s.drop_last(), item).push(s.last()) =~= s.take(j) + seq![item]
            + s.skip(j));
    }
}

/// The abstract state of a compositor: the panel geometry it was built for,
/// the RGBA framebuffer, and the registered layers with their draw orders,
/// in registration sequence.
pub ghost struct DisplayView {
    pub width: u32,
    pub height: u32,
    pub buffer: Seq<u8>,
    pub layers: Seq<(u32, LayerModel)>,
}

pub struct Display<L: Layer> {
    width: u32,
    height: u32,
    buffer: Vec<u8>,
    layers: Vec<(u32, L)>,
}

impl<L: Layer> View for Display<L> {
    type V = DisplayView;

    closed spec fn view(&self) -> DisplayView {
        DisplayView {
            width: self.width,
            height: self.height,
            buffer: self.buffer@,
            layers: self.layers@.map_values(|p: (u32, L)| (p.0, p.1.model())),
        }
    }
}

impl<L: Layer> Display<L> {
    /// The framebuffer always matches the panel geometry, whose sides the
    /// wire protocol limits to 12-bit coordinates.
    pub open spec fn well_formed(&self) -> bool {
        &&& self@.buffer.len() == self@.width * self@.height * 4
        &&& 1 <= self@.width <= 4096
        &&& 1 <= self@.height <= 4096
    }

    /// A compositor for a panel of the given effective dimensions, with a
    /// black framebuffer and no layers.
    pub fn new(width: u16, height: u16) -> (r: Self)
        requires
            1 <= width <= 4096,
            1 <= height <= 4096,
        ensures
            r.well_formed(),
            r@.width == width,
            r@.height == height,
            r@.buffer == composite(width as u32, height as u32, Seq::<LayerModel>::empty()),
            r@.layers == Seq::<(u32, LayerModel)>::empty(),
    {
        let w: u32 = width as u32;
        let h: u32 = height as u32;
        proof {
            assert((w as int) * (h as int) * 4 <= 4096 * 4096 * 4) by (nonlinear_arith)
                requires
                    w <= 4096,
                    h <= 4096,
            ;
        }
        let total: usize = (w as usize) * (h as usize) * 4;
        let mut buffer: Vec<u8> = Vec::new();
        while buffer.len() < total
            invariant
                total == w * h * 4,
                buffer@.len() <= total,
                forall|i: int| 0 <= i < buffer@.len() ==> buffer@[i] == 0u8,
            decreases total - buffer.len(),
        {
            buffer.push(0u8);
        }
        let r = Display { width: w, height: h, buffer, layers: Vec::<(u32, L)>::new() };
        proof {
            assert(r@.buffer =~= composite(w, h, Seq::<LayerModel>::empty()));
            assert(r@.layers =~= Seq::<(u32, LayerModel)>::empty());
        }
        r
    }

    /// Registers a layer at a draw order. Orders need not be unique: layers
    /// sharing an order keep their registration sequence at redraw.
    pub fn add_layer(&mut self, order: u32, layer: L)
        ensures
            final(self)@.width == old(self)@.width,
            final(self)@.height == old(self)@.height,
            final(self)@.buffer == old(self)@.buffer,
            final(self)@.layers == old(self)@.layers.push((order, layer.model())),
    {
        let ghost m = layer.model();
        self.layers.push((order, layer));
        proof {
            assert(self@.layers =~= old(self)@.layers.push((order, m)));
        }
    }

    /// Stable insertion sort of the layer list, ascending by draw order.
    fn sort_layers(&mut self)
        ensures
            final(self)@.width == old(self)@.width,
            final(self)@.height == old(self)@.height,
            final(self)@.buffer == old(self)@.buffer,
            final(self)@.layers == stable_sorted_by_order(old(self)@.layers),
    {
        let n: usize = self.layers.len();
        let ghost empty_pairs = Seq::<(u32, LayerModel)>::empty();
        proof {
            assert(stable_sorted_by_order(empty_pairs) =~= empty_pairs);
        }
        if n <= 1 {
            proof {
                if n == 0 {
                    assert(old(self)@.layers =~= empty_pairs);
                    assert(stable_sorted_by_order(old(self)@.layers) =~= self@.layers);
                } else {
                    let s = old(self)@.layers;
                    assert(s.drop_last() =~= empty_pairs);
                    assert(stable_sorted_by_order(s) == insert_sorted(
                        stable_sorted_by_order(s.drop_last()),
                        s.last(),
                    ));
                    assert(insert_sorted(empty_pairs, s.last()) =~= seq![s[0]]);
                    assert(stable_sorted_by_order(s) =~= self@.layers);
                }
            }
            return ;
        }
        let ghost orig = old(self)@.layers;
        let mut i: usize = 1;
        proof {
            assert(orig.take(1).len() == 1);
            assert(orig.take(1).drop_last() =~= empty_pairs);
            assert(stable_sorted_by_order(orig.take(1)) == insert_sorted(
                stable_sorted_by_order(orig.take(1).drop_last()),
                orig.take(1).last(),
            ));
            assert(insert_sorted(empty_pairs, orig.take(1).last()) =~= seq![orig[0]]);
            assert(self@.layers.take(1) =~= seq![orig[0]]);
        }
        while i < n
            invariant
                1 <= i <= n,
                n == self.layers@.len(),
                n == orig.len(),
                self@.width == old(self)@.width,
                self@.height == old(self)@.height,
                self@.buffer == old(self)@.buffer,
                orig == old(self)@.layers,
                self@.layers.take(i as int) == stable_sorted_by_order(orig.take(i as int)),
                self@.layers.skip(i as int) == orig.skip(i as int),
            decreases n - i,
        {
            let ghost pre = self@.layers;
            let item = self.layers.remove(i);
            let ghost item_m = (item.0, item.1.model());
            let ghost removed = self@.layers;
            proof {
                assert(item_m == pre[i as int]);
                assert(removed =~= pre.remove(i as int));
            }
            let mut j: usize = i;
            while j > 0 && self.layers[j - 1].0 > item.0
                invariant
                    j <= i,
                    i < n,
                    self.layers@.len() == n - 1,
                    self@.layers == removed,
                    item_m.0 == item.0,
                    forall|k: int| j <= k < i ==> (#[trigger] removed[k]).0 > item_m.0,
                decreases j,
            {
                j = j - 1;
            }
            self.layers.insert(j, item);
            proof {
                assert(self@.layers =~= removed.insert(j as int, item_m));
                let s = removed.take(i as int);
                assert(s =~= pre.take(i as int));
                lemma_insert_sorted_at(s, item_m, j as int);
                // The new prefix of length i + 1 is the sorted prefix with
                // the item inserted at j; the tail beyond it is untouched.
                assert(self@.layers.take(i as int + 1) =~= s.take(j as int) + seq![item_m]
                    + s.skip(j as int));
                assert(orig.take(i as int + 1).drop_last() =~= orig.take(i as int));
                assert(orig.take(i as int + 1).last() == orig[i as int]);
                assert(pre[i as int] == orig[i as int]) by {
                    assert(pre.skip(i as int)[0] == orig.skip(i as int)[0]);
                }
                assert(self@.layers.take(i as int + 1) == stable_sorted_by_order(
                    orig.take(i as int + 1),
                ));
                assert forall|m: int|
                    0 <= m < self@.layers.skip(i as int + 1).len() implies (
                #[trigger] self@.layers.skip(i as int + 1)[m]) == orig.skip(i as int + 1)[m] by {
                    assert(self@.layers[m + i + 1] == removed[m + i]);
                    assert(removed[m + i] == pre[m + i + 1]);
                    assert(pre.skip(i as int)[m + 1] == orig.skip(i as int)[m + 1]);
                }
                assert(self@.layers.skip(i as int + 1) =~= orig.skip(i as int + 1));
            }
            i = i + 1;
        }
        proof {
            assert(orig.take(n as int) =~= orig);
            assert(self@.layers.take(n as int) =~= self@.layers);
        }
    }

    /// Recomposites the framebuffer: clears it to black, stable-sorts the
    /// layers by draw order, blends them back-to-front with clipping, and
    /// returns the frame encoded as RGB565.
    pub fn compose(&mut self) -> (out: Vec<u8>)
        requires
            old(self).well_formed(),
        ensures
            final(self).well_formed(),
            final(self)@.width == old(self)@.width,
            final(self)@.height == old(self)@.height,
            final(self)@.layers == stable_sorted_by_order(old(self)@.layers),
            final(self)@.buffer == composite(
                old(self)@.width,
                old(self)@.height,
                models_of(final(self)@.layers),
            ),
            out@ == rgb565_of_rgba(
                final(self)@.buffer,
                (old(self)@.width * old(self)@.height) as nat,
            ),
    {
        let w: u32 = self.width;
        let h: u32 = self.height;

        self.sort_layers();
        let ghost sorted_layers = self@.layers;
        let ghost ms = models_of(sorted_layers);

        proof {
            assert((w as int) * (h as int) * 4 <= 4096 * 4096 * 4) by (nonlinear_arith)
                requires
                    w <= 4096,
                    h <= 4096,
            ;
        }
        let total: usize = (w as usize) * (h as usize) * 4;
        let mut framebuffer: Vec<u8> = Vec::new();
        while framebuffer.len() < total
            invariant
                total == w * h * 4,
                forall|i: int| 0 <= i < framebuffer@.len() ==> framebuffer@[i] == 0u8,
                framebuffer@.len() <= total,
            decreases total - framebuffer.len(),
        {
            framebuffer.push(0u8);
        }
        proof {
            assert(framebuffer@ =~= composite(w, h, Seq::<LayerModel>::empty()));
            assert(ms.take(0) =~= Seq::<LayerModel>::empty());
        }

        let layer_count: usize = self.layers.len();
        let mut li: usize = 0;
        while li < layer_count
            invariant
                li <= layer_count,
                layer_count == self.layers@.len(),
                self@.layers == sorted_layers,
                ms == models_of(sorted_layers),
                ms.len() == layer_count,
                self@.width == w,
                self@.height == h,
                1 <= w <= 4096,
                1 <= h <= 4096,
                framebuffer@.len() == w * h * 4,
                framebuffer@ == composite(w, h, ms.take(li as int)),
            decreases layer_count - li,
        {
            let entry: &(u32, L) = &self.layers[li];
            let (lx, ly, lw, lh) = entry.1.bounding_box();
            let layer_data: &Vec<u8> = entry.1.get_image_data();
            let ghost lm = self@.layers[li as int].1;
            let ghost base = framebuffer@;

            let mut row: u32 = 0;
            while row < lh
                invariant
                    row <= lh,
                    lm.x == lx,
                    lm.y == ly,
                    lm.width == lw,
                    lm.height == lh,
                    lm.wf(),
                    layer_data@ == lm.data,
                    1 <= w <= 4096,
                    1 <= h <= 4096,
                    base.len() == w * h * 4,
                    framebuffer@ == spec_blend_layer_upto(base, w, h, lm, (row * lw) as nat),
                decreases lh - row,
            {
                let mut col: u32 = 0;
                while col < lw
                    invariant
                        col <= lw,
                        row < lh,
                        lm.x == lx,
                        lm.y == ly,
                        lm.width == lw,
                        lm.height == lh,
                        lm.wf(),
                        layer_data@ == lm.data,
                        1 <= w <= 4096,
                        1 <= h <= 4096,
                        base.len() == w * h * 4,
                        framebuffer@ == spec_blend_layer_upto(
                            base,
                            w,
                            h,
                            lm,
                            (row * lw + col) as nat,
                        ),
                    decreases lw - col,
                {
                    proof {
                        assert((row as int) * (lw as int) + (col as int) < (lw as int) * (
                        lh as int) && ((row as int) * (lw as int) + (col as int)) * 4 + 3 < (
                        lw as int) * (lh as int) * 4) by (nonlinear_arith)
                            requires
                                row < lh,
                                col < lw,
                        ;
                        assert(lm.data.len() == (lw as int) * (lh as int) * 4);
                    }
                    let data_len: usize = layer_data.len();
                    let k: usize = (row as usize) * (lw as usize) + (col as usize);
                    let idx: usize = k * 4;
                    let pixel: [u8; 4] = [
                        layer_data[idx],
                        layer_data[idx + 1],
                        layer_data[idx + 2],
                        layer_data[idx + 3],
                    ];
                    let px: u64 = lx as u64 + col as u64;
                    let py: u64 = ly as u64 + row as u64;
                    if px < w as u64 && py < h as u64 {
                        proof {
                            lemma_blend_upto_len(base, w, h, lm, (row * lw + col) as nat);
                        }
                        draw_pixel(&mut framebuffer, w, h, px as u32, py as u32, pixel);
                    }
                    proof {
                        lemma_fundamental_div_mod_converse(
                            k as int,
                            lw as int,
                            row as int,
                            col as int,
                        );
                        assert(pixel@ =~= lm.data.subrange(k as int * 4, k as int * 4 + 4));
                        assert(framebuffer@ =~= spec_blend_layer_upto(
                            base,
                            w,
                            h,
                            lm,
                            (row * lw + col + 1) as nat,
                        ));
                    }
                    col = col + 1;
                }
                proof {
                    assert((row as int + 1) * (lw as int) == (row as int) * (lw as int) + (
                    lw as int)) by (nonlinear_arith);
                }
                row = row + 1;
            }
            proof {
                assert((lh as int) * (lw as int) == (lw as int) * (lh as int)) by (nonlinear_arith);
                assert(framebuffer@ == spec_blend_layer(base, w, h, lm));
                lemma_blend_upto_len(base, w, h, lm, (lm.width * lm.height) as nat);
                assert(ms.take(li as int + 1).drop_last() =~= ms.take(li as int));
                assert(ms.take(li as int + 1).last() == ms[li as int]);
                assert(ms[li as int] == lm);
                assert(framebuffer@ == composite(w, h, ms.take(li as int + 1)));
            }
            li = li + 1;
        }
        proof {
            assert(ms.take(layer_count as int) =~= ms);
        }

        let npix: usize = (w as usize) * (h as usize);
        proof {
            assert((npix as int) * 4 == w * h * 4) by (nonlinear_arith)
                requires
                    npix == (w as int) * (h as int),
            ;
        }
        let fb_len: usize = framebuffer.len();
        let mut out: Vec<u8> = Vec::new();
        let mut p: usize = 0;
        while p < npix
            invariant
                p <= npix,
                fb_len == framebuffer@.len(),
                fb_len == (npix as int) * 4,
                out@ == rgb565_of_rgba(framebuffer@, p as nat),
            decreases npix - p,
        {
            let idx: usize = p * 4;
            let (lo, hi) = crate::image_extensions::rgb565_pixel_bytes(
                framebuffer[idx],
                framebuffer[idx + 1],
                framebuffer[idx + 2],
            );
            out.push(lo);
            out.push(hi);
            proof {
                assert(out@ =~= rgb565_of_rgba(framebuffer@, (p + 1) as nat));
            }
            p = p + 1;
        }

        self.buffer = framebuffer;
        out
    }

    /// Recomposites the framebuffer and streams the whole frame to the
    /// panel: the image-header frame for the full panel area, then the
    /// RGB565 payload in chunks.
    pub fn redraw_full(&mut self, device: &mut Device) -> (r: Result<(), DeviceError>)
        requires
            old(self).well_formed(),
        ensures
            final(self).well_formed(),
            final(self)@.width == old(self)@.width,
            final(self)@.height == old(self)@.height,
            final(self)@.layers == stable_sorted_by_order(old(self)@.layers),
            final(self)@.buffer == composite(
                old(self)@.width,
                old(self)@.height,
                models_of(final(self)@.layers),
            ),
            final(device)@.width == old(device)@.width,
            final(device)@.height == old(device)@.height,
            final(device)@.device_width == old(device)@.device_width,
            final(device)@.device_height == old(device)@.device_height,
            r is Ok ==> final(device)@.sent == old(device)@.sent.push(
                display_image_packet(
                    0,
                    0,
                    old(self)@.width as u16,
                    old(self)@.height as u16,
                ),
            ) + chunk_seqs(
                rgb565_of_rgba(
                    final(self)@.buffer,
                    (old(self)@.width * old(self)@.height) as nat,
                ),
            ),
            r is Err ==> r->Err_0 is IoError && old(device)@.sent.is_prefix_of(
                final(device)@.sent,
            ),
    {
        let full_data = self.compose();
        let w16: u16 = self.width as u16;
        let h16: u16 = self.height as u16;
        device.display_picture(full_data, 0, 0, w16, h16)
    }
}

/// With no layers registered, a full redraw composites an all-black
/// framebuffer, and its native encoding is width * height pixels of two
/// zero bytes each.
pub proof fn lemma_empty_composite_is_black(width: u32, height: u32)
    ensures
        composite(width, height, Seq::<LayerModel>::empty()) == Seq::new(
            (width * height * 4) as nat,
            |i: int| 0u8,
        ),
        rgb565_of_rgba(
            composite(width, height, Seq::<LayerModel>::empty()),
            (width * height) as nat,
        ) == Seq::new((width * height * 2) as nat, |i: int| 0u8),
{
    let buf = composite(width, height, Seq::<LayerModel>::empty());
    assert((width * height) as nat * 4 <= buf.len()) by (nonlinear_arith)
        requires
            buf.len() == (width as int) * (height as int) * 4,
    ;
    lemma_rgb565_of_zero_buf(buf, (width * height) as nat);
    assert(rgb565_of_rgba(buf, (width * height) as nat) =~= Seq::new(
        (width * height * 2) as nat,
        |i: int| 0u8,
    ));
}

/// The native encoding of an all-zero buffer is all zero, two bytes per
/// pixel.
proof fn lemma_rgb565_of_zero_buf(buf: Seq<u8>, n: nat)
    requires
        n * 4 <= buf.len(),
        forall|i: int| 0 <= i < buf.len() ==> buf[i] == 0u8,
    ensures
        rgb565_of_rgba(buf, n).len() == n * 2,
        forall|i: int| 0 <= i < n * 2 ==> rgb565_of_rgba(buf, n)[i] == 0u8,
    decreases n,
{
    if n > 0 {
        lemma_rgb565_of_zero_buf(buf, (n - 1) as nat);
        let p = (n - 1) as int;
        assert(buf[p * 4] == 0u8 && buf[p * 4 + 1] == 0u8 && buf[p * 4 + 2] == 0u8);
        assert(rgb565_value(0u8, 0u8, 0u8) == 0u16) by {
            assert(((0u16 & 0xF8) << 8) | ((0u16 & 0xFC) << 3) | (0u16 >> 3) == 0u16)
                by (bit_vector);
        }
        assert(rgb565_lo(0u8, 0u8, 0u8) == 0u8 && rgb565_hi(0u8, 0u8, 0u8) == 0u8) by {
            assert((0u16 & 0xFF) == 0u16 && (0u16 >> 8) == 0u16) by (bit_vector);
        }
    }
}

} // verus!
