use crate::assets::Rect;
use crate::layout::LineLayout;
use crate::layout::RectLayout;
use crate::layout::SpriteLayout;
use crate::layout::TextLayout;
use crate::layout::TextView;
use crate::maths::lemma_product_bound;
use crate::maths::Scalar;
use crate::maths::Vec2;
use crate::packing::ATLAS_WIDTH;
use vstd::prelude::*;

verus! {

/// The number one.
pub open spec fn one() -> Scalar {
    Scalar::spec_whole(1)
}

/// The number zero.
pub open spec fn zero() -> Scalar {
    Scalar::spec_whole(0)
}

/// Half of a dimension of the surface: `dim / 2`.
pub open spec fn half(dim: u32) -> Scalar {
    Scalar { num: dim as i128, den: 2 }
}

/// A pixel coordinate in normalized device space: `coord / (dim / 2) - 1`,
/// which runs from -1 at the origin to 1 at the far edge of the surface. As
/// one fraction that is `(2 * coord - dim) / dim`.
pub open spec fn to_device(coord: u32, dim: u32) -> Scalar {
    Scalar { num: (2 * coord - dim) as i128, den: dim as i128 }
}

/// The aspect ratio of a surface: its height over its width.
pub open spec fn aspect(dims: (u32, u32)) -> Scalar {
    Scalar { num: dims.1 as i128, den: dims.0 as i128 }
}

/// A pixel extent in normalized device space: `extent / (dim / 2)`, where
/// `dim` is the size of the surface along the extent. As one fraction that is
/// `2 * extent / dim`.
pub open spec fn to_device_extent(extent: u32, dim: u32) -> Scalar {
    Scalar { num: (2 * extent) as i128, den: dim as i128 }
}

/// The record of a white line from `src` to `dst` on a surface of size `dims`.
pub open spec fn line_record(src: Vec2, dst: Vec2, layer: u32, dims: (u32, u32)) -> LineLayout {
    LineLayout {
        layer: Scalar::spec_whole(layer as int),
        x1: to_device(src.x, dims.0),
        y1: to_device(src.y, dims.1),
        x2: to_device(dst.x, dims.0),
        y2: to_device(dst.y, dims.1),
        r: one(),
        g: one(),
        b: one(),
        a: one(),
    }
}

/// The record of a sprite drawn at `pos` on a surface of size `dims`, where
/// `place` is the sprite's place in the atlas. The sprite is drawn as high as
/// its share of the atlas' height, and as wide as its share of the atlas'
/// width times the aspect ratio of the surface.
pub open spec fn sprite_record(pos: Vec2, layer: u32, place: Rect, dims: (u32, u32)) -> SpriteLayout {
    SpriteLayout {
        layer: Scalar::spec_whole(layer as int),
        x: to_device(pos.x, dims.0),
        y: to_device(pos.y, dims.1),
        target_w: place.w.spec_times(aspect(dims)),
        target_h: place.h,
        atlas_u: place.x,
        atlas_v: place.y,
        atlas_w: place.w,
        atlas_h: place.h,
    }
}

/// The record of a rectangle at `position` on a surface of size `dims`. Its
/// color is opaque black until `with_color` gives it another: a rectangle
/// that was given no color does not show as white.
///
/// Its width `w` is `dimensions.x` measured against the surface's width and
/// lies along the row. Its height `h` is `dimensions.y` measured against the
/// surface's height and lies along the column.
pub open spec fn rect_record(position: Vec2, dimensions: Vec2, layer: u32, dims: (u32, u32)) -> RectLayout {
    RectLayout {
        layer: Scalar::spec_whole(layer as int),
        x: to_device(position.x, dims.0),
        y: to_device(position.y, dims.1),
        w: to_device_extent(dimensions.x, dims.0),
        h: to_device_extent(dimensions.y, dims.1),
        r: zero(),
        g: zero(),
        b: zero(),
        a: one(),
    }
}

/// The record of a run of text that begins at `pos` on a surface of size
/// `dims`, in the font with the handle `font`.
pub open spec fn text_record(pos: Vec2, layer: u32, font: u32, text: Seq<char>, dims: (u32, u32)) -> TextView {
    TextView {
        layer: Scalar::spec_whole(layer as int),
        x: to_device(pos.x, dims.0),
        y: to_device(pos.y, dims.1),
        font: font,
        text: text,
    }
}

/// A white line on `layer` between two points.
pub open spec fn white_line(layer: Scalar, x1: Scalar, y1: Scalar, x2: Scalar, y2: Scalar) -> LineLayout {
    LineLayout { layer: layer, x1: x1, y1: y1, x2: x2, y2: y2, r: one(), g: one(), b: one(), a: one() }
}

/// The four edges of a rectangle, one layer above it, in white: the edge at
/// `x`, the edge at `x + w`, the edge at `y + h` and the edge at `y`.
pub open spec fn border_lines(rect: RectLayout) -> Seq<LineLayout> {
    let layer = rect.layer.spec_plus(one());
    let x = rect.x;
    let y = rect.y;
    let far_x = rect.x.spec_plus(rect.w);
    let far_y = rect.y.spec_plus(rect.h);
    seq![
        white_line(layer, x, y, x, far_y),
        white_line(layer, far_x, y, far_x, far_y),
        white_line(layer, x, far_y, far_x, far_y),
        white_line(layer, x, y, far_x, y),
    ]
}

/// The layer of a line's record is small enough for its depth to be
/// computed. Every line that a queue holds is tame.
pub open spec fn tame_line(line: LineLayout) -> bool {
    line.layer.within(0x2_0000_0000, 1)
}

/// The numbers of a sprite's record are small enough for its corners to be
/// computed. Every sprite that a queue holds is tame.
pub open spec fn tame_sprite(sprite: SpriteLayout) -> bool {
    &&& sprite.layer.within(0x1_0000_0000, 1)
    &&& sprite.x.within(0x2_0000_0000, 0x1_0000_0000)
    &&& sprite.y.within(0x2_0000_0000, 0x1_0000_0000)
    &&& sprite.target_w.within(0x400_0000_0000, 0x400_0000_0000)
    &&& sprite.target_h.within(0x400, 0x400)
    &&& sprite.atlas_u.within(0x400, 0x400)
    &&& sprite.atlas_v.within(0x400, 0x400)
    &&& sprite.atlas_w.within(0x400, 0x400)
    &&& sprite.atlas_h.within(0x400, 0x400)
}

/// The numbers of a rectangle's record are small enough for its border and
/// its corners to be computed. Every rectangle that a queue holds is tame.
pub open spec fn tame(rect: RectLayout) -> bool {
    &&& rect.layer.within(0x1_0000_0000, 1)
    &&& rect.x.within(0x2_0000_0000, 0x1_0000_0000)
    &&& rect.y.within(0x2_0000_0000, 0x1_0000_0000)
    &&& rect.w.within(0x2_0000_0000, 0x1_0000_0000)
    &&& rect.h.within(0x2_0000_0000, 0x1_0000_0000)
}

/// The fractions of this module are the formulas that they are named after,
/// computed step by step: `half` is `dim / 2`, `to_device` is
/// `coord / (dim / 2) - 1`, `aspect` is `height / width` and
/// `to_device_extent` is `extent / (dim / 2)`.
pub proof fn lemma_formulas(coord: u32, dim: u32, dims: (u32, u32))
    ensures
        half(dim) == Scalar::spec_whole(dim as int).spec_over(Scalar::spec_whole(2)),
        to_device(coord, dim) == Scalar::spec_whole(coord as int).spec_over(half(dim)).spec_minus(
            one(),
        ),
        aspect(dims) == Scalar::spec_whole(dims.1 as int).spec_over(
            Scalar::spec_whole(dims.0 as int),
        ),
        to_device_extent(coord, dim) == Scalar::spec_whole(coord as int).spec_over(half(dim)),
{
    let c = Scalar::spec_whole(coord as int);
    let d = Scalar::spec_whole(dim as int);
    let two = Scalar::spec_whole(2);
    assert(d.num * two.den == dim && d.den * two.num == 2);
    let h = half(dim);
    assert(c.num * h.den == 2 * coord && c.den * h.num == dim);
    let q = c.spec_over(h);
    assert(q.num == 2 * coord && q.den == dim);
    assert(q.num * one().den - one().num * q.den == 2 * coord - dim && q.den * one().den == dim);
    let height = Scalar::spec_whole(dims.1 as int);
    let width = Scalar::spec_whole(dims.0 as int);
    assert(height.num * width.den == dims.1 && height.den * width.num == dims.0);
}

/// Whether a line is tame.
pub fn is_tame_line(line: &LineLayout) -> (r: bool)
    ensures
        r == tame_line(*line),
{
    line.layer.is_within(0x2_0000_0000, 1)
}

/// Whether a sprite is tame.
pub fn is_tame_sprite(sprite: &SpriteLayout) -> (r: bool)
    ensures
        r == tame_sprite(*sprite),
{
    sprite.layer.is_within(0x1_0000_0000, 1) && sprite.x.is_within(0x2_0000_0000, 0x1_0000_0000)
        && sprite.y.is_within(0x2_0000_0000, 0x1_0000_0000) && sprite.target_w.is_within(
        0x400_0000_0000,
        0x400_0000_0000,
    ) && sprite.target_h.is_within(0x400, 0x400) && sprite.atlas_u.is_within(0x400, 0x400)
        && sprite.atlas_v.is_within(0x400, 0x400) && sprite.atlas_w.is_within(0x400, 0x400)
        && sprite.atlas_h.is_within(0x400, 0x400)
}

/// Whether a rectangle is tame.
pub fn is_tame(rect: &RectLayout) -> (r: bool)
    ensures
        r == tame(*rect),
{
    rect.layer.is_within(0x1_0000_0000, 1) && rect.x.is_within(0x2_0000_0000, 0x1_0000_0000)
        && rect.y.is_within(0x2_0000_0000, 0x1_0000_0000) && rect.w.is_within(
        0x2_0000_0000,
        0x1_0000_0000,
    ) && rect.h.is_within(0x2_0000_0000, 0x1_0000_0000)
}

/// The number one.
pub fn unit() -> (s: Scalar)
    ensures
        s == one(),
{
    Scalar::whole(1)
}

/// A pixel coordinate in normalized device space.
pub fn device(coord: u32, dim: u32) -> (s: Scalar)
    ensures
        s == to_device(coord, dim),
{
    Scalar::new(2 * (coord as i128) - dim as i128, dim as i128)
}

/// The aspect ratio of a surface.
pub fn ratio(dims: (u32, u32)) -> (s: Scalar)
    ensures
        s == aspect(dims),
{
    Scalar::new(dims.1 as i128, dims.0 as i128)
}

/// The record of a white line.
pub fn new_line(src: Vec2, dst: Vec2, layer: u32, dims: (u32, u32)) -> (record: LineLayout)
    ensures
        record == line_record(src, dst, layer, dims),
        tame_line(record),
{
    LineLayout {
        layer: Scalar::whole(layer as i128),
        x1: device(src.x, dims.0),
        y1: device(src.y, dims.1),
        x2: device(dst.x, dims.0),
        y2: device(dst.y, dims.1),
        r: unit(),
        g: unit(),
        b: unit(),
        a: unit(),
    }
}

/// The record of a sprite, from its place in the atlas.
pub fn new_sprite(pos: Vec2, layer: u32, place: Rect, dims: (u32, u32)) -> (record: SpriteLayout)
    requires
        place.x.within(ATLAS_WIDTH as int, ATLAS_WIDTH as int),
        place.y.within(ATLAS_WIDTH as int, ATLAS_WIDTH as int),
        place.w.within(ATLAS_WIDTH as int, ATLAS_WIDTH as int),
        place.h.within(ATLAS_WIDTH as int, ATLAS_WIDTH as int),
    ensures
        record == sprite_record(pos, layer, place, dims),
        tame_sprite(record),
{
    proof {
        lemma_product_bound(place.w.num as int, dims.1 as int, 0x400, 0x1_0000_0000);
        lemma_product_bound(place.w.den as int, dims.0 as int, 0x400, 0x1_0000_0000);
    }
    SpriteLayout {
        layer: Scalar::whole(layer as i128),
        x: device(pos.x, dims.0),
        y: device(pos.y, dims.1),
        target_w: place.w.times(ratio(dims)),
        target_h: place.h,
        atlas_u: place.x,
        atlas_v: place.y,
        atlas_w: place.w,
        atlas_h: place.h,
    }
}

/// The record of a run of text.
pub fn new_text(pos: Vec2, layer: u32, font: u32, text: &str, dims: (u32, u32)) -> (record: TextLayout)
    ensures
        record@ == text_record(pos, layer, font, text@, dims),
{
    TextLayout {
        layer: Scalar::whole(layer as i128),
        x: device(pos.x, dims.0),
        y: device(pos.y, dims.1),
        font: font,
        text: text.to_owned(),
    }
}

/// The record of a rectangle.
pub fn new_rect(position: Vec2, dimensions: Vec2, layer: u32, dims: (u32, u32)) -> (record: RectLayout)
    ensures
        record == rect_record(position, dimensions, layer, dims),
        tame(record),
{
    RectLayout {
        layer: Scalar::whole(layer as i128),
        x: device(position.x, dims.0),
        y: device(position.y, dims.1),
        w: Scalar::new(2 * (dimensions.x as i128), dims.0 as i128),
        h: Scalar::new(2 * (dimensions.y as i128), dims.1 as i128),
        r: Scalar::whole(0),
        g: Scalar::whole(0),
        b: Scalar::whole(0),
        a: unit(),
    }
}

/// The four edges of a tame rectangle.
pub fn new_border(rect: &RectLayout) -> (lines: Vec<LineLayout>)
    requires
        tame(*rect),
    ensures
        lines@ == border_lines(*rect),
        forall|i: int| 0 <= i < 4 ==> tame_line(#[trigger] lines@[i]),
{
    proof {
        lemma_product_bound(rect.x.num as int, rect.w.den as int, 0x2_0000_0000, 0x1_0000_0000);
        lemma_product_bound(rect.w.num as int, rect.x.den as int, 0x2_0000_0000, 0x1_0000_0000);
        lemma_product_bound(rect.x.den as int, rect.w.den as int, 0x1_0000_0000, 0x1_0000_0000);
        lemma_product_bound(rect.y.num as int, rect.h.den as int, 0x2_0000_0000, 0x1_0000_0000);
        lemma_product_bound(rect.h.num as int, rect.y.den as int, 0x2_0000_0000, 0x1_0000_0000);
        lemma_product_bound(rect.y.den as int, rect.h.den as int, 0x1_0000_0000, 0x1_0000_0000);
    }
    let white = unit();
    assert(rect.layer.num * 1 == rect.layer.num && 1 * rect.layer.den == rect.layer.den);
    let layer = rect.layer.plus(unit());
    let x = rect.x;
    let y = rect.y;
    let far_x = rect.x.plus(rect.w);
    let far_y = rect.y.plus(rect.h);
    let mut lines: Vec<LineLayout> = Vec::new();
    lines.push(
        LineLayout { layer: layer, x1: x, y1: y, x2: x, y2: far_y, r: white, g: white, b: white, a: white },
    );
    lines.push(
        LineLayout {
            layer: layer,
            x1: far_x,
            y1: y,
            x2: far_x,
            y2: far_y,
            r: white,
            g: white,
            b: white,
            a: white,
        },
    );
    lines.push(
        LineLayout {
            layer: layer,
            x1: x,
            y1: far_y,
            x2: far_x,
            y2: far_y,
            r: white,
            g: white,
            b: white,
            a: white,
        },
    );
    lines.push(
        LineLayout { layer: layer, x1: x, y1: y, x2: far_x, y2: y, r: white, g: white, b: white, a: white },
    );
    assert(lines@ =~= border_lines(*rect));
    lines
}

} // verus!
