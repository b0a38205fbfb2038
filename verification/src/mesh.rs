use crate::layout::LineLayout;
use crate::layout::RectLayout;
use crate::layout::SpriteLayout;
use crate::maths::lemma_product_bound;
use crate::maths::Scalar;
use crate::records::tame;
use crate::records::tame_line;
use crate::records::tame_sprite;
use vstd::prelude::*;

verus! {

/// One end of a line, as the backend draws it: its place, its depth and its
/// color.
#[derive(Clone, Copy, Debug, PartialEq, Eq, Structural)]
pub struct LineVertex {
    pub x: Scalar,
    pub y: Scalar,
    pub depth: Scalar,
    pub r: Scalar,
    pub g: Scalar,
    pub b: Scalar,
    pub a: Scalar,
}

/// One corner of a sprite, as the backend draws it: its place, its depth and
/// the point of the atlas that is drawn there.
#[derive(Clone, Copy, Debug, PartialEq, Eq, Structural)]
pub struct TexVertex {
    pub x: Scalar,
    pub y: Scalar,
    pub depth: Scalar,
    pub u: Scalar,
    pub v: Scalar,
}

/// One corner of a rectangle, as the backend draws it: its place, its depth
/// and its color.
#[derive(Clone, Copy, Debug, PartialEq, Eq, Structural)]
pub struct ColorVertex {
    pub x: Scalar,
    pub y: Scalar,
    pub depth: Scalar,
    pub r: Scalar,
    pub g: Scalar,
    pub b: Scalar,
    pub a: Scalar,
}

/// The number of quads whose corners can still be numbered.
pub const MAX_QUADS: usize = 0x4000_0000;

/// The depth of a layer where the surface has `layers` layers:
/// `1 - layer / layers`. As one fraction that is the layer's denominator
/// times `layers`, less its numerator, over the denominator times `layers`.
pub open spec fn depth_of(layer: Scalar, layers: u32) -> Scalar {
    Scalar { num: (layer.den * layers - layer.num) as i128, den: (layer.den * layers) as i128 }
}

/// `depth_of` is `1 - layer / layers`, computed step by step.
pub proof fn lemma_depth_of(layer: Scalar, layers: u32)
    requires
        layer.within(0x2_0000_0000, 1),
    ensures
        depth_of(layer, layers) == Scalar::spec_whole(1).spec_minus(
            layer.spec_over(Scalar::spec_whole(layers as int)),
        ),
{
    let count = Scalar::spec_whole(layers as int);
    assert(layer.num * count.den == layer.num);
    lemma_product_bound(layer.den as int, layers as int, 1, 0x1_0000_0000);
    let share = layer.spec_over(count);
    assert(share.num == layer.num && share.den == layer.den * layers);
    let one = Scalar::spec_whole(1);
    assert(one.num == 1 && one.den == 1);
    assert(1 * share.den == share.den && share.num * 1 == share.num);
    assert(one.num * share.den == share.den);
    assert(share.num * one.den == share.num);
    assert(one.den * share.den == share.den);
}

/// The two ends of a line.
pub open spec fn line_ends(line: LineLayout, layers: u32) -> Seq<LineVertex> {
    let depth = depth_of(line.layer, layers);
    seq![
        LineVertex { x: line.x1, y: line.y1, depth: depth, r: line.r, g: line.g, b: line.b, a: line.a },
        LineVertex { x: line.x2, y: line.y2, depth: depth, r: line.r, g: line.g, b: line.b, a: line.a },
    ]
}

/// The ends of the lines of a batch: two for each line, in order.
pub open spec fn line_mesh(lines: Seq<LineLayout>, layers: u32) -> Seq<LineVertex>
    decreases lines.len(),
{
    if lines.len() == 0 {
        Seq::empty()
    } else {
        line_mesh(lines.drop_last(), layers) + line_ends(lines.last(), layers)
    }
}

/// The four corners of a sprite: the corner that it was drawn at, the one
/// along the row, the one along the column and the far one. The first two
/// show the lower edge of the sprite's place in the atlas, the other two its
/// upper edge.
pub open spec fn sprite_corners(sprite: SpriteLayout, layers: u32) -> Seq<TexVertex> {
    let depth = depth_of(sprite.layer, layers);
    let far_x = sprite.x.spec_plus(sprite.target_w);
    let far_y = sprite.y.spec_plus(sprite.target_h);
    let far_u = sprite.atlas_u.spec_plus(sprite.atlas_w);
    let low_v = sprite.atlas_v.spec_minus(sprite.atlas_h);
    seq![
        TexVertex { x: sprite.x, y: sprite.y, depth: depth, u: sprite.atlas_u, v: low_v },
        TexVertex { x: far_x, y: sprite.y, depth: depth, u: far_u, v: low_v },
        TexVertex { x: sprite.x, y: far_y, depth: depth, u: sprite.atlas_u, v: sprite.atlas_v },
        TexVertex { x: far_x, y: far_y, depth: depth, u: far_u, v: sprite.atlas_v },
    ]
}

/// The corners of the sprites of a batch: four for each sprite, in order.
pub open spec fn tex_mesh(sprites: Seq<SpriteLayout>, layers: u32) -> Seq<TexVertex>
    decreases sprites.len(),
{
    if sprites.len() == 0 {
        Seq::empty()
    } else {
        tex_mesh(sprites.drop_last(), layers) + sprite_corners(sprites.last(), layers)
    }
}

/// The four corners of a rectangle: the corner that it was drawn at, the one
/// along the row, the one along the column and the far one. Its width `w`
/// lies along the row and its height `h` along the column.
pub open spec fn rect_corners(rect: RectLayout, layers: u32) -> Seq<ColorVertex> {
    let depth = depth_of(rect.layer, layers);
    let far_x = rect.x.spec_plus(rect.w);
    let far_y = rect.y.spec_plus(rect.h);
    seq![
        ColorVertex { x: rect.x, y: rect.y, depth: depth, r: rect.r, g: rect.g, b: rect.b, a: rect.a },
        ColorVertex { x: far_x, y: rect.y, depth: depth, r: rect.r, g: rect.g, b: rect.b, a: rect.a },
        ColorVertex { x: rect.x, y: far_y, depth: depth, r: rect.r, g: rect.g, b: rect.b, a: rect.a },
        ColorVertex { x: far_x, y: far_y, depth: depth, r: rect.r, g: rect.g, b: rect.b, a: rect.a },
    ]
}

/// The corners of the rectangles of a batch: four for each, in order.
pub open spec fn color_mesh(rects: Seq<RectLayout>, layers: u32) -> Seq<ColorVertex>
    decreases rects.len(),
{
    if rects.len() == 0 {
        Seq::empty()
    } else {
        color_mesh(rects.drop_last(), layers) + rect_corners(rects.last(), layers)
    }
}

/// The two triangles of the quad whose first corner has the number `first`:
/// corners 0, 1 and 2, and corners 3, 1 and 2.
pub open spec fn quad_triangles(first: int) -> Seq<u32> {
    seq![
        first as u32,
        (first + 1) as u32,
        (first + 2) as u32,
        (first + 3) as u32,
        (first + 1) as u32,
        (first + 2) as u32,
    ]
}

/// The triangles of `count` quads whose corners are numbered in order.
pub open spec fn quad_indices(count: nat) -> Seq<u32>
    decreases count,
{
    if count == 0 {
        Seq::empty()
    } else {
        quad_indices((count - 1) as nat) + quad_triangles(4 * (count - 1))
    }
}

/// A batch of `count` quads has four corners and six numbers of corners for
/// each quad, and every number is that of a corner of the batch.
pub proof fn lemma_quad_indices(count: nat)
    requires
        count <= MAX_QUADS,
    ensures
        quad_indices(count).len() == 6 * count,
        forall|i: int| 0 <= i < quad_indices(count).len() ==> #[trigger] quad_indices(count)[i] < 4
            * count,
    decreases count,
{
    if count > 0 {
        lemma_quad_indices((count - 1) as nat);
        let front = quad_indices((count - 1) as nat);
        assert forall|i: int| 0 <= i < quad_indices(count).len() implies #[trigger] quad_indices(
            count,
        )[i] < 4 * count by {
            if i < front.len() {
                assert(quad_indices(count)[i] == front[i]);
            } else {
                assert(quad_indices(count)[i] == quad_triangles(4 * (count - 1))[i - front.len()]);
            }
        }
    }
}

/// The meshes have two ends for each line and four corners for each sprite
/// and each rectangle.
pub proof fn lemma_mesh_sizes(lines: Seq<LineLayout>, sprites: Seq<SpriteLayout>, rects: Seq<RectLayout>, layers: u32)
    ensures
        line_mesh(lines, layers).len() == 2 * lines.len(),
        tex_mesh(sprites, layers).len() == 4 * sprites.len(),
        color_mesh(rects, layers).len() == 4 * rects.len(),
    decreases lines.len() + sprites.len() + rects.len(),
{
    if lines.len() > 0 {
        lemma_mesh_sizes(lines.drop_last(), Seq::empty(), Seq::empty(), layers);
    }
    if sprites.len() > 0 {
        lemma_mesh_sizes(Seq::empty(), sprites.drop_last(), Seq::empty(), layers);
    }
    if rects.len() > 0 {
        lemma_mesh_sizes(Seq::empty(), Seq::empty(), rects.drop_last(), layers);
    }
}

/// The depth of a layer.
fn depth(layer: Scalar, layers: u32) -> (d: Scalar)
    requires
        layer.within(0x2_0000_0000, 1),
    ensures
        d == depth_of(layer, layers),
{
    proof {
        lemma_product_bound(layer.den as int, layers as int, 1, 0x1_0000_0000);
    }
    let den = layer.den * layers as i128;
    Scalar::new(den - layer.num, den)
}

/// The sum of a small fraction and one that may be larger.
fn far(near: Scalar, extent: Scalar) -> (s: Scalar)
    requires
        near.within(0x2_0000_0000, 0x1_0000_0000),
        extent.within(0x2_0000_0000_0000_0000, 0x1_0000_0000_0000_0000),
    ensures
        s == near.spec_plus(extent),
{
    proof {
        lemma_product_bound(
            near.num as int,
            extent.den as int,
            0x2_0000_0000,
            0x1_0000_0000_0000_0000,
        );
        lemma_product_bound(
            extent.num as int,
            near.den as int,
            0x2_0000_0000_0000_0000,
            0x1_0000_0000,
        );
        lemma_product_bound(
            near.den as int,
            extent.den as int,
            0x1_0000_0000,
            0x1_0000_0000_0000_0000,
        );
    }
    near.plus(extent)
}

/// The difference of two small fractions.
fn less(from: Scalar, extent: Scalar) -> (s: Scalar)
    requires
        from.within(0x2_0000_0000, 0x1_0000_0000),
        extent.within(0x2_0000_0000, 0x1_0000_0000),
    ensures
        s == from.spec_minus(extent),
{
    proof {
        lemma_product_bound(from.num as int, extent.den as int, 0x2_0000_0000, 0x1_0000_0000);
        lemma_product_bound(extent.num as int, from.den as int, 0x2_0000_0000, 0x1_0000_0000);
        lemma_product_bound(from.den as int, extent.den as int, 0x1_0000_0000, 0x1_0000_0000);
    }
    from.minus(extent)
}

/// The ends of the lines of a batch, for a surface with `layers` layers: what
/// the backend draws the lines from.
pub fn create_vb(lines: &[LineLayout], layers: u32) -> (mesh: Vec<LineVertex>)
    requires
        forall|i: int| 0 <= i < lines@.len() ==> tame_line(#[trigger] lines@[i]),
    ensures
        mesh@ == line_mesh(lines@, layers),
{
    let mut mesh: Vec<LineVertex> = Vec::new();
    let mut i: usize = 0;
    while i < lines.len()
        invariant
            i <= lines@.len(),
            forall|k: int| 0 <= k < lines@.len() ==> tame_line(#[trigger] lines@[k]),
            mesh@ == line_mesh(lines@.take(i as int), layers),
        decreases lines@.len() - i,
    {
        let l = lines[i];
        assert(tame_line(lines@[i as int]));
        let depth = depth(l.layer, layers);
        let ghost before = mesh@;
        mesh.push(LineVertex { x: l.x1, y: l.y1, depth: depth, r: l.r, g: l.g, b: l.b, a: l.a });
        mesh.push(LineVertex { x: l.x2, y: l.y2, depth: depth, r: l.r, g: l.g, b: l.b, a: l.a });
        proof {
            assert(lines@.take(i as int + 1).drop_last() =~= lines@.take(i as int));
            assert(mesh@ =~= before + line_ends(l, layers));
        }
        i = i + 1;
    }
    assert(lines@.take(i as int) =~= lines@);
    mesh
}

/// The corners of the sprites of a batch and the triangles between them, for
/// a surface with `layers` layers: what the backend draws the sprites from.
pub fn tex_quads(quads: &[SpriteLayout], layers: u32) -> (mesh: (Vec<TexVertex>, Vec<u32>))
    requires
        forall|i: int| 0 <= i < quads@.len() ==> tame_sprite(#[trigger] quads@[i]),
        quads@.len() <= MAX_QUADS,
    ensures
        mesh.0@ == tex_mesh(quads@, layers),
        mesh.1@ == quad_indices(quads@.len()),
{
    let mut corners: Vec<TexVertex> = Vec::new();
    let mut triangles: Vec<u32> = Vec::new();
    let mut i: usize = 0;
    while i < quads.len()
        invariant
            i <= quads@.len(),
            quads@.len() <= MAX_QUADS,
            forall|k: int| 0 <= k < quads@.len() ==> tame_sprite(#[trigger] quads@[k]),
            corners@ == tex_mesh(quads@.take(i as int), layers),
            triangles@ == quad_indices(i as nat),
        decreases quads@.len() - i,
    {
        let l = quads[i];
        assert(tame_sprite(quads@[i as int]));
        let depth = depth(l.layer, layers);
        let far_x = far(l.x, l.target_w);
        let far_y = far(l.y, l.target_h);
        let far_u = far(l.atlas_u, l.atlas_w);
        let low_v = less(l.atlas_v, l.atlas_h);
        let ghost before = corners@;
        let ghost numbered = triangles@;
        corners.push(TexVertex { x: l.x, y: l.y, depth: depth, u: l.atlas_u, v: low_v });
        corners.push(TexVertex { x: far_x, y: l.y, depth: depth, u: far_u, v: low_v });
        corners.push(TexVertex { x: l.x, y: far_y, depth: depth, u: l.atlas_u, v: l.atlas_v });
        corners.push(TexVertex { x: far_x, y: far_y, depth: depth, u: far_u, v: l.atlas_v });
        let first: u32 = (4 * i) as u32;
        triangles.push(first);
        triangles.push(first + 1);
        triangles.push(first + 2);
        triangles.push(first + 3);
        triangles.push(first + 1);
        triangles.push(first + 2);
        proof {
            assert(quads@.take(i as int + 1).drop_last() =~= quads@.take(i as int));
            assert(corners@ =~= before + sprite_corners(l, layers));
            assert(triangles@ =~= numbered + quad_triangles(4 * i));
        }
        i = i + 1;
    }
    assert(quads@.take(i as int) =~= quads@);
    (corners, triangles)
}

/// The corners of the rectangles of a batch and the triangles between them,
/// for a surface with `layers` layers: what the backend draws the rectangles
/// from.
pub fn color_quads(quads: &[RectLayout], layers: u32) -> (mesh: (Vec<ColorVertex>, Vec<u32>))
    requires
        forall|i: int| 0 <= i < quads@.len() ==> tame(#[trigger] quads@[i]),
        quads@.len() <= MAX_QUADS,
    ensures
        mesh.0@ == color_mesh(quads@, layers),
        mesh.1@ == quad_indices(quads@.len()),
{
    let mut corners: Vec<ColorVertex> = Vec::new();
    let mut triangles: Vec<u32> = Vec::new();
    let mut i: usize = 0;
    while i < quads.len()
        invariant
            i <= quads@.len(),
            quads@.len() <= MAX_QUADS,
            forall|k: int| 0 <= k < quads@.len() ==> tame(#[trigger] quads@[k]),
            corners@ == color_mesh(quads@.take(i as int), layers),
            triangles@ == quad_indices(i as nat),
        decreases quads@.len() - i,
    {
        let l = quads[i];
        assert(tame(quads@[i as int]));
        let depth = depth(l.layer, layers);
        let far_x = far(l.x, l.w);
        let far_y = far(l.y, l.h);
        let ghost before = corners@;
        let ghost numbered = triangles@;
        corners.push(
            ColorVertex { x: l.x, y: l.y, depth: depth, r: l.r, g: l.g, b: l.b, a: l.a },
        );
        corners.push(
            ColorVertex { x: far_x, y: l.y, depth: depth, r: l.r, g: l.g, b: l.b, a: l.a },
        );
        corners.push(
            ColorVertex { x: l.x, y: far_y, depth: depth, r: l.r, g: l.g, b: l.b, a: l.a },
        );
        corners.push(
            ColorVertex { x: far_x, y: far_y, depth: depth, r: l.r, g: l.g, b: l.b, a: l.a },
        );
        let first: u32 = (4 * i) as u32;
        triangles.push(first);
        triangles.push(first + 1);
        triangles.push(first + 2);
        triangles.push(first + 3);
        triangles.push(first + 1);
        triangles.push(first + 2);
        proof {
            assert(quads@.take(i as int + 1).drop_last() =~= quads@.take(i as int));
            assert(corners@ =~= before + rect_corners(l, layers));
            assert(triangles@ =~= numbered + quad_triangles(4 * i));
        }
        i = i + 1;
    }
    assert(quads@.take(i as int) =~= quads@);
    (corners, triangles)
}

} // verus!
