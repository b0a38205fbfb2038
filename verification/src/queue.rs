use crate::assets::AssetsMgr;
use crate::assets::FontId;
use crate::assets::SpriteId;
use crate::buckets::appended;
use crate::buckets::drain;
use crate::buckets::in_order;
use crate::buckets::record_at;
use crate::buckets::every;
use crate::buckets::every_passes;
use crate::buckets::holds_records;
use crate::buckets::lemma_every_appended;
use crate::buckets::lemma_every_replaced;
use crate::buckets::has_bucket;
use crate::buckets::lemma_appended;
use crate::buckets::lemma_mapped;
use crate::buckets::mapped;
use crate::buckets::lemma_no_buckets;
use crate::buckets::lemma_replaced;
use crate::buckets::paint_records;
use crate::buckets::push_records;
use crate::buckets::recolored;
use crate::buckets::records_of;
use crate::buckets::replaced;
use crate::buckets::view_of;
use crate::layout::LineLayout;
use crate::layout::RectLayout;
use crate::layout::SpriteLayout;
use crate::layout::TextLayout;
use crate::layout::TextView;
use crate::maths::Pos;
use crate::maths::Scalar;
use crate::maths::Vec2;
use crate::records::border_lines;
use crate::records::is_tame;
use crate::records::is_tame_line;
use crate::records::is_tame_sprite;
use crate::records::line_record;
use crate::records::new_border;
use crate::records::new_line;
use crate::records::new_rect;
use crate::records::new_sprite;
use crate::records::new_text;
use crate::records::text_record;
use crate::records::rect_record;
use crate::records::sprite_record;
use crate::records::tame;
use crate::records::tame_line;
use crate::records::tame_sprite;
use std::collections::BTreeMap;
use std::marker::PhantomData;
use vstd::pervasive::unreached;
use vstd::prelude::*;

verus! {

/// Whether every record of the plan is tame.
pub open spec fn tame_plan(plan: Seq<DrawCall>) -> bool {
    forall|i: int|
        0 <= i < plan.len() ==> match #[trigger] plan[i] {
            DrawCall::Lines { lines, width } => forall|j: int|
                0 <= j < lines@.len() ==> tame_line(#[trigger] lines@[j]),
            DrawCall::Sprites { sprites, tex } => forall|j: int|
                0 <= j < sprites@.len() ==> tame_sprite(#[trigger] sprites@[j]),
            DrawCall::Rects { rects } => forall|j: int|
                0 <= j < rects@.len() ==> tame(#[trigger] rects@[j]),
            DrawCall::Texts { texts } => true,
        }
}

/// One call for the surface to draw a whole bucket.
#[derive(Debug)]
pub enum DrawCall {
    /// Draw these lines with a stroke of this width.
    Lines { lines: Vec<LineLayout>, width: u32 },
    /// Draw these sprites from the atlas with this handle.
    Sprites { sprites: Vec<SpriteLayout>, tex: u32 },
    /// Draw these rectangles.
    Rects { rects: Vec<RectLayout> },
    /// Draw these runs of text.
    Texts { texts: Vec<TextLayout> },
}

/// Runs of text as plain values.
pub open spec fn text_views(texts: Seq<TextLayout>) -> Seq<TextView> {
    texts.map_values(|t: TextLayout| t@)
}

/// Whether `plan` draws a frame whose buckets are listed by their keys:
/// first the buckets of lines, one call for each with its width, then the
/// buckets of sprites, each from the atlas `tex`, then the buckets of
/// rectangles, then the buckets of text; the buckets of a kind in the order in
/// which their keys are listed, which is from the smallest to the largest.
pub open spec fn draws_in(
    plan: Seq<DrawCall>,
    widths: Seq<u32>,
    sprite_layers: Seq<u32>,
    rect_layers: Seq<u32>,
    text_layers: Seq<u32>,
    lines: Map<u32, Seq<LineLayout>>,
    sprites: Map<u32, Seq<SpriteLayout>>,
    rects: Map<u32, Seq<RectLayout>>,
    texts: Map<u32, Seq<TextView>>,
    tex: u32,
) -> bool {
    &&& in_order(widths, lines)
    &&& in_order(sprite_layers, sprites)
    &&& in_order(rect_layers, rects)
    &&& in_order(text_layers, texts)
    &&& plan.len() == widths.len() + sprite_layers.len() + rect_layers.len() + text_layers.len()
    &&& forall|i: int|
        0 <= i < widths.len() ==> (#[trigger] plan[i] matches DrawCall::Lines { lines: l, width: w }
            && w == widths[i] && l@ == lines[widths[i]])
    &&& forall|i: int|
        0 <= i < sprite_layers.len() ==> (#[trigger] plan[widths.len() + i] matches DrawCall::Sprites {
            sprites: s,
            tex: t,
        } && t == tex && s@ == sprites[sprite_layers[i]])
    &&& forall|i: int|
        0 <= i < rect_layers.len() ==> (#[trigger] plan[widths.len() + sprite_layers.len()
            + i] matches DrawCall::Rects { rects: r } && r@ == rects[rect_layers[i]])
    &&& forall|i: int|
        0 <= i < text_layers.len() ==> (#[trigger] plan[widths.len() + sprite_layers.len()
            + rect_layers.len() + i] matches DrawCall::Texts { texts: t } && text_views(t@)
            == texts[text_layers[i]])
}

/// Whether `plan` draws a frame: one call for each bucket, first the lines,
/// then the sprites from the atlas `tex`, then the rectangles, then the text,
/// the buckets of a kind from the smallest key to the largest.
pub open spec fn draws(
    plan: Seq<DrawCall>,
    lines: Map<u32, Seq<LineLayout>>,
    sprites: Map<u32, Seq<SpriteLayout>>,
    rects: Map<u32, Seq<RectLayout>>,
    texts: Map<u32, Seq<TextView>>,
    tex: u32,
) -> bool {
    exists|
        widths: Seq<u32>,
        sprite_layers: Seq<u32>,
        rect_layers: Seq<u32>,
        text_layers: Seq<u32>,
    |
        #[trigger] draws_in(
            plan,
            widths,
            sprite_layers,
            rect_layers,
            text_layers,
            lines,
            sprites,
            rects,
            texts,
            tex,
        )
}

/// What is drawn in one frame. A queue is made for a frame, filled with
/// lines, sprites, rectangles and text, and used up by `done`, which says
/// what the surface has to draw.
///
/// The lines are kept in one bucket for each stroke width, the sprites, the
/// rectangles and the runs of text in one bucket for each layer. A bucket
/// only grows, and the buckets of a kind are kept by their keys.
pub struct CmdQueue<'a> {
    dimensions: (u32, u32),
    assets: &'a AssetsMgr,
    lines: BTreeMap<u32, Vec<LineLayout>>,
    sprites: BTreeMap<u32, Vec<SpriteLayout>>,
    rects: BTreeMap<u32, Vec<RectLayout>>,
    texts: BTreeMap<u32, Vec<TextLayout>>,
}

/// The records that were drawn last, for what is to be done to them next.
/// It holds the queue until it is dropped.
pub struct LayoutTune<'q, 'a, T> {
    /// The queue that the records are in.
    pub queue: &'q mut CmdQueue<'a>,
    /// The key of the bucket that the records are in.
    pub key: u32,
    /// The place of the first of the records in the bucket.
    pub start: usize,
    /// The number of the records.
    pub count: usize,
    /// The kind of the records.
    pub kind: PhantomData<T>,
}

/// Records that can be given a color after they were drawn.
pub trait Colorize: Sized {
    /// Whether the records are where the handle says.
    spec fn fit(&self) -> bool;

    /// Gives every record of the handle this color.
    fn with_color(self, r: Scalar, g: Scalar, b: Scalar, a: Scalar) -> (tuned: Self)
        requires
            self.fit(),
        ensures
            tuned.fit(),
    ;
}

/// Records that can be given a border after they were drawn.
pub trait Contour: Sized {
    /// The handle of the border's lines.
    type Border;

    /// Whether the handle is that of one record, which is where the handle
    /// says.
    spec fn is_one(&self) -> bool;

    /// Draws a border round the record with a stroke of this width.
    fn with_border(self, width: u32) -> (border: Self::Border)
        requires
            self.is_one(),
    ;
}

impl<'a> CmdQueue<'a> {
    /// The width and the height of the surface, in pixels.
    pub closed spec fn dimensions(&self) -> (u32, u32) {
        self.dimensions
    }

    /// The assets that the queue draws sprites from.
    pub closed spec fn assets(&self) -> AssetsMgr {
        *self.assets
    }

    /// The buckets of lines: the stroke width and the lines of each, in the
    /// order of the widths.
    pub closed spec fn lines(&self) -> Map<u32, Seq<LineLayout>> {
        view_of(self.lines@)
    }

    /// The buckets of sprites: the layer and the sprites of each, in the
    /// order of the layers.
    pub closed spec fn sprites(&self) -> Map<u32, Seq<SpriteLayout>> {
        view_of(self.sprites@)
    }

    /// The buckets of rectangles: the layer and the rectangles of each, in
    /// the order of the layers.
    pub closed spec fn rects(&self) -> Map<u32, Seq<RectLayout>> {
        view_of(self.rects@)
    }

    /// The buckets of text: the layer and the runs of text of each, in the
    /// order of the layers.
    pub closed spec fn texts(&self) -> Map<u32, Seq<TextView>> {
        mapped(view_of(self.texts@), |t: TextLayout| t@)
    }

    /// What holds of every queue: its lines, sprites and rectangles are
    /// tame, and its assets are well formed.
    pub open spec fn wf(&self) -> bool {
        &&& every(self.lines(), |l: LineLayout| tame_line(l))
        &&& every(self.sprites(), |s: SpriteLayout| tame_sprite(s))
        &&& every(self.rects(), |r: RectLayout| tame(r))
        &&& self.assets().wf()
    }

    /// Whether the two queues are for the same surface and the same assets.
    pub open spec fn same_frame(&self, other: &CmdQueue<'a>) -> bool {
        self.dimensions() == other.dimensions() && self.assets() == other.assets()
    }

    /// An empty queue for a surface of this size.
    pub fn new(dimensions: (u32, u32), assets_mgr: &'a AssetsMgr) -> (queue: CmdQueue<'a>)
        ensures
            queue.wf(),
            queue.dimensions() == dimensions,
            queue.assets() == *assets_mgr,
            queue.lines() == Map::<u32, Seq<LineLayout>>::empty(),
            queue.sprites() == Map::<u32, Seq<SpriteLayout>>::empty(),
            queue.rects() == Map::<u32, Seq<RectLayout>>::empty(),
            queue.texts() == Map::<u32, Seq<TextView>>::empty(),
            forall|key: u32| #[trigger] records_of(queue.lines(), key) == Seq::<LineLayout>::empty(),
            forall|key: u32|
                #[trigger] records_of(queue.sprites(), key) == Seq::<SpriteLayout>::empty(),
            forall|key: u32| #[trigger] records_of(queue.rects(), key) == Seq::<RectLayout>::empty(),
    {
        let queue = CmdQueue {
            dimensions: dimensions,
            assets: assets_mgr,
            lines: BTreeMap::new(),
            sprites: BTreeMap::new(),
            rects: BTreeMap::new(),
            texts: BTreeMap::new(),
        };
        proof {
            use_type_invariant(assets_mgr);
            assert(queue.lines() =~= Map::<u32, Seq<LineLayout>>::empty());
            assert(queue.sprites() =~= Map::<u32, Seq<SpriteLayout>>::empty());
            assert(queue.rects() =~= Map::<u32, Seq<RectLayout>>::empty());
            assert(queue.texts() =~= Map::<u32, Seq<TextView>>::empty());
            assert forall|key: u32| #[trigger]
                records_of(queue.lines(), key) == Seq::<LineLayout>::empty() by {
                lemma_no_buckets::<LineLayout>(key);
            }
            assert forall|key: u32| #[trigger]
                records_of(queue.sprites(), key) == Seq::<SpriteLayout>::empty() by {
                lemma_no_buckets::<SpriteLayout>(key);
            }
            assert forall|key: u32| #[trigger]
                records_of(queue.rects(), key) == Seq::<RectLayout>::empty() by {
                lemma_no_buckets::<RectLayout>(key);
            }
        }
        queue
    }

    /// Whether the queue is well formed: what every queue is that was made
    /// by `new` and filled through the functions of this module.
    pub fn is_wf(&self) -> (r: bool)
        ensures
            r == self.wf(),
    {
        proof {
            use_type_invariant(self.assets);
        }
        every_passes(&self.lines, is_tame_line, Ghost(|l: LineLayout| tame_line(l)))
            && every_passes(&self.sprites, is_tame_sprite, Ghost(|s: SpriteLayout| tame_sprite(s)))
            && every_passes(&self.rects, is_tame, Ghost(|r: RectLayout| tame(r)))
    }

    /// Whether the bucket of lines of this stroke width has `count` lines
    /// from `start` on.
    pub fn holds_lines(&self, width: u32, start: usize, count: usize) -> (r: bool)
        ensures
            r == (has_bucket(self.lines(), width) && start + count <= records_of(
                self.lines(),
                width,
            ).len()),
    {
        holds_records(&self.lines, width, start, count)
    }

    /// Whether the bucket of rectangles of this layer has `count` rectangles
    /// from `start` on.
    pub fn holds_rects(&self, layer: u32, start: usize, count: usize) -> (r: bool)
        ensures
            r == (has_bucket(self.rects(), layer) && start + count <= records_of(
                self.rects(),
                layer,
            ).len()),
    {
        holds_records(&self.rects, layer, start, count)
    }

    /// Draws a white line from `src` to `dst`, both in pixels, with a stroke
    /// of this width.
    pub fn line<'q>(&'q mut self, src: Vec2, dst: Vec2, width: u32, layer: u32) -> (tune: LayoutTune<
        'q,
        'a,
        LineLayout,
    >)
        requires
            old(self).wf(),
        ensures
            tune.fit(),
            tune.key == width,
            tune.start == records_of(old(self).lines(), width).len(),
            tune.count == 1,
            tune.queue.lines() == appended(
                old(self).lines(),
                width,
                seq![line_record(src, dst, layer, old(self).dimensions())],
            ),
            records_of(tune.queue.lines(), width) == records_of(old(self).lines(), width).push(
                line_record(src, dst, layer, old(self).dimensions()),
            ),
            forall|other: u32|
                other != width ==> #[trigger] records_of(tune.queue.lines(), other) == records_of(
                    old(self).lines(),
                    other,
                ),
            tune.queue.sprites() == old(self).sprites(),
            tune.queue.rects() == old(self).rects(),
            tune.queue.texts() == old(self).texts(),
            tune.queue.same_frame(old(self)),
            *final(self) == *final(tune.queue),
    {
        proof {
            lemma_appended(
                self.lines(),
                width,
                seq![line_record(src, dst, layer, self.dimensions())],
            );
            assert(records_of(self.lines(), width) + seq![
                line_record(src, dst, layer, self.dimensions()),
            ] =~= records_of(self.lines(), width).push(
                line_record(src, dst, layer, self.dimensions()),
            ));
        }
        let record = new_line(src, dst, layer, self.dimensions);
        let mut records: Vec<LineLayout> = Vec::new();
        records.push(record);
        assert(records@ =~= seq![record]);
        proof {
            lemma_every_appended(self.lines(), width, seq![record], |l: LineLayout| tame_line(l));
        }
        let start = push_records(&mut self.lines, width, records);
        LayoutTune { queue: self, key: width, start: start, count: 1, kind: PhantomData }
    }

    /// Draws a sprite with its corner at `pos`, in pixels. The sprite must be
    /// one of the assets.
    pub fn sprite<'q>(&'q mut self, pos: Vec2, layer: u32, sprite: SpriteId) -> (tune: LayoutTune<
        'q,
        'a,
        SpriteLayout,
    >)
        requires
            old(self).wf(),
            sprite < old(self).assets().locations().len(),
        ensures
            tune.queue.wf(),
            tune.key == layer,
            tune.start == records_of(old(self).sprites(), layer).len(),
            tune.count == 1,
            tune.queue.sprites() == appended(
                old(self).sprites(),
                layer,
                seq![
                    sprite_record(
                        pos,
                        layer,
                        old(self).assets().locations()[sprite as int],
                        old(self).dimensions(),
                    ),
                ],
            ),
            tune.queue.lines() == old(self).lines(),
            tune.queue.rects() == old(self).rects(),
            tune.queue.texts() == old(self).texts(),
            tune.queue.same_frame(old(self)),
            *final(self) == *final(tune.queue),
    {
        let place = self.assets.get_sprite_place(sprite);
        let record = new_sprite(pos, layer, place, self.dimensions);
        let mut records: Vec<SpriteLayout> = Vec::new();
        records.push(record);
        assert(records@ =~= seq![record]);
        proof {
            lemma_every_appended(
                self.sprites(),
                layer,
                seq![record],
                |s: SpriteLayout| tame_sprite(s),
            );
        }
        let start = push_records(&mut self.sprites, layer, records);
        LayoutTune { queue: self, key: layer, start: start, count: 1, kind: PhantomData }
    }

    /// Draws a rectangle with its corner at `position` and of the size
    /// `dimensions`, both in pixels. It is opaque black until it is given
    /// another color.
    pub fn rect<'q>(&'q mut self, position: Vec2, dimensions: Vec2, layer: u32) -> (tune: LayoutTune<
        'q,
        'a,
        RectLayout,
    >)
        requires
            old(self).wf(),
        ensures
            tune.fit(),
            tune.is_one(),
            tune.key == layer,
            tune.start == records_of(old(self).rects(), layer).len(),
            tune.count == 1,
            tune.queue.rects() == appended(
                old(self).rects(),
                layer,
                seq![rect_record(position, dimensions, layer, old(self).dimensions())],
            ),
            records_of(tune.queue.rects(), layer) == records_of(old(self).rects(), layer).push(
                rect_record(position, dimensions, layer, old(self).dimensions()),
            ),
            forall|other: u32|
                other != layer ==> #[trigger] records_of(tune.queue.rects(), other) == records_of(
                    old(self).rects(),
                    other,
                ),
            tune.queue.lines() == old(self).lines(),
            tune.queue.sprites() == old(self).sprites(),
            tune.queue.texts() == old(self).texts(),
            tune.queue.same_frame(old(self)),
            *final(self) == *final(tune.queue),
    {
        proof {
            lemma_appended(
                self.rects(),
                layer,
                seq![rect_record(position, dimensions, layer, self.dimensions())],
            );
            assert(records_of(self.rects(), layer) + seq![
                rect_record(position, dimensions, layer, self.dimensions()),
            ] =~= records_of(self.rects(), layer).push(
                rect_record(position, dimensions, layer, self.dimensions()),
            ));
        }
        let record = new_rect(position, dimensions, layer, self.dimensions);
        let mut records: Vec<RectLayout> = Vec::new();
        records.push(record);
        assert(records@ =~= seq![record]);
        let ghost before = self.rects();
        let start = push_records(&mut self.rects, layer, records);
        proof {
            lemma_every_appended(before, layer, seq![record], |r: RectLayout| tame(r));
        }
        LayoutTune { queue: self, key: layer, start: start, count: 1, kind: PhantomData }
    }

    /// Draws a run of text that begins at `pos`, in pixels. The font must be
    /// one of the assets.
    pub fn text(&mut self, pos: Vec2, layer: u32, font: FontId, string: &str)
        requires
            old(self).wf(),
            font < old(self).assets().fonts().len(),
        ensures
            final(self).wf(),
            final(self).texts() == appended(
                old(self).texts(),
                layer,
                seq![
                    text_record(
                        pos,
                        layer,
                        old(self).assets().fonts()[font as int],
                        string@,
                        old(self).dimensions(),
                    ),
                ],
            ),
            final(self).lines() == old(self).lines(),
            final(self).sprites() == old(self).sprites(),
            final(self).rects() == old(self).rects(),
            final(self).same_frame(old(self)),
    {
        let handle = self.assets.get_font(&font);
        let record = new_text(pos, layer, handle, string, self.dimensions);
        let mut records: Vec<TextLayout> = Vec::new();
        let ghost view = record@;
        records.push(record);
        proof {
            assert(records@.map_values(|t: TextLayout| t@) =~= seq![view]);
            lemma_mapped(view_of(self.texts@), |t: TextLayout| t@, layer, records@);
        }
        push_records(&mut self.texts, layer, records);
    }

    /// Draws a white line from `src` to `dst` with a stroke one pixel wide.
    pub fn draw_line(&mut self, src: Pos, dst: Pos, layer: u32)
        requires
            old(self).wf(),
        ensures
            final(self).wf(),
            final(self).lines() == appended(
                old(self).lines(),
                1,
                seq![
                    line_record(
                        Vec2 { x: src.x, y: src.y },
                        Vec2 { x: dst.x, y: dst.y },
                        layer,
                        old(self).dimensions(),
                    ),
                ],
            ),
            final(self).sprites() == old(self).sprites(),
            final(self).rects() == old(self).rects(),
            final(self).texts() == old(self).texts(),
            final(self).same_frame(old(self)),
    {
        let src = Vec2 { x: src.x, y: src.y };
        let dst = Vec2 { x: dst.x, y: dst.y };
        let record = new_line(src, dst, layer, self.dimensions);
        let mut records: Vec<LineLayout> = Vec::new();
        records.push(record);
        assert(records@ =~= seq![record]);
        proof {
            lemma_every_appended(self.lines(), 1, seq![record], |l: LineLayout| tame_line(l));
        }
        push_records(&mut self.lines, 1, records);
    }

    /// Draws a sprite with its corner at `pos`. The sprite must be one of the
    /// assets.
    pub fn draw_sprite(&mut self, pos: Pos, layer: u32, sprite: SpriteId)
        requires
            old(self).wf(),
            sprite < old(self).assets().locations().len(),
        ensures
            final(self).wf(),
            final(self).sprites() == appended(
                old(self).sprites(),
                layer,
                seq![
                    sprite_record(
                        Vec2 { x: pos.x, y: pos.y },
                        layer,
                        old(self).assets().locations()[sprite as int],
                        old(self).dimensions(),
                    ),
                ],
            ),
            final(self).lines() == old(self).lines(),
            final(self).rects() == old(self).rects(),
            final(self).texts() == old(self).texts(),
            final(self).same_frame(old(self)),
    {
        let place = self.assets.get_sprite_place(sprite);
        let record = new_sprite(Vec2 { x: pos.x, y: pos.y }, layer, place, self.dimensions);
        let mut records: Vec<SpriteLayout> = Vec::new();
        records.push(record);
        assert(records@ =~= seq![record]);
        proof {
            lemma_every_appended(
                self.sprites(),
                layer,
                seq![record],
                |s: SpriteLayout| tame_sprite(s),
            );
        }
        push_records(&mut self.sprites, layer, records);
    }

    /// Uses the queue up and says what the surface has to draw for the
    /// frame: one call for each bucket, the lines first, then the sprites
    /// from the atlas of the assets, then the rectangles, then the text, the
    /// buckets of a kind in the order of their keys.
    pub fn done(self) -> (plan: Vec<DrawCall>)
        requires
            self.wf(),
        ensures
            draws(
                plan@,
                self.lines(),
                self.sprites(),
                self.rects(),
                self.texts(),
                self.assets().atlas(),
            ),
            tame_plan(plan@),
    {
        let tex = self.assets.get_atlas();
        let mut plan: Vec<DrawCall> = Vec::new();
        let ghost lines = self.lines();
        let ghost sprites = self.sprites();
        let ghost rects = self.rects();
        let ghost texts = self.texts();
        let CmdQueue {
            dimensions: _,
            assets: _,
            lines: line_buckets,
            sprites: sprite_buckets,
            rects: rect_buckets,
            texts: text_buckets,
        } = self;
        let line_list = drain(line_buckets);
        let sprite_list = drain(sprite_buckets);
        let rect_list = drain(rect_buckets);
        let text_list = drain(text_buckets);
        let ghost widths = line_list@.map_values(|bucket: (u32, Vec<LineLayout>)| bucket.0);
        let ghost sprite_layers = sprite_list@.map_values(
            |bucket: (u32, Vec<SpriteLayout>)| bucket.0,
        );
        let ghost rect_layers = rect_list@.map_values(|bucket: (u32, Vec<RectLayout>)| bucket.0);
        let ghost text_layers = text_list@.map_values(|bucket: (u32, Vec<TextLayout>)| bucket.0);
        let ghost line_calls = line_list@;
        let ghost sprite_calls = sprite_list@;
        let ghost rect_calls = rect_list@;
        let ghost text_calls = text_list@;
        for bucket in it: line_list
            invariant
                it.seq() == line_calls,
                plan@.len() == it.index(),
                forall|i: int|
                    0 <= i < plan@.len() ==> (#[trigger] plan@[i] matches DrawCall::Lines {
                        lines: l,
                        width: w,
                    } && w == line_calls[i].0 && l@ == line_calls[i].1@),
        {
            plan.push(DrawCall::Lines { lines: bucket.1, width: bucket.0 });
        }
        for bucket in it: sprite_list
            invariant
                it.seq() == sprite_calls,
                plan@.len() == line_calls.len() + it.index(),
                forall|i: int|
                    0 <= i < line_calls.len() ==> (#[trigger] plan@[i] matches DrawCall::Lines {
                        lines: l,
                        width: w,
                    } && w == line_calls[i].0 && l@ == line_calls[i].1@),
                forall|i: int|
                    0 <= i < plan@.len() - line_calls.len() ==> (#[trigger] plan@[line_calls.len()
                        + i] matches DrawCall::Sprites { sprites: s, tex: t } && t == tex && s@
                        == sprite_calls[i].1@),
        {
            plan.push(DrawCall::Sprites { sprites: bucket.1, tex: tex });
        }
        for bucket in it: rect_list
            invariant
                it.seq() == rect_calls,
                plan@.len() == line_calls.len() + sprite_calls.len() + it.index(),
                forall|i: int|
                    0 <= i < line_calls.len() ==> (#[trigger] plan@[i] matches DrawCall::Lines {
                        lines: l,
                        width: w,
                    } && w == line_calls[i].0 && l@ == line_calls[i].1@),
                forall|i: int|
                    0 <= i < sprite_calls.len() ==> (#[trigger] plan@[line_calls.len()
                        + i] matches DrawCall::Sprites { sprites: s, tex: t } && t == tex && s@
                        == sprite_calls[i].1@),
                forall|i: int|
                    0 <= i < plan@.len() - line_calls.len() - sprite_calls.len() ==> (
                    #[trigger] plan@[line_calls.len() + sprite_calls.len()
                        + i] matches DrawCall::Rects { rects: r } && r@ == rect_calls[i].1@),
        {
            plan.push(DrawCall::Rects { rects: bucket.1 });
        }
        for bucket in it: text_list
            invariant
                it.seq() == text_calls,
                plan@.len() == line_calls.len() + sprite_calls.len() + rect_calls.len()
                    + it.index(),
                forall|i: int|
                    0 <= i < line_calls.len() ==> (#[trigger] plan@[i] matches DrawCall::Lines {
                        lines: l,
                        width: w,
                    } && w == line_calls[i].0 && l@ == line_calls[i].1@),
                forall|i: int|
                    0 <= i < sprite_calls.len() ==> (#[trigger] plan@[line_calls.len()
                        + i] matches DrawCall::Sprites { sprites: s, tex: t } && t == tex && s@
                        == sprite_calls[i].1@),
                forall|i: int|
                    0 <= i < rect_calls.len() ==> (#[trigger] plan@[line_calls.len()
                        + sprite_calls.len() + i] matches DrawCall::Rects { rects: r } && r@
                        == rect_calls[i].1@),
                forall|i: int|
                    0 <= i < plan@.len() - line_calls.len() - sprite_calls.len() - rect_calls.len()
                        ==> (#[trigger] plan@[line_calls.len() + sprite_calls.len()
                        + rect_calls.len() + i] matches DrawCall::Texts { texts: t } && t@
                        == text_calls[i].1@),
        {
            plan.push(DrawCall::Texts { texts: bucket.1 });
        }
        proof {
            assert(in_order(text_layers, texts)) by {
                assert forall|key: u32| texts.contains_key(key) implies exists|i: int|
                    0 <= i < text_layers.len() && #[trigger] text_layers[i] == key by {
                    assert(view_of(text_buckets@).contains_key(key));
                }
            }
            assert forall|i: int| 0 <= i < text_layers.len() implies (
            #[trigger] plan@[widths.len() + sprite_layers.len() + rect_layers.len()
                + i] matches DrawCall::Texts { texts: t } && text_views(t@)
                == texts[text_layers[i]]) by {
                assert(view_of(text_buckets@).contains_key(text_layers[i]));
            }
            assert(draws_in(
                plan@,
                widths,
                sprite_layers,
                rect_layers,
                text_layers,
                lines,
                sprites,
                rects,
                texts,
                tex,
            ));
            assert forall|i: int| 0 <= i < plan@.len() implies match #[trigger] plan@[i] {
                DrawCall::Lines { lines: l, width } => forall|j: int|
                    0 <= j < l@.len() ==> tame_line(#[trigger] l@[j]),
                DrawCall::Sprites { sprites: s, tex } => forall|j: int|
                    0 <= j < s@.len() ==> tame_sprite(#[trigger] s@[j]),
                DrawCall::Rects { rects: r } => forall|j: int|
                    0 <= j < r@.len() ==> tame(#[trigger] r@[j]),
                DrawCall::Texts { texts } => true,
            } by {
                if i < widths.len() {
                    assert(plan@[i] is Lines);
                    assert(lines.contains_key(widths[i]));
                    assert forall|j: int| 0 <= j < lines[widths[i]].len() implies tame_line(
                        #[trigger] lines[widths[i]][j],
                    ) by {}
                } else if i < widths.len() + sprite_layers.len() {
                    let k = i - widths.len();
                    assert(plan@[widths.len() + k] is Sprites);
                    assert(sprites.contains_key(sprite_layers[k]));
                    assert forall|j: int|
                        0 <= j < sprites[sprite_layers[k]].len() implies tame_sprite(
                        #[trigger] sprites[sprite_layers[k]][j],
                    ) by {}
                } else if i < widths.len() + sprite_layers.len() + rect_layers.len() {
                    let k = i - widths.len() - sprite_layers.len();
                    assert(plan@[widths.len() + sprite_layers.len() + k] is Rects);
                    assert(rects.contains_key(rect_layers[k]));
                    assert forall|j: int| 0 <= j < rects[rect_layers[k]].len() implies tame(
                        #[trigger] rects[rect_layers[k]][j],
                    ) by {}
                } else {
                    let k = i - widths.len() - sprite_layers.len() - rect_layers.len();
                    assert(plan@[widths.len() + sprite_layers.len() + rect_layers.len() + k] is Texts);
                }
            }
        }
        plan
    }

    /// Gives `count` lines of the bucket of `key`, from `start` on, a color.
    fn paint_lines(&mut self, key: u32, start: usize, count: usize, r: Scalar, g: Scalar, b: Scalar, a: Scalar)
        requires
            old(self).wf(),
            has_bucket(old(self).lines(), key),
            start + count <= records_of(old(self).lines(), key).len(),
        ensures
            final(self).wf(),
            final(self).lines() == replaced(
                old(self).lines(),
                key,
                recolored(
                    records_of(old(self).lines(), key),
                    start as int,
                    count as int,
                    r,
                    g,
                    b,
                    a,
                ),
            ),
            final(self).sprites() == old(self).sprites(),
            final(self).rects() == old(self).rects(),
            final(self).texts() == old(self).texts(),
            final(self).same_frame(old(self)),
    {
        proof {
            let records = records_of(self.lines(), key);
            let painted = recolored(records, start as int, count as int, r, g, b, a);
            assert forall|j: int| 0 <= j < painted.len() implies tame_line(#[trigger] painted[j]) by {
                assert(tame_line(self.lines()[key][j]));
            }
            lemma_every_replaced(self.lines(), key, painted, |l: LineLayout| tame_line(l));
        }
        paint_records(&mut self.lines, key, start, count, r, g, b, a);
    }

    /// Gives `count` rectangles of the bucket of `key`, from `start` on, a
    /// color.
    fn paint_rects(&mut self, key: u32, start: usize, count: usize, r: Scalar, g: Scalar, b: Scalar, a: Scalar)
        requires
            old(self).wf(),
            has_bucket(old(self).rects(), key),
            start + count <= records_of(old(self).rects(), key).len(),
        ensures
            final(self).wf(),
            final(self).rects() == replaced(
                old(self).rects(),
                key,
                recolored(
                    records_of(old(self).rects(), key),
                    start as int,
                    count as int,
                    r,
                    g,
                    b,
                    a,
                ),
            ),
            final(self).lines() == old(self).lines(),
            final(self).sprites() == old(self).sprites(),
            final(self).texts() == old(self).texts(),
            final(self).same_frame(old(self)),
    {
        proof {
            let records = records_of(self.rects(), key);
            let painted = recolored(records, start as int, count as int, r, g, b, a);
            assert forall|j: int| 0 <= j < painted.len() implies tame(#[trigger] painted[j]) by {
                assert(tame(self.rects()[key][j]));
            }
            lemma_every_replaced(self.rects(), key, painted, |r: RectLayout| tame(r));
        }
        paint_records(&mut self.rects, key, start, count, r, g, b, a);
    }

    /// Draws the border of one rectangle of the bucket of `key` and says
    /// where the first of its lines went.
    fn border(&mut self, key: u32, at: usize, width: u32) -> (start: usize)
        requires
            old(self).wf(),
            has_bucket(old(self).rects(), key),
            at < records_of(old(self).rects(), key).len(),
        ensures
            final(self).wf(),
            start == records_of(old(self).lines(), width).len(),
            final(self).lines() == appended(
                old(self).lines(),
                width,
                border_lines(records_of(old(self).rects(), key)[at as int]),
            ),
            has_bucket(final(self).lines(), width),
            records_of(final(self).lines(), width) == records_of(old(self).lines(), width)
                + border_lines(records_of(old(self).rects(), key)[at as int]),
            final(self).sprites() == old(self).sprites(),
            final(self).rects() == old(self).rects(),
            final(self).texts() == old(self).texts(),
            final(self).same_frame(old(self)),
    {
        assert(tame(self.rects()[key][at as int]));
        let rect = match record_at(&self.rects, key, at) {
            Some(rect) => rect,
            None => unreached(),
        };
        let lines = new_border(&rect);
        proof {
            lemma_every_appended(self.lines(), width, lines@, |l: LineLayout| tame_line(l));
        }
        push_records(&mut self.lines, width, lines)
    }
}

/// A border is four lines, which go to the end of the bucket of its stroke
/// width whatever the queue held before, and leave every other bucket as it
/// was. The lines are the four edges of the rectangle: from its corner along
/// the column, the same at its far side, and along the row at its far side
/// and from its corner.
pub proof fn lemma_border(lines: Map<u32, Seq<LineLayout>>, width: u32, rect: RectLayout)
    ensures
        border_lines(rect).len() == 4,
        records_of(appended(lines, width, border_lines(rect)), width) == records_of(lines, width)
            + border_lines(rect),
        forall|other: u32|
            other != width ==> #[trigger] records_of(
                appended(lines, width, border_lines(rect)),
                other,
            ) == records_of(lines, other),
        ({
            let edges = border_lines(rect);
            let far_x = rect.x.spec_plus(rect.w);
            let far_y = rect.y.spec_plus(rect.h);
            &&& (edges[0].x1, edges[0].y1, edges[0].x2, edges[0].y2) == (rect.x, rect.y, rect.x, far_y)
            &&& (edges[1].x1, edges[1].y1, edges[1].x2, edges[1].y2) == (far_x, rect.y, far_x, far_y)
            &&& (edges[2].x1, edges[2].y1, edges[2].x2, edges[2].y2) == (rect.x, far_y, far_x, far_y)
            &&& (edges[3].x1, edges[3].y1, edges[3].x2, edges[3].y2) == (rect.x, rect.y, far_x, rect.y)
        }),
{
    lemma_appended(lines, width, border_lines(rect));
}

impl<'q, 'a> LayoutTune<'q, 'a, LineLayout> {
    /// Whether the lines are where the handle says, in a queue that is well
    /// formed: whether `with_color` can be called on the handle. A handle
    /// that a function of this module handed out always is.
    pub fn fits(&self) -> (r: bool)
        ensures
            r == self.fit(),
    {
        self.queue.is_wf() && self.queue.holds_lines(self.key, self.start, self.count)
    }
}

impl<'q, 'a> LayoutTune<'q, 'a, RectLayout> {
    /// Whether the rectangles are where the handle says, in a queue that is
    /// well formed: whether `with_color` can be called on the handle. A
    /// handle that a function of this module handed out always is.
    pub fn fits(&self) -> (r: bool)
        ensures
            r == self.fit(),
    {
        self.queue.is_wf() && self.queue.holds_rects(self.key, self.start, self.count)
    }

    /// Whether the handle fits and is that of one rectangle: whether
    /// `with_border` can be called on it.
    pub fn fits_one(&self) -> (r: bool)
        ensures
            r == self.is_one(),
    {
        self.count == 1 && self.fits()
    }
}

impl<'q, 'a> Colorize for LayoutTune<'q, 'a, LineLayout> {
    open spec fn fit(&self) -> bool {
        &&& self.queue.wf()
        &&& has_bucket(self.queue.lines(), self.key)
        &&& self.start + self.count <= records_of(self.queue.lines(), self.key).len()
    }

    /// Gives the lines of the handle this color and leaves everything else
    /// as it was.
    fn with_color(self, r: Scalar, g: Scalar, b: Scalar, a: Scalar) -> (tuned: Self)
        ensures
            tuned.key == self.key,
            tuned.start == self.start,
            tuned.count == self.count,
            tuned.queue.lines() == replaced(
                old(self.queue).lines(),
                self.key,
                recolored(
                    records_of(old(self.queue).lines(), self.key),
                    self.start as int,
                    self.count as int,
                    r,
                    g,
                    b,
                    a,
                ),
            ),
            records_of(tuned.queue.lines(), self.key) == recolored(
                records_of(old(self.queue).lines(), self.key),
                self.start as int,
                self.count as int,
                r,
                g,
                b,
                a,
            ),
            forall|other: u32|
                other != self.key ==> #[trigger] records_of(tuned.queue.lines(), other)
                    == records_of(old(self.queue).lines(), other),
            tuned.queue.sprites() == old(self.queue).sprites(),
            tuned.queue.rects() == old(self.queue).rects(),
            tuned.queue.texts() == old(self.queue).texts(),
            tuned.queue.same_frame(old(self.queue)),
            *final(self.queue) == *final(tuned.queue),
    {
        let LayoutTune { queue, key, start, count, kind } = self;
        queue.paint_lines(key, start, count, r, g, b, a);
        proof {
            lemma_replaced(
                old(self.queue).lines(),
                key,
                recolored(
                    records_of(old(self.queue).lines(), key),
                    start as int,
                    count as int,
                    r,
                    g,
                    b,
                    a,
                ),
            );
        }
        LayoutTune { queue: queue, key: key, start: start, count: count, kind: kind }
    }
}

impl<'q, 'a> Colorize for LayoutTune<'q, 'a, RectLayout> {
    open spec fn fit(&self) -> bool {
        &&& self.queue.wf()
        &&& has_bucket(self.queue.rects(), self.key)
        &&& self.start + self.count <= records_of(self.queue.rects(), self.key).len()
    }

    /// Gives the rectangles of the handle this color and leaves everything
    /// else as it was.
    fn with_color(self, r: Scalar, g: Scalar, b: Scalar, a: Scalar) -> (tuned: Self)
        ensures
            tuned.key == self.key,
            tuned.start == self.start,
            tuned.count == self.count,
            tuned.queue.rects() == replaced(
                old(self.queue).rects(),
                self.key,
                recolored(
                    records_of(old(self.queue).rects(), self.key),
                    self.start as int,
                    self.count as int,
                    r,
                    g,
                    b,
                    a,
                ),
            ),
            records_of(tuned.queue.rects(), self.key) == recolored(
                records_of(old(self.queue).rects(), self.key),
                self.start as int,
                self.count as int,
                r,
                g,
                b,
                a,
            ),
            forall|other: u32|
                other != self.key ==> #[trigger] records_of(tuned.queue.rects(), other)
                    == records_of(old(self.queue).rects(), other),
            tuned.queue.lines() == old(self.queue).lines(),
            tuned.queue.sprites() == old(self.queue).sprites(),
            tuned.queue.texts() == old(self.queue).texts(),
            tuned.queue.same_frame(old(self.queue)),
            *final(self.queue) == *final(tuned.queue),
    {
        let LayoutTune { queue, key, start, count, kind } = self;
        queue.paint_rects(key, start, count, r, g, b, a);
        proof {
            lemma_replaced(
                old(self.queue).rects(),
                key,
                recolored(
                    records_of(old(self.queue).rects(), key),
                    start as int,
                    count as int,
                    r,
                    g,
                    b,
                    a,
                ),
            );
        }
        LayoutTune { queue: queue, key: key, start: start, count: count, kind: kind }
    }
}

impl<'q, 'a> Contour for LayoutTune<'q, 'a, RectLayout> {
    type Border = LayoutTune<'q, 'a, LineLayout>;

    open spec fn is_one(&self) -> bool {
        self.fit() && self.count == 1
    }

    /// Draws the four edges of the rectangle as white lines with a stroke of
    /// this width, one layer above the rectangle, and hands out the lines.
    fn with_border(self, width: u32) -> (border: LayoutTune<'q, 'a, LineLayout>)
        ensures
            border.fit(),
            border.key == width,
            border.start == records_of(old(self.queue).lines(), width).len(),
            border.count == 4,
            border.queue.lines() == appended(
                old(self.queue).lines(),
                width,
                border_lines(records_of(old(self.queue).rects(), self.key)[self.start as int]),
            ),
            records_of(border.queue.lines(), width) == records_of(old(self.queue).lines(), width)
                + border_lines(records_of(old(self.queue).rects(), self.key)[self.start as int]),
            forall|other: u32|
                other != width ==> #[trigger] records_of(border.queue.lines(), other)
                    == records_of(old(self.queue).lines(), other),
            border.queue.sprites() == old(self.queue).sprites(),
            border.queue.rects() == old(self.queue).rects(),
            border.queue.texts() == old(self.queue).texts(),
            border.queue.same_frame(old(self.queue)),
            *final(self.queue) == *final(border.queue),
    {
        let LayoutTune { queue, key, start, count: _, kind: _ } = self;
        proof {
            lemma_appended(
                queue.lines(),
                width,
                border_lines(records_of(queue.rects(), key)[start as int]),
            );
        }
        let first = queue.border(key, start, width);
        LayoutTune { queue: queue, key: width, start: first, count: 4, kind: PhantomData }
    }
}

} // verus!
