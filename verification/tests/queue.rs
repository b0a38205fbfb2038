use std::marker::PhantomData;
use streamline::assets::AssetsMgr;
use streamline::assets::AssetsMgrBuilder;
use streamline::bitmap::Bitmap;
use streamline::bitmap::Rgba;
use streamline::layout::LineLayout;
use streamline::layout::RectLayout;
use streamline::layout::SpriteLayout;
use streamline::maths::pos;
use streamline::maths::vec2;
use streamline::maths::Scalar;
use streamline::queue::CmdQueue;
use streamline::queue::Colorize;
use streamline::queue::Contour;
use streamline::queue::DrawCall;
use streamline::queue::LayoutTune;

fn frac(num: i128, den: i128) -> Scalar {
    Scalar { num: num, den: den }
}

fn whole(v: i128) -> Scalar {
    Scalar { num: v, den: 1 }
}

fn no_assets() -> AssetsMgr {
    AssetsMgrBuilder::new().build(Vec::new(), |_atlas| 0).expect("no problem so far")
}

fn one_sprite(width: u32, height: u32, tex: u32) -> (AssetsMgr, usize) {
    let mut mgr = AssetsMgrBuilder::new();
    let sp = mgr.add_sprite("assets/rust-logo.png");
    let pixel = Rgba { r: 1, g: 2, b: 3, a: 4 };
    let image = Bitmap::from_raw(width, height, vec![pixel; (width * height) as usize]).unwrap();
    (mgr.build(vec![image], |_atlas| tex).expect("everithing allright"), sp)
}

fn white(layer: i128, x1: Scalar, y1: Scalar, x2: Scalar, y2: Scalar) -> LineLayout {
    LineLayout {
        layer: whole(layer),
        x1: x1,
        y1: y1,
        x2: x2,
        y2: y2,
        r: whole(1),
        g: whole(1),
        b: whole(1),
        a: whole(1),
    }
}

fn lines_of(call: &DrawCall) -> (&Vec<LineLayout>, u32) {
    match call {
        DrawCall::Lines { lines, width } => (lines, *width),
        other => panic!("not lines: {:?}", other),
    }
}

fn sprites_of(call: &DrawCall) -> (&Vec<SpriteLayout>, u32) {
    match call {
        DrawCall::Sprites { sprites, tex } => (sprites, *tex),
        other => panic!("not sprites: {:?}", other),
    }
}

fn rects_of(call: &DrawCall) -> &Vec<RectLayout> {
    match call {
        DrawCall::Rects { rects } => rects,
        other => panic!("not rects: {:?}", other),
    }
}

#[test]
fn construct() {
    // phase 1, load assets
    let ass = no_assets();

    // phase 2, draw
    let mut q = CmdQueue::new((0, 0), &ass);
    {
        q.draw_line(pos(0, 0), pos(1, 1), 0);
        q.draw_line(pos(0, 0), pos(1, 1), 0);
        q.draw_line(pos(0, 0), pos(1, 1), 0);
        q.draw_line(pos(0, 0), pos(1, 1), 0);
    }
    let plan = q.done();
    assert_eq!(plan.len(), 1);
    let (lines, width) = lines_of(&plan[0]);
    assert_eq!(width, 1);
    assert_eq!(lines.len(), 4);
    // a surface without size: the end points have no finite place
    assert_eq!(lines[0], white(0, frac(0, 0), frac(0, 0), frac(2, 0), frac(2, 0)));
}

#[test]
fn with_assets() {
    // phase 1, load assets
    let (ass, sp) = one_sprite(144, 144, 0);

    // phase 2, draw
    let mut q = CmdQueue::new((0, 0), &ass);
    {
        q.draw_sprite(pos(0, 0), 0, sp);
    }
    let plan = q.done();
    assert_eq!(plan.len(), 1);
    let (sprites, tex) = sprites_of(&plan[0]);
    assert_eq!(tex, 0);
    assert_eq!(sprites.len(), 1);
}

#[test]
fn an_empty_frame_draws_nothing() {
    let ass = no_assets();
    assert!(CmdQueue::new((800, 600), &ass).done().is_empty());
}

#[test]
fn lines_go_to_device_space() {
    let ass = no_assets();
    let mut q = CmdQueue::new((800, 600), &ass);
    q.line(vec2(10, 10), vec2(790, 590), 1, 7);
    q.line(vec2(0, 0), vec2(800, 600), 1, 0);
    q.line(vec2(400, 300), vec2(1600, 0), 1, 0);
    let plan = q.done();
    let (lines, width) = lines_of(&plan[0]);
    assert_eq!(width, 1);
    assert_eq!(
        lines[0],
        white(7, frac(-780, 800), frac(-580, 600), frac(780, 800), frac(580, 600))
    );
    // the corners of the surface are -1 and 1
    assert_eq!(lines[1], white(0, frac(-800, 800), frac(-600, 600), frac(800, 800), frac(600, 600)));
    // the middle is 0, and a point outside the surface is beyond 1
    assert_eq!(lines[2], white(0, frac(0, 800), frac(0, 600), frac(2400, 800), frac(-600, 600)));
}

#[test]
fn the_largest_coordinates_are_exact() {
    let ass = no_assets();
    let mut q = CmdQueue::new((1, 4_294_967_295), &ass);
    q.line(vec2(4_294_967_295, 0), vec2(0, 4_294_967_295), 4_294_967_295, 4_294_967_295);
    let plan = q.done();
    let (lines, width) = lines_of(&plan[0]);
    assert_eq!(width, 4_294_967_295);
    assert_eq!(
        lines[0],
        white(
            4_294_967_295,
            frac(8_589_934_589, 1),
            frac(-4_294_967_295, 4_294_967_295),
            frac(-1, 1),
            frac(4_294_967_295, 4_294_967_295)
        )
    );
}

#[test]
fn lines_are_white_until_colored() {
    let ass = no_assets();
    let mut q = CmdQueue::new((100, 100), &ass);
    q.line(vec2(0, 0), vec2(1, 1), 1, 0);
    q.line(vec2(0, 0), vec2(2, 2), 1, 0).with_color(whole(1), whole(0), frac(1, 2), whole(1));
    q.line(vec2(0, 0), vec2(3, 3), 1, 0);
    let plan = q.done();
    let (lines, _) = lines_of(&plan[0]);
    assert_eq!((lines[0].r, lines[0].g, lines[0].b, lines[0].a), (whole(1), whole(1), whole(1), whole(1)));
    assert_eq!((lines[1].r, lines[1].g, lines[1].b, lines[1].a), (whole(1), whole(0), frac(1, 2), whole(1)));
    assert_eq!((lines[2].r, lines[2].g, lines[2].b, lines[2].a), (whole(1), whole(1), whole(1), whole(1)));
    // the color is all that changed
    assert_eq!(lines[1].x2, frac(4 - 100, 100));
    assert_eq!(lines[1].layer, whole(0));
}

#[test]
fn colors_can_be_given_twice() {
    let ass = no_assets();
    let mut q = CmdQueue::new((100, 100), &ass);
    q.line(vec2(0, 0), vec2(1, 1), 2, 0)
        .with_color(whole(0), whole(0), whole(0), whole(0))
        .with_color(frac(8, 10), frac(8, 10), frac(8, 10), whole(1));
    let plan = q.done();
    let (lines, _) = lines_of(&plan[0]);
    assert_eq!((lines[0].r, lines[0].a), (frac(8, 10), whole(1)));
}

#[test]
fn rectangles_are_black_until_colored() {
    let ass = no_assets();
    let mut q = CmdQueue::new((800, 600), &ass);
    q.rect(vec2(400, 300), vec2(20, 30), 3);
    q.rect(vec2(0, 0), vec2(10, 10), 3).with_color(frac(8, 10), frac(8, 10), frac(8, 10), whole(1));
    let plan = q.done();
    assert_eq!(plan.len(), 1);
    let rects = rects_of(&plan[0]);
    assert_eq!(
        rects[0],
        RectLayout {
            layer: whole(3),
            x: frac(0, 800),
            y: frac(0, 600),
            w: frac(40, 800),
            h: frac(60, 600),
            r: whole(0),
            g: whole(0),
            b: whole(0),
            a: whole(1),
        }
    );
    assert_ne!((rects[0].r, rects[0].g, rects[0].b), (whole(1), whole(1), whole(1)));
    assert_eq!(
        rects[1],
        RectLayout {
            layer: whole(3),
            x: frac(-800, 800),
            y: frac(-600, 600),
            w: frac(20, 800),
            h: frac(20, 600),
            r: frac(8, 10),
            g: frac(8, 10),
            b: frac(8, 10),
            a: whole(1),
        }
    );
}

#[test]
fn a_border_is_four_lines() {
    let ass = no_assets();
    let mut q = CmdQueue::new((800, 600), &ass);
    // what is in the queue before does not matter
    q.line(vec2(1, 1), vec2(2, 2), 3, 0);
    q.line(vec2(1, 1), vec2(2, 2), 1, 0);
    q.rect(vec2(5, 5), vec2(5, 5), 4);
    q.rect(vec2(600, 500), vec2(40, 20), 4)
        .with_color(whole(0), whole(1), whole(1), whole(1))
        .with_border(3)
        .with_color(whole(1), whole(0), whole(0), whole(1));
    let plan = q.done();
    assert_eq!(plan.len(), 3);
    let (thin, width) = lines_of(&plan[0]);
    assert_eq!((thin.len(), width), (1, 1));
    let (lines, width) = lines_of(&plan[1]);
    assert_eq!(width, 3);
    assert_eq!(lines.len(), 5);
    assert_eq!(lines[0].r, whole(1));
    assert_eq!(lines[0].g, whole(1));

    let x = frac(400, 800);
    let y = frac(400, 600);
    // the width lies along the row, the height along the column
    let far_x = frac(400 * 800 + 80 * 800, 800 * 800);
    let far_y = frac(400 * 600 + 40 * 600, 600 * 600);
    let red = |x1, y1, x2, y2| LineLayout {
        layer: frac(5, 1),
        x1: x1,
        y1: y1,
        x2: x2,
        y2: y2,
        r: whole(1),
        g: whole(0),
        b: whole(0),
        a: whole(1),
    };
    assert_eq!(lines[1], red(x, y, x, far_y));
    assert_eq!(lines[2], red(far_x, y, far_x, far_y));
    assert_eq!(lines[3], red(x, far_y, far_x, far_y));
    assert_eq!(lines[4], red(x, y, far_x, y));

    let rects = rects_of(&plan[2]);
    assert_eq!(rects.len(), 2);
    assert_eq!((rects[1].r, rects[1].g, rects[1].b, rects[1].a), (whole(0), whole(1), whole(1), whole(1)));
    assert_eq!((rects[1].x, rects[1].y), (x, y));
    assert_eq!((rects[1].w, rects[1].h), (frac(80, 800), frac(40, 600)));
}

#[test]
fn a_border_without_color_is_white() {
    let ass = no_assets();
    let mut q = CmdQueue::new((10, 10), &ass);
    q.rect(vec2(0, 0), vec2(10, 10), 4_294_967_295).with_border(2);
    let plan = q.done();
    let (lines, width) = lines_of(&plan[0]);
    assert_eq!((lines.len(), width), (4, 2));
    for line in lines {
        assert_eq!(line.layer, frac(4_294_967_296, 1));
        assert_eq!((line.r, line.g, line.b, line.a), (whole(1), whole(1), whole(1), whole(1)));
    }
}

#[test]
fn sprites_are_drawn_from_the_atlas() {
    let (ass, sp) = one_sprite(100, 50, 21);
    let place = (frac(5, 1024), frac(1019, 1024), frac(100, 1024), frac(50, 1024));
    assert_eq!(ass.get_sprite_offset(sp), Some((place.0, place.1)));
    let mut q = CmdQueue::new((800, 600), &ass);
    q.sprite(vec2(150, 300), 2, sp);
    let plan = q.done();
    let (sprites, tex) = sprites_of(&plan[0]);
    assert_eq!(tex, 21);
    assert_eq!(
        sprites[0],
        SpriteLayout {
            layer: whole(2),
            x: frac(300 - 800, 800),
            y: frac(0, 600),
            target_w: frac(100 * 600, 1024 * 800),
            target_h: place.3,
            atlas_u: place.0,
            atlas_v: place.1,
            atlas_w: place.2,
            atlas_h: place.3,
        }
    );
}

#[test]
fn buckets_are_drawn_in_the_order_of_their_keys() {
    let (ass, sp) = one_sprite(10, 10, 4);
    let mut q = CmdQueue::new((800, 600), &ass);
    q.rect(vec2(0, 0), vec2(1, 1), 9);
    q.sprite(vec2(0, 0), 5, sp);
    q.line(vec2(0, 0), vec2(1, 1), 7, 0);
    q.line(vec2(0, 0), vec2(2, 2), 2, 1);
    q.sprite(vec2(1, 1), 1, sp);
    q.rect(vec2(1, 1), vec2(1, 1), 0);
    q.line(vec2(0, 0), vec2(3, 3), 7, 2);
    q.line(vec2(0, 0), vec2(4, 4), 4, 3);
    q.sprite(vec2(2, 2), 5, sp);
    q.rect(vec2(2, 2), vec2(1, 1), 9);
    q.line(vec2(0, 0), vec2(5, 5), 2, 4);
    let plan = q.done();
    assert_eq!(plan.len(), 7);

    let widths: Vec<(u32, Vec<Scalar>)> = plan[..3]
        .iter()
        .map(|call| {
            let (lines, width) = lines_of(call);
            (width, lines.iter().map(|l| l.layer).collect())
        })
        .collect();
    assert_eq!(
        widths,
        vec![
            (2, vec![whole(1), whole(4)]),
            (4, vec![whole(3)]),
            (7, vec![whole(0), whole(2)]),
        ]
    );

    let layers: Vec<Vec<(Scalar, Scalar)>> = plan[3..5]
        .iter()
        .map(|call| {
            let (sprites, tex) = sprites_of(call);
            assert_eq!(tex, 4);
            sprites.iter().map(|s| (s.layer, s.x)).collect()
        })
        .collect();
    assert_eq!(
        layers,
        vec![
            vec![(whole(1), frac(2 - 800, 800))],
            vec![(whole(5), frac(-800, 800)), (whole(5), frac(4 - 800, 800))],
        ]
    );

    let rects: Vec<Vec<(Scalar, Scalar)>> = plan[5..]
        .iter()
        .map(|call| rects_of(call).iter().map(|r| (r.layer, r.x)).collect())
        .collect();
    assert_eq!(
        rects,
        vec![
            vec![(whole(0), frac(2 - 800, 800))],
            vec![(whole(9), frac(-800, 800)), (whole(9), frac(4 - 800, 800))],
        ]
    );
}

#[test]
fn handles_say_where_the_records_went() {
    let ass = no_assets();
    let mut q = CmdQueue::new((800, 600), &ass);
    {
        let t = q.line(vec2(0, 0), vec2(1, 1), 3, 0);
        assert_eq!((t.key, t.start, t.count), (3, 0, 1));
    }
    {
        let t = q.line(vec2(0, 0), vec2(1, 1), 3, 0);
        assert_eq!((t.key, t.start, t.count), (3, 1, 1));
    }
    {
        let t = q.rect(vec2(0, 0), vec2(1, 1), 8).with_border(3);
        assert_eq!((t.key, t.start, t.count), (3, 2, 4));
    }
    {
        let t = q.rect(vec2(0, 0), vec2(1, 1), 8);
        assert_eq!((t.key, t.start, t.count), (8, 1, 1));
        let t = t.with_border(1);
        assert_eq!((t.key, t.start, t.count), (1, 0, 4));
    }
}

#[test]
fn text_is_kept_by_layer() {
    let mut builder = AssetsMgrBuilder::new();
    assert_eq!(builder.add_font(Some(vec![1u8]), |_font| 70), Ok(0));
    assert_eq!(builder.add_font(Some(vec![2u8]), |_font| 71), Ok(1));
    let ass = builder.build(Vec::new(), |_atlas| 0).unwrap();
    let mut q = CmdQueue::new((800, 600), &ass);
    q.text(vec2(10, 100), 3, 1, "10 100");
    q.rect(vec2(0, 0), vec2(1, 1), 5);
    q.text(vec2(400, 300), 1, 0, "hello world");
    q.text(vec2(0, 0), 3, 0, "");
    let plan = q.done();
    assert_eq!(plan.len(), 3);
    assert_eq!(rects_of(&plan[0]).len(), 1);
    let runs = |call: &DrawCall| match call {
        DrawCall::Texts { texts } => texts
            .iter()
            .map(|t| (t.layer, t.x, t.y, t.font, t.text.clone()))
            .collect::<Vec<_>>(),
        other => panic!("not text: {:?}", other),
    };
    assert_eq!(
        runs(&plan[1]),
        vec![(whole(1), frac(0, 800), frac(0, 600), 70, "hello world".to_string())]
    );
    assert_eq!(
        runs(&plan[2]),
        vec![
            (whole(3), frac(20 - 800, 800), frac(200 - 600, 600), 71, "10 100".to_string()),
            (whole(3), frac(-800, 800), frac(-600, 600), 70, String::new()),
        ]
    );
}

#[test]
fn a_rectangle_is_measured_against_its_own_side_of_the_surface() {
    let ass = no_assets();
    let mut q = CmdQueue::new((200, 100), &ass);
    q.rect(vec2(0, 0), vec2(10, 10), 0);
    q.rect(vec2(50, 50), vec2(10, 20), 0).with_border(1);
    let plan = q.done();
    let rects = rects_of(&plan[1]);
    // 10 pixels of 200 along the row, 10 pixels of 100 along the column
    assert_eq!((rects[0].w, rects[0].h), (frac(20, 200), frac(20, 100)));
    assert_eq!((rects[1].w, rects[1].h), (frac(20, 200), frac(40, 100)));
    let (lines, _) = lines_of(&plan[0]);
    let x = frac(100 - 200, 200);
    let y = frac(100 - 100, 100);
    let far_x = frac(-100 * 200 + 20 * 200, 200 * 200);
    let far_y = frac(0 * 100 + 40 * 100, 100 * 100);
    let ends: Vec<(Scalar, Scalar, Scalar, Scalar)> =
        lines.iter().map(|l| (l.x1, l.y1, l.x2, l.y2)).collect();
    assert_eq!(
        ends,
        vec![(x, y, x, far_y), (far_x, y, far_x, far_y), (x, far_y, far_x, far_y), (x, y, far_x, y)]
    );
}

fn lines<'q, 'a>(
    q: &'q mut CmdQueue<'a>,
    key: u32,
    start: usize,
    count: usize,
) -> LayoutTune<'q, 'a, LineLayout> {
    LayoutTune { queue: q, key: key, start: start, count: count, kind: PhantomData }
}

fn rects<'q, 'a>(
    q: &'q mut CmdQueue<'a>,
    key: u32,
    start: usize,
    count: usize,
) -> LayoutTune<'q, 'a, RectLayout> {
    LayoutTune { queue: q, key: key, start: start, count: count, kind: PhantomData }
}

#[test]
fn a_handle_can_be_held_against_its_queue() {
    let ass = no_assets();
    let mut q = CmdQueue::new((800, 600), &ass);
    assert!(q.is_wf());
    q.line(vec2(0, 0), vec2(1, 1), 3, 0);
    q.line(vec2(0, 0), vec2(2, 2), 3, 0);
    q.rect(vec2(0, 0), vec2(1, 1), 7);
    assert!(q.line(vec2(0, 0), vec2(3, 3), 3, 0).fits());
    assert!(q.rect(vec2(0, 0), vec2(1, 1), 7).fits_one());
    assert!(q.rect(vec2(0, 0), vec2(1, 1), 7).with_border(2).fits());
    assert!(q.holds_lines(3, 0, 3) && q.holds_lines(3, 3, 0) && q.holds_lines(2, 0, 4));
    assert!(!q.holds_lines(3, 1, 3) && !q.holds_lines(4, 0, 0));
    assert!(!q.holds_lines(3, 4_294_967_295, 4_294_967_295));
    assert!(q.holds_rects(7, 2, 1) && !q.holds_rects(7, 3, 1) && !q.holds_rects(3, 0, 1));

    assert!(lines(&mut q, 3, 1, 2).fits());
    assert!(!lines(&mut q, 3, 2, 2).fits());
    assert!(!lines(&mut q, 7, 0, 1).fits());
    assert!(rects(&mut q, 7, 0, 3).fits());
    assert!(!rects(&mut q, 7, 0, 3).fits_one());
    assert!(rects(&mut q, 7, 2, 1).fits_one());
    assert!(!rects(&mut q, 7, 3, 1).fits_one());
    assert!(!rects(&mut q, 3, 0, 1).fits());
    assert!(q.is_wf());
}
