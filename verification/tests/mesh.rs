use streamline::assets::AssetsMgrBuilder;
use streamline::bitmap::Bitmap;
use streamline::bitmap::Rgba;
use streamline::layout::LineLayout;
use streamline::layout::RectLayout;
use streamline::layout::SpriteLayout;
use streamline::maths::vec2;
use streamline::maths::Scalar;
use streamline::mesh::color_quads;
use streamline::mesh::create_vb;
use streamline::mesh::tex_quads;
use streamline::mesh::ColorVertex;
use streamline::mesh::LineVertex;
use streamline::mesh::TexVertex;
use streamline::queue::CmdQueue;
use streamline::queue::Colorize;
use streamline::queue::Contour;
use streamline::queue::DrawCall;
use streamline::records::is_tame;
use streamline::records::is_tame_line;
use streamline::records::is_tame_sprite;

fn frac(num: i128, den: i128) -> Scalar {
    Scalar { num: num, den: den }
}

fn whole(v: i128) -> Scalar {
    Scalar { num: v, den: 1 }
}

#[test]
fn a_line_has_two_ends() {
    let line = LineLayout {
        layer: whole(2),
        x1: frac(-1, 2),
        y1: frac(1, 3),
        x2: frac(3, 4),
        y2: frac(-5, 6),
        r: whole(1),
        g: frac(1, 2),
        b: whole(0),
        a: whole(1),
    };
    let other = LineLayout { layer: whole(0), ..line };
    let mesh = create_vb(&[line, other], 8);
    let end = |x, y, depth| LineVertex {
        x: x,
        y: y,
        depth: depth,
        r: whole(1),
        g: frac(1, 2),
        b: whole(0),
        a: whole(1),
    };
    // the depth is one minus the layer's share of the layers
    assert_eq!(
        mesh,
        vec![
            end(frac(-1, 2), frac(1, 3), frac(6, 8)),
            end(frac(3, 4), frac(-5, 6), frac(6, 8)),
            end(frac(-1, 2), frac(1, 3), frac(8, 8)),
            end(frac(3, 4), frac(-5, 6), frac(8, 8)),
        ]
    );
    assert!(create_vb(&[], 8).is_empty());
    // a surface without layers
    assert_eq!(create_vb(&[line], 0)[0].depth, frac(-2, 0));
}

#[test]
fn a_sprite_has_four_corners() {
    let sprite = SpriteLayout {
        layer: whole(1),
        x: frac(-1, 2),
        y: frac(1, 4),
        target_w: frac(1, 8),
        target_h: frac(1, 16),
        atlas_u: frac(5, 1024),
        atlas_v: frac(1019, 1024),
        atlas_w: frac(100, 1024),
        atlas_h: frac(50, 1024),
    };
    let (corners, triangles) = tex_quads(&[sprite, sprite], 4);
    let depth = frac(3, 4);
    let far_x = frac(-1 * 8 + 1 * 2, 16);
    let far_y = frac(1 * 16 + 1 * 4, 64);
    let far_u = frac(5 * 1024 + 100 * 1024, 1024 * 1024);
    let low_v = frac(1019 * 1024 - 50 * 1024, 1024 * 1024);
    let quad = vec![
        TexVertex { x: sprite.x, y: sprite.y, depth: depth, u: sprite.atlas_u, v: low_v },
        TexVertex { x: far_x, y: sprite.y, depth: depth, u: far_u, v: low_v },
        TexVertex { x: sprite.x, y: far_y, depth: depth, u: sprite.atlas_u, v: sprite.atlas_v },
        TexVertex { x: far_x, y: far_y, depth: depth, u: far_u, v: sprite.atlas_v },
    ];
    assert_eq!(corners[..4], quad[..]);
    assert_eq!(corners[4..], quad[..]);
    assert_eq!(triangles, vec![0, 1, 2, 3, 1, 2, 4, 5, 6, 7, 5, 6]);
    let (corners, triangles) = tex_quads(&[], 4);
    assert!(corners.is_empty() && triangles.is_empty());
}

#[test]
fn a_rectangle_has_four_corners() {
    let rect = RectLayout {
        layer: whole(3),
        x: frac(400, 800),
        y: frac(400, 600),
        w: frac(80, 800),
        h: frac(40, 600),
        r: whole(0),
        g: whole(1),
        b: whole(1),
        a: whole(1),
    };
    let (corners, triangles) = color_quads(&[rect], 6);
    let far_x = frac(400 * 800 + 80 * 800, 800 * 800);
    let far_y = frac(400 * 600 + 40 * 600, 600 * 600);
    let corner = |x, y| ColorVertex {
        x: x,
        y: y,
        depth: frac(3, 6),
        r: whole(0),
        g: whole(1),
        b: whole(1),
        a: whole(1),
    };
    assert_eq!(
        corners,
        vec![
            corner(rect.x, rect.y),
            corner(far_x, rect.y),
            corner(rect.x, far_y),
            corner(far_x, far_y),
        ]
    );
    assert_eq!(triangles, vec![0, 1, 2, 3, 1, 2]);
}

#[test]
fn what_a_queue_hands_out_is_tame() {
    let mut builder = AssetsMgrBuilder::new();
    let sp = builder.add_sprite("logo.png");
    let pixel = Rgba { r: 0, g: 0, b: 0, a: 0 };
    let image = Bitmap::from_raw(1014, 1014, vec![pixel; 1014 * 1014]).unwrap();
    let ass = builder.build(vec![image], |_atlas| 0).unwrap();
    let most = 4_294_967_295;
    for dims in [(800, 600), (0, 0), (1, most), (most, 1), (most, most)] {
        let mut q = CmdQueue::new(dims, &ass);
        q.line(vec2(most, most), vec2(0, 0), 1, most)
            .with_color(frac(1, 0), frac(-7, 3), whole(1 << 100), whole(0));
        q.sprite(vec2(most, 0), most, sp);
        q.rect(vec2(most, most), vec2(most, most), most).with_border(most);
        q.rect(vec2(0, 0), vec2(0, 0), 0).with_border(0);
        let plan = q.done();
        // three widths of lines, one layer of sprites, two layers of rectangles
        assert_eq!(plan.len(), 6);
        for call in plan {
            match call {
                DrawCall::Lines { lines, width: _ } => {
                    assert!(lines.iter().all(is_tame_line));
                    assert_eq!(create_vb(&lines, most).len(), 2 * lines.len());
                }
                DrawCall::Sprites { sprites, tex: _ } => {
                    assert!(sprites.iter().all(is_tame_sprite));
                    assert_eq!(tex_quads(&sprites, most).0.len(), 4);
                }
                DrawCall::Rects { rects } => {
                    assert!(rects.iter().all(is_tame));
                    assert_eq!(color_quads(&rects, most).1.len(), 6);
                }
                DrawCall::Texts { texts } => panic!("no text was drawn: {:?}", texts),
            }
        }
    }
}

#[test]
fn records_out_of_range_are_told_apart() {
    let line = LineLayout {
        layer: whole(0x2_0000_0000),
        x1: whole(0),
        y1: whole(0),
        x2: whole(0),
        y2: whole(0),
        r: whole(0),
        g: whole(0),
        b: whole(0),
        a: whole(0),
    };
    assert!(is_tame_line(&line));
    assert!(!is_tame_line(&LineLayout { layer: whole(0x2_0000_0001), ..line }));
    assert!(!is_tame_line(&LineLayout { layer: frac(1, 2), ..line }));
    assert!(!is_tame_line(&LineLayout { layer: frac(1, -1), ..line }));
    let rect = RectLayout {
        layer: whole(1),
        x: frac(1, 2),
        y: frac(1, 2),
        w: frac(1, 2),
        h: frac(1, 2),
        r: whole(0),
        g: whole(0),
        b: whole(0),
        a: whole(0),
    };
    assert!(is_tame(&rect));
    assert!(!is_tame(&RectLayout { x: frac(1, 0x1_0000_0001), ..rect }));
    assert!(!is_tame(&RectLayout { w: frac(-0x2_0000_0001, 1), ..rect }));
    assert!(is_tame(&RectLayout { h: frac(0x2_0000_0000, 0x1_0000_0000), ..rect }));
    assert!(!is_tame(&RectLayout { h: frac(0x2_0000_0001, 0x1_0000_0000), ..rect }));
    assert!(frac(3, 4).is_within(3, 4));
    assert!(!frac(3, 4).is_within(2, 4));
}
