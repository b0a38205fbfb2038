use streamline::assets::calculate_hash;
use streamline::assets::gen_atlas;
use streamline::assets::AssetsMgrBuilder;
use streamline::assets::AssetsMgrError;
use streamline::bitmap::Bitmap;
use streamline::bitmap::Rgba;
use streamline::maths::Scalar;
use streamline::packing::accept;
use streamline::packing::are_apart;
use streamline::packing::pack_frames;
use streamline::packing::Frame;
use streamline::packing::Placement;

fn frac(num: i128, den: i128) -> Scalar {
    Scalar { num: num, den: den }
}

fn solid(width: u32, height: u32, shade: u8) -> Bitmap {
    let pixel = Rgba { r: shade, g: shade, b: shade, a: 255 };
    Bitmap::from_raw(width, height, vec![pixel; (width * height) as usize]).unwrap()
}

#[test]
fn load_sprites() {
    let file_location = "assets/rust-logo.png";

    let mgr = {
        let mut builder = AssetsMgrBuilder::new();
        builder.add_sprite(file_location);
        builder.add_sprite(file_location);
        builder.add_sprite(file_location);
        builder.add_sprite(file_location);
        builder.add_sprite(file_location);
        let images = vec![
            solid(144, 144, 1),
            solid(144, 144, 1),
            solid(144, 144, 1),
            solid(144, 144, 1),
            solid(144, 144, 1),
        ];
        builder.build(images, |_atlas| 0).expect("the assets must be found")
    };

    println!("size 0: {:?}", mgr.get_sprite_size(0).unwrap());
    println!("size 1: {:?}", mgr.get_sprite_size(1).unwrap());
    println!("size 2: {:?}", mgr.get_sprite_size(2).unwrap());
    println!("size 3: {:?}", mgr.get_sprite_size(3).unwrap());
    println!("size 4: {:?}", mgr.get_sprite_size(4).unwrap());
    assert!(mgr.get_sprite_size(5).is_none());

    println!("offset 0: {:?}", mgr.get_sprite_offset(0).unwrap());
    println!("offset 1: {:?}", mgr.get_sprite_offset(1).unwrap());
    println!("offset 2: {:?}", mgr.get_sprite_offset(2).unwrap());
    println!("offset 3: {:?}", mgr.get_sprite_offset(3).unwrap());
    println!("offset 4: {:?}", mgr.get_sprite_offset(4).unwrap());
    assert!(mgr.get_sprite_offset(5).is_none());
}

#[test]
fn load_font() {
    let mgr = {
        let mut builder = AssetsMgrBuilder::new();
        assert!(builder.add_font(Some(vec![0u8, 1, 0, 0]), |_font| 0).is_ok());
        assert!(builder.add_font(None, |_font| 0).is_err());
        builder.build(Vec::new(), |_atlas| 0).expect("nothin fancy anymore")
    };

    assert_eq!(mgr.get_font(&0), 0);
}

#[test]
fn ids_are_given_in_order() {
    let mut builder = AssetsMgrBuilder::new();
    assert_eq!(builder.add_sprite("a.png"), 0);
    assert_eq!(builder.add_sprite("b.png"), 1);
    assert_eq!(builder.add_sprite("a.png"), 2);
    assert_eq!(builder.add_font(Some(vec![1u8]), |_font| 40), Ok(0));
    assert_eq!(builder.add_font(None, |_font| 41), Err(AssetsMgrError::IoError));
    assert_eq!(builder.add_font(Some(vec![2u8]), |_font| 42), Ok(1));
    assert_eq!(
        builder.sprite_paths(),
        &vec!["a.png".to_string(), "b.png".to_string(), "a.png".to_string()]
    );
    let mgr = builder
        .build(vec![solid(3, 3, 0), solid(4, 4, 0), solid(5, 5, 0)], |_atlas| 9)
        .unwrap();
    assert_eq!(mgr.sprite_count(), 3);
    assert_eq!(mgr.font_count(), 2);
    assert_eq!(mgr.get_font(&0), 40);
    assert_eq!(mgr.get_font(&1), 42);
    assert_eq!(mgr.get_atlas(), 9);
}

#[test]
fn font_bytes_reach_the_backend() {
    let seen = std::cell::RefCell::new(Vec::new());
    let mut builder = AssetsMgrBuilder::new();
    let id = builder.add_font(Some(vec![7u8, 8, 9]), |font| {
        seen.borrow_mut().extend(font);
        5
    });
    assert_eq!(id, Ok(0));
    assert_eq!(*seen.borrow(), vec![7u8, 8, 9]);
}

#[test]
fn empty_build_succeeds() {
    let uploaded = std::cell::Cell::new((0u32, 0u32, false));
    let mgr = AssetsMgrBuilder::new()
        .build(Vec::new(), |atlas| {
            let blank = Rgba { r: 0, g: 0, b: 0, a: 0 };
            uploaded.set((
                atlas.width(),
                atlas.height(),
                atlas.as_raw().iter().all(|p| *p == blank),
            ));
            17
        })
        .unwrap();
    assert_eq!(uploaded.get(), (1024, 1024, true));
    assert_eq!(mgr.get_atlas(), 17);
    assert_eq!(mgr.sprite_count(), 0);
    assert_eq!(mgr.font_count(), 0);
    assert!(mgr.get_sprite_size(0).is_none());
    assert!(mgr.get_sprite_offset(0).is_none());
}

#[test]
fn a_missing_image_fails_the_whole_build() {
    let uploads = std::cell::Cell::new(0u32);
    let mut builder = AssetsMgrBuilder::new();
    builder.add_sprite("a.png");
    builder.add_sprite("broken.png");
    builder.add_sprite("c.png");
    let built = builder.build(vec![solid(8, 8, 1)], |_atlas| {
        uploads.set(uploads.get() + 1);
        0
    });
    assert_eq!(built.err(), Some(AssetsMgrError::LoadError));
    assert_eq!(uploads.get(), 0);
}

#[test]
fn an_image_too_large_fails_the_build() {
    let mut builder = AssetsMgrBuilder::new();
    builder.add_sprite("small.png");
    builder.add_sprite("wide.png");
    let built = builder.build(vec![solid(8, 8, 1), solid(1015, 8, 1)], |_atlas| 0);
    assert_eq!(built.err(), Some(AssetsMgrError::PackError));

    let mut builder = AssetsMgrBuilder::new();
    builder.add_sprite("tall.png");
    let built = builder.build(vec![solid(8, 1100, 1)], |_atlas| 0);
    assert_eq!(built.err(), Some(AssetsMgrError::PackError));

    let mut builder = AssetsMgrBuilder::new();
    builder.add_sprite("nothing.png");
    let built = builder.build(vec![solid(0, 0, 1)], |_atlas| 0);
    assert_eq!(built.err(), Some(AssetsMgrError::PackError));
}

#[test]
fn the_largest_image_that_fits() {
    let mut builder = AssetsMgrBuilder::new();
    builder.add_sprite("full.png");
    let mgr = builder.build(vec![solid(1014, 1014, 1)], |_atlas| 0).unwrap();
    assert_eq!(mgr.get_sprite_offset(0), Some((frac(5, 1024), frac(1019, 1024))));
    assert_eq!(mgr.get_sprite_size(0), Some((frac(1014, 1024), frac(1014, 1024))));
}

#[test]
fn too_many_images_fail_the_build() {
    let mut builder = AssetsMgrBuilder::new();
    let mut images = Vec::new();
    for _ in 0..5 {
        builder.add_sprite("quarter.png");
        images.push(solid(500, 500, 1));
    }
    assert_eq!(builder.build(images, |_atlas| 0).err(), Some(AssetsMgrError::PackError));

    let mut builder = AssetsMgrBuilder::new();
    let mut images = Vec::new();
    for _ in 0..4 {
        builder.add_sprite("quarter.png");
        images.push(solid(500, 500, 1));
    }
    assert!(builder.build(images, |_atlas| 0).is_ok());
}

#[test]
fn places_are_fractions_of_the_atlas() {
    let mut builder = AssetsMgrBuilder::new();
    builder.add_sprite("a.png");
    builder.add_sprite("b.png");
    let mgr = builder.build(vec![solid(100, 50, 1), solid(30, 60, 2)], |_atlas| 0).unwrap();
    for id in 0..2 {
        let (x, y) = mgr.get_sprite_offset(id).unwrap();
        let (w, h) = mgr.get_sprite_size(id).unwrap();
        for s in [x, y, w, h] {
            assert_eq!(s.den, 1024);
            assert!(0 <= s.num && s.num <= s.den);
        }
    }
    // the first image goes to the corner that the paddings leave
    assert_eq!(mgr.get_sprite_offset(0), Some((frac(5, 1024), frac(1024 - 5, 1024))));
    assert_eq!(mgr.get_sprite_size(0), Some((frac(100, 1024), frac(50, 1024))));
    assert_eq!(mgr.get_sprite_size(1), Some((frac(30, 1024), frac(60, 1024))));
}

#[test]
fn frames_keep_their_distance() {
    let sizes: Vec<(u32, u32)> = vec![(50, 70), (350, 210), (255, 410), (10, 10), (300, 300), (64, 64)];
    let frames = pack_frames(&sizes).unwrap();
    assert_eq!(frames.len(), sizes.len());
    for (i, f) in frames.iter().enumerate() {
        assert_eq!((f.width, f.height), sizes[i]);
        assert!(f.x >= 5 && f.y >= 5);
        assert!(f.x + f.width + 5 <= 1024 && f.y + f.height + 5 <= 1024);
        for g in &frames[..i] {
            assert!(are_apart(f, g));
            let shares_a_column = f.x < g.x + g.width + 10 && g.x < f.x + f.width + 10;
            let shares_a_row = f.y < g.y + g.height + 10 && g.y < f.y + f.height + 10;
            assert!(!(shares_a_column && shares_a_row));
        }
    }
    assert_eq!(pack_frames(&Vec::new()), Some(Vec::new()));
    assert_eq!(pack_frames(&vec![(10, 10), (2000, 10)]), None);
    assert_eq!(pack_frames(&vec![(0, 10)]), None);
}

#[test]
fn proposals_are_examined() {
    let placed = vec![Frame { x: 5, y: 5, width: 100, height: 100 }];
    let good = Placement { x: 115, y: 5, width: 20, height: 30 };
    assert_eq!(
        accept(Some(good), 20, 30, &placed),
        Some(Frame { x: 115, y: 5, width: 20, height: 30 })
    );
    // nothing proposed
    assert_eq!(accept(None, 20, 30, &placed), None);
    // not the size that was asked for
    assert_eq!(accept(Some(good), 30, 20, &placed), None);
    // too close to the frame that is there
    assert_eq!(accept(Some(Placement { x: 114, y: 5, width: 20, height: 30 }), 20, 30, &placed), None);
    // over it
    assert_eq!(accept(Some(Placement { x: 50, y: 50, width: 20, height: 30 }), 20, 30, &placed), None);
    // too close to an edge
    assert_eq!(accept(Some(Placement { x: 4, y: 200, width: 20, height: 30 }), 20, 30, &placed), None);
    assert_eq!(accept(Some(Placement { x: 1000, y: 200, width: 20, height: 30 }), 20, 30, &placed), None);
    assert_eq!(accept(Some(Placement { x: 200, y: 990, width: 20, height: 30 }), 20, 30, &placed), None);
    // outside
    assert_eq!(accept(Some(Placement { x: -5, y: 200, width: 20, height: 30 }), 20, 30, &placed), None);
    // apart along a column only
    assert_eq!(
        accept(Some(Placement { x: 5, y: 115, width: 20, height: 30 }), 20, 30, &placed),
        Some(Frame { x: 5, y: 115, width: 20, height: 30 })
    );
}

#[test]
fn the_atlas_holds_each_image() {
    let frames = vec![
        Frame { x: 5, y: 5, width: 2, height: 3 },
        Frame { x: 17, y: 5, width: 4, height: 1 },
    ];
    let first = Bitmap::from_raw(
        2,
        3,
        (0..6u8).map(|i| Rgba { r: i, g: 10, b: 20, a: 255 }).collect(),
    )
    .unwrap();
    let second = Bitmap::from_raw(
        4,
        1,
        (0..4u8).map(|i| Rgba { r: 100 + i, g: 11, b: 21, a: 200 }).collect(),
    )
    .unwrap();
    let atlas = gen_atlas(&frames, &vec![first, second]);
    assert_eq!((atlas.width(), atlas.height()), (1024, 1024));
    let blank = Rgba { r: 0, g: 0, b: 0, a: 0 };
    for y in 0..12u32 {
        for x in 0..30u32 {
            let expected = if (5..7).contains(&x) && (5..8).contains(&y) {
                Rgba { r: ((y - 5) * 2 + (x - 5)) as u8, g: 10, b: 20, a: 255 }
            } else if (17..21).contains(&x) && y == 5 {
                Rgba { r: 100 + (x - 17) as u8, g: 11, b: 21, a: 200 }
            } else {
                blank
            };
            assert_eq!(atlas.get_pixel(x, y), Some(expected));
        }
    }
    assert_eq!(atlas.get_pixel(1023, 1023), Some(blank));
    assert_eq!(atlas.get_pixel(1024, 0), None);
}

#[test]
fn the_built_atlas_is_uploaded() {
    let seen = std::cell::Cell::new(None);
    let mut builder = AssetsMgrBuilder::new();
    builder.add_sprite("dot.png");
    let dot = Rgba { r: 9, g: 8, b: 7, a: 6 };
    let mgr = builder
        .build(vec![Bitmap::from_raw(1, 1, vec![dot]).unwrap()], |atlas| {
            seen.set(atlas.get_pixel(5, 5));
            3
        })
        .unwrap();
    assert_eq!(seen.get(), Some(dot));
    assert_eq!(mgr.get_atlas(), 3);
}

#[test]
fn path_lists_hash_alike() {
    let a = vec!["one.png".to_string(), "two.png".to_string()];
    let b = vec!["one.png".to_string(), "two.png".to_string()];
    let c = vec!["one.png".to_string(), "three.png".to_string()];
    assert_eq!(calculate_hash(&a), calculate_hash(&b));
    assert_ne!(calculate_hash(&a), calculate_hash(&c));
    assert_ne!(calculate_hash(&a), calculate_hash(&Vec::new()));
}

#[test]
fn the_same_sizes_pack_the_same() {
    let sizes: Vec<(u32, u32)> = vec![(300, 200), (300, 200), (500, 500), (64, 700), (1, 1)];
    let first = pack_frames(&sizes).unwrap();
    let second = pack_frames(&sizes).unwrap();
    assert_eq!(first, second);
    // the frames of the first images do not depend on what comes after them
    let front = pack_frames(&sizes[..3].to_vec()).unwrap();
    assert_eq!(front[..], first[..3]);
    // one image that finds no room among the others, though it fits alone
    let crowded: Vec<(u32, u32)> = vec![(600, 600), (600, 600), (600, 600)];
    assert_eq!(pack_frames(&crowded), None);
    assert_eq!(pack_frames(&crowded), None);
    assert!(pack_frames(&vec![(600, 600)]).is_some());
}
