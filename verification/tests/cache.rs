use std::cell::Cell;
use streamline::assets::AssetsMgrBuilder;
use streamline::cache::do_hash;
use streamline::cache::VbCache;
use streamline::layout::LineLayout;
use streamline::layout::RectLayout;
use streamline::maths::vec2;
use streamline::maths::Scalar;
use streamline::queue::CmdQueue;
use streamline::queue::DrawCall;
use streamline::tools::LayoutHash;

fn whole(v: i128) -> Scalar {
    Scalar { num: v, den: 1 }
}

fn line(n: i128) -> LineLayout {
    LineLayout {
        layer: whole(n),
        x1: whole(0),
        y1: whole(0),
        x2: whole(1),
        y2: whole(1),
        r: whole(1),
        g: whole(1),
        b: whole(1),
        a: whole(1),
    }
}

#[test]
fn a_batch_is_built_once() {
    let built = Cell::new(0u32);
    let mut cache: VbCache<String> = VbCache::new();
    let batch = vec![line(1), line(2)];
    let same = vec![line(1), line(2)];
    let first = cache
        .test(&batch, || {
            built.set(built.get() + 1);
            "first".to_string()
        })
        .clone();
    let second = cache
        .test(&same, || {
            built.set(built.get() + 1);
            "second".to_string()
        })
        .clone();
    assert_eq!(built.get(), 1);
    assert_eq!(first, "first");
    assert_eq!(second, "first");
}

#[test]
fn one_field_makes_another_batch() {
    let batch = vec![line(1), line(2)];
    let mut fields: Vec<Box<dyn Fn(&mut LineLayout)>> = Vec::new();
    fields.push(Box::new(|l| l.layer.num += 1));
    fields.push(Box::new(|l| l.layer.den += 1));
    fields.push(Box::new(|l| l.x1.num += 1));
    fields.push(Box::new(|l| l.y1.num -= 1));
    fields.push(Box::new(|l| l.x2.den += 1));
    fields.push(Box::new(|l| l.y2.num += 1));
    fields.push(Box::new(|l| l.r.num = 0));
    fields.push(Box::new(|l| l.g.num = -1));
    fields.push(Box::new(|l| l.b.den = 2));
    fields.push(Box::new(|l| l.a.num = 1 << 100));
    for which in 0..2 {
        for change in &fields {
            let built = Cell::new(0u32);
            let mut cache: VbCache<u32> = VbCache::new();
            cache.test(&batch, || {
                built.set(built.get() + 1);
                1
            });
            let mut other = batch.clone();
            change(&mut other[which]);
            assert_ne!(do_hash(&batch), do_hash(&other));
            let got = *cache.test(&other, || {
                built.set(built.get() + 1);
                2
            });
            assert_eq!((built.get(), got), (2, 2));
        }
    }
}

#[test]
fn the_order_of_a_batch_counts() {
    assert_ne!(do_hash(&[line(1), line(2)]), do_hash(&[line(2), line(1)]));
    assert_ne!(do_hash(&[line(1)]), do_hash(&[line(1), line(1)]));
    assert_eq!(do_hash(&[line(1), line(2)]), do_hash(&vec![line(1), line(2)]));
}

#[test]
fn the_hash_is_that_of_the_bytes() {
    let mut bytes = Vec::new();
    line(1).hash(&mut bytes);
    assert_eq!(bytes.len(), 288);
    // numerator and denominator of the layer, lowest byte first
    assert_eq!(bytes[0], 1);
    assert!(bytes[1..16].iter().all(|b| *b == 0));
    assert_eq!(bytes[16], 1);
    assert!(bytes[17..32].iter().all(|b| *b == 0));
    line(-2).hash(&mut bytes);
    assert_eq!(bytes.len(), 576);
    assert_eq!(bytes[288], 0xfe);
    assert!(bytes[289..304].iter().all(|b| *b == 0xff));
    assert_eq!(do_hash(&[line(1), line(-2)]), seahash::hash(&bytes));

    let rect = RectLayout {
        layer: whole(1),
        x: whole(0),
        y: whole(0),
        w: whole(1),
        h: whole(1),
        r: whole(1),
        g: whole(1),
        b: whole(1),
        a: whole(1),
    };
    let mut other = Vec::new();
    rect.hash(&mut other);
    assert_eq!(other, bytes[..288].to_vec());
    assert_ne!(do_hash(&[line(1)]), 0);
    assert_eq!(do_hash::<LineLayout>(&[]), seahash::hash(&[]));
}

#[test]
fn the_batch_used_least_recently_is_forgotten() {
    let built = Cell::new(0u32);
    let mut cache: VbCache<i128> = VbCache::new();
    for n in 0..129 {
        let got = *cache.test(&[line(n)], || {
            built.set(built.get() + 1);
            n
        });
        assert_eq!(got, n);
    }
    assert_eq!(built.get(), 129);
    // all but the first are still there
    for n in 1..129 {
        let got = *cache.test(&[line(n)], || {
            built.set(built.get() + 1);
            -1
        });
        assert_eq!(got, n);
    }
    assert_eq!(built.get(), 129);
    // the first is built again
    let got = *cache.test(&[line(0)], || {
        built.set(built.get() + 1);
        1000
    });
    assert_eq!((built.get(), got), (130, 1000));
    // which cost the one that was used least recently by then its place
    let got = *cache.test(&[line(1)], || {
        built.set(built.get() + 1);
        1001
    });
    assert_eq!((built.get(), got), (131, 1001));
    let got = *cache.test(&[line(3)], || {
        built.set(built.get() + 1);
        1003
    });
    assert_eq!((built.get(), got), (131, 3));
}

#[test]
fn use_keeps_a_batch() {
    let built = Cell::new(0u32);
    let mut cache: VbCache<i128> = VbCache::new();
    for n in 0..128 {
        cache.test(&[line(n)], || n);
    }
    // the oldest is used again, so the second oldest goes first
    assert_eq!(*cache.test(&[line(0)], || -1), 0);
    cache.test(&[line(128)], || 128);
    let got = *cache.test(&[line(0)], || {
        built.set(built.get() + 1);
        -1
    });
    assert_eq!((built.get(), got), (0, 0));
    let got = *cache.test(&[line(1)], || {
        built.set(built.get() + 1);
        -1
    });
    assert_eq!((built.get(), got), (1, -1));
}

#[test]
fn the_same_lines_in_two_frames_are_built_once() {
    let ass = AssetsMgrBuilder::new().build(Vec::new(), |_atlas| 0).unwrap();
    let built = Cell::new(0u32);
    let mut cache: VbCache<usize> = VbCache::new();
    for _frame in 0..2 {
        let mut q = CmdQueue::new((800, 600), &ass);
        q.line(vec2(0, 10), vec2(800, 10), 1, 0);
        q.line(vec2(10, 0), vec2(10, 600), 1, 0);
        for call in q.done() {
            match call {
                DrawCall::Lines { lines, width } => {
                    assert_eq!(width, 1);
                    let vertices = *cache.test(&lines, || {
                        built.set(built.get() + 1);
                        2 * lines.len()
                    });
                    assert_eq!(vertices, 4);
                }
                other => panic!("not lines: {:?}", other),
            }
        }
    }
    assert_eq!(built.get(), 1);
}

#[test]
fn a_hash_names_a_resource() {
    let mut cache: VbCache<&str> = VbCache::new();
    assert_eq!(*cache.get_or_create(5, || "five"), "five");
    assert_eq!(*cache.get_or_create(6, || "six"), "six");
    // what is there is not built again
    assert_eq!(*cache.get_or_create(5, || "other"), "five");
    assert_eq!(*cache.get_or_create(6, || "other"), "six");
    assert_eq!(*cache.get_or_create(0, || "zero"), "zero");
}

#[test]
fn a_full_cache_forgets_one_hash() {
    let mut cache: VbCache<u64> = VbCache::new();
    for hash in 0..129u64 {
        assert_eq!(*cache.get_or_create(hash, || hash + 1000), hash + 1000);
    }
    for hash in 1..129u64 {
        assert_eq!(*cache.get_or_create(hash, || 0), hash + 1000);
    }
    assert_eq!(*cache.get_or_create(0, || 7), 7);
    // the cache was full, so hash 1, used least recently by then, made room
    assert_eq!(*cache.get_or_create(2, || 0), 1002);
    assert_eq!(*cache.get_or_create(1, || 8), 8);
    assert_eq!(*cache.get_or_create(0, || 0), 7);
}
