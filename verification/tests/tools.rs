use streamline::tools::granted;
use streamline::tools::RcRef;

#[derive(Debug)]
struct NonCopiable {
    v: u32,
}

#[test]
fn rcref() {
    let v = NonCopiable { v: 101 };

    let a = RcRef::new(v);
    assert!(a.get().unwrap().v == 101);
    {
        let mut b = a.clone();
        assert!(b.get().unwrap().v == 101);
        b.get_mut().unwrap().v = 202;
        assert!(b.get().unwrap().v == 202);
    }
    assert!(a.get().unwrap().v == 202);
}

#[test]
fn rcref_refuses_a_second_writer() {
    let a = RcRef::new(7u32);
    let mut b = a.clone();
    let mut c = a.clone();
    let writer = b.get_mut();
    assert!(writer.is_some());
    assert!(c.get_mut().is_none());
    assert!(a.get().is_none());
    drop(writer);
    assert!(a.get().is_some());
    assert!(*a.get().unwrap() == 7);
}

#[test]
fn a_refusal_gives_no_guard() {
    assert_eq!(granted::<u32, &str>(Ok(5)), Some(5));
    assert_eq!(granted::<u32, &str>(Err("busy")), None);
}
