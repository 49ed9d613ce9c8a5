use testkit::samples::{fill_with_generator, fill_with_seq, fill_with_seq_gen, fill_with_value};

struct Gen(u32, u32);

#[test]
fn test_fill_with_value() {
    let mut v: [u32; 6] = [0; 6];
    fill_with_value(&mut v, 255);
    let exp: [u32; 6] = [255; 6];
    assert_eq!(&v, &exp);
}

#[test]
fn test_fill_with_seq() {
    let mut v: [u32; 6] = [0; 6];
    fill_with_seq(&mut v, 0, 3);
    let exp: [u32; 6] = [0, 3, 6, 9, 12, 15];
    assert_eq!(&v, &exp);
}

#[test]
fn test_fill_with_seq_gen() {
    let mut v: [u32; 6] = [0; 6];
    // Using a generator based on the Collatz conjecture.
    fill_with_seq_gen(&mut v, 5, |v| if v % 2 == 0 { v / 2 } else { 3 * v + 1 });
    let exp: [u32; 6] = [5, 16, 8, 4, 2, 1];
    assert_eq!(&v, &exp);
}

#[test]
fn test_fill_with_generator() {
    let mut v: [u32; 6] = [0; 6];
    let mut g: Gen = Gen { 0: 0, 1: 1 };

    // A Fibonacci generator: draws the first number and moves one step on.
    fill_with_generator(&mut v, &mut g, |g: &Gen| (g.0, Gen(g.1, g.1 + g.0)));
    let exp: [u32; 6] = [0, 1, 1, 2, 3, 5];
    assert_eq!(&v, &exp);
}

#[test]
fn generator_ends_in_last_state() {
    let mut v: [u32; 6] = [0; 6];
    let mut g: Gen = Gen(0, 1);
    fill_with_generator(&mut v, &mut g, |g: &Gen| (g.0, Gen(g.1, g.1 + g.0)));
    assert_eq!((g.0, g.1), (8, 13));
}

#[test]
fn fill_empty_slices() {
    let mut v: [u32; 0] = [];
    fill_with_value(&mut v, 7);
    fill_with_seq(&mut v, u32::MAX, 1);
    fill_with_seq_gen(&mut v, 1, |x| x + 1);
    let mut g: Gen = Gen(4, 5);
    fill_with_generator(&mut v, &mut g, |g: &Gen| (g.0, Gen(g.1, g.1 + g.0)));
    assert_eq!((g.0, g.1), (4, 5));
}

#[test]
fn fill_with_seq_negative_step() {
    let mut v: [i8; 4] = [0; 4];
    fill_with_seq(&mut v, 100, -75);
    assert_eq!(v, [100, 25, -50, -125]);
}

#[test]
fn fill_with_seq_reaches_max_without_overflow() {
    let mut v: [u8; 3] = [0; 3];
    fill_with_seq(&mut v, 245, 5);
    assert_eq!(v, [245, 250, 255]);
}

#[test]
fn fill_with_value_overwrites_all() {
    let mut v: Vec<u64> = vec![1, 2, 3];
    fill_with_value(&mut v, 9);
    assert_eq!(v, vec![9, 9, 9]);
}

#[test]
fn seq_gen_single_element_never_calls_gen() {
    let mut v: [u32; 1] = [0];
    fill_with_seq_gen(&mut v, u32::MAX, |x| x + 1);
    assert_eq!(v, [u32::MAX]);
}

#[test]
fn generator_single_draw() {
    let mut v: [u32; 1] = [0];
    let mut g: Gen = Gen(3, 4);
    fill_with_generator(&mut v, &mut g, |g: &Gen| (g.0, Gen(g.1, g.1 + g.0)));
    assert_eq!(v, [3]);
    assert_eq!((g.0, g.1), (4, 7));
}
