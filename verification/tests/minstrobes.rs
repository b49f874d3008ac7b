//! Tests for the minimum-selection engine over a fixed sequence, checking
//! both order-2 and order-3 iteration.

use strobemers_rs::MinStrobes;

/// Fixed test sequence (ASCII bytes).
const SEQ: &[u8] = b"ACGATCTGGTACCTAG";
/// Length of each k-mer (strobe length).
const L: usize = 3;
/// Minimum window offset for selecting the next strobe.
const W_MIN: usize = 3;
/// Maximum window offset for selecting the next strobe.
const W_MAX: usize = 5;

#[test]
fn minstrobes_order2() {
    // Order-2 strobemers (dimers)
    let n = 2;
    let mut ms = MinStrobes::new(SEQ, n, L, W_MIN, W_MAX).unwrap();

    let mut iter_count = 0usize;
    while let Some(h) = ms.next() {
        iter_count += 1;

        let [i1, i2, _] = ms.indexes();  // For order-2, the third index is unused
        println!("{}", std::str::from_utf8(SEQ).unwrap());
        println!(
            "{:>width$}{} i1:{}",
            "",
            std::str::from_utf8(&SEQ[i1..i1 + L]).unwrap(),
            i1,
            width = i1
        );
        println!(
            "{:>width$}{} i2:{}",
            "",
            std::str::from_utf8(&SEQ[i2..i2 + L]).unwrap(),
            i2,
            width = i2
        );
        println!("{:>width$}{}\n", "", h, width = SEQ.len() + 1);
    }

    assert!(iter_count > 0, "iterator produced no items");
}

#[test]
fn minstrobes_order3() {
    // Order-3 strobemers (trimers)
    let n = 3;
    let mut ms = MinStrobes::new(SEQ, n, L, W_MIN, W_MAX).unwrap();

    let mut iter_count = 0usize;
    while let Some(h) = ms.next() {
        iter_count += 1;

        let [i1, i2, i3] = ms.indexes();
        println!("{}", std::str::from_utf8(SEQ).unwrap());
        println!(
            "{:>width$}{} i1:{}",
            "",
            std::str::from_utf8(&SEQ[i1..i1 + L]).unwrap(),
            i1,
            width = i1
        );
        println!(
            "{:>width$}{} i2:{}",
            "",
            std::str::from_utf8(&SEQ[i2..i2 + L]).unwrap(),
            i2,
            width = i2
        );
        println!(
            "{:>width$}{} i3:{}",
            "",
            std::str::from_utf8(&SEQ[i3..i3 + L]).unwrap(),
            i3,
            width = i3
        );
        println!("{:>width$}{}\n", "", h, width = SEQ.len() + 1);
    }

    assert!(iter_count > 0, "iterator produced no items");
}

#[test]
fn minstrobes_order2_basic() {
    // Basic smoke test: sequence "ACGTACGTACGT", order=2, k=3, w_min=1, w_max=4
    let mut ms = MinStrobes::new("ACGTACGTACGT".as_bytes(), 2, 3, 1, 4).unwrap();
    // Expect at least one strobemer
    assert!(ms.next().is_some());
}

#[test]
fn minstrobes_order3_basic() {
    // Basic smoke test: sequence repeated, order=3, k=3, w_min=1, w_max=4
    let seq = "ACGTACGTACGTACGTACGTACGT";
    let mut ms = MinStrobes::new(seq.as_bytes(), 3, 3, 1, 4).unwrap();
    // Take first 10 strobemers; expect exactly 10 values
    let mut count = 0usize;
    for _ in 0..10 {
        if ms.next().is_some() {
            count += 1;
        }
    }
    assert_eq!(count, 10);
}
