use comic_enc::natural::{natural_cmp, natural_cmp_int, simple_cmp};
use std::cmp::Ordering;

#[test]
fn numbers_compare_by_value() {
    assert_eq!(natural_cmp(b"page2", b"page10"), Ordering::Less);
    assert_eq!(natural_cmp(b"page10", b"page2"), Ordering::Greater);
    assert_eq!(simple_cmp(b"page2", b"page10"), Ordering::Greater);
}

#[test]
fn leading_zeros_tie() {
    assert_eq!(natural_cmp(b"007", b"7"), Ordering::Equal);
    assert_eq!(natural_cmp(b"p007.png", b"p7.png"), Ordering::Equal);
    assert_eq!(natural_cmp(b"0", b"00"), Ordering::Equal);
}

#[test]
fn long_digit_runs_do_not_overflow() {
    let a = b"x123456789012345678901234567890";
    let b = b"x123456789012345678901234567891";
    assert_eq!(natural_cmp(a, b), Ordering::Less);
    assert_eq!(natural_cmp(b"x99999999999999999999999", b"x100000000000000000000000"), Ordering::Less);
}

#[test]
fn text_runs_and_prefixes() {
    assert_eq!(natural_cmp(b"a", b"b"), Ordering::Less);
    assert_eq!(natural_cmp(b"page", b"page1"), Ordering::Less);
    assert_eq!(natural_cmp(b"", b""), Ordering::Equal);
    assert_eq!(natural_cmp(b"", b"a"), Ordering::Less);
    assert_eq!(natural_cmp(b"1a", b"a1"), Ordering::Less);
}

#[test]
fn order_is_consistent_on_samples() {
    let names: Vec<&[u8]> = vec![
        b"p1.png", b"p10.png", b"p2.png", b"p02.png", b"q", b"p", b"10", b"9", b"a10b2", b"a10b10",
    ];
    for a in &names {
        assert_eq!(natural_cmp_int(a, a), 0);
        for b in &names {
            assert_eq!(natural_cmp_int(a, b), -natural_cmp_int(b, a));
            for c in &names {
                if natural_cmp_int(a, b) <= 0 && natural_cmp_int(b, c) <= 0 {
                    assert!(natural_cmp_int(a, c) <= 0);
                }
            }
        }
    }
    let mut sorted = vec!["p10.png", "p2.png", "p1.png"];
    sorted.sort_by(|a, b| natural_cmp(a.as_bytes(), b.as_bytes()));
    assert_eq!(sorted, vec!["p1.png", "p2.png", "p10.png"]);
}

#[test]
fn pages_sorted_naturally_or_simply() {
    let mut v: Vec<String> = ["p10.png", "p2.png", "p1.png", "p02.png"].iter().map(|s| s.to_string()).collect();
    comic_enc::natural::sort_pages(&mut v, false);
    assert_eq!(v[0], "p1.png");
    assert!(v[1] == "p2.png" || v[1] == "p02.png");
    assert!(v[2] == "p2.png" || v[2] == "p02.png");
    assert_eq!(v[3], "p10.png");
    comic_enc::natural::sort_pages(&mut v, true);
    assert_eq!(v, vec!["p02.png", "p1.png", "p10.png", "p2.png"]);
    let mut empty: Vec<String> = Vec::new();
    comic_enc::natural::sort_pages(&mut empty, false);
    assert!(empty.is_empty());
}
