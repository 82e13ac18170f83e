use stage2::mem::byte_difference;
use stage2::memcmp;

#[test]
fn equal_ranges_compare_as_zero() {
    let mut region: Vec<u8> = Vec::new();
    let mut i: u8 = 0;
    while i < 40 {
        region.push(i.wrapping_mul(37));
        i += 1;
    }
    let copy: Vec<u8> = region.clone();
    region.extend_from_slice(&copy);
    for n in 0usize..41 {
        assert_eq!(memcmp(&region, 0x3000, 0x3000, 0x3000 + 40, n), 0);
    }
    assert_eq!(memcmp(&region, 0x3000, 0x3005, 0x3005, 30), 0);
}

#[test]
fn empty_ranges_compare_as_zero() {
    let region: Vec<u8> = vec![1, 2];
    assert_eq!(memcmp(&region, 0, 0, 1, 0), 0);
    assert_eq!(memcmp(&region, 900, 3, 70000, 0), 0);
}

#[test]
fn one_differing_byte_gives_its_difference() {
    let n: usize = 9;
    for at in 0usize..9 {
        let pairs: [(u8, u8); 4] = [(0, 255), (255, 0), (10, 11), (200, 10)];
        for &(a, b) in pairs.iter() {
            let mut region: Vec<u8> = vec![0x33; 18];
            region[at] = a;
            region[n + at] = b;
            let r: i32 = memcmp(&region, 0, 0, n, n);
            assert_eq!(r, i32::from(a) - i32::from(b));
            assert_ne!(r, 0);
            assert_eq!(r > 0, a > b);
            assert_eq!(memcmp(&region, 0, 0, n, at), 0);
        }
    }
}

#[test]
fn the_first_difference_decides() {
    let region: Vec<u8> = vec![1, 2, 3, 4, 1, 2, 9, 0];
    assert_eq!(memcmp(&region, 0, 0, 4, 4), -6);
    assert_eq!(memcmp(&region, 0, 4, 0, 4), 6);
    assert_eq!(memcmp(&region, 0, 0, 4, 2), 0);
    let wide: Vec<u8> = vec![0, 255];
    assert_eq!(memcmp(&wide, 0x10, 0x10, 0x11, 1), -255);
    assert_eq!(memcmp(&wide, 0x10, 0x11, 0x10, 1), 255);
}

#[test]
fn byte_difference_is_first_less_second() {
    assert_eq!(byte_difference(3, 9), -6);
    assert_eq!(byte_difference(255, 0), 255);
    assert_eq!(byte_difference(0, 255), -255);
    assert_eq!(byte_difference(77, 77), 0);
}
