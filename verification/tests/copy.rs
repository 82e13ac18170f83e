use stage2::{memcpy, memmove};

fn numbered(len: usize) -> Vec<u8> {
    let mut v: Vec<u8> = Vec::new();
    let mut i: usize = 0;
    while i < len {
        v.push(((i * 7 + 3) % 251) as u8);
        i += 1;
    }
    v
}

fn copy_bytes_up(m: &mut [u8], d: usize, s: usize, n: usize) {
    let mut i: usize = 0;
    while i < n {
        m[d + i] = m[s + i];
        i += 1;
    }
}

fn move_by_snapshot(m: &mut [u8], d: usize, s: usize, n: usize) {
    let saved: Vec<u8> = m[s..s + n].to_vec();
    let mut i: usize = 0;
    while i < n {
        m[d + i] = saved[i];
        i += 1;
    }
}

#[test]
fn copy_between_disjoint_ranges_keeps_the_source() {
    let lengths: [usize; 8] = [0, 1, 3, 4, 5, 8, 13, 16];
    for &n in lengths.iter() {
        for s in 0usize..5 {
            for gap in 0usize..5 {
                let d: usize = s + n + gap;
                let before: Vec<u8> = numbered(48);
                let mut after: Vec<u8> = before.clone();
                let r: usize = memcpy(&mut after, 0x1000, 0x1000 + d, 0x1000 + s, n);
                assert_eq!(r, 0x1000 + d);
                assert_eq!(&after[d..d + n], &before[s..s + n]);
                assert_eq!(&after[s..s + n], &before[s..s + n]);
                assert_eq!(&after[..d], &before[..d]);
                assert_eq!(&after[d + n..], &before[d + n..]);
            }
        }
    }
}

#[test]
fn copy_to_a_lower_disjoint_range() {
    let before: Vec<u8> = numbered(32);
    let mut after: Vec<u8> = before.clone();
    let r: usize = memcpy(&mut after, 64, 64 + 4, 64 + 16, 12);
    assert_eq!(r, 68);
    assert_eq!(&after[4..16], &before[16..28]);
    assert_eq!(&after[16..], &before[16..]);
    assert_eq!(&after[..4], &before[..4]);
}

#[test]
fn copy_equals_the_bytewise_copy_for_every_alignment() {
    let bases: [usize; 3] = [0, 0x7c00, 0x7c01];
    for &base in bases.iter() {
        for d in 0usize..9 {
            for s in 0usize..9 {
                for n in 0usize..18 {
                    let mut expected: Vec<u8> = numbered(32);
                    let mut actual: Vec<u8> = expected.clone();
                    copy_bytes_up(&mut expected, d, s, n);
                    let r: usize = memcpy(&mut actual, base, base + d, base + s, n);
                    assert_eq!(r, base + d);
                    assert_eq!(actual, expected);
                }
            }
        }
    }
}

#[test]
fn copy_over_an_overlap_rereads_what_it_wrote() {
    let mut bytes: Vec<u8> = vec![1, 2, 3, 4, 5, 6, 7, 8];
    memcpy(&mut bytes, 0, 2, 0, 6);
    assert_eq!(bytes, vec![1, 2, 1, 2, 1, 2, 1, 2]);
    let mut words: Vec<u8> = vec![1, 2, 3, 4, 5, 6, 7, 8, 9, 10, 11, 12];
    memcpy(&mut words, 0, 4, 0, 8);
    assert_eq!(words, vec![1, 2, 3, 4, 1, 2, 3, 4, 1, 2, 3, 4]);
}

#[test]
fn copy_of_nothing_changes_nothing() {
    let before: Vec<u8> = numbered(8);
    let mut after: Vec<u8> = before.clone();
    assert_eq!(memcpy(&mut after, 100, 4, 5000, 0), 4);
    assert_eq!(memmove(&mut after, 100, 5000, 4, 0), 5000);
    assert_eq!(after, before);
}

#[test]
fn move_equals_the_snapshot_move_for_every_overlap() {
    let bases: [usize; 3] = [0, 0x10000, 0x10003];
    for &base in bases.iter() {
        for d in 0usize..13 {
            for s in 0usize..13 {
                for n in 0usize..18 {
                    let mut expected: Vec<u8> = numbered(32);
                    let mut actual: Vec<u8> = expected.clone();
                    move_by_snapshot(&mut expected, d, s, n);
                    let r: usize = memmove(&mut actual, base, base + d, base + s, n);
                    assert_eq!(r, base + d);
                    assert_eq!(actual, expected);
                }
            }
        }
    }
}

#[test]
fn move_by_words_in_both_directions() {
    let mut up: Vec<u8> = vec![1, 2, 3, 4, 5, 6, 7, 8, 9, 10, 11, 12];
    memmove(&mut up, 0x8000, 0x8004, 0x8000, 8);
    assert_eq!(up, vec![1, 2, 3, 4, 1, 2, 3, 4, 5, 6, 7, 8]);
    let mut down: Vec<u8> = vec![1, 2, 3, 4, 5, 6, 7, 8, 9, 10, 11, 12];
    memmove(&mut down, 0x8000, 0x8000, 0x8004, 8);
    assert_eq!(down, vec![5, 6, 7, 8, 9, 10, 11, 12, 9, 10, 11, 12]);
}

#[test]
fn move_onto_itself_changes_nothing() {
    let before: Vec<u8> = numbered(16);
    let mut after: Vec<u8> = before.clone();
    assert_eq!(memmove(&mut after, 0, 3, 3, 9), 3);
    assert_eq!(after, before);
}

#[test]
fn move_there_and_back_restores_the_buffer() {
    for d in 0usize..10 {
        for s in 0usize..10 {
            for n in 0usize..12 {
                let before: Vec<u8> = numbered(24);
                let mut after: Vec<u8> = before.clone();
                let saved: Vec<u8> = before[d..d + n].to_vec();
                memmove(&mut after, 0x500, 0x500 + d, 0x500 + s, n);
                memmove(&mut after, 0x500, 0x500 + s, 0x500 + d, n);
                assert_eq!(&after[s..s + n], &before[s..s + n]);
                let mut j: usize = d;
                while j < d + n {
                    if j < s || j >= s + n {
                        assert_eq!(after[j], before[s + (j - d)]);
                        after[j] = saved[j - d];
                    }
                    j += 1;
                }
                assert_eq!(after, before);
            }
        }
    }
}

#[test]
fn move_there_and_back_without_a_snapshot_loses_the_destination() {
    let mut bytes: Vec<u8> = vec![1, 2, 3, 4];
    memmove(&mut bytes, 0, 2, 0, 2);
    memmove(&mut bytes, 0, 0, 2, 2);
    assert_eq!(bytes, vec![1, 2, 1, 2]);
}

#[test]
fn copy_then_overlapping_move_scenario() {
    let mut region: Vec<u8> = vec![1, 2, 3, 4, 5, 6, 7, 8, 0, 0, 0, 0];
    let r: usize = memcpy(&mut region, 0x2000, 0x2008, 0x2000, 4);
    assert_eq!(r, 0x2008);
    assert_eq!(&region[8..], &[1, 2, 3, 4]);
    assert_eq!(&region[..8], &[1, 2, 3, 4, 5, 6, 7, 8]);

    let mut halves: Vec<u8> = vec![1, 2, 3, 4, 5, 6, 7, 8];
    assert_eq!(memcpy(&mut halves, 0, 4, 0, 4), 4);
    assert_eq!(halves, vec![1, 2, 3, 4, 1, 2, 3, 4]);

    let mut buf: Vec<u8> = vec![1, 2, 3, 4, 5, 6, 7, 8];
    let r: usize = memmove(&mut buf, 0, 2, 0, 6);
    assert_eq!(r, 2);
    assert_eq!(buf, vec![1, 2, 1, 2, 3, 4, 5, 6]);
}
