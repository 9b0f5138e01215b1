use jfa_outline::jfa::{jfa_pass_count, jfa_run, PingPong};
use jfa_outline::mask::{accumulate_mask, Fragment};
use jfa_outline::seed::{encode_snorm, seed_init, SeedTexel};
use jfa_outline::texture::Dims;

fn dims(width: usize, height: usize) -> Dims {
    Dims { width, height }
}

fn frag(x: usize, y: usize, contribution: u8) -> Fragment {
    Fragment { x, y, contribution }
}

/// Mask, seed init and full jump flood for a fragment list.
fn flood(d: Dims, frags: Vec<Fragment>) -> Vec<SeedTexel> {
    let mask = accumulate_mask(d, &frags);
    let init = seed_init(&mask, d);
    jfa_run(init, d)
}

#[test]
fn pass_count_formula() {
    // ceil(log2(max(w, h))) + 1 for a range of resolutions.
    assert_eq!(jfa_pass_count(dims(1, 1)), 1);
    assert_eq!(jfa_pass_count(dims(2, 2)), 2);
    assert_eq!(jfa_pass_count(dims(3, 3)), 3);
    assert_eq!(jfa_pass_count(dims(4, 4)), 3);
    assert_eq!(jfa_pass_count(dims(5, 1)), 4);
    assert_eq!(jfa_pass_count(dims(1, 7)), 4);
    assert_eq!(jfa_pass_count(dims(255, 128)), 9);
    assert_eq!(jfa_pass_count(dims(256, 256)), 9);
    assert_eq!(jfa_pass_count(dims(257, 16)), 10);
    assert_eq!(jfa_pass_count(dims(1920, 1080)), 12);
}

#[test]
fn pass_count_deterministic() {
    for (w, h) in [(1, 1), (3, 9), (640, 480), (256, 256)] {
        assert_eq!(jfa_pass_count(dims(w, h)), jfa_pass_count(dims(w, h)));
    }
}

#[test]
fn seed_init_covered_pixels_seed_themselves() {
    let d = dims(2, 2);
    let mask = accumulate_mask(d, &vec![frag(0, 0, 255), frag(1, 1, 1)]);
    let init = seed_init(&mask, d);
    assert_eq!(init[0], SeedTexel::Found { x: 0, y: 0 });
    assert_eq!(init[1], SeedTexel::Sentinel);
    assert_eq!(init[2], SeedTexel::Sentinel);
    assert_eq!(init[3], SeedTexel::Found { x: 1, y: 1 });
}

#[test]
fn mask_accumulation_is_saturating_and_clipped() {
    let d = dims(2, 2);
    let frags = vec![
        frag(0, 0, 200),
        frag(0, 0, 100), // saturates at 255
        frag(1, 0, 7),
        frag(5, 5, 9), // outside the viewport: clipped
    ];
    let mask = accumulate_mask(d, &frags);
    assert_eq!(mask, vec![255, 7, 0, 0]);
}

#[test]
fn mask_accumulation_is_order_independent() {
    let d = dims(3, 1);
    let a = accumulate_mask(d, &vec![frag(0, 0, 200), frag(0, 0, 100), frag(2, 0, 3)]);
    let b = accumulate_mask(d, &vec![frag(2, 0, 3), frag(0, 0, 100), frag(0, 0, 200)]);
    assert_eq!(a, b);
}

#[test]
fn single_seed_floods_entire_256x256_view() {
    let d = dims(256, 256);
    let out = flood(d, vec![frag(3, 200, 255)]);
    assert_eq!(out.len(), 256 * 256);
    for texel in &out {
        assert_eq!(*texel, SeedTexel::Found { x: 3, y: 200 });
    }
}

#[test]
fn tie_breaks_go_to_the_first_candidate_in_scan_order() {
    // Seeds at both ends of a 3x1 strip: the middle pixel is equally far
    // from both, and the scan visits the left neighbor first.
    let d = dims(3, 1);
    let out = flood(d, vec![frag(0, 0, 255), frag(2, 0, 255)]);
    assert_eq!(out[0], SeedTexel::Found { x: 0, y: 0 });
    assert_eq!(out[1], SeedTexel::Found { x: 0, y: 0 });
    assert_eq!(out[2], SeedTexel::Found { x: 2, y: 0 });
}

#[test]
fn seeds_descend_only_from_covered_pixels() {
    let d = dims(8, 8);
    let covered = [(1usize, 1usize), (6, 3)];
    let out = flood(d, covered.iter().map(|&(x, y)| frag(x, y, 255)).collect());
    for texel in &out {
        match *texel {
            SeedTexel::Sentinel => panic!("two seeds flood an 8x8 view completely"),
            SeedTexel::Found { x, y } => {
                assert!(covered.contains(&(x, y)));
            }
        }
    }
}

#[test]
fn empty_mask_stays_sentinel_through_all_passes() {
    let d = dims(4, 4);
    let out = flood(d, vec![]);
    for texel in &out {
        assert_eq!(*texel, SeedTexel::Sentinel);
    }
}

#[test]
fn rerun_on_unchanged_mask_is_bit_identical() {
    let d = dims(16, 16);
    let frags = vec![frag(2, 3, 255), frag(10, 12, 255), frag(15, 0, 9)];
    let a = flood(d, frags.clone());
    let b = flood(d, frags);
    assert_eq!(a, b);
}

#[test]
fn snorm_encoding_keeps_sentinel_out_of_range() {
    let d = dims(256, 256);
    let sentinel = encode_snorm(&SeedTexel::Sentinel, d);
    assert_eq!(sentinel, (-32768, -32768));

    // Valid coordinates always encode inside [-32767, 32767].
    let corners = [(0usize, 0usize), (255, 255), (127, 128), (0, 255)];
    for &(x, y) in &corners {
        let (cx, cy) = encode_snorm(&SeedTexel::Found { x, y }, d);
        assert!(cx >= -32767 && cx <= 32767);
        assert!(cy >= -32767 && cy <= 32767);
    }
}

#[test]
fn snorm_encoding_exact_values() {
    let d = dims(256, 256);
    assert_eq!(encode_snorm(&SeedTexel::Found { x: 0, y: 128 }, d), (-32640, 127));
    assert_eq!(encode_snorm(&SeedTexel::Found { x: 255, y: 127 }, d), (32639, -128));
}

#[test]
fn ping_pong_alternates_slots() {
    let first = vec![SeedTexel::Sentinel, SeedTexel::Found { x: 1, y: 0 }];
    let second = vec![SeedTexel::Found { x: 0, y: 0 }, SeedTexel::Sentinel];
    let mut pp = PingPong::new(first.clone());
    assert_eq!(*pp.read(), first);
    pp.write(second.clone());
    assert_eq!(*pp.read(), second);
    pp.write(first.clone());
    assert_eq!(*pp.read(), first);
    assert_eq!(pp.into_current(), first);
}
