//! Frames on their way to the encoder: resizing, keying, packing, NV12.

use vtcast::diagnostics::{alpha_stats, test_pattern, AlphaStats};
use vtcast::nv12::rgba_to_nv12;
use vtcast::packer::{apply_chroma_key, pack_rgba_side_by_side, packed_dims, ChromaKey};
use vtcast::pipeline::{compose_frame, frame_interval_ns, plan};
use vtcast::resize::{box_resize_rgba, compute_effective_dims};
use vtcast::scaling::Ratio;

/// A reproducible stream of bytes.
struct Noise(u64);

impl Noise {
    fn next(&mut self) -> u64 {
        self.0 ^= self.0 << 13;
        self.0 ^= self.0 >> 7;
        self.0 ^= self.0 << 17;
        self.0
    }

    fn bytes(&mut self, n: usize) -> Vec<u8> {
        (0..n).map(|_| (self.next() >> 24) as u8).collect()
    }
}

#[test]
fn chroma_key_green_screen() {
    let mut frame = vec![
        0, 255, 0, 255, // exact green key → alpha 0
        255, 0, 0, 255, // far from green → alpha 255
        10, 240, 10, 255, // close to green within threshold 60 → alpha 0
        80, 200, 80, 255, // in soft band (dist=80, t=60, s=30 → ramp)
    ];
    let key = ChromaKey { r: 0, g: 255, b: 0, threshold: 60, softness: 30 };
    apply_chroma_key(&mut frame, &key);
    assert_eq!(frame[3], 0, "green key → 0");
    assert_eq!(frame[7], 255, "red → 255");
    assert_eq!(frame[11], 0, "near-green within threshold → 0");
    // 4th pixel: max channel diff = max(80,55,80) = 80
    // threshold 60, dist=80, s=30 → ramp: (80-60)*255/30 = 170
    assert_eq!(frame[15], 170, "soft band ramp");
}

#[test]
fn chroma_key_default_is_a_green_screen() {
    let key = ChromaKey::default();
    assert_eq!(key, ChromaKey { r: 0, g: 255, b: 0, threshold: 60, softness: 30 });
}

#[test]
fn chroma_key_without_softness_is_a_step() {
    let key = ChromaKey { r: 0, g: 0, b: 0, threshold: 10, softness: 0 };
    let mut frame = vec![10, 0, 0, 9, 11, 0, 0, 9, 12, 0, 0, 9];
    apply_chroma_key(&mut frame, &key);
    assert_eq!(frame, vec![10, 0, 0, 0, 11, 0, 0, 255, 12, 0, 0, 255]);
}

#[test]
fn chroma_key_leaves_a_broken_pixel_alone() {
    let key = ChromaKey::default();
    let mut frame = vec![0, 255, 0, 77, 0, 255, 0];
    apply_chroma_key(&mut frame, &key);
    assert_eq!(frame, vec![0, 255, 0, 0, 0, 255, 0]);
}

#[test]
fn keying_twice_is_keying_once() {
    let mut once = Noise(7).bytes(400);
    let key = ChromaKey { r: 90, g: 100, b: 110, threshold: 40, softness: 50 };
    apply_chroma_key(&mut once, &key);
    let mut twice = once.clone();
    apply_chroma_key(&mut twice, &key);
    assert_eq!(once, twice);
}

#[test]
fn alpha_does_not_fall_with_the_distance() {
    let key = ChromaKey { r: 0, g: 0, b: 0, threshold: 20, softness: 77 };
    let mut last = 0u8;
    for d in 0..=255u8 {
        let mut px = [d, 0, 0, 1];
        apply_chroma_key(&mut px, &key);
        assert!(px[3] >= last);
        last = px[3];
    }
    assert_eq!(last, 255);
}

#[test]
fn packs_correctly() {
    // 2x1 source: red opaque pixel, then transparent green.
    let src = vec![
        255, 0, 0, 255, // (0,0) red, a=255
        0, 255, 0, 0, // (1,0) green, a=0
    ];
    let (dw, dh) = packed_dims(2, 1);
    assert_eq!((dw, dh), (4, 1));
    let mut dst = vec![0u8; (dw * dh * 4) as usize];
    pack_rgba_side_by_side(&src, 2, 1, &mut dst);
    assert_eq!(&dst[0..4], &[255, 0, 0, 255]); // left[0] = src.rgb
    assert_eq!(&dst[4..8], &[0, 255, 0, 255]); // left[1] = src.rgb
    assert_eq!(&dst[8..12], &[255, 255, 255, 255]); // right[0] = src.a
    assert_eq!(&dst[12..16], &[0, 0, 0, 255]); // right[1] = src.a
}

#[test]
fn a_receiver_recovers_what_was_packed() {
    let (w, h) = (5usize, 3usize);
    let src = Noise(99).bytes(w * h * 4);
    let mut dst = vec![0u8; w * h * 8];
    pack_rgba_side_by_side(&src, w as u32, h as u32, &mut dst);
    let mut back = Vec::new();
    for y in 0..h {
        for x in 0..w {
            let left = (y * 2 * w + x) * 4;
            let right = (y * 2 * w + w + x) * 4;
            back.extend_from_slice(&dst[left..left + 3]);
            back.push(dst[right]);
            assert_eq!(dst[right], dst[right + 1]);
            assert_eq!(dst[right], dst[right + 2]);
        }
    }
    assert_eq!(back, src);
}

#[test]
fn computes_even_dims_within_cap() {
    // Already small: returned as-is but even-clamped
    assert_eq!(compute_effective_dims(1920, 1080, 4096), (1920, 1080));
    assert_eq!(compute_effective_dims(1921, 1081, 4096), (1920, 1080));
    // Over the cap: 2746 -> 2048, height scaled proportionally and clamped even
    let (w, h) = compute_effective_dims(2746, 1534, 4096);
    assert_eq!(w, 2048);
    // 1534 * 2048 / 2746 ≈ 1144 (even)
    assert_eq!(h, 1144);
}

#[test]
fn effective_dims_at_the_edges() {
    assert_eq!(compute_effective_dims(0, 0, 4096), (0, 0));
    assert_eq!(compute_effective_dims(1, 1, 4096), (0, 0));
    // A cap of nothing still leaves two rows.
    assert_eq!(compute_effective_dims(10, 10, 1), (0, 2));
    assert_eq!(compute_effective_dims(10, 0, 4), (2, 2));
    assert_eq!(compute_effective_dims(u32::MAX, u32::MAX, u32::MAX), (2147483646, 2147483646));
}

#[test]
fn effective_dims_match_double_precision() {
    let mut noise = Noise(3);
    for _ in 0..20_000 {
        let src_w = 1 + (noise.next() % 20_000) as u32;
        let src_h = (noise.next() % 20_000) as u32;
        let cap = (noise.next() % 9_000) as u32;
        let max_src_w = cap / 2;
        let expected = if src_w <= max_src_w {
            (src_w & !1, src_h & !1)
        } else {
            let scale = max_src_w as f64 / src_w as f64;
            let new_h = ((src_h as f64 * scale).round() as u32) & !1;
            (max_src_w & !1, new_h.max(2))
        };
        assert_eq!(compute_effective_dims(src_w, src_h, cap), expected);
    }
}

#[test]
fn effective_dims_are_stable() {
    let mut noise = Noise(17);
    for _ in 0..2_000 {
        let w = (noise.next() % 9_000) as u32;
        let h = (noise.next() % 9_000) as u32;
        let (ew, eh) = compute_effective_dims(w, h, 4096);
        assert_eq!(compute_effective_dims(ew, eh, 4096), (ew, eh));
    }
}

#[test]
fn ratios_match_double_precision() {
    let mut noise = Noise(23);
    for _ in 0..20_000 {
        let a = noise.next() as u32;
        let b = (noise.next() as u32).max(1);
        let n = noise.next() as u32;
        let ratio = Ratio::new(a, b);
        let value = n as f64 * (a as f64 / b as f64);
        assert_eq!(ratio.floor_of(n), value.floor() as u128);
        assert_eq!(ratio.ceil_of(n), value.ceil() as u128);
        assert_eq!(ratio.round_of(n), value.round() as u128);
    }
}

#[test]
fn ratios_of_small_numbers_match_double_precision() {
    for b in 1u32..60 {
        for a in 0u32..60 {
            let ratio = Ratio::new(a, b);
            for n in 0u32..60 {
                let value = n as f64 * (a as f64 / b as f64);
                assert_eq!(ratio.floor_of(n), value.floor() as u128);
                assert_eq!(ratio.ceil_of(n), value.ceil() as u128);
                assert_eq!(ratio.round_of(n), value.round() as u128);
            }
        }
    }
}

#[test]
fn identity_resize_is_memcpy() {
    let src = vec![10, 20, 30, 40, 50, 60, 70, 80, 90, 100, 110, 120, 130, 140, 150, 160];
    let mut dst = vec![0u8; src.len()];
    box_resize_rgba(&src, 2, 2, &mut dst, 2, 2);
    assert_eq!(dst, src);
}

#[test]
fn averages_2x2_to_1x1() {
    let src = vec![
        0, 0, 0, 0, // (0,0) black
        100, 100, 100, 100, // (1,0)
        200, 200, 200, 200, // (0,1)
        44, 44, 44, 44, // (1,1)
    ];
    let mut dst = vec![0u8; 4];
    box_resize_rgba(&src, 2, 2, &mut dst, 1, 1);
    // average = (0 + 100 + 200 + 44) / 4 = 86 per channel
    assert_eq!(dst, vec![86, 86, 86, 86]);
}

/// The box filter in double precision.
fn naive_resize(src: &[u8], sw: usize, sh: usize, dw: usize, dh: usize) -> Vec<u8> {
    let xr = sw as f64 / dw as f64;
    let yr = sh as f64 / dh as f64;
    let mut dst = vec![0u8; dw * dh * 4];
    for dy in 0..dh {
        let y0 = (dy as f64 * yr).floor() as usize;
        let y1 = (((dy as f64 + 1.0) * yr).ceil() as usize).min(sh).max(y0 + 1);
        for dx in 0..dw {
            let x0 = (dx as f64 * xr).floor() as usize;
            let x1 = (((dx as f64 + 1.0) * xr).ceil() as usize).min(sw).max(x0 + 1);
            for c in 0..4 {
                let mut sum = 0u32;
                let mut n = 0u32;
                for y in y0..y1 {
                    for x in x0..x1 {
                        sum += src[(y * sw + x) * 4 + c] as u32;
                        n += 1;
                    }
                }
                dst[(dy * dw + dx) * 4 + c] = (sum / n) as u8;
            }
        }
    }
    dst
}

#[test]
fn resizing_matches_double_precision() {
    let mut noise = Noise(5);
    let cases = [(7, 5, 3, 2), (10, 10, 3, 7), (3, 3, 7, 5), (49, 2, 33, 1), (1, 1, 4, 4), (6, 4, 3, 4)];
    for (sw, sh, dw, dh) in cases {
        let src = noise.bytes(sw * sh * 4);
        let mut dst = vec![0u8; dw * dh * 4];
        box_resize_rgba(&src, sw as u32, sh as u32, &mut dst, dw as u32, dh as u32);
        assert_eq!(dst, naive_resize(&src, sw, sh, dw, dh));
    }
}

#[test]
fn doubling_then_halving_gives_the_frame_back() {
    for (w, h) in [(1u32, 1u32), (3, 2), (7, 5), (16, 9)] {
        let len = (w * h * 4) as usize;
        let src: Vec<u8> = (0..len).map(|i| (i * 37 + i / 4 * 11) as u8).collect();
        let mut up = vec![0u8; 4 * len];
        box_resize_rgba(&src, w, h, &mut up, 2 * w, 2 * h);
        assert_eq!(up[0..4], src[0..4]);
        assert_eq!(up[4..8], src[0..4]);
        let mut back = vec![0u8; len];
        box_resize_rgba(&up, 2 * w, 2 * h, &mut back, w, h);
        assert_eq!(back, src);
    }
}

#[test]
fn resizing_to_nothing_is_nothing() {
    let mut dst: Vec<u8> = Vec::new();
    box_resize_rgba(&[1, 2, 3, 4], 1, 1, &mut dst, 0, 5);
    assert!(dst.is_empty());
}

/// The conversion in single precision.
fn naive_nv12(rgba: &[u8], w: usize, h: usize, nv12: &mut [u8]) {
    let (ys, uvs) = nv12.split_at_mut(w * h);
    for p in 0..w * h {
        let (r, g, b) = (rgba[4 * p] as f32, rgba[4 * p + 1] as f32, rgba[4 * p + 2] as f32);
        let y = 0.257 * r + 0.504 * g + 0.098 * b + 16.0;
        ys[p] = y.clamp(0.0, 255.0) as u8;
    }
    for yy in 0..h / 2 {
        for xx in 0..w / 2 {
            let mut sums = [0f32; 3];
            for dy in 0..2 {
                for dx in 0..2 {
                    let i = ((yy * 2 + dy) * w + xx * 2 + dx) * 4;
                    for c in 0..3 {
                        sums[c] += rgba[i + c] as f32;
                    }
                }
            }
            let (r, g, b) = (sums[0] / 4.0, sums[1] / 4.0, sums[2] / 4.0);
            let u = -0.148 * r - 0.291 * g + 0.439 * b + 128.0;
            let v = 0.439 * r - 0.368 * g - 0.071 * b + 128.0;
            let at = (yy * (w / 2) + xx) * 2;
            uvs[at] = u.clamp(0.0, 255.0) as u8;
            uvs[at + 1] = v.clamp(0.0, 255.0) as u8;
        }
    }
}

#[test]
fn nv12_matches_single_precision() {
    let mut noise = Noise(11);
    for (w, h) in [(64usize, 64usize), (2, 2), (7, 5), (1, 1), (6, 3)] {
        for _ in 0..8 {
            let rgba = noise.bytes(w * h * 4);
            let mut got = vec![9u8; w * h * 3 / 2];
            let mut want = got.clone();
            rgba_to_nv12(&rgba, w as u32, h as u32, &mut got);
            naive_nv12(&rgba, w, h, &mut want);
            assert_eq!(got, want);
        }
    }
}

#[test]
fn nv12_of_every_grey_matches_single_precision() {
    let mut rgba = Vec::new();
    for v in 0..=255u8 {
        for _ in 0..4 {
            rgba.extend_from_slice(&[v, v, v, 255]);
        }
    }
    // 2 by 512: each grey fills two rows.
    let (w, h) = (2usize, 512usize);
    let mut got = vec![0u8; w * h * 3 / 2];
    let mut want = got.clone();
    rgba_to_nv12(&rgba, w as u32, h as u32, &mut got);
    naive_nv12(&rgba, w, h, &mut want);
    assert_eq!(got, want);
}

#[test]
fn nv12_of_primary_colors() {
    let mut nv12 = vec![0u8; 6];
    let red = [255u8, 0, 0, 255].repeat(4);
    rgba_to_nv12(&red, 2, 2, &mut nv12);
    // 81.535, 90.26 and 239.945 rounded down
    assert_eq!(nv12, vec![81, 81, 81, 81, 90, 239]);
    let black = [0u8, 0, 0, 255].repeat(4);
    rgba_to_nv12(&black, 2, 2, &mut nv12);
    assert_eq!(nv12, vec![16, 16, 16, 16, 128, 128]);
}

#[test]
fn luma_is_the_weighted_sum() {
    let mut noise = Noise(31);
    for _ in 0..5_000 {
        let px = noise.bytes(4);
        let mut out = [0u8; 1];
        rgba_to_nv12(&px, 1, 1, &mut out);
        let n = 257 * px[0] as u32 + 504 * px[1] as u32 + 98 * px[2] as u32 + 16000;
        if n % 1000 != 0 {
            assert_eq!(out[0] as u32, n / 1000);
        } else {
            assert!(out[0] as u32 == n / 1000 || out[0] as u32 + 1 == n / 1000);
        }
    }
}

#[test]
fn intervals_match_double_precision() {
    for fps in 1..=5_000u32 {
        let want = std::time::Duration::from_secs_f64(1.0 / fps as f64);
        assert_eq!(frame_interval_ns(fps) as u128, want.as_nanos());
    }
    assert_eq!(frame_interval_ns(30), 33_333_333);
    assert_eq!(frame_interval_ns(60), 16_666_667);
    assert_eq!(frame_interval_ns(u32::MAX), 0);
}

#[test]
fn composing_downscales_keys_and_packs() {
    let plan = plan(4, 2, 4, 30).unwrap();
    assert_eq!((plan.src_w, plan.src_h, plan.packed_w, plan.packed_h), (2, 2, 4, 2));
    let mut raw = Noise(41).bytes(4 * 2 * 4);
    let before = raw.clone();
    let key = ChromaKey { r: 100, g: 100, b: 100, threshold: 50, softness: 60 };
    let got = compose_frame(&plan, &Some(key), &mut raw);
    assert_eq!(raw, before);
    let mut small = vec![0u8; 2 * 2 * 4];
    box_resize_rgba(&before, 4, 2, &mut small, 2, 2);
    apply_chroma_key(&mut small, &key);
    let mut want = vec![0u8; 4 * 2 * 4];
    pack_rgba_side_by_side(&small, 2, 2, &mut want);
    assert_eq!(got, want);
}

#[test]
fn composing_without_downscaling_keys_in_place() {
    let plan = plan(2, 2, 4096, 30).unwrap();
    let mut raw = Noise(43).bytes(16);
    let mut keyed = raw.clone();
    let key = ChromaKey::default();
    apply_chroma_key(&mut keyed, &key);
    let got = compose_frame(&plan, &Some(key), &mut raw);
    assert_eq!(raw, keyed);
    let mut want = vec![0u8; 32];
    pack_rgba_side_by_side(&keyed, 2, 2, &mut want);
    assert_eq!(got, want);
}

#[test]
fn composing_without_a_key_keeps_alpha() {
    let plan = plan(2, 2, 4096, 30).unwrap();
    let mut raw = Noise(47).bytes(16);
    let got = compose_frame(&plan, &None, &mut raw);
    let mut want = vec![0u8; 32];
    pack_rgba_side_by_side(&raw, 2, 2, &mut want);
    assert_eq!(got, want);
}

#[test]
fn plans_that_cannot_be() {
    assert!(plan(10, 0, 4, 30).is_none());
    assert!(plan(u32::MAX, u32::MAX, u32::MAX, 30).is_none());
    let empty = plan(0, 0, 4096, 30).unwrap();
    let mut raw = Vec::new();
    assert!(compose_frame(&empty, &None, &mut raw).is_empty());
}

#[test]
fn alphas_are_summed_up() {
    let frame = [9, 9, 9, 100, 9, 9, 9, 7, 9, 9, 9, 200, 1, 2];
    assert_eq!(alpha_stats(&frame), AlphaStats { min: 7, max: 200, sum: 307, pixels: 3 });
    assert_eq!(alpha_stats(&[]), AlphaStats { min: 255, max: 0, sum: 0, pixels: 0 });
}

#[test]
fn test_pictures_move() {
    let picture = test_pattern(9, 2, 254);
    assert_eq!(picture.len(), 72);
    assert_eq!(&picture[..4], &[254, 1, 128, 255]);
    assert_eq!(&picture[16..20], &[255, 0, 128, 255]);
    assert_eq!(&picture[32..36], &[0, 255, 128, 255]);
    assert_eq!(&picture[..36], &picture[36..]);
    assert_eq!(test_pattern(1, 1, u32::MAX), vec![255, 0, 128, 255]);
    assert!(test_pattern(0, 5, 0).is_empty());
}
