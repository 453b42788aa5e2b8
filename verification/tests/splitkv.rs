use candle_attention::flash::splitkv::{
    num_splits_heuristic, set_params_splitkv, splitkv_allowed, splitkv_dispatch_bucket,
    SplitKvAccum, SPLITKV_BLOCK_M, SPLITKV_BLOCK_N,
};
use candle_attention::math::{div_ceil, round_multiple};

fn ceil_div(a: u128, b: u128) -> u128 {
    (a + b - 1) / b
}

/// The smallest split count within 85 percent of the best, by trying all.
fn by_trying_all(b: u128, sms: u128, blocks: u128, cap: u128) -> u128 {
    if 5 * b >= 4 * sms {
        return 1;
    }
    let limit = cap.min(sms).min(blocks);
    let mut counts: Vec<u128> = Vec::new();
    for n in 1..=limit {
        if n == 1 || ceil_div(blocks, n) != ceil_div(blocks, n - 1) {
            counts.push(n);
        }
    }
    for &n in &counts {
        let fine = counts.iter().all(|&m| {
            let wn = ceil_div(b * n, sms);
            let wm = ceil_div(b * m, sms);
            100 * b * n * wm >= 85 * b * m * wn
        });
        if fine {
            return n;
        }
    }
    1
}

#[test]
fn heuristic_exact_values() {
    assert_eq!(num_splits_heuristic(8, 216, 256, 128), 24);
    assert_eq!(num_splits_heuristic(1, 216, 256, 128), 128);
    assert_eq!(num_splits_heuristic(32, 216, 64, 128), 6);
    assert_eq!(num_splits_heuristic(16, 264, 128, 128), 15);
    assert_eq!(num_splits_heuristic(12, 216, 11, 128), 11);
}

#[test]
fn heuristic_nearly_full_grid_does_not_split() {
    assert_eq!(num_splits_heuristic(172, 216, 64, 128), 5);
    assert_eq!(num_splits_heuristic(173, 216, 64, 128), 1);
    assert_eq!(num_splits_heuristic(216, 216, 64, 128), 1);
    assert_eq!(num_splits_heuristic(usize::MAX, 216, 64, 128), 1);
    assert_eq!(num_splits_heuristic(usize::MAX, usize::MAX, 64, 128), 1);
}

#[test]
fn heuristic_is_capped() {
    assert_eq!(num_splits_heuristic(1, 10, 64, 4), 4);
    assert_eq!(num_splits_heuristic(1, 216, 0, 128), 1);
    assert_eq!(num_splits_heuristic(1, 216, 64, 0), 1);
    assert_eq!(num_splits_heuristic(0, 216, 64, 128), 1);
    assert_eq!(num_splits_heuristic(1, 0, 64, 128), 1);
}

#[test]
fn heuristic_counts_exactly_85_percent_as_enough() {
    // 17 splits reach 17 of 22 places, which is 85 percent of the 20 of 22 of
    // the best count.
    assert_eq!(num_splits_heuristic(1, 22, 97, 128), 17);
}

#[test]
fn heuristic_agrees_with_trying_all() {
    for b in [1usize, 2, 3, 7, 8, 12, 31, 64, 100] {
        for sms in [1usize, 2, 8, 22, 108, 132, 216, 264] {
            for blocks in [1usize, 2, 5, 11, 17, 32, 64, 97, 200] {
                for cap in [1usize, 4, 128] {
                    let want =
                        by_trying_all(b as u128, sms as u128, blocks as u128, cap as u128);
                    let got = num_splits_heuristic(b, sms, blocks, cap);
                    assert_eq!(got as u128, want, "{b} {sms} {blocks} {cap}");
                }
            }
        }
    }
}

#[test]
fn buckets() {
    let want = [
        (0, 64),
        (1, 64),
        (64, 64),
        (65, 128),
        (128, 128),
        (129, 256),
        (256, 256),
        (257, 512),
        (512, 512),
        (1000, 512),
    ];
    for (head, bucket) in want {
        assert_eq!(splitkv_dispatch_bucket(head), bucket);
    }
}

#[test]
fn only_bucket_sized_heads_may_split() {
    for head in [64usize, 128, 256] {
        assert!(splitkv_allowed(head, head));
    }
    // Rows would be as far apart as the bucket, not as the accumulators.
    for head in [32usize, 96, 160, 192, 224] {
        assert!(!splitkv_allowed(head, head));
    }
    assert!(!splitkv_allowed(512, 512));
    assert!(splitkv_allowed(40, 64));
    assert!(!splitkv_allowed(64, 128));
}

#[test]
fn heads_that_split_after_rounding() {
    for head in 0usize..=300 {
        let rounded = round_multiple(head, 32);
        let want = (33..=64).contains(&head)
            || (97..=128).contains(&head)
            || (225..=256).contains(&head);
        assert_eq!(splitkv_allowed(head, rounded), want, "{head}");
    }
}

#[test]
fn long_context_decode_splits() {
    // 8 heads, 256 blocks of keys, 216 places for thread blocks.
    let seqlen_k = 256 * SPLITKV_BLOCK_N;
    let (n, accum) = set_params_splitkv(108, 1, 8, 128, 128, 1, seqlen_k);
    assert_eq!(n, 24);
    assert_eq!(
        accum,
        Some(SplitKvAccum {
            lse_len: 24 * 8,
            out_len: 24 * 8 * 128
        })
    );
}

#[test]
fn large_grids_and_odd_heads_do_not_split() {
    assert_eq!(
        set_params_splitkv(108, 4, 32, 128, 128, 1024, 1024),
        (1, None)
    );
    assert_eq!(set_params_splitkv(108, 1, 8, 96, 96, 1, 8192), (1, None));
    assert_eq!(set_params_splitkv(0, 1, 8, 96, 96, 1, 8192), (1, None));
    assert_eq!(set_params_splitkv(108, 1, 8, 512, 512, 1, 8192), (1, None));
    // No queries, no thread blocks.
    assert_eq!(set_params_splitkv(108, 1, 8, 128, 128, 0, 8192), (1, None));
}

#[test]
fn queries_are_tiled() {
    // One more query than a tile makes two tiles: 2 * 8 thread blocks.
    let one = set_params_splitkv(108, 1, 8, 64, 64, SPLITKV_BLOCK_M, 8192).0;
    let two = set_params_splitkv(108, 1, 8, 64, 64, SPLITKV_BLOCK_M + 1, 8192).0;
    assert_eq!(one as usize, num_splits_heuristic(8, 216, 256, 128));
    assert_eq!(two as usize, num_splits_heuristic(16, 216, 256, 128));
    assert_ne!(one, two);
}

#[test]
fn rounding() {
    assert_eq!(div_ceil(0, 32), 0);
    assert_eq!(div_ceil(1, 32), 1);
    assert_eq!(div_ceil(32, 32), 1);
    assert_eq!(div_ceil(usize::MAX, 1), usize::MAX);
    assert_eq!(round_multiple(0, 128), 0);
    assert_eq!(round_multiple(1, 128), 128);
    assert_eq!(round_multiple(128, 128), 128);
    assert_eq!(round_multiple(129, 128), 256);
}
