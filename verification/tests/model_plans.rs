use inference_engine::attention::{
    AttentionError, ImageAttentionMode, LanguageAttentionPolicy, MediaAttentionBlock,
    MediaAttentionPlan,
};
use inference_engine::bits::{
    finite_or_zero, less_bits, order_key, sanitize_finite_inplace,
};
use inference_engine::positions::{PositionError, RopePositionLayout, RopePositionPlan};
use inference_engine::prefill::{
    apply_context_size_overrides, check_image_block, first_step, next_step, BlockModel, BlockStep,
    ContextConfig, MatrixShape, PrefillError,
};
use inference_engine::profiling::{
    has_distributed_activity, prof_end, prof_start, profiling_enabled, profiling_reset,
    record_distributed_coordinator_timing, record_distributed_local_experts,
    record_distributed_push_frame, record_distributed_remote_request,
    record_distributed_transport_bytes, record_forward_pass, set_profiling_enabled, Profile,
};
use inference_engine::recurrent::{
    check_convolution, check_projections, check_state, convolution_taps, fused_gate_indices,
    head_source, shift_history, ConvTap, RecurrentError, RecurrentTensors, SsmShape,
};
use inference_engine::tokenizer::{byte_token, encode_without_prefix, Tokenizer};

#[test]
fn rectangular_grid_and_following_text_match_reference_positions() {
    let mut plan = RopePositionPlan::default();
    plan.append_text(2).unwrap();
    plan.append_grid([1, 2, 3], 6).unwrap();
    plan.append_text(2).unwrap();
    assert_eq!(
        plan.positions,
        [
            [0, 0, 0],
            [1, 1, 1],
            [2, 2, 2],
            [2, 2, 3],
            [2, 2, 4],
            [2, 3, 2],
            [2, 3, 3],
            [2, 3, 4],
            [5, 5, 5],
            [6, 6, 6],
        ]
    );
    assert_eq!(plan.at(10), [7; 3]);
    assert_eq!(plan.at(12), [9; 3]);
    // A suffix that is appended is ordinary text in the same plan.
    plan.append_text(3).unwrap();
    assert_eq!(plan.at(12), [9; 3]);
    assert_eq!(plan.at(13), [10; 3]);
}

#[test]
fn interleaved_axes_match_reference_section_slices() {
    let layout = RopePositionLayout::Interleaved;
    let axes: Vec<_> = (0..64).map(|i| layout.axis(i, [24, 20, 20, 0])).collect();
    assert_eq!(&axes[..9], &[0, 1, 2, 0, 1, 2, 0, 1, 2]);
    assert_eq!(&axes[57..], &[0, 1, 2, 0, 0, 0, 0]);
    let axes: Vec<_> = (0..32).map(|i| layout.axis(i, [11, 11, 10, 0])).collect();
    assert_eq!(&axes[27..], &[0, 1, 2, 0, 1]);
    assert!((0..64).all(|i| RopePositionLayout::Sequential.axis(i, [0; 4]) == 0));
}

#[test]
fn invalid_grids_fail_before_modifying_positions() {
    for (grid, count) in [([0, 2, 3], 0), ([1, 2, 3], 5), ([usize::MAX, 2, 2], 1)] {
        let mut plan = RopePositionPlan::default();
        assert!(plan.append_grid(grid, count).is_err());
        assert_eq!(plan, RopePositionPlan::default());
    }
    let mut plan = RopePositionPlan {
        positions: Vec::new(),
        next_text_position: usize::MAX,
    };
    assert!(plan.append_grid([1, 1, 1], 1).is_err());
    assert!(plan.append_text(1).is_err());
}

#[test]
fn position_errors_say_what_is_wrong() {
    let mut plan = RopePositionPlan::default();
    assert_eq!(
        plan.append_grid([usize::MAX, 2, 2], 1).unwrap_err(),
        PositionError::GridSizeOverflow
    );
    let mismatch = plan.append_grid([1, 2, 3], 5).unwrap_err();
    assert!(mismatch.message().contains("6 positions for 5 embeddings"));
    plan.next_text_position = usize::MAX;
    assert_eq!(plan.append_text(1).unwrap_err(), PositionError::TextOverflow);
}

fn two_blocks() -> MediaAttentionPlan {
    MediaAttentionPlan::new(
        12,
        vec![
            MediaAttentionBlock { token_start: 2, token_len: 5, media_index: 0 },
            MediaAttentionBlock { token_start: 8, token_len: 4, media_index: 1 },
        ],
    )
    .unwrap()
}

#[test]
fn image_attention_chunks_never_split_blocks() {
    let plan = two_blocks();
    for chunk in [1, 2, 3, 4, 8, usize::MAX] {
        let mut start = 0;
        while start < 12 {
            let end = plan.chunk_end(start, 12, chunk).unwrap();
            assert!(end > start);
            if let Some(block) = plan.block_at(start) {
                assert_eq!(
                    (start, end),
                    (block.token_start, block.token_start + block.token_len)
                );
            } else {
                assert!((start..end).all(|position| plan.block_at(position).is_none()));
            }
            start = end;
        }
    }
    assert!(plan.chunk_end(3, 12, 2).is_err());
    assert!(plan.chunk_end(2, 6, 2).is_err());
    assert!(plan.chunk_end(0, 12, 0).is_err());
    assert!(plan.chunk_end(0, 13, 1).is_err());
    for blocks in [
        vec![MediaAttentionBlock { token_start: 1, token_len: 0, media_index: 0 }],
        vec![MediaAttentionBlock { token_start: 11, token_len: 2, media_index: 0 }],
        vec![MediaAttentionBlock { token_start: usize::MAX, token_len: 1, media_index: 0 }],
        vec![
            MediaAttentionBlock { token_start: 2, token_len: 5, media_index: 0 },
            MediaAttentionBlock { token_start: 6, token_len: 2, media_index: 1 },
        ],
    ] {
        assert!(MediaAttentionPlan::new(12, blocks).is_err());
    }
    let causal = LanguageAttentionPolicy::default();
    assert_eq!(causal.visible_keys(&plan, 0, 3), 0..4);
}

#[test]
fn attention_errors_say_what_is_wrong() {
    let plan = two_blocks();
    assert_eq!(plan.chunk_end(0, 12, 0).unwrap_err(), AttentionError::InvalidChunk);
    assert_eq!(plan.chunk_end(3, 12, 2).unwrap_err(), AttentionError::InsideBlock);
    assert_eq!(plan.chunk_end(2, 6, 2).unwrap_err(), AttentionError::LimitSplitsBlock);
    let far = MediaAttentionBlock { token_start: usize::MAX, token_len: 1, media_index: 0 };
    assert_eq!(
        MediaAttentionPlan::new(12, vec![far]).unwrap_err(),
        AttentionError::BlockOverflow
    );
    let empty = MediaAttentionBlock { token_start: 1, token_len: 0, media_index: 0 };
    assert_eq!(
        MediaAttentionPlan::new(12, vec![empty]).unwrap_err().message(),
        "image attention blocks must be nonempty, ordered, disjoint, and within the prompt"
    );
}

#[test]
fn bidirectional_queries_see_their_whole_block() {
    let plan = two_blocks();
    let policy = LanguageAttentionPolicy {
        layer_windows: vec![None, Some(2)],
        image_mode: ImageAttentionMode::Bidirectional,
    };
    assert_eq!(policy.visible_keys(&plan, 0, 3), 0..7);
    assert_eq!(policy.visible_keys(&plan, 1, 6), 2..7);
    assert_eq!(policy.visible_keys(&plan, 1, 2), 1..7);
    assert_eq!(policy.visible_keys(&plan, 1, 7), 6..8);
    assert_eq!(policy.visible_keys(&plan, 5, 7), 0..8);
}

fn dense_model() -> BlockModel {
    let q = || vec![MatrixShape { rows: 6, cols: 4 }];
    let kv = || vec![MatrixShape { rows: 2, cols: 4 }];
    BlockModel {
        image_mode: ImageAttentionMode::Bidirectional,
        seq_len: 12,
        dim: 4,
        q_dim: 6,
        kv_dim: 2,
        n_layers: 1,
        n_deepstack_layers: 0,
        n_experts: 0,
        wq: q(),
        wk: kv(),
        wv: kv(),
        attn_qkv: Vec::new(),
    }
}

#[test]
fn image_blocks_are_evaluated_whole() {
    let plan = two_blocks();
    let rows = vec![vec![1.0f32.to_bits(); 4]; 5];
    let model = dense_model();
    assert_eq!(check_image_block(&model, &plan, &rows, 2).unwrap(), (20, 30));
    assert_eq!(
        check_image_block(&model, &plan, &rows, usize::MAX).unwrap_err(),
        PrefillError::RangeOverflow
    );
    assert_eq!(
        check_image_block(&model, &plan, &rows, 0).unwrap_err(),
        PrefillError::NoBlock
    );
    for base in [3, 8] {
        assert_eq!(
            check_image_block(&model, &plan, &rows, base).unwrap_err(),
            PrefillError::IncompleteBlock
        );
    }
    let mut wrong = rows.clone();
    wrong[4][3] = f32::NAN.to_bits();
    assert_eq!(
        check_image_block(&model, &plan, &wrong, 2).unwrap_err().message(),
        "image-block prefill requires finite, language-dimension embeddings"
    );
    let mut packed = dense_model();
    packed.attn_qkv = vec![MatrixShape { rows: 10, cols: 4 }];
    assert_eq!(
        check_image_block(&packed, &plan, &rows, 2).unwrap_err(),
        PrefillError::PackedLayout
    );
    let mut wide = dense_model();
    wide.q_dim = usize::MAX;
    wide.wq = vec![MatrixShape { rows: usize::MAX, cols: 4 }];
    assert_eq!(
        check_image_block(&wide, &plan, &rows, 2).unwrap_err(),
        PrefillError::ScratchOverflow
    );
}

#[test]
fn every_row_is_staged_before_any_row_attends() {
    let mut steps = Vec::new();
    let mut step = first_step(2, 2, true);
    while step != BlockStep::Finished {
        steps.push(step);
        step = next_step(2, 2, true, step);
    }
    assert_eq!(
        steps,
        vec![
            BlockStep::Stage { layer: 0, row: 0 },
            BlockStep::Stage { layer: 0, row: 1 },
            BlockStep::Attend { layer: 0, row: 0 },
            BlockStep::Attend { layer: 0, row: 1 },
            BlockStep::Stage { layer: 1, row: 0 },
            BlockStep::Stage { layer: 1, row: 1 },
            BlockStep::Attend { layer: 1, row: 0 },
            BlockStep::Attend { layer: 1, row: 1 },
            BlockStep::Logits,
        ]
    );
    assert_eq!(first_step(0, 3, false), BlockStep::Finished);
}

#[test]
fn context_sizes_override_when_given() {
    let mut config = ContextConfig {
        seq_len: 4096,
        is_qwen3moe: true,
        is_qwen3next: false,
        is_deepseek2: false,
    };
    assert!(!apply_context_size_overrides(&mut config, 0, false));
    assert!(apply_context_size_overrides(&mut config, 0, true));
    assert_eq!(config.seq_len, 4096);
    assert!(!apply_context_size_overrides(&mut config, 512, true));
    assert_eq!(config.seq_len, 512);
}

#[test]
fn profiles_count_what_is_recorded() {
    let mut profile = Profile::default();
    assert!(!profiling_enabled(&profile));
    assert_eq!(prof_start(&profile, 5), None);
    set_profiling_enabled(&mut profile, true);
    let start = prof_start(&profile, 5);
    assert_eq!(start, Some(5));
    let mut counter = 3;
    prof_end(&mut counter, start, 12);
    assert_eq!(counter, 10);
    prof_end(&mut counter, None, 99);
    assert_eq!(counter, 10);
    record_forward_pass(&mut profile);
    record_distributed_local_experts(&mut profile, 4);
    assert!(!has_distributed_activity(&profile));
    record_distributed_remote_request(&mut profile, 2, 100, 50, 7);
    record_distributed_transport_bytes(&mut profile, 1, 2);
    record_distributed_coordinator_timing(&mut profile, 9, 4, 5);
    record_distributed_push_frame(&mut profile, 3);
    assert!(has_distributed_activity(&profile));
    assert_eq!((profile.forward_passes, profile.local_experts), (1, 4));
    assert_eq!((profile.remote_batches, profile.remote_experts), (1, 2));
    assert_eq!((profile.bytes_sent, profile.bytes_received), (101, 52));
    assert_eq!(profile.remote_wait_ns, 7);
    assert_eq!(
        (
            profile.coordinator_total_ns,
            profile.coordinator_local_ns,
            profile.coordinator_remote_ns,
        ),
        (9, 4, 5)
    );
    assert_eq!((profile.push_frames, profile.push_experts), (1, 3));
    profiling_reset(&mut profile);
    assert!(!has_distributed_activity(&profile));
    assert_eq!(profile.forward_passes, 0);
    assert!(profiling_enabled(&profile));
}

fn shape() -> SsmShape {
    SsmShape { d_inner: 8, n_k_heads: 2, n_v_heads: 4, head_dim: 2, conv_kernel: 3 }
}

fn split_tensors() -> RecurrentTensors {
    RecurrentTensors {
        conv1d_layers: 2,
        a_len: 4,
        dt_bias_len: 4,
        norm_len: 2,
        ba_rows: 0,
        alpha_rows: 4,
        beta_rows: 4,
        qkv_rows: 16,
        gate_rows: 8,
    }
}

#[test]
fn recurrent_layers_have_their_tensors() {
    assert_eq!(check_projections(&shape(), &split_tensors(), 1).unwrap(), false);
    let mut fused = split_tensors();
    fused.ba_rows = 8;
    assert_eq!(check_projections(&shape(), &fused, 0).unwrap(), true);
    fused.ba_rows = 7;
    assert_eq!(
        check_projections(&shape(), &fused, 0).unwrap_err(),
        RecurrentError::FusedRows { layer: 0, rows: 7, needed: 8 }
    );
    let mut odd = shape();
    odd.n_v_heads = 3;
    assert_eq!(
        check_projections(&odd, &split_tensors(), 0).unwrap_err(),
        RecurrentError::UnevenHeads { n_v_heads: 3, n_k_heads: 2 }
    );
    odd.n_v_heads = 6;
    assert_eq!(
        check_projections(&odd, &split_tensors(), 0).unwrap_err(),
        RecurrentError::InnerSize { heads: 12, d_inner: 8 }
    );
    odd.n_v_heads = 0;
    assert_eq!(
        check_projections(&odd, &split_tensors(), 0).unwrap_err(),
        RecurrentError::InvalidConfig
    );
    assert_eq!(
        check_projections(&shape(), &split_tensors(), 2).unwrap_err(),
        RecurrentError::LayerOutOfRange
    );
    let mut lacking = split_tensors();
    lacking.alpha_rows = 0;
    assert_eq!(
        check_projections(&shape(), &lacking, 1).unwrap_err(),
        RecurrentError::MissingGates(1)
    );
    lacking.alpha_rows = 3;
    assert_eq!(
        check_projections(&shape(), &lacking, 1).unwrap_err(),
        RecurrentError::SplitRows { layer: 1, alpha: 3, beta: 4, needed: 4 }
    );
    lacking.gate_rows = 7;
    assert_eq!(
        check_projections(&shape(), &lacking, 1).unwrap_err(),
        RecurrentError::GateRows { layer: 1, rows: 7, needed: 8 }
    );
    lacking.qkv_rows = 15;
    assert_eq!(
        check_projections(&shape(), &lacking, 1).unwrap_err(),
        RecurrentError::QkvRows { layer: 1, rows: 15, needed: 16 }
    );
    lacking.norm_len = 0;
    assert_eq!(
        check_projections(&shape(), &lacking, 1).unwrap_err(),
        RecurrentError::MissingTensors
    );
}

#[test]
fn recurrent_buffers_hold_every_layer() {
    assert_eq!(shape().conv_dim(), 16);
    assert_eq!(shape().hist_steps(), 2);
    assert_eq!(check_convolution(&shape(), 1, 48, 64).unwrap(), 32);
    assert_eq!(
        check_convolution(&shape(), 1, 47, 64).unwrap_err(),
        RecurrentError::ConvolutionLen { layer: 1, len: 47, needed: 48 }
    );
    assert_eq!(
        check_convolution(&shape(), 1, 48, 63).unwrap_err(),
        RecurrentError::HistoryTooSmall
    );
    assert_eq!(check_state(&shape(), 1, 32).unwrap(), 16);
    assert_eq!(check_state(&shape(), 1, 31).unwrap_err(), RecurrentError::StateTooSmall);
}

#[test]
fn fused_gates_do_not_overlap() {
    let mut places = Vec::new();
    for h in 0..4 {
        let (b, a) = fused_gate_indices(&shape(), h);
        places.push(b);
        places.push(a);
    }
    assert_eq!(places, vec![0, 2, 1, 3, 4, 6, 5, 7]);
    let source = head_source(&shape(), 3);
    assert_eq!((source.q, source.k, source.v), (2, 6, 14));
}

#[test]
fn histories_move_up_by_one_step() {
    let mut state: Vec<u32> = (0..8).collect();
    shift_history(&mut state, 1, 2, 3, &[70, 71]);
    assert_eq!(state, vec![0, 3, 4, 5, 6, 70, 71, 7]);
    shift_history(&mut state, 1, 2, 0, &[1, 1]);
    assert_eq!(state, vec![0, 3, 4, 5, 6, 70, 71, 7]);
}

fn tokenizer(pieces: &[(&str, i64)], user_defined: &[i32]) -> Tokenizer {
    Tokenizer {
        vocab: pieces.iter().map(|(text, _)| text.to_string()).collect(),
        vocab_scores: pieces.iter().map(|(_, score)| *score).collect(),
        token_to_id: pieces
            .iter()
            .enumerate()
            .map(|(id, (text, _))| (text.to_string(), id as i32))
            .collect(),
        sentencepiece_user_defined: user_defined.to_vec(),
    }
}

fn encoded(tokenizer: &Tokenizer, text: &str) -> Vec<i32> {
    let mut output = vec![-1];
    encode_without_prefix(tokenizer, text, &mut output);
    output
}

#[test]
fn best_scores_merge_first_and_left_before_right() {
    let t = tokenizer(&[("a", -9), ("b", -9), ("ab", -3), ("ba", -1), ("aba", -2)], &[]);
    // "ba" merges first; "a" then joins it.
    assert_eq!(encoded(&t, "aba"), vec![-1, 4]);
    assert_eq!(encoded(&t, "abab"), vec![-1, 4, 1]);
    let even = tokenizer(&[("a", 0), ("aa", 5)], &[]);
    assert_eq!(encoded(&even, "aaa"), vec![-1, 1, 0]);
}

#[test]
fn unknown_characters_become_byte_tokens() {
    let t = tokenizer(&[("\u{2581}", 0), ("<0xC3>", 0), ("<0xA9>", 0), ("x", 0)], &[]);
    assert_eq!(encoded(&t, "x \u{e9}?"), vec![-1, 3, 0, 1, 2]);
    assert_eq!(encoded(&t, ""), vec![-1]);
}

#[test]
fn user_defined_pieces_are_found_before_spaces_are_escaped() {
    let t = tokenizer(&[("a", 0), ("< >", 0), ("\u{2581}", 0), ("", 0)], &[3, 1]);
    assert_eq!(encoded(&t, "a< > a"), vec![-1, 0, 1, 2, 0]);
}

#[test]
fn byte_tokens_are_read_from_their_names() {
    assert_eq!(byte_token("<0x0A>"), Some(10));
    assert_eq!(byte_token("<0xff>"), Some(255));
    assert_eq!(byte_token("<0x+5>"), Some(5));
    assert_eq!(byte_token("<0xG0>"), None);
    assert_eq!(byte_token("<0x0A"), None);
    assert_eq!(byte_token("<0x0AB>"), None);
}

#[test]
fn values_that_are_not_finite_become_zero() {
    let mut values: Vec<u32> = [1.5f32, f32::NAN, f32::INFINITY, -2.0, f32::NEG_INFINITY]
        .iter()
        .map(|value| value.to_bits())
        .collect();
    sanitize_finite_inplace(&mut values);
    let back: Vec<f32> = values.iter().map(|bits| f32::from_bits(*bits)).collect();
    assert_eq!(back, vec![1.5, 0.0, 0.0, -2.0, 0.0]);
    assert_eq!(finite_or_zero((-0.0f32).to_bits()), (-0.0f32).to_bits());
}

#[test]
fn patterns_order_like_their_values() {
    let values = [f32::NEG_INFINITY, -2.0, -1e-40, 0.0, 1e-40, 0.1, 0.5, f32::MAX, f32::INFINITY];
    for a in values {
        for b in values {
            assert_eq!(less_bits(a.to_bits(), b.to_bits()), a < b);
            assert_eq!(order_key(a.to_bits()) < order_key(b.to_bits()), a < b);
        }
        assert!(!less_bits(f32::NAN.to_bits(), a.to_bits()));
        assert!(!less_bits(a.to_bits(), f32::NAN.to_bits()));
    }
    assert!(!less_bits((-0.0f32).to_bits(), 0));
}

#[test]
fn convolutions_read_the_newest_row_and_the_history() {
    assert_eq!(
        convolution_taps(&shape(), 32, 5),
        vec![
            ConvTap { history: None, weight: 17 },
            ConvTap { history: Some(37), weight: 15 },
            ConvTap { history: Some(53), weight: 16 },
        ]
    );
}

#[test]
fn tokens_spell_what_was_encoded() {
    let pieces = [
        ("h", 0),
        ("e", 0),
        ("l", 0),
        ("o", 0),
        ("\u{2581}", 0),
        ("he", 3),
        ("ll", 2),
        ("llo", 4),
        ("\u{2581}he", 1),
    ];
    let t = tokenizer(&pieces, &[]);
    let ids = encoded(&t, "hello hello");
    let spelled: String = ids[1..].iter().map(|id| t.vocab[*id as usize].as_str()).collect();
    assert_eq!(spelled, "hello\u{2581}hello");
    assert_eq!(ids, vec![-1, 5, 7, 8, 7]);
}

#[test]
fn merging_stops_when_no_neighbours_make_a_token() {
    let t = tokenizer(&[("a", 0), ("b", 0), ("c", 0), ("ab", 1), ("bc", 2), ("cc", 3)], &[]);
    let ids = encoded(&t, "abccab");
    assert_eq!(ids, vec![-1, 3, 5, 3]);
    let texts: Vec<&str> = ids[1..].iter().map(|id| t.vocab[*id as usize].as_str()).collect();
    for pair in texts.windows(2) {
        assert!(!t.vocab.contains(&pair.concat()));
    }
}

#[test]
fn uneven_heads_have_their_places() {
    let uneven = SsmShape { d_inner: 6, n_k_heads: 2, n_v_heads: 3, head_dim: 2, conv_kernel: 4 };
    let places: Vec<(usize, usize)> = (0..3).map(|h| fused_gate_indices(&uneven, h)).collect();
    assert_eq!(places, vec![(0, 1), (2, 3), (4, 5)]);
    let source = head_source(&uneven, 2);
    assert_eq!((source.q, source.k, source.v), (0, 4, 12));
}
