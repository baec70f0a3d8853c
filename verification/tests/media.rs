use inference_engine::gguf::{
    find_gguf_tensor, tensor_storage_bytes, Gguftensor, QuantizedTensor, TensorDirectory,
};
use inference_engine::multimodal::attention_blocks::{
    plan_attention_blocks, AttentionBlockError, QueryBlock, ATTENTION_QUERY_BLOCK,
};
use inference_engine::multimodal::encoders::{
    attended_tokens, build_vision_encoder_from_mmproj, plan_encoder_attention, uses_float_batch,
    AttentionExtents, EncoderAttentionError, ImageGeometry, MultimodalBackend,
};
use inference_engine::multimodal::expansion::{
    expand_prompt_with_media_embeddings, validate_embedding_dimensions, MediaEmbeddingSequence,
};
use inference_engine::multimodal::gemma3::{
    fast_pooling_enabled, gemma_key_values, parse_gemma_metadata, pool_sources, pools_early, stage_name,
    Gemma3VisionEncoder, GemmaError,
};
use inference_engine::multimodal::gemma3_checks::{
    check_position_table, plan_matmul_bf16, BufferError,
};
use inference_engine::multimodal::injection::{
    append_modality_plans, expanded_len_from_plan, expanded_media_prompt_token_count,
    marker_tokens, ordered_media_plan, preflight_media_context, EncodedPrompt, InjectionError, MediaKind, PlaceholderSpan,
};
use inference_engine::multimodal::minicpmv::{
    gather_merge_groups, minicpm_key_values, parse_minicpm_metadata, position_bucket, square_side, MiniCpmError,
    MiniCpmVVisionEncoder, MERGE_GROUP,
};
use inference_engine::multimodal::view_batches::ViewShape;
use inference_engine::multimodal::vision::{
    image_patches, parse_rgb_triplet, patch_kernel_elements, transposed, VisionKeys, VisionMetadata,
    HALF_BITS,
};
use inference_engine::tensors::{
    load, load_all, load_projection, load_tensor_float, load_tensor_quantized, optional_shape,
    require_matrix, require_shape, tensor_shape, tensor_weight, validate_tensor_storage, Loaded,
    Requirement, Rule, Shape, TensorProblem,
};

fn sequence(values: &[f32]) -> MediaEmbeddingSequence<f32> {
    MediaEmbeddingSequence {
        grid: None,
        tokens: values.iter().map(|value| vec![*value, -*value]).collect(),
    }
}

fn span(token_start: usize, media_index: usize) -> PlaceholderSpan {
    PlaceholderSpan { token_start, token_len: 3, media_index, replace_marker: false }
}

fn prompt(
    token_ids: &[i32],
    image_spans: Vec<PlaceholderSpan>,
    audio_spans: Vec<PlaceholderSpan>,
) -> EncodedPrompt {
    EncodedPrompt {
        token_ids: token_ids.to_vec(),
        image_spans,
        video_spans: Vec::new(),
        audio_spans,
    }
}

const TWO_SPANS: [i32; 9] = [10, 20, 21, 22, 30, 40, 41, 42, 50];

#[test]
fn expands_image_and_audio_in_source_token_order() {
    let encoded = prompt(&TWO_SPANS, vec![span(5, 0)], vec![span(1, 0)]);

    let expanded = expand_prompt_with_media_embeddings(
        &encoded,
        &[sequence(&[3.0])],
        &[sequence(&[1.0, 2.0])],
        2,
    )
    .unwrap();

    assert_eq!(expanded.token_ids, [10, 20, 21, 21, 22, 30, 40, 41, 42, 50]);
    assert_eq!(expanded.embeddings[&2], [1.0, -1.0]);
    assert_eq!(expanded.embeddings[&3], [2.0, -2.0]);
    assert_eq!(expanded.embeddings[&7], [3.0, -3.0]);
    assert!(expanded.position_plan.is_none());
}

#[test]
fn image_grids_keep_marker_and_following_text_positions_in_source_order() {
    let encoded = prompt(&TWO_SPANS, vec![span(1, 0), span(5, 1)], Vec::new());
    let mut first = sequence(&[1.0; 6]);
    first.grid = Some([1, 2, 3]);
    let mut second = sequence(&[2.0; 2]);
    second.grid = Some([1, 2, 1]);
    let expanded =
        expand_prompt_with_media_embeddings(&encoded, &[first, second], &[], 2).unwrap();
    assert_eq!(
        expanded.token_ids,
        [10, 20, 21, 21, 21, 21, 21, 21, 22, 30, 40, 41, 41, 42, 50]
    );
    let positions = expanded.position_plan.unwrap();
    assert_eq!(
        positions.positions,
        [
            [0; 3],
            [1; 3],
            [2, 2, 2],
            [2, 2, 3],
            [2, 2, 4],
            [2, 3, 2],
            [2, 3, 3],
            [2, 3, 4],
            [5; 3],
            [6; 3],
            [7; 3],
            [8, 8, 8],
            [8, 9, 8],
            [10; 3],
            [11; 3],
        ]
    );
    assert_eq!(positions.at(15), [12; 3]);
    assert_eq!(expanded.embeddings.len(), 8);
    assert!(expanded.embeddings.contains_key(&12));
    assert!(!expanded.embeddings.contains_key(&13));
}

fn replaced_marker() -> EncodedPrompt {
    let marker = PlaceholderSpan {
        token_start: 1,
        token_len: 1,
        media_index: 0,
        replace_marker: true,
    };
    prompt(&[10, 99, 20], vec![marker], Vec::new())
}

#[test]
fn grid_expansion_handles_replaced_markers_and_rejects_wrong_token_counts() {
    let encoded = replaced_marker();
    let mut image = sequence(&[1.0; 2]);
    image.grid = Some([1, 2, 1]);
    let mut wrong = sequence(&[1.0; 2]);
    wrong.grid = Some([1, 2, 3]);
    let expanded = expand_prompt_with_media_embeddings(&encoded, &[image], &[], 2).unwrap();
    assert_eq!(
        expanded.position_plan.unwrap().positions,
        [[0; 3], [1; 3], [1, 2, 1], [3; 3]]
    );
    assert!(expand_prompt_with_media_embeddings(&encoded, &[wrong], &[], 2)
        .unwrap_err()
        .message()
        .contains("6 positions for 2 embeddings"));
}

#[test]
fn replace_marker_span_emits_only_embedding_slots() {
    let expanded =
        expand_prompt_with_media_embeddings(&replaced_marker(), &[sequence(&[1.0, 2.0])], &[], 2)
            .unwrap();

    assert_eq!(expanded.token_ids, [10, 99, 99, 20]);
    assert_eq!(expanded.embeddings.len(), 2);
}

#[test]
fn rejects_cross_modality_overlap() {
    let encoded = prompt(&[10, 20, 21, 22, 23, 30], vec![span(1, 0)], vec![span(2, 0)]);

    let error = expanded_media_prompt_token_count(&encoded, &[1], &[1]).unwrap_err().message();

    assert!(error.contains("overlaps another media span"));
}

#[test]
fn rejects_duplicate_media_index() {
    let encoded = prompt(&TWO_SPANS, vec![span(1, 0), span(5, 0)], Vec::new());

    let error = expanded_media_prompt_token_count(&encoded, &[1, 1], &[]).unwrap_err().message();

    assert!(error.contains("duplicate image placeholder"));
}

#[test]
fn rejects_out_of_order_and_out_of_bounds_spans() {
    let mut encoded = prompt(&TWO_SPANS, vec![span(5, 1), span(1, 0)], Vec::new());

    let error = expanded_media_prompt_token_count(&encoded, &[1, 1], &[]).unwrap_err().message();
    assert!(error.contains("overlap or are out of order"));

    encoded.image_spans = vec![span(8, 0)];
    let error = expanded_media_prompt_token_count(&encoded, &[1], &[]).unwrap_err().message();
    assert!(error.contains("exceeds prompt token range"));
}

#[test]
fn rejects_embedding_dimension_mismatch() {
    let encoded = prompt(&[10, 20, 21, 22, 30], Vec::new(), vec![span(1, 0)]);
    let audio = [MediaEmbeddingSequence { grid: None, tokens: vec![vec![1.0f32]] }];

    let error =
        expand_prompt_with_media_embeddings(&encoded, &[], &audio, 2).unwrap_err().message();

    assert!(error.contains("audio embedding dim mismatch"));
}

#[test]
fn context_preflight_reserves_decode_tokens_without_truncating_media() {
    let encoded = prompt(&[10, 20, 21, 22, 30], Vec::new(), vec![span(1, 0)]);

    assert_eq!(preflight_media_context(&encoded, &[], &[4], 10, 2), Ok(8));
    let error = preflight_media_context(&encoded, &[], &[4], 9, 2).unwrap_err().message();
    assert!(error.contains("exceeding context limit 9"));
}

#[test]
fn spans_are_refused_for_the_first_thing_wrong() {
    let count = |encoded: &EncodedPrompt, images: &[usize]| {
        expanded_media_prompt_token_count(encoded, images, &[]).unwrap_err()
    };
    let one = |start: usize, len: usize, index: usize| {
        let mut wrong = span(start, index);
        wrong.token_len = len;
        prompt(&TWO_SPANS, vec![wrong], Vec::new())
    };
    assert!(matches!(
        count(&one(1, 3, 0), &[1, 1]),
        InjectionError::GroupCount { kind: MediaKind::Image, spans: 1, groups: 2 }
    ));
    assert!(matches!(
        count(&one(1, 1, 0), &[1]),
        InjectionError::SpanTooShort { token_len: 1, minimum: 2, .. }
    ));
    assert!(matches!(
        count(&one(usize::MAX, 3, 0), &[1]),
        InjectionError::SpanOverflow(MediaKind::Image)
    ));
    assert!(matches!(
        count(&one(1, 3, 4), &[1]),
        InjectionError::MissingMedia { media_index: 4, .. }
    ));
    assert!(matches!(
        count(&one(1, 3, 0), &[0]),
        InjectionError::EmptySequence { media_index: 0, .. }
    ));
    let mut video = one(1, 3, 0);
    video.video_spans = vec![span(5, 0)];
    assert!(matches!(count(&video, &[1]), InjectionError::VideoUnsupported));
    let huge = one(1, 3, 0);
    assert!(matches!(
        count(&huge, &[usize::MAX]),
        InjectionError::EmbeddingCountOverflow
    ));
    assert!(matches!(
        count(&huge, &[usize::MAX - 2]),
        InjectionError::ExpandedCountOverflow
    ));
    assert!(matches!(
        preflight_media_context(&huge, &[1], &[], 5, usize::MAX).unwrap_err(),
        InjectionError::ContextOverflow
    ));
}

#[test]
fn plans_are_in_prompt_order() {
    let encoded = prompt(&TWO_SPANS, vec![span(5, 0)], vec![span(1, 0)]);
    let plans = ordered_media_plan(&encoded, &[4], &[2]).unwrap();
    let starts: Vec<_> =
        plans.iter().map(|plan| (plan.span.token_start, plan.embedding_tokens)).collect();
    assert_eq!(starts, vec![(1, 2), (5, 4)]);
    assert_eq!(plans[0].kind.label(), "audio");
    assert_eq!(expanded_len_from_plan(9, &plans).unwrap(), 13);
    assert_eq!(marker_tokens(&encoded, span(1, 0)), (20, 21, 22));
    let single = PlaceholderSpan {
        token_start: 4,
        token_len: 1,
        media_index: 0,
        replace_marker: true,
    };
    assert_eq!(marker_tokens(&encoded, single), (30, 30, 30));
    assert!(validate_embedding_dimensions(MediaKind::Image, &[sequence(&[1.0])], 2).is_ok());
}

#[test]
fn window_order_groups_each_2x2_block_contiguously() {
    let order = MiniCpmVVisionEncoder::window_order(1, 4, 4);

    assert_eq!(order.len(), 16);
    assert_eq!(&order[0..MERGE_GROUP], &[0, 1, 4, 5]);
    assert_eq!(&order[MERGE_GROUP..2 * MERGE_GROUP], &[2, 3, 6, 7]);
    assert_eq!(&order[12..16], &[10, 11, 14, 15]);
}

#[test]
fn window_order_offsets_each_view_in_a_batch() {
    let single = MiniCpmVVisionEncoder::window_order(1, 4, 4);
    let batched = MiniCpmVVisionEncoder::window_order(2, 4, 4);

    assert_eq!(batched.len(), single.len() * 2);
    assert_eq!(&batched[..single.len()], &single[..]);
    let shifted: Vec<usize> = single.iter().map(|index| index + 16).collect();
    assert_eq!(&batched[single.len()..], &shifted[..]);
}

#[test]
fn window_order_visits_every_token_exactly_once() {
    let order = MiniCpmVVisionEncoder::window_order(1, 8, 6);
    let mut seen = order.clone();
    seen.sort_unstable();
    seen.dedup();

    assert_eq!(order.len(), 48);
    assert_eq!(seen.len(), 48);
    assert_eq!(seen.first().copied(), Some(0));
    assert_eq!(seen.last().copied(), Some(47));
}

#[test]
fn merge_groups_gather_their_tokens() {
    let tokens: Vec<u32> = (0..32).collect();
    let (groups, ph, pw) = gather_merge_groups(&tokens, 2, 2, 4, 2, 0);
    assert_eq!((ph, pw), (1, 2));
    assert_eq!(
        groups,
        vec![
            0, 1, 2, 3, 8, 9, 10, 11, 4, 5, 6, 7, 12, 13, 14, 15, 16, 17, 18, 19, 24, 25, 26, 27,
            20, 21, 22, 23, 28, 29, 30, 31,
        ]
    );
}

#[test]
fn transposing_twice_gives_the_table_back() {
    let data: Vec<u32> = (0..6).collect();
    let flipped = transposed(&data, 2, 3, 0);
    assert_eq!(flipped, vec![0, 3, 1, 4, 2, 5]);
    assert_eq!(transposed(&flipped, 3, 2, 0), data);
}

#[test]
fn patches_are_cut_from_planes() {
    // Two patches beside each other in each of three planes of four by two pixels.
    let data: Vec<u32> = (0..24).collect();
    let patches = image_patches(&data, 4, 2, 2, 0).unwrap();
    assert_eq!(
        patches,
        vec![
            0, 1, 4, 5, 8, 9, 12, 13, 16, 17, 20, 21, 2, 3, 6, 7, 10, 11, 14, 15, 18, 19, 22, 23,
        ]
    );
    assert_eq!(patch_kernel_elements(14, 8), Some(14 * 14 * 3 * 8));
    assert_eq!(patch_kernel_elements(usize::MAX, 8), None);
}

#[test]
fn positions_fall_into_buckets() {
    assert_eq!(position_bucket(70, 0, 0, 32, 32), 0);
    assert_eq!(position_bucket(70, 31, 31, 32, 32), 67 * 70 + 67);
    assert_eq!(position_bucket(4, 1, 2, 2, 3), 2 * 4 + 2);
    assert_eq!(square_side(4_900), Some(70));
    assert_eq!(square_side(4_901), None);
    assert_eq!(square_side(0), None);
}

fn vision_metadata() -> VisionMetadata {
    VisionMetadata {
        embedding_length: 4,
        head_count: 2,
        feed_forward_length: 6,
        block_count: 2,
        layer_norm_epsilon: 1e-6f32.to_bits(),
        patch_size: 2,
        image_size: 8,
        scale_factor: 4,
        use_gelu: true,
        image_mean: None,
        image_std: None,
        wa_layer_indexes: Some(vec![0]),
    }
}

fn add(tensors: &mut Vec<Gguftensor>, name: &str, shape: &[u64]) {
    let mut ne = [1u64; 4];
    ne[..shape.len()].copy_from_slice(shape);
    tensors.push(Gguftensor {
        name: name.to_string(),
        n_dims: shape.len() as u32,
        ne,
        ttype: 0,
        data_offset: 0,
        block_size: 1,
        type_size: 4,
    });
}

fn vision_tensors() -> Vec<Gguftensor> {
    let mut tensors = Vec::new();
    add(&mut tensors, "v.patch_embd.weight", &[2, 2, 3, 4]);
    add(&mut tensors, "v.patch_embd.bias", &[4]);
    add(&mut tensors, "v.position_embd.weight", &[4, 16]);
    add(&mut tensors, "v.post_ln.weight", &[4]);
    add(&mut tensors, "v.post_ln.bias", &[4]);
    for layer in 0..2 {
        let name = |part: &str| format!("v.blk.{layer}.{part}");
        for part in ["ln1.weight", "ln1.bias", "ln2.weight", "ln2.bias", "ffn_down.bias"] {
            add(&mut tensors, &name(part), &[4]);
        }
        for part in ["attn_q", "attn_k", "attn_v", "attn_out"] {
            add(&mut tensors, &name(&format!("{part}.weight")), &[4, 4]);
            add(&mut tensors, &name(&format!("{part}.bias")), &[4]);
        }
        add(&mut tensors, &name("ffn_up.weight"), &[4, 6]);
        add(&mut tensors, &name("ffn_up.bias"), &[6]);
        add(&mut tensors, &name("ffn_down.weight"), &[6, 4]);
    }
    tensors
}

fn gemma_directory() -> TensorDirectory {
    let mut tensors = vision_tensors();
    add(&mut tensors, "mm.input_projection.weight", &[5, 4]);
    add(&mut tensors, "mm.soft_emb_norm.weight", &[4]);
    TensorDirectory { tensors, mapped_len: 1_000 }
}

fn gemma() -> Gemma3VisionEncoder {
    Gemma3VisionEncoder::new(&vision_metadata(), &gemma_directory(), 5).unwrap()
}

#[test]
fn gemma_encoders_plan_what_they_pool() {
    let encoder = gemma();
    assert_eq!(encoder.config.head_dim, 2);
    assert_eq!(encoder.tensors.len(), 7 + 2 * 16);
    assert_eq!(encoder.recommended_image_size(), 8);
    assert_eq!(encoder.recommended_image_alignment(), 8);
    assert_eq!(
        encoder.recommended_image_normalization(),
        ((HALF_BITS, HALF_BITS, HALF_BITS), (HALF_BITS, HALF_BITS, HALF_BITS))
    );
    assert!(encoder.patches_are_half());
    assert_eq!(encoder.projection_types(), (false, false));
    let (across, down) = encoder.patch_grid(16, 8, "p").unwrap();
    assert_eq!((across, down), (8, 4));
    let (wide, high) = encoder.pooled_extents(across, down).unwrap();
    assert_eq!((wide, high), (2, 1));
    assert_eq!(encoder.planned_view_tokens(16, 8).unwrap(), wide * high);
    assert_eq!(
        encoder.planned_view_tokens(9, 8).unwrap_err().message(),
        "gemma3 view 9x8 must be a positive multiple of 8"
    );
    assert!(matches!(
        encoder.patch_grid(9, 8, "p").unwrap_err(),
        GemmaError::Indivisible { width: 9, .. }
    ));
    assert!(matches!(
        encoder.patch_grid(0, 8, "p").unwrap_err(),
        GemmaError::EmptyGrid { across: 0, down: 4, .. }
    ));
    assert!(matches!(
        encoder.pooled_extents(6, 4).unwrap_err(),
        GemmaError::Pooling { merge_factor: 4, across: 6, down: 4 }
    ));
    assert!(encoder.check_stages(&[0, 1], false).is_ok());
    assert!(matches!(
        encoder.check_stages(&[2], false).unwrap_err(),
        GemmaError::DetailedLayer
    ));
    assert!(matches!(encoder.check_stages(&[], true).unwrap_err(), GemmaError::FastPooling));
}

fn no_keys() -> VisionKeys {
    VisionKeys {
        embedding_length: None,
        head_count: None,
        feed_forward_length: None,
        block_count: None,
        layer_norm_epsilon: None,
        patch_size: None,
        image_size: None,
        scale_factor: None,
        use_gelu: None,
        image_mean: None,
        image_std: None,
        wa_layer_indexes: None,
    }
}

#[test]
fn missing_vision_keys_have_defaults() {
    for (meta, image_size) in
        [(gemma_key_values(no_keys()), 896), (minicpm_key_values(no_keys()), 448)]
    {
        assert_eq!((meta.embedding_length, meta.head_count), (0, 0));
        assert_eq!((meta.feed_forward_length, meta.block_count), (0, 0));
        assert_eq!(meta.layer_norm_epsilon, 1e-6f32.to_bits());
        assert_eq!((meta.patch_size, meta.image_size, meta.scale_factor), (14, image_size, 4));
        assert!(meta.use_gelu);
        assert!(meta.image_mean.is_none() && meta.image_std.is_none());
        assert!(meta.wa_layer_indexes.is_none());
    }
    let mut keys = no_keys();
    keys.image_size = Some(224);
    keys.patch_size = Some(16);
    keys.use_gelu = Some(false);
    keys.wa_layer_indexes = Some(vec![3]);
    let meta = minicpm_key_values(keys);
    assert_eq!((meta.image_size, meta.patch_size, meta.use_gelu), (224, 16, false));
    assert_eq!(meta.wa_layer_indexes, Some(vec![3]));
}

#[test]
fn only_the_tensors_asked_for_are_sized() {
    let mut directory = gemma_directory();
    add(&mut directory.tensors, "unused", &[u64::MAX, 2]);
    let last = directory.tensors.len() - 1;
    directory.tensors[last].type_size = usize::MAX;
    directory.tensors[last].n_dims = 9;
    assert!(Gemma3VisionEncoder::new(&vision_metadata(), &directory, 5).is_ok());
    let mut directory = minicpm_directory();
    add(&mut directory.tensors, "unused", &[u64::MAX, 2]);
    let last = directory.tensors.len() - 1;
    directory.tensors[last].type_size = usize::MAX;
    directory.tensors[last].n_dims = 9;
    assert!(MiniCpmVVisionEncoder::new(&vision_metadata(), &directory, 5).is_ok());
}

#[test]
fn refused_spans_leave_the_plans_before_them() {
    let mut plans = Vec::new();
    let spans = vec![span(5, 0)];
    append_modality_plans(9, MediaKind::Audio, &spans, &[2], &mut plans).unwrap();
    let spans = vec![span(1, 0), span(2, 1)];
    let error =
        append_modality_plans(9, MediaKind::Image, &spans, &[1, 1], &mut plans).unwrap_err();
    assert!(matches!(error, InjectionError::SpanOrder { media_index: 1, .. }));
    let kinds: Vec<_> = plans.iter().map(|plan| (plan.kind, plan.span.token_start)).collect();
    assert_eq!(kinds, vec![(MediaKind::Audio, 5), (MediaKind::Image, 1)]);
    let error =
        append_modality_plans(9, MediaKind::Image, &spans, &[1], &mut plans).unwrap_err();
    assert!(matches!(error, InjectionError::GroupCount { spans: 2, groups: 1, .. }));
    assert_eq!(plans.len(), 2);
}

#[test]
fn expanded_prompts_hold_as_many_embeddings_as_there_are() {
    let encoded = prompt(&TWO_SPANS, vec![span(5, 0)], vec![span(1, 0)]);
    let images = [sequence(&[3.0, 4.0, 5.0])];
    let audios = [sequence(&[1.0, 2.0])];
    let expanded = expand_prompt_with_media_embeddings(&encoded, &images, &audios, 2).unwrap();
    assert_eq!(expanded.embeddings.len(), 5);
    assert!(expanded.embeddings.keys().all(|key| *key < expanded.token_ids.len()));
    assert!(expanded.embeddings.values().all(|values| values.len() == 2));
    assert_eq!(
        expanded_media_prompt_token_count(&encoded, &[3], &[2]).unwrap(),
        expanded.token_ids.len()
    );
}

#[test]
fn gemma_metadata_is_refused_for_the_first_thing_wrong() {
    let refused = |change: fn(&mut VisionMetadata)| {
        let mut meta = vision_metadata();
        change(&mut meta);
        parse_gemma_metadata(&meta, 5).unwrap_err()
    };
    assert!(matches!(
        refused(|meta| meta.image_mean = Some(vec![1, 2])),
        GemmaError::Colour(_)
    ));
    assert!(matches!(refused(|meta| meta.block_count = 0), GemmaError::Metadata));
    assert!(matches!(
        refused(|meta| meta.head_count = 3),
        GemmaError::Heads { dim: 4, head_count: 3 }
    ));
    assert!(matches!(
        refused(|meta| meta.image_size = 9),
        GemmaError::ImageExtent { image_size: 9, patch_size: 2 }
    ));
    assert!(matches!(
        refused(|meta| meta.patch_size = 1 << 40),
        GemmaError::ImageExtent { .. }
    ));
    let mut directory = gemma_directory();
    directory.tensors.retain(|tensor| tensor.name != "v.blk.1.ffn_up.bias");
    let error = Gemma3VisionEncoder::new(&vision_metadata(), &directory, 5).unwrap_err();
    assert!(error.message().contains("v.blk.1.ffn_up.bias"));
    let error = Gemma3VisionEncoder::new(&vision_metadata(), &gemma_directory(), 6).unwrap_err();
    assert!(matches!(
        error,
        GemmaError::ProjectionShape { ne0: 5, ne1: 4, target_dim: 6, dim: 4 }
    ));
}

#[test]
fn pooling_reads_whole_blocks() {
    assert_eq!(pool_sources(1, 2, 4, 2), vec![2, 3, 6, 7]);
    assert!(pools_early(2_049, true));
    assert!(!pools_early(2_048, true));
    assert!(!pools_early(9_999, false));
    for (setting, enabled) in [("1", true), ("TRUE", true), ("Yes", true), ("0", false), ("", false)]
    {
        assert_eq!(fast_pooling_enabled(Some(setting)), enabled);
    }
    assert!(!fast_pooling_enabled(None));
    assert!(stage_name(3, "attn").contains('3'));
}

fn minicpm_directory() -> TensorDirectory {
    let mut tensors = vision_tensors();
    for part in ["attn_q", "attn_k", "attn_v", "attn_out"] {
        add(&mut tensors, &format!("v.vit_merger.{part}.weight"), &[4, 4]);
        add(&mut tensors, &format!("v.vit_merger.{part}.bias"), &[4]);
    }
    add(&mut tensors, "v.vit_merger.ln1.weight", &[4]);
    add(&mut tensors, "v.vit_merger.ln1.bias", &[4]);
    add(&mut tensors, "v.vit_merger.ds_ln.weight", &[16]);
    add(&mut tensors, "v.vit_merger.ds_ln.bias", &[16]);
    add(&mut tensors, "v.vit_merger.ds_ffn_up.weight", &[16, 7]);
    add(&mut tensors, "v.vit_merger.ds_ffn_up.bias", &[7]);
    add(&mut tensors, "v.vit_merger.ds_ffn_down.weight", &[7, 4]);
    add(&mut tensors, "v.vit_merger.ds_ffn_down.bias", &[4]);
    add(&mut tensors, "mm.input_norm.weight", &[16]);
    add(&mut tensors, "mm.input_norm.bias", &[16]);
    add(&mut tensors, "mm.up.weight", &[16, 9]);
    add(&mut tensors, "mm.up.bias", &[9]);
    add(&mut tensors, "mm.down.weight", &[9, 5]);
    add(&mut tensors, "mm.down.bias", &[5]);
    TensorDirectory { tensors, mapped_len: 1_000 }
}

#[test]
fn minicpm_encoders_batch_views_of_one_shape() {
    let encoder =
        MiniCpmVVisionEncoder::new(&vision_metadata(), &minicpm_directory(), 5).unwrap();
    assert_eq!(encoder.config.pos_grid, 4);
    assert_eq!((encoder.config.ds_ff_dim, encoder.config.hidden_dim), (7, 9));
    assert_eq!(encoder.recommended_image_alignment(), 8);
    assert_eq!(encoder.recommended_image_size(), 8);
    assert_eq!(encoder.patch_grid(16, 8, "p").unwrap(), (8, 4));
    assert_eq!(encoder.planned_view_tokens(16, 8).unwrap(), 2);
    assert!(matches!(
        encoder.patch_grid(12, 8, "p").unwrap_err(),
        MiniCpmError::ImageSize { width: 12, height: 8, align: 8, .. }
    ));
    let view = |width: usize, height: usize| ViewShape {
        path: "p".to_string(),
        width,
        height,
    };
    let views = [view(16, 8), view(8, 8), view(16, 8)];
    let batches = encoder.plan_view_batches(&views).unwrap();
    let found: Vec<_> = batches
        .iter()
        .map(|batch| (batch.across, batch.down, batch.members.clone()))
        .collect();
    assert_eq!(found, vec![(8, 4, vec![0, 2]), (4, 4, vec![1])]);
    assert!(encoder.plan_view_batches(&[view(9, 8)]).is_err());
    // A hundred views of 400 patches take more than one batch of 16384.
    let many: Vec<_> = (0..100).map(|_| view(40, 40)).collect();
    let batches = encoder.plan_view_batches(&many).unwrap();
    let sizes: Vec<_> = batches.iter().map(|batch| batch.members.len()).collect();
    assert_eq!(sizes, vec![40, 40, 20]);
}

#[test]
fn minicpm_metadata_is_refused_for_the_first_thing_wrong() {
    let refused = |change: fn(&mut VisionMetadata)| {
        let mut meta = vision_metadata();
        change(&mut meta);
        parse_minicpm_metadata(&meta, 5).unwrap_err()
    };
    assert!(matches!(refused(|meta| meta.patch_size = 0), MiniCpmError::Metadata));
    assert!(matches!(
        refused(|meta| meta.scale_factor = 2),
        MiniCpmError::MergeFactor(2)
    ));
    assert!(matches!(refused(|meta| meta.head_count = 3), MiniCpmError::Heads { .. }));
    assert!(matches!(
        refused(|meta| meta.wa_layer_indexes = None),
        MiniCpmError::NoInsertion
    ));
    assert!(matches!(
        refused(|meta| meta.wa_layer_indexes = Some(vec![-2])),
        MiniCpmError::Insertion(-2)
    ));
    assert!(matches!(
        refused(|meta| meta.wa_layer_indexes = Some(vec![1])),
        MiniCpmError::InsertionTooLate { layer: 1, layers: 2 }
    ));
    let mut directory = minicpm_directory();
    let index =
        directory.tensors.iter().position(|t| t.name == "v.position_embd.weight").unwrap();
    directory.tensors[index].ne[1] = 15;
    assert!(matches!(
        MiniCpmVVisionEncoder::new(&vision_metadata(), &directory, 5).unwrap_err(),
        MiniCpmError::PositionGrid { positions: 15 }
    ));
}

#[test]
fn colours_have_three_parts() {
    assert_eq!(parse_rgb_triplet(&None, "k").unwrap(), (HALF_BITS, HALF_BITS, HALF_BITS));
    assert_eq!(parse_rgb_triplet(&Some(vec![1, 2, 3]), "k").unwrap(), (1, 2, 3));
    assert!(parse_rgb_triplet(&Some(vec![1, 2]), "k").unwrap_err().contains("k"));
}

#[test]
fn vision_encoders_are_built_for_their_backend() {
    let geometry = ImageGeometry { image_size: 768, alignment: 32 };
    let build = |backend: MultimodalBackend| {
        build_vision_encoder_from_mmproj(
            backend,
            5,
            &vision_metadata(),
            &gemma_directory(),
            geometry,
        )
        .unwrap()
    };
    assert_eq!(build(MultimodalBackend::Gemma3).unwrap().recommended_image_size(), 8);
    let encoder = build(MultimodalBackend::Idefics3).unwrap();
    assert_eq!(
        (encoder.recommended_image_size(), encoder.recommended_image_alignment()),
        (768, 32)
    );
    assert!(build(MultimodalBackend::TextOnly).is_none());
}

/// Attends along the ranges of the library.
fn attend(query: &[f32], key: &[f32], value: &[f32], e: AttentionExtents) -> Vec<f32> {
    let mut output = vec![0.0f32; query.len()];
    plan_encoder_attention(e, output.len(), query.len(), key.len(), value.len()).unwrap();
    let dim = e.head_count * e.head_dim;
    let inv_scale = 1.0 / (e.head_dim as f32).sqrt();
    for (token, row) in output.chunks_exact_mut(dim).enumerate() {
        for (head, destination) in row.chunks_exact_mut(e.head_dim).enumerate() {
            let part = |values: &[f32], at: usize| {
                let start = at * dim + head * e.head_dim;
                values[start..start + e.head_dim].to_vec()
            };
            let (mut maximum, mut sum) = (f32::NEG_INFINITY, 0.0f32);
            for other in attended_tokens(token, e) {
                let score = part(query, token)
                    .iter()
                    .zip(part(key, other))
                    .map(|(a, b)| a * b)
                    .sum::<f32>()
                    * inv_scale;
                if score > maximum {
                    let rescale = (maximum - score).exp();
                    destination.iter_mut().for_each(|value| *value *= rescale);
                    sum *= rescale;
                    maximum = score;
                }
                let weight = (score - maximum).exp();
                sum += weight;
                for (slot, value) in destination.iter_mut().zip(part(value, other)) {
                    *slot += weight * value;
                }
            }
            destination.iter_mut().for_each(|value| *value /= sum);
        }
    }
    output
}

#[test]
fn encoder_attention_matches_reference_and_isolates_sequences() {
    let sequence_count = 2usize;
    let tokens_per_sequence = 3usize;
    let head_count = 2usize;
    let head_dim = 2usize;
    let dim = head_count * head_dim;
    let total_tokens = sequence_count * tokens_per_sequence;
    let query = (0..total_tokens * dim)
        .map(|i| ((i * 7 % 19) as f32 - 9.0) * 0.125)
        .collect::<Vec<_>>();
    let key = (0..total_tokens * dim)
        .map(|i| ((i * 11 % 23) as f32 - 11.0) * 0.1)
        .collect::<Vec<_>>();
    let value = (0..total_tokens * dim)
        .map(|i| {
            let sequence = i / (tokens_per_sequence * dim);
            sequence as f32 * 100.0 + (i % (tokens_per_sequence * dim)) as f32 * 0.25
        })
        .collect::<Vec<_>>();

    let extents = AttentionExtents { sequence_count, tokens_per_sequence, head_count, head_dim };
    let got = attend(&query, &key, &value, extents);

    let inv_scale = 1.0 / (head_dim as f32).sqrt();
    let mut want = vec![0.0f32; got.len()];
    for sequence in 0..sequence_count {
        let sequence_start = sequence * tokens_per_sequence;
        for query_token in 0..tokens_per_sequence {
            for head in 0..head_count {
                let head_offset = head * head_dim;
                let query_start = (sequence_start + query_token) * dim + head_offset;
                let mut scores = vec![0.0f32; tokens_per_sequence];
                for (key_token, score) in scores.iter_mut().enumerate() {
                    let key_start = (sequence_start + key_token) * dim + head_offset;
                    *score = (0..head_dim)
                        .map(|i| query[query_start + i] * key[key_start + i])
                        .sum::<f32>()
                        * inv_scale;
                }
                let maximum = scores.iter().copied().fold(f32::NEG_INFINITY, f32::max);
                let weights = scores
                    .iter()
                    .map(|score| (*score - maximum).exp())
                    .collect::<Vec<_>>();
                let sum = weights.iter().sum::<f32>();
                for (key_token, weight) in weights.iter().enumerate() {
                    let value_start = (sequence_start + key_token) * dim + head_offset;
                    for i in 0..head_dim {
                        want[query_start + i] += *weight / sum * value[value_start + i];
                    }
                }
            }
        }
    }

    for (index, (&actual, &expected)) in got.iter().zip(&want).enumerate() {
        let tolerance = 2e-5 * expected.abs().max(1.0);
        assert!(
            (actual - expected).abs() <= tolerance,
            "index={index}: actual={actual} expected={expected} tolerance={tolerance}"
        );
    }
    assert!(got[..tokens_per_sequence * dim].iter().all(|value| *value < 10.0));
    assert!(got[tokens_per_sequence * dim..].iter().all(|value| *value > 90.0));
}

/// Attends block by block.
fn attend_in_blocks(query: &[f32], key: &[f32], value: &[f32], e: AttentionExtents) -> Vec<f32> {
    let mut output = vec![0.0f32; query.len()];
    let (tokens, head_dim) = (e.tokens_per_sequence, e.head_dim);
    let dim = e.head_count * head_dim;
    let inv_scale = 1.0 / (head_dim as f32).sqrt();
    for block in plan_attention_blocks(e).unwrap() {
        for row in 0..block.rows {
            let at = |token: usize| (block.sequence_start + token) * dim + block.head_offset;
            let own = at(block.query_start + row);
            let scores: Vec<f32> = (0..tokens)
                .map(|other| {
                    let products = (0..head_dim).map(|i| query[own + i] * key[at(other) + i]);
                    products.sum::<f32>() * inv_scale
                })
                .collect();
            let maximum = scores.iter().copied().fold(f32::NEG_INFINITY, f32::max);
            let weights: Vec<f32> = scores.iter().map(|score| (score - maximum).exp()).collect();
            let sum: f32 = weights.iter().sum();
            for (other, weight) in weights.iter().enumerate() {
                for i in 0..head_dim {
                    output[own + i] += weight / sum * value[at(other) + i];
                }
            }
        }
    }
    output
}

#[test]
fn encoder_attention_handles_partial_query_block() {
    let tokens = ATTENTION_QUERY_BLOCK + 1;
    let heads = 2usize;
    let head_dim = 4usize;
    let dim = heads * head_dim;
    let query = (0..tokens * dim)
        .map(|i| ((i * 17 % 29) as f32 - 14.0) * 0.03125)
        .collect::<Vec<_>>();
    let key = (0..tokens * dim)
        .map(|i| ((i * 13 % 31) as f32 - 15.0) * 0.025)
        .collect::<Vec<_>>();
    let value = (0..tokens * dim)
        .map(|i| ((i * 19 % 37) as f32 - 18.0) * 0.05)
        .collect::<Vec<_>>();
    let extents = AttentionExtents {
        sequence_count: 1,
        tokens_per_sequence: tokens,
        head_count: heads,
        head_dim,
    };
    let expected = attend(&query, &key, &value, extents);
    let actual = attend_in_blocks(&query, &key, &value, extents);

    for (index, (&got, &want)) in actual.iter().zip(&expected).enumerate() {
        let tolerance = 3e-5 * want.abs().max(1.0);
        assert!(
            (got - want).abs() <= tolerance,
            "index={index}: actual={got} expected={want} tolerance={tolerance}"
        );
    }
}

#[test]
fn query_blocks_are_in_order() {
    let e = AttentionExtents {
        sequence_count: 2,
        tokens_per_sequence: 130,
        head_count: 2,
        head_dim: 3,
    };
    let blocks = plan_attention_blocks(e).unwrap();
    assert_eq!(blocks.len(), 8);
    assert_eq!(
        blocks[5],
        QueryBlock { sequence_start: 130, head_offset: 0, query_start: 128, rows: 2 }
    );
    assert_eq!(
        blocks[6],
        QueryBlock { sequence_start: 130, head_offset: 3, query_start: 0, rows: 128 }
    );
    let long = AttentionExtents {
        sequence_count: 1,
        tokens_per_sequence: 1 << 31,
        head_count: 1,
        head_dim: 1,
    };
    assert_eq!(plan_attention_blocks(long).unwrap_err(), AttentionBlockError::Tokens);
    let many = AttentionExtents { tokens_per_sequence: 1 << 25, ..long };
    assert_eq!(
        plan_attention_blocks(many).unwrap_err().message(),
        "encoder attention score block exceeds c_int"
    );
    let wide = AttentionExtents { tokens_per_sequence: 1, head_dim: 1 << 31, ..long };
    assert_eq!(plan_attention_blocks(wide).unwrap_err(), AttentionBlockError::HeadDimension);
    let heads = AttentionExtents {
        tokens_per_sequence: 1,
        head_count: 4,
        head_dim: 1 << 30,
        ..long
    };
    assert_eq!(plan_attention_blocks(heads).unwrap_err(), AttentionBlockError::Stride);
}

#[test]
fn attention_buffers_are_checked() {
    let e = AttentionExtents {
        sequence_count: 1,
        tokens_per_sequence: 3,
        head_count: 2,
        head_dim: 2,
    };
    assert_eq!(plan_encoder_attention(e, 12, 12, 12, 12).unwrap(), 12);
    assert_eq!(
        plan_encoder_attention(e, 12, 12, 11, 12).unwrap_err(),
        EncoderAttentionError::Shape(e)
    );
    let wide = AttentionExtents { head_count: usize::MAX, ..e };
    assert_eq!(
        plan_encoder_attention(wide, 0, 0, 0, 0).unwrap_err(),
        EncoderAttentionError::Dimension
    );
    let long = AttentionExtents { sequence_count: usize::MAX, ..e };
    assert_eq!(
        plan_encoder_attention(long, 0, 0, 0, 0).unwrap_err(),
        EncoderAttentionError::Tokens
    );
    let both = AttentionExtents { sequence_count: usize::MAX / 4, ..e };
    assert_eq!(
        plan_encoder_attention(both, 0, 0, 0, 0).unwrap_err(),
        EncoderAttentionError::Buffer
    );
    assert!(uses_float_batch(2, true, true));
    assert!(!uses_float_batch(1, true, true));
}

#[test]
fn tensors_are_found_shaped_and_sized() {
    let directory = gemma_directory();
    let found = find_gguf_tensor(&directory, &"v.post_ln.bias".to_string()).unwrap();
    assert_eq!(found.ne[0], 4);
    assert_eq!(tensor_storage_bytes(found).unwrap(), 16);
    assert!(find_gguf_tensor(&directory, &"none".to_string()).is_none());
    assert_eq!(tensor_shape(found).unwrap(), Shape::one(4));
    assert!(validate_tensor_storage(found, 16).is_ok());
    assert_eq!(
        validate_tensor_storage(found, 15).unwrap_err(),
        TensorProblem::RangeExceeds { start: 0, end: 16, mapped_len: 15 }
    );
    let name = "v.patch_embd.weight".to_string();
    assert_eq!(
        load(&directory, &name, Rule::Floats(Some(47))).unwrap_err(),
        TensorProblem::ElementCount { got: 48, wanted: 47 }
    );
    assert!(matches!(
        load(&directory, &name, Rule::Floats(None)).unwrap(),
        Loaded::Floats { byte_len: 192, elements: 48, .. }
    ));
    assert!(matches!(
        load(&directory, &"none".to_string(), Rule::Optional(Shape::one(4))).unwrap(),
        Loaded::Absent
    ));
    let requirements = vec![
        Requirement { name: "v.post_ln.bias".to_string(), rule: Rule::Exact(Shape::one(4)) },
        Requirement { name: "none".to_string(), rule: Rule::AnyMatrix },
    ];
    let error = load_all(&directory, &requirements).unwrap_err();
    assert_eq!((error.name.as_str(), error.problem), ("none", TensorProblem::NotFound));
}

#[test]
fn encoder_buffers_are_checked() {
    let weight = QuantizedTensor { data_offset: 4, ttype: 30, rows: 2, cols: 3 };
    assert_eq!(plan_matmul_bf16(weight, 16, 6, 4, 2).unwrap(), 16);
    for (mapped, source, output, tokens) in [(15, 6, 4, 2), (16, 5, 4, 2), (16, 6, 4, 1)] {
        assert_eq!(
            plan_matmul_bf16(weight, mapped, source, output, tokens).unwrap_err(),
            BufferError::MatrixBuffers
        );
    }
    let wide = QuantizedTensor { cols: usize::MAX, ..weight };
    assert_eq!(plan_matmul_bf16(wide, 16, 6, 4, 2).unwrap_err(), BufferError::MatrixOverflow);
    let far = QuantizedTensor { data_offset: usize::MAX, ..weight };
    assert_eq!(
        plan_matmul_bf16(far, 16, 6, 4, 2).unwrap_err().message(),
        "BF16 encoder offset overflow"
    );
    assert_eq!(check_position_table(64, 8, 2, 4).unwrap(), 4);
    assert_eq!(
        check_position_table(63, 8, 2, 4).unwrap_err().message(),
        "invalid gemma3 position embedding tensor size: got 63, expected 64 (grid=4 dim=4)"
    );
    assert_eq!(
        check_position_table(63, 8, 2, usize::MAX).unwrap_err(),
        BufferError::PositionOverflow
    );
}

fn stored(shape: &[u64], block_size: usize, type_size: usize) -> Gguftensor {
    let mut tensors = Vec::new();
    add(&mut tensors, "t", shape);
    let mut tensor = tensors.remove(0);
    tensor.block_size = block_size;
    tensor.type_size = type_size;
    tensor
}

#[test]
fn tensors_are_refused_for_the_first_thing_wrong() {
    let t = stored(&[4, 6], 1, 4);
    assert_eq!(
        load_tensor_float(&t, 95, None).unwrap_err(),
        TensorProblem::OutOfBounds
    );
    assert_eq!(
        load_tensor_float(&stored(&[4, 6], 1, 0), 96, None).unwrap_err(),
        TensorProblem::UnsupportedFloats { ttype: 0 }
    );
    assert_eq!(
        load_tensor_float(&stored(&[4, 6], 32, 18), 96, None).unwrap_err(),
        TensorProblem::UnevenFloats { elements: 24, block_size: 32 }
    );
    assert_eq!(
        load_tensor_quantized(&t, 5, 4).unwrap_err(),
        TensorProblem::MatrixElements { got: 24, wanted: 20, rows: 5, cols: 4 }
    );
    assert!(matches!(load_tensor_quantized(&t, 8, 3).unwrap(), Loaded::Matrix(_)));
    assert!(matches!(load_projection(&t, 4, 6).unwrap(), Loaded::Matrix(_)));
    assert_eq!(
        load_projection(&t, 6, 4).unwrap_err(),
        TensorProblem::ProjectionShape { ne0: 4, ne1: 6, in_dim: 6, out_dim: 4 }
    );
    assert_eq!(
        load_projection(&stored(&[4], 1, 4), 4, 1).unwrap_err(),
        TensorProblem::NotAProjection { n_dims: 1 }
    );
    let mut flat = stored(&[4, 6], 1, 4);
    flat.n_dims = 0;
    assert_eq!(
        tensor_shape(&flat).unwrap_err(),
        TensorProblem::InvalidRank { n_dims: 0 }
    );
    assert_eq!(
        validate_tensor_storage(&stored(&[4, 6], 0, 0), 96).unwrap_err(),
        TensorProblem::UnsupportedType { ttype: 0 }
    );
    assert_eq!(
        validate_tensor_storage(&stored(&[4, 6], 3, 4), 96).unwrap_err(),
        TensorProblem::UnevenRows { first: 4, block_size: 3, ttype: 0 }
    );
    assert_eq!(
        validate_tensor_storage(&stored(&[u64::MAX, 2], 1, 4), 96).unwrap_err(),
        TensorProblem::CountOverflow { shape: Shape::two(usize::MAX, 2) }
    );
    assert_eq!(
        validate_tensor_storage(&stored(&[u64::MAX], 1, 4), 96).unwrap_err(),
        TensorProblem::StorageOverflow
    );
    let mut far = stored(&[4, 6], 1, 4);
    far.data_offset = usize::MAX;
    assert_eq!(
        validate_tensor_storage(&far, 96).unwrap_err(),
        TensorProblem::RangeOverflow
    );
    assert!(matches!(tensor_weight(&t, 96).unwrap(), Loaded::Weight { .. }));
}

#[test]
fn shapes_are_required_by_name() {
    let directory = gemma_directory();
    let bias = "v.post_ln.bias".to_string();
    let none = "none".to_string();
    assert!(matches!(
        require_shape(&directory, &bias, Shape::one(4)).unwrap(),
        Loaded::Weight { .. }
    ));
    assert_eq!(
        require_shape(&directory, &bias, Shape::one(5)).unwrap_err(),
        TensorProblem::ShapeMismatch { shape: Shape::one(4), wanted_shape: Shape::one(5) }
    );
    assert_eq!(
        optional_shape(&directory, &none, Shape::one(5)).unwrap(),
        Loaded::Absent
    );
    assert!(optional_shape(&directory, &bias, Shape::one(5)).is_err());
    assert_eq!(
        require_matrix(&directory, &bias).unwrap_err(),
        TensorProblem::NotAMatrix { rank: 1 }
    );
    assert_eq!(require_matrix(&directory, &none).unwrap_err(), TensorProblem::NotFound);
}

#[test]
fn planned_tokens_are_what_two_merges_leave() {
    let encoder =
        MiniCpmVVisionEncoder::new(&vision_metadata(), &minicpm_directory(), 5).unwrap();
    let (across, down) = encoder.patch_grid(32, 16, "p").unwrap();
    let tokens: Vec<u32> = (0..(across * down) as u32).collect();
    let (_, high, wide) = gather_merge_groups(&tokens, 1, down, across, 1, 0);
    let merged: Vec<u32> = (0..(high * wide) as u32).collect();
    let (_, high, wide) = gather_merge_groups(&merged, 1, high, wide, 1, 0);
    assert_eq!(encoder.planned_view_tokens(32, 16).unwrap(), high * wide);
    assert_eq!(high * wide, 8);
}
