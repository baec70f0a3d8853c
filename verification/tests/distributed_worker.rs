use inference_engine::distributed::activation::ActivationValues;
use inference_engine::distributed::control::{encode_error_frame, HelloFrame};
use inference_engine::distributed::experts::{
    encode_expert_batch_request, encode_speculation_advance, ExpertBatchRequest,
    SpeculationAdvanceFrame,
};
use inference_engine::distributed::protocol::{ActivationDtype, FrameKind};
use inference_engine::distributed::resources::NodeResourceSnapshot;
use inference_engine::distributed::selection::{
    choose_best, group_size, prediction_count, select_experts, select_groups, uses_groups,
};
use inference_engine::distributed::shard::{
    encode_model_shard_header, encode_ssm_layer_request, ModelShardHeaderFrame, ShardTensorEntry,
    SsmLayerRequest,
};
use inference_engine::distributed::speculation::{
    contains_size, future_layers, held_experts, next_layer, plan_work, CacheStore,
    SpeculationCache,
};
use inference_engine::distributed::worker_recurrent::{
    build_ssm_session, parse_ssm_float_payload, plan_ssm_gates, plan_ssm_offsets, plan_ssm_step,
    SsmGates, SsmOffsets,
};
use inference_engine::distributed::worker_session::{
    announcement, check_request, classify_first_frame, classify_session_frame, FirstFrame,
    Prediction, ResultSource, SessionAction, WorkerRuntime, WorkerSession,
};
use inference_engine::distributed::worker_shard::{
    build_expert_slots, build_gate_layers, check_header, check_target, find_last_of_layer,
    moe_layer_indices, ready_frame, MissingRecurrent, MissingTensor, WorkerError,
};

fn entry(layer: usize, expert_idx: usize, kind: u8, byte_offset: u64) -> ShardTensorEntry {
    ShardTensorEntry {
        layer,
        expert_idx,
        kind,
        ttype: 8,
        rows: 8,
        cols: 4,
        byte_offset,
        byte_len: 100,
    }
}

fn header(entries: Vec<ShardTensorEntry>) -> ModelShardHeaderFrame {
    ModelShardHeaderFrame {
        total_bytes: 10_000,
        n_layers: 4,
        n_experts: 3,
        dim: 2,
        expert_hidden_dim: 8,
        entries,
        ssm_inner_size: 0,
        ssm_group_count: 0,
        ssm_time_step_rank: 0,
        ssm_state_size: 0,
        ssm_conv_kernel: 0,
        ssm_eps: 0,
        ssm_float_payload: Vec::new(),
        n_experts_per_tok: 2,
        moe_n_group: 0,
        moe_topk_group: 0,
    }
}

/// Experts 0 and 2 of layers 1, 2 and 3.
fn expert_entries() -> Vec<ShardTensorEntry> {
    let mut entries = Vec::new();
    for layer in 1..4 {
        for expert in [0, 2] {
            for kind in 0..3u8 {
                let at = (layer * 100 + expert * 10) as u64 + u64::from(kind);
                entries.push(entry(layer, expert, kind, at));
            }
        }
        entries.push(entry(layer, 0, 9, 7));
    }
    entries
}

fn hello() -> HelloFrame {
    HelloFrame {
        node_address: "w".to_string(),
        dim: 2,
        n_layers: 4,
        n_experts: 3,
        activation_dtype: ActivationDtype::Bf16,
        assigned_experts: vec![(1, 0), (1, 2)],
        speculative_push: true,
    }
}

fn runtime() -> WorkerRuntime {
    WorkerRuntime {
        bind_address: "w".to_string(),
        resources: NodeResourceSnapshot { logical_cpu_count: 3, memory_bytes: 99 },
    }
}

fn session() -> WorkerSession<u32> {
    let header = header(expert_entries());
    let (_, prepared) = runtime().prepare_session(&hello(), &header, 0).unwrap();
    prepared.session
}

#[test]
fn sessions_are_prepared_from_shard_headers() {
    let payload = encode_model_shard_header(&recurrent_header()).unwrap();
    let kind = FrameKind::ModelShardHeader;
    let header = runtime().read_header(&hello(), kind, &payload).unwrap();
    let (ready, prepared) = runtime().prepare_session(&hello(), &header, 7u32).unwrap();
    assert_eq!((ready.loaded_expert_count, ready.memory_bytes), (2, 99));
    assert_eq!(prepared.session.moe_layer_indices, vec![1, 2, 3]);
    assert_eq!(prepared.session.last_activation, vec![7, 7]);
    assert!(prepared.session.slots.get(3, 2).is_some());
    assert!(prepared.gate_layers[0].is_none() && prepared.gate_layers[3].is_some());
    assert_eq!(prepared.recurrent.unwrap().shape.conv_kernel, 3);
    assert!(matches!(
        runtime().read_header(&hello(), FrameKind::Ready, &payload),
        Err(WorkerError::ExpectedShardHeader(FrameKind::Ready))
    ));
    assert!(matches!(
        runtime().read_header(&hello(), kind, &payload[..9]),
        Err(WorkerError::Protocol(_))
    ));
    let mut other = hello();
    other.dim = 3;
    assert!(matches!(
        runtime().read_header(&other, kind, &payload),
        Err(WorkerError::DimensionMismatch)
    ));
}

#[test]
fn sessions_are_for_this_worker_and_model() {
    assert!(check_target(&hello(), &"w".to_string()).is_ok());
    assert!(matches!(
        check_target(&hello(), &"v".to_string()).unwrap_err(),
        WorkerError::WrongTarget { targeted, own } if targeted == "w" && own == "v"
    ));
    assert!(check_header(&hello(), &header(Vec::new())).is_ok());
    let mut other = header(Vec::new());
    other.n_experts = 4;
    assert!(matches!(
        check_header(&hello(), &other).unwrap_err(),
        WorkerError::DimensionMismatch
    ));
    let resources = runtime().resources;
    let ready = ready_frame(&"w".to_string(), &resources, &hello(), &header(Vec::new()));
    assert_eq!((ready.loaded_expert_count, ready.memory_bytes), (2, 99));
    assert_eq!(runtime().discovery_frame().logical_cpu_count, 3);
}

#[test]
fn experts_need_all_three_parts() {
    let slots = build_expert_slots(&header(expert_entries())).unwrap();
    let expert = slots.get(2, 2).unwrap();
    assert_eq!(
        (expert.gate.data_offset, expert.up.data_offset, expert.down.data_offset),
        (220, 221, 222)
    );
    assert!(slots.get(2, 1).is_none());
    assert!(slots.get(0, 0).is_none());
    let mut entries = expert_entries();
    entries.retain(|entry| !(entry.layer == 3 && entry.kind == 1));
    assert!(matches!(
        build_expert_slots(&header(entries)).unwrap_err(),
        WorkerError::MissingExpertTensor { kind: MissingTensor::Up, layer: 3, .. }
    ));
    let mut entries = expert_entries();
    entries.push(entry(9, 7, 0, 0));
    assert!(matches!(
        build_expert_slots(&header(entries)).unwrap_err(),
        WorkerError::MissingExpertTensor { kind: MissingTensor::Up, layer: 9, expert: 7 }
    ));
    let gates = build_gate_layers(&header(expert_entries()));
    assert_eq!(moe_layer_indices(&gates), vec![1, 2, 3]);
    assert!(find_last_of_layer(&expert_entries(), 0, 9).is_none());
}

#[test]
fn frames_ask_for_what_their_kind_says() {
    assert_eq!(classify_first_frame(FrameKind::DiscoverRequest), FirstFrame::AnswerDiscovery);
    assert_eq!(classify_first_frame(FrameKind::Hello), FirstFrame::StartSession);
    assert_eq!(
        classify_first_frame(FrameKind::Ready),
        FirstFrame::Reject(FrameKind::Ready)
    );
    let activation = || ActivationValues::Bf16(vec![0x3f80_0000; 2]);
    let request = ExpertBatchRequest {
        token_pos: 1,
        layer: 2,
        activation_dtype: ActivationDtype::Bf16,
        dim: 2,
        expert_ids: vec![0],
        activation: activation(),
        hint_expert_ids: Vec::new(),
    };
    let bytes = encode_expert_batch_request(&request).unwrap();
    assert!(matches!(
        classify_session_frame(FrameKind::ExpertBatchRequest, &bytes, false),
        SessionAction::ServeExperts(asked) if asked.layer == 2
    ));
    let advance = SpeculationAdvanceFrame {
        layer: 1,
        activation_dtype: ActivationDtype::Bf16,
        dim: 2,
        activation: activation(),
        hint_expert_ids: vec![2],
    };
    let bytes = encode_speculation_advance(&advance).unwrap();
    assert!(matches!(
        classify_session_frame(FrameKind::SpeculationAdvance, &bytes, false),
        SessionAction::Advance(frame) if frame.hint_expert_ids == vec![2]
    ));
    let bytes = encode_ssm_layer_request(&SsmLayerRequest { layer: 1, xb: vec![1, 2] });
    assert!(matches!(
        classify_session_frame(FrameKind::SsmLayerRequest, &bytes, true),
        SessionAction::ServeRecurrent(_)
    ));
    assert!(matches!(
        classify_session_frame(FrameKind::SsmLayerRequest, &bytes, false),
        SessionAction::ReplyError(WorkerError::NoSsmSession)
    ));
    assert!(matches!(
        classify_session_frame(FrameKind::Shutdown, &[], false),
        SessionAction::Stop
    ));
    let error = encode_error_frame("gone").unwrap();
    assert!(matches!(
        classify_session_frame(FrameKind::Error, &error, false),
        SessionAction::Fail(WorkerError::CoordinatorReported(text)) if text == "gone"
    ));
}

#[test]
fn requests_are_for_experts_that_are_held() {
    let slots = build_expert_slots(&header(expert_entries())).unwrap();
    let worker = "w".to_string();
    assert_eq!(check_request(&slots, 2, &worker, 1, 2, &vec![2, 0]).unwrap().len(), 2);
    assert!(matches!(
        check_request(&slots, 2, &worker, 4, 2, &vec![0]).unwrap_err(),
        WorkerError::InvalidLayer(4)
    ));
    assert!(matches!(
        check_request(&slots, 2, &worker, 1, 3, &vec![0]).unwrap_err(),
        WorkerError::InvalidDim { dim: 3, own_dim: 2 }
    ));
    assert!(matches!(
        check_request(&slots, 2, &worker, 1, 2, &vec![0, 1]).unwrap_err(),
        WorkerError::NotAssigned { expert: 1, layer: 1, .. }
    ));
    assert!(check_request(&slots, 2, &worker, 1, 2, &vec![9]).is_err());
}

#[test]
fn speculation_looks_two_layers_ahead() {
    let layers = vec![1, 2, 3];
    assert_eq!(future_layers(&layers, 0), vec![1, 2]);
    assert_eq!(future_layers(&layers, 2), vec![3]);
    assert_eq!(next_layer(&layers, 1), Some(2));
    assert_eq!(next_layer(&layers, 3), None);
    assert!(contains_size(&layers, 2) && !contains_size(&layers, 0));
    let slots = build_expert_slots(&header(expert_entries())).unwrap();
    assert_eq!(held_experts(&slots, 1, &vec![2, 1, 0], 2), vec![2]);
    let work = plan_work(&slots, 1, &vec![2, 1, 0], 1).unwrap();
    let ids: Vec<usize> = work.experts.iter().map(|(id, _)| *id).collect();
    assert_eq!((ids, work.push_expert_ids), (vec![2, 0], vec![2]));
    assert!(plan_work(&slots, 1, &vec![1], 1).is_none());
}

fn cache(layer: usize) -> SpeculationCache<u32> {
    SpeculationCache {
        layer,
        outputs: vec![(0, vec![10, 11]), (2, vec![20, 21])],
        push_expert_ids: vec![2],
    }
}

#[test]
fn caches_answer_only_what_they_hold() {
    assert_eq!(
        cache(1).select(&vec![2, 0]).unwrap(),
        vec![vec![20, 21], vec![10, 11]]
    );
    assert!(cache(1).select(&vec![2, 1]).is_none());
    let mut store = CacheStore::new();
    store.put(cache(1));
    store.put(cache(2));
    assert!(store.contains(1));
    store.retain(&vec![2]);
    assert!(!store.contains(1));
    assert_eq!(store.take(2).unwrap().layer, 2);
    assert!(store.take(2).is_none());
    let push = announcement(&cache(3)).unwrap();
    assert_eq!((push.layer, push.expert_ids, push.outputs), (3, vec![2], vec![vec![20, 21]]));
}

#[test]
fn sessions_speculate_store_and_answer() {
    let mut session = session();
    session.advance(0, &[7, 8, 9], vec![2]);
    assert_eq!(session.last_activation, vec![7, 8]);
    let tasks = session.plan_speculation(0);
    assert_eq!(tasks.iter().map(|task| task.layer).collect::<Vec<_>>(), vec![1, 2]);
    assert!(matches!(&tasks[0].prediction, Prediction::Hinted(ids) if *ids == vec![2]));
    assert!(matches!(&tasks[1].prediction, Prediction::OwnRouting));
    session.start_work(1);
    session.start_work(2);
    assert!(matches!(session.begin_request(1, vec![5]), ResultSource::InFlight));
    assert_eq!(session.hint_for_layer, Some((2, vec![5])));
    let push = session.store_ready(cache(2), Some(2)).unwrap();
    assert_eq!(push.expert_ids, vec![2]);
    assert!(session.push_stored(2).is_none());
    let stored = match session.take_results(2) {
        ResultSource::Stored(cache) => cache,
        _ => unreachable!(),
    };
    assert_eq!(
        session.settle_request(2, &vec![0], Some(stored), &[1, 2]).unwrap(),
        vec![vec![10, 11]]
    );
    assert_eq!(session.last_activation, vec![1, 2]);
    assert!(session.answer(3, &vec![0], None).is_none());
    assert_eq!((session.spec_hits, session.spec_misses), (1, 1));
    assert!(matches!(session.take_results(2), ResultSource::Absent));
    session.start_work(3);
    session.abandon_work(3);
    assert!(session.in_flight.is_empty());
    assert_eq!(session.push_layer(2), Some(3));
}

#[test]
fn the_best_keys_are_chosen_in_order() {
    let keys = vec![5, 9, 9, 1, 7];
    assert_eq!(choose_best(&keys, &vec![true; 5], 3), vec![1, 2, 4]);
    assert_eq!(choose_best(&keys, &vec![true, false, false, true, true], 9), vec![4, 0, 3]);
    assert_eq!(select_groups(&vec![3, 8, 5], 2), vec![false, true, true]);
    assert_eq!(
        select_experts(&vec![1, 2, 3, 4, 5, 6], &vec![true, false, true], 2, 3),
        vec![5, 4, 1]
    );
    assert!(uses_groups(8, 4, 2));
    assert!(!uses_groups(8, 3, 2));
    assert_eq!(group_size(8, 4, 2), 2);
    assert_eq!(group_size(8, 1, 1), 8);
    assert_eq!(prediction_count(2, 8), 4);
    assert_eq!(prediction_count(5, 8), 8);
}

fn float_payload(values: &[(u32, [Vec<f32>; 4])]) -> Vec<u8> {
    let mut bytes = Vec::new();
    for (layer, parts) in values {
        bytes.extend_from_slice(&layer.to_le_bytes());
        for (place, part) in parts.iter().enumerate() {
            // The third part is as long as the second.
            if place != 2 {
                bytes.extend_from_slice(&(part.len() as u32).to_le_bytes());
            }
            for value in part {
                bytes.extend_from_slice(&value.to_le_bytes());
            }
        }
    }
    bytes
}

fn recurrent_header() -> ModelShardHeaderFrame {
    let mut entries = expert_entries();
    for kind in [3u8, 4, 5, 7, 8] {
        let mut recurrent = entry(0, 0, kind, 5_000 + u64::from(kind));
        recurrent.rows = 8;
        entries.push(recurrent);
    }
    let mut header = header(entries);
    header.ssm_inner_size = 4;
    header.ssm_group_count = 1;
    header.ssm_time_step_rank = 2;
    header.ssm_state_size = 2;
    header.ssm_conv_kernel = 3;
    header.ssm_eps = 1e-6f32.to_bits();
    let payload =
        [(0u32, [vec![1.0f32; 24], vec![2.0; 2], vec![3.0; 2], vec![4.0; 2]])];
    header.ssm_float_payload = float_payload(&payload);
    header
}

#[test]
fn recurrent_layers_are_found_in_shards() {
    let header = recurrent_header();
    let floats = parse_ssm_float_payload(&header.ssm_float_payload).unwrap();
    assert_eq!(floats.len(), 1);
    assert_eq!((floats[0].conv1d.len(), floats[0].a[0]), (24, 2.0f32.to_bits()));
    assert!(matches!(
        parse_ssm_float_payload(&header.ssm_float_payload[..20]).unwrap_err(),
        WorkerError::TruncatedPayloadValues
    ));
    let session = build_ssm_session(&header).unwrap();
    assert_eq!((session.conv_state_len, session.ssm_state_len), (4 * 2 * 8, 4 * 8));
    let weights = plan_ssm_step(&session, 0).unwrap();
    assert_eq!((weights.qkv_in.data_offset, weights.gate.data_offset), (5_003, 5_004));
    match plan_ssm_gates(&weights, 0).unwrap() {
        SsmGates::Apart { alpha, beta } => {
            assert_eq!((alpha.data_offset, beta.data_offset), (5_007, 5_008));
        }
        SsmGates::Fused(_) => panic!("there is no fused matrix"),
    }
    // A layer keeps two rows of eight past values and two heads of two by two.
    assert_eq!(plan_ssm_offsets(&session, 0), SsmOffsets { history: 0, state: 0 });
    assert_eq!(plan_ssm_offsets(&session, 3), SsmOffsets { history: 48, state: 24 });
    assert!(matches!(
        plan_ssm_step(&session, 1).unwrap_err(),
        WorkerError::SsmLayerEmpty(1)
    ));
    assert!(matches!(
        plan_ssm_step(&session, 4).unwrap_err(),
        WorkerError::SsmLayerRange { layer: 4, n_layers: 4 }
    ));
    let mut lacking = recurrent_header();
    lacking.entries.retain(|entry| entry.kind != 5);
    assert!(matches!(
        build_ssm_session(&lacking).unwrap_err(),
        WorkerError::MissingRecurrentPart { part: MissingRecurrent::OutProj, layer: 0 }
    ));
    // An empty kernel is looked at only once the projections are there.
    let mut session = build_ssm_session(&recurrent_header()).unwrap();
    session.shape.conv_kernel = 0;
    assert!(plan_ssm_step(&session, 0).is_ok());
    assert!(matches!(
        plan_ssm_step(&session, 1).unwrap_err(),
        WorkerError::SsmLayerEmpty(1)
    ));
}

#[test]
fn missing_gate_matrices_are_found_after_the_first_projections() {
    for (kind, is_alpha) in [(7u8, true), (8, false)] {
        let mut lacking = recurrent_header();
        lacking.entries.retain(|entry| entry.kind != kind);
        let session = build_ssm_session(&lacking).unwrap();
        let weights = plan_ssm_step(&session, 0).unwrap();
        match plan_ssm_gates(&weights, 0).unwrap_err() {
            WorkerError::SsmAlphaMissing(0) => assert!(is_alpha),
            WorkerError::SsmBetaMissing(0) => assert!(!is_alpha),
            other => panic!("unexpected error {other:?}"),
        }
    }
    let mut fused = recurrent_header();
    fused.entries.retain(|entry| entry.kind != 7);
    fused.entries.push(entry(0, 0, 6, 6_000));
    let session = build_ssm_session(&fused).unwrap();
    let weights = plan_ssm_step(&session, 0).unwrap();
    match plan_ssm_gates(&weights, 0).unwrap() {
        SsmGates::Fused(ba) => assert_eq!(ba.data_offset, 6_000),
        SsmGates::Apart { .. } => panic!("the fused matrix comes first"),
    }
}
