use inference_engine::distributed::activation::ActivationValues;
use inference_engine::distributed::assembly::{
    assemble_shards, ExpertPart, RecurrentPart, RoutingPart,
};
use inference_engine::distributed::control::{
    encode_discover_response_frame, encode_error_frame, encode_ready_frame, DiscoverResponseFrame,
    HelloFrame, ReadyFrame,
};
use inference_engine::distributed::coordinator::{
    advance_handshake, after_transport_failure, batch_send_retries, check_discovery,
    discover_cluster_resources, interpret_batch_reply, interpret_discovery_reply,
    interpret_handshake_reply, interpret_ssm_reply, validate_ready_frame, ActivationBufferPool,
    CoordinatorError, HandshakeAction, HandshakeState, HandshakeStep, ModelSizes,
    RemoteWorkerStats, RetryDecision,
};
use inference_engine::distributed::experts::{encode_expert_batch_response, ExpertBatchResponse};
use inference_engine::distributed::local_experts::{
    computes_in_parallel, plan_local_experts, ExpertExtents, ExpertRows,
};
use inference_engine::distributed::placement::{
    available_capacity_bytes, can_fit_additional_expert, node_assignable_capacity_bytes,
    node_weight, ClusterConfig, ClusterNodeConfig, ClusterNodeRole, MoeModelConfig,
    MoePlacementInventory, MoePlacementNode, MoePlacementPlan, PlacementError,
};
use inference_engine::distributed::plans::{
    build_moe_placement_plan, expert_inventory, layer_expert_tensor_bytes,
};
use inference_engine::distributed::planner::{
    assign_expert_to_node, build_moe_placement_plan_from_inventory,
};
use inference_engine::distributed::protocol::{ActivationDtype, FrameKind};
use inference_engine::distributed::resources::{
    detect_total_memory_bytes, local_node_resources, NodeResourceSnapshot,
};
use inference_engine::distributed::routing::{route_experts, weighted_outputs};
use inference_engine::distributed::setup::{
    gather_ranges, merge_gate_shard, merge_ssm_shard, plan_worker_setups, GateShardData,
    MergeError, SsmShardData,
};
use inference_engine::distributed::shard::{
    decode_model_shard_header, encode_model_shard_header, encode_ssm_layer_response,
    ModelShardHeaderFrame, ShardTensorEntry, SsmLayerResponse,
};
use inference_engine::distributed::shares::{ideal_assigned_bytes_by_node, pick_next_node};
use inference_engine::distributed::worker_shard::{ExpertSlots, WorkerExpertTensors};
use inference_engine::gguf::{Gguftensor, QuantizedTensor, TensorDirectory};

fn node(id: &str, role: ClusterNodeRole, cpus: usize, memory: usize) -> ClusterNodeConfig {
    ClusterNodeConfig {
        id: id.to_string(),
        address: if id == "coordinator" { "127.0.0.1:7000" } else { id }.to_string(),
        role,
        logical_cpu_count: Some(cpus),
        discovered_memory_bytes: Some(memory),
    }
}

fn test_cluster(worker_a_gb: u64, worker_b_gb: u64) -> ClusterConfig {
    let gb = |count: u64| (count as usize) * 1024 * 1024 * 1024;
    ClusterConfig {
        node: vec![
            node("coordinator", ClusterNodeRole::Coordinator, 4, 4096),
            node("127.0.0.1:7001", ClusterNodeRole::Worker, 4, gb(worker_a_gb)),
            node("127.0.0.1:7002", ClusterNodeRole::Worker, 8, gb(worker_b_gb)),
        ],
    }
}

fn test_inventory() -> MoePlacementInventory {
    MoePlacementInventory {
        n_layers: 4,
        n_experts: 8,
        n_experts_used: 2,
        dim: 4096,
        expert_hidden_dim: 1024,
        checkpoint_bytes: 10_000,
        non_expert_checkpoint_bytes: 1_000,
        gate_bytes_per_expert: 10,
        up_bytes_per_expert: 10,
        down_bytes_per_expert: 10,
        total_bytes_per_expert: 30,
        total_bytes_all_experts: 4 * 8 * 30,
    }
}

#[test]
fn placement_keeps_a_local_expert_window_when_capacity_allows() {
    let plan = build_moe_placement_plan_from_inventory(test_inventory(), &test_cluster(1, 1))
        .expect("plan");
    let coordinator_index = plan
        .nodes
        .iter()
        .position(|node| node.role == ClusterNodeRole::Coordinator)
        .expect("coordinator");
    for layer in 0..plan.inventory.n_layers {
        let local_count = (0..plan.inventory.n_experts)
            .filter(|expert| {
                plan.expert_node_indices[layer * plan.inventory.n_experts + *expert]
                    == coordinator_index
            })
            .count();
        assert!(
            local_count >= plan.inventory.n_experts_used,
            "expected at least {} local experts in layer {}, got {}",
            plan.inventory.n_experts_used,
            layer,
            local_count
        );
    }
}

#[test]
fn placement_biases_more_experts_to_larger_workers() {
    let plan = build_moe_placement_plan_from_inventory(test_inventory(), &test_cluster(1, 3))
        .expect("plan");
    let worker_a = plan
        .nodes
        .iter()
        .find(|node| node.node_id == "127.0.0.1:7001")
        .expect("worker-a");
    let worker_b = plan
        .nodes
        .iter()
        .find(|node| node.node_id == "127.0.0.1:7002")
        .expect("worker-b");
    assert!(
        worker_b.assigned_expert_count > worker_a.assigned_expert_count,
        "expected larger worker to get more experts: worker-a={} worker-b={}",
        worker_a.assigned_expert_count,
        worker_b.assigned_expert_count
    );
}

#[test]
fn plans_account_for_every_expert() {
    let plan = build_moe_placement_plan_from_inventory(test_inventory(), &test_cluster(1, 2))
        .unwrap();
    assert_eq!(plan.coordinator_node_id, "coordinator");
    assert_eq!(plan.expert_node_indices.len(), 32);
    for (index, node) in plan.nodes.iter().enumerate() {
        let experts = plan.assigned_experts_for_node(index);
        assert_eq!(experts.len(), node.assigned_expert_count);
        assert_eq!(node.assigned_bytes, 30 * node.assigned_expert_count);
        assert!(node.reserved_bytes + node.assigned_bytes <= node.capacity_bytes);
        for (layer, expert) in experts {
            assert_eq!(plan.expert_node_indices[layer * 8 + expert], index);
        }
    }
    assert_eq!(plan.nodes.iter().map(|node| node.assigned_expert_count).sum::<usize>(), 32);
}

fn rejected(inventory: MoePlacementInventory, cluster: &ClusterConfig) -> PlacementError {
    build_moe_placement_plan_from_inventory(inventory, cluster).unwrap_err()
}

#[test]
fn clusters_are_refused_for_the_first_thing_wrong() {
    let mut cluster = test_cluster(1, 1);
    cluster.node.clear();
    assert!(matches!(cluster.validate().unwrap_err(), PlacementError::NoNodes));
    assert!(matches!(rejected(test_inventory(), &cluster), PlacementError::NoCoordinator));
    let mut cluster = test_cluster(1, 1);
    cluster.node[1].role = ClusterNodeRole::Coordinator;
    assert!(matches!(cluster.validate().unwrap_err(), PlacementError::CoordinatorCount(2)));
    let mut cluster = test_cluster(1, 1);
    cluster.node[2].id = "  ".to_string();
    assert!(matches!(cluster.validate().unwrap_err(), PlacementError::EmptyId));
    let mut cluster = test_cluster(1, 1);
    cluster.node[2].address = "\t".to_string();
    assert!(matches!(
        cluster.validate().unwrap_err(),
        PlacementError::EmptyAddress(id) if id == "127.0.0.1:7002"
    ));
    let mut cluster = test_cluster(1, 1);
    cluster.node[1].discovered_memory_bytes = None;
    assert!(matches!(
        rejected(test_inventory(), &cluster),
        PlacementError::MissingMemory(id) if id == "127.0.0.1:7001"
    ));
    let mut cluster = test_cluster(1, 1);
    cluster.node[0].discovered_memory_bytes = Some(999);
    assert!(matches!(
        rejected(test_inventory(), &cluster),
        PlacementError::BaselineTooLarge { reserved: 1_000, capacity: 999, .. }
    ));
    let mut cluster = test_cluster(1, 1);
    for (node, memory) in cluster.node.iter_mut().zip([1_100, 300, 300]) {
        node.discovered_memory_bytes = Some(memory);
    }
    assert!(matches!(
        rejected(test_inventory(), &cluster),
        PlacementError::CapacityTooSmall { .. }
    ));
    // There is room for all bytes, but not for all whole experts.
    let mut cluster = test_cluster(1, 1);
    for (node, memory) in cluster.node.iter_mut().zip([1_029, 29, 920]) {
        node.discovered_memory_bytes = Some(memory);
    }
    assert!(matches!(
        rejected(test_inventory(), &cluster),
        PlacementError::Unplaceable { expert_bytes: 30, .. }
    ));
    let cluster = test_cluster(1, 1);
    assert!(cluster.validate().is_ok());
    assert_eq!(cluster.coordinator_index().unwrap(), 0);
}

fn placed(capacity: usize, reserved: usize, assigned: usize, cpus: usize) -> MoePlacementNode {
    MoePlacementNode {
        node_id: "n".to_string(),
        role: ClusterNodeRole::Worker,
        address: "a".to_string(),
        logical_cpu_count: cpus,
        capacity_bytes: capacity,
        reserved_bytes: reserved,
        assigned_expert_count: 0,
        assigned_bytes: assigned,
    }
}

#[test]
fn capacities_count_what_is_taken() {
    let node = placed(100, 30, 50, 4);
    assert_eq!(node_assignable_capacity_bytes(&node), 70);
    assert_eq!(available_capacity_bytes(&node), Some(20));
    assert!(can_fit_additional_expert(&node, 20));
    assert!(!can_fit_additional_expert(&node, 21));
    assert_eq!(node_weight(&node), 280);
    assert_eq!(node_assignable_capacity_bytes(&placed(10, 30, 0, 4)), 0);
    assert_eq!(available_capacity_bytes(&placed(100, 30, 90, 4)), None);
}

#[test]
fn shares_follow_weights_and_the_neediest_is_picked() {
    let mut nodes = vec![placed(100, 0, 0, 1), placed(300, 0, 0, 1)];
    assert_eq!(ideal_assigned_bytes_by_node(&nodes, 200).unwrap(), vec![50, 150]);
    assert!(matches!(
        ideal_assigned_bytes_by_node(&vec![placed(0, 0, 0, 1)], 10).unwrap_err(),
        PlacementError::ZeroCapacity
    ));
    assert_eq!(pick_next_node(&nodes, &vec![0, 1], &vec![50, 150], 10), Some(1));
    assert_eq!(pick_next_node(&nodes, &vec![0], &vec![50, 150], 10), Some(0));
    assert_eq!(pick_next_node(&nodes, &vec![0], &vec![50, 150], 101), None);
    assert_eq!(pick_next_node(&nodes, &vec![0], &vec![50], 10), Some(0));
    assert_eq!(pick_next_node(&nodes, &vec![0, 1], &vec![50, 150, 7], 10), Some(1));
    assert_eq!(pick_next_node(&nodes, &vec![1, 0], &vec![50, 50], 10), Some(1));
    assert_eq!(pick_next_node(&nodes, &vec![0, 1], &vec![50, 50], 10), Some(0));
    let mut indices = vec![9, 9];
    assign_expert_to_node(&mut nodes, &mut indices, 1, 0, 40);
    assert_eq!(indices, vec![9, 0]);
    assert_eq!((nodes[0].assigned_expert_count, nodes[0].assigned_bytes), (1, 40));
}

fn expert_tensor(name: &str, experts: u64) -> Gguftensor {
    Gguftensor {
        name: name.to_string(),
        n_dims: 3,
        ne: [32, 4, experts, 1],
        ttype: 8,
        data_offset: 0,
        block_size: 32,
        type_size: 34,
    }
}

fn expert_directory() -> TensorDirectory {
    let mut tensors = Vec::new();
    for layer in 0..2 {
        for part in ["gate", "up", "down"] {
            tensors.push(expert_tensor(&format!("blk.{layer}.ffn_{part}_exps.weight"), 2));
        }
    }
    TensorDirectory { tensors, mapped_len: 5_000 }
}

#[test]
fn inventories_come_from_tensors() {
    let directory = expert_directory();
    assert_eq!(
        layer_expert_tensor_bytes(&directory, 1, "ffn_up_exps.weight").unwrap(),
        34 * 8
    );
    assert!(matches!(
        layer_expert_tensor_bytes(&directory, 2, "ffn_up_exps.weight").unwrap_err(),
        PlacementError::TensorNotFound(name) if name == "blk.2.ffn_up_exps.weight"
    ));
    let config = MoeModelConfig {
        n_layers: 2,
        n_experts: 2,
        n_experts_used: 1,
        dim: 32,
        expert_hidden_dim: 4,
    };
    let inventory = expert_inventory(&config, 5_000, 272, 272, 272).unwrap();
    assert_eq!(inventory.total_bytes_per_expert, 408);
    assert_eq!(inventory.total_bytes_all_experts, 1_632);
    assert_eq!(inventory.non_expert_checkpoint_bytes, 3_368);
    assert!(matches!(
        expert_inventory(&config, 5_000, 271, 272, 272).unwrap_err(),
        PlacementError::UnevenExperts
    ));
    let plan = build_moe_placement_plan(&directory, &config, &test_cluster(1, 1)).unwrap();
    assert_eq!(plan.expert_node_indices.len(), 4);
    let dense = MoeModelConfig { n_experts: 0, ..config };
    assert!(matches!(
        build_moe_placement_plan(&directory, &dense, &test_cluster(1, 1)).unwrap_err(),
        PlacementError::NotRouted
    ));
}

#[test]
fn memory_is_read_from_its_line() {
    let text = "MemFree: 1 kB\nMemTotal:       16 kB\nSwapTotal: 3 kB\n";
    assert_eq!(detect_total_memory_bytes(text), Some(16_384));
    assert_eq!(detect_total_memory_bytes("MemTotal: x kB\n"), None);
    assert_eq!(detect_total_memory_bytes("MemFree: 1 kB\n"), None);
    let local = local_node_resources(None, Some(5)).unwrap();
    assert_eq!((local.logical_cpu_count, local.memory_bytes), (1, 5));
    assert!(local_node_resources(Some(3), None).is_none());
}

#[test]
fn failed_transports_are_tried_again_for_a_while() {
    let mut attempt = 0;
    let mut pauses = Vec::new();
    while let RetryDecision::RetryAfter { backoff_ms, attempt: next } =
        after_transport_failure(attempt)
    {
        pauses.push(backoff_ms);
        attempt = next;
    }
    assert_eq!(pauses, vec![200, 400]);
    assert!(batch_send_retries(1));
    assert!(!batch_send_retries(2));
}

#[test]
fn handshakes_go_through_their_steps_and_end() {
    let mut state = HandshakeState { attempt: 0, step: HandshakeStep::Connect };
    let mut steps = vec![state.step];
    while state.step != HandshakeStep::InterpretReply {
        match advance_handshake(state, true) {
            HandshakeAction::Perform(next) => state = next,
            _ => unreachable!(),
        }
        steps.push(state.step);
    }
    assert_eq!(steps.len(), 8);
    let sending = HandshakeState { attempt: 0, step: HandshakeStep::SendShard };
    assert!(matches!(advance_handshake(sending, false), HandshakeAction::GiveUp));
    let mut state = HandshakeState { attempt: 0, step: HandshakeStep::ReceiveReply };
    let mut pauses = 0;
    while let HandshakeAction::Pause { then, .. } = advance_handshake(state, false) {
        assert_eq!(then.step, HandshakeStep::Connect);
        state = then;
        pauses += 1;
    }
    assert_eq!(pauses, 2);
}

fn hello() -> HelloFrame {
    HelloFrame {
        node_address: "127.0.0.1:7001".to_string(),
        dim: 8,
        n_layers: 4,
        n_experts: 16,
        activation_dtype: ActivationDtype::Bf16,
        assigned_experts: vec![(0, 1), (3, 7)],
        speculative_push: true,
    }
}

fn ready() -> ReadyFrame {
    ReadyFrame {
        node_address: "127.0.0.1:7001".to_string(),
        dim: 8,
        n_layers: 4,
        n_experts: 16,
        activation_dtype: ActivationDtype::Bf16,
        speculative_push: true,
        logical_cpu_count: 4,
        memory_bytes: 100,
        loaded_expert_count: 2,
    }
}

#[test]
fn ready_frames_must_match_the_hello() {
    assert!(validate_ready_frame(&hello(), &ready(), "w").is_ok());
    let mut other = ready();
    other.dim = 9;
    assert!(matches!(
        validate_ready_frame(&hello(), &other, "w").unwrap_err(),
        CoordinatorError::ReadyMismatch(address) if address == "w"
    ));
    let mut other = ready();
    other.loaded_expert_count = 1;
    assert!(matches!(
        validate_ready_frame(&hello(), &other, "w").unwrap_err(),
        CoordinatorError::ReadyExpertCount { loaded: 1, assigned: 2, .. }
    ));
    let bytes = encode_ready_frame(&ready()).unwrap();
    assert!(interpret_handshake_reply(&hello(), "w", FrameKind::Ready, &bytes).is_ok());
    let error = encode_error_frame("busy").unwrap();
    assert!(matches!(
        interpret_handshake_reply(&hello(), "w", FrameKind::Error, &error).unwrap_err(),
        CoordinatorError::HelloRejected { reason, .. } if reason == "busy"
    ));
    assert!(matches!(
        interpret_handshake_reply(&hello(), "w", FrameKind::Hello, &[]).unwrap_err(),
        CoordinatorError::HandshakeUnexpected { kind: FrameKind::Hello, .. }
    ));
    assert!(matches!(
        interpret_handshake_reply(&hello(), "w", FrameKind::Ready, &[]).unwrap_err(),
        CoordinatorError::Protocol(_)
    ));
}

fn discovered(address: &str) -> DiscoverResponseFrame {
    DiscoverResponseFrame {
        node_address: address.to_string(),
        dim: 0,
        n_layers: 0,
        n_experts: 0,
        logical_cpu_count: 6,
        memory_bytes: 7_000,
    }
}

#[test]
fn discovery_fills_in_what_nodes_report() {
    let bytes = encode_discover_response_frame(&discovered("w")).unwrap();
    let found = interpret_discovery_reply("w", FrameKind::DiscoverResponse, &bytes).unwrap();
    assert_eq!(found.memory_bytes, 7_000);
    let error = encode_error_frame("no").unwrap();
    assert!(matches!(
        interpret_discovery_reply("w", FrameKind::Error, &error).unwrap_err(),
        CoordinatorError::DiscoveryRejected { reason, .. } if reason == "no"
    ));
    assert!(matches!(
        interpret_discovery_reply("w", FrameKind::Ready, &[]).unwrap_err(),
        CoordinatorError::DiscoveryUnexpected { kind: FrameKind::Ready, .. }
    ));
    let sizes = ModelSizes { dim: 8, n_layers: 4, n_experts: 16 };
    let cluster = test_cluster(1, 1);
    assert!(check_discovery(&cluster.node[1], &sizes, &discovered("127.0.0.1:7001")).is_ok());
    assert!(matches!(
        check_discovery(&cluster.node[1], &sizes, &discovered("elsewhere")).unwrap_err(),
        CoordinatorError::DiscoveryAddress { reported, .. } if reported == "elsewhere"
    ));
    let mut wrong = discovered("127.0.0.1:7001");
    wrong.dim = 9;
    assert!(matches!(
        check_discovery(&cluster.node[1], &sizes, &wrong).unwrap_err(),
        CoordinatorError::DiscoveryMetadata(_)
    ));
    let local = NodeResourceSnapshot { logical_cpu_count: 2, memory_bytes: 3 };
    let responses = vec![discovered("127.0.0.1:7001"), discovered("127.0.0.1:7002")];
    let filled = discover_cluster_resources(&cluster, &sizes, &local, &responses).unwrap();
    assert_eq!(filled.node[0].discovered_memory_bytes, Some(3));
    assert_eq!(filled.node[0].logical_cpu_count, Some(2));
    assert_eq!(filled.node[2].discovered_memory_bytes, Some(7_000));
    assert_eq!(filled.node[2].logical_cpu_count, Some(6));
}

#[test]
fn batch_replies_must_have_the_right_shape() {
    let response = |layer: usize, dim: usize| {
        let frame = ExpertBatchResponse {
            layer,
            output_dtype: ActivationDtype::Bf16,
            dim,
            expert_ids: vec![1],
            outputs: vec![ActivationValues::Bf16(vec![1.0f32.to_bits(); dim])],
            spec_hit: false,
        };
        encode_expert_batch_response(&frame).unwrap()
    };
    let kind = FrameKind::ExpertBatchResponse;
    assert_eq!(interpret_batch_reply(3, 2, kind, &response(3, 2)).unwrap().len(), 1);
    assert!(matches!(
        interpret_batch_reply(4, 2, kind, &response(3, 2)).unwrap_err(),
        CoordinatorError::BatchShape { .. }
    ));
    let error = encode_error_frame("late").unwrap();
    assert!(matches!(
        interpret_batch_reply(3, 2, FrameKind::Error, &error).unwrap_err(),
        CoordinatorError::BatchRejected(reason) if reason == "late"
    ));
    assert!(matches!(
        interpret_batch_reply(3, 2, FrameKind::Hello, &[]).unwrap_err(),
        CoordinatorError::BatchUnexpected(FrameKind::Hello)
    ));
    let ssm = encode_ssm_layer_response(&SsmLayerResponse { layer: 1, xb2: vec![7, 8] });
    assert_eq!(
        interpret_ssm_reply(2, FrameKind::SsmLayerResponse, &ssm).unwrap(),
        vec![7, 8]
    );
    assert!(matches!(
        interpret_ssm_reply(3, FrameKind::SsmLayerResponse, &ssm).unwrap_err(),
        CoordinatorError::SsmDim { got: 2, wanted: 3 }
    ));
    assert!(matches!(
        interpret_ssm_reply(2, FrameKind::Error, &error).unwrap_err(),
        CoordinatorError::SsmRejected(_)
    ));
    assert!(matches!(
        interpret_ssm_reply(2, FrameKind::Ready, &[]).unwrap_err(),
        CoordinatorError::SsmUnexpected(FrameKind::Ready)
    ));
}

#[test]
fn buffers_and_statistics_are_kept() {
    let mut pool = ActivationBufferPool::new(3, 1, 0u32);
    let first = pool.get_buffer();
    let second = pool.get_buffer();
    assert_eq!((first.len(), second.len()), (3, 3));
    pool.put_buffer(vec![4, 5, 6]);
    pool.put_buffer(vec![1]);
    assert_eq!(pool.get_buffer(), vec![4, 5, 6]);
    assert_eq!(pool.get_buffer(), vec![0, 0, 0]);
    let mut stats = RemoteWorkerStats::new();
    stats.record_request(2, 10, 20, 30);
    stats.record_request(1, 1, 1, 1);
    assert_eq!(
        (
            stats.request_batches,
            stats.expert_count,
            stats.bytes_sent,
            stats.bytes_received,
            stats.wait_ns,
        ),
        (2, 3, 11, 21, 31)
    );
}

fn small_plan() -> MoePlacementPlan {
    let mut inventory = test_inventory();
    inventory.n_layers = 2;
    inventory.n_experts = 3;
    let mut coordinator = placed(100, 0, 0, 1);
    coordinator.role = ClusterNodeRole::Coordinator;
    let mut a = placed(100, 0, 0, 1);
    a.address = "a".to_string();
    a.assigned_expert_count = 3;
    let mut b = placed(100, 0, 0, 1);
    b.address = "b".to_string();
    b.assigned_expert_count = 1;
    MoePlacementPlan {
        inventory,
        coordinator_node_id: "n".to_string(),
        nodes: vec![coordinator, a, b],
        expert_node_indices: vec![0, 1, 2, 1, 0, 1],
    }
}

#[test]
fn experts_are_routed_by_the_plan() {
    let plan = small_plan();
    let selected = [(2usize, 20u32), (0, 5), (1, 7)];
    let routing = route_experts(&plan, 1, &selected).unwrap();
    assert_eq!(routing.local, vec![(1, 7)]);
    assert_eq!(routing.remote, vec![(1, vec![2, 0])]);
    let places = weighted_outputs(&selected, &routing.remote, &vec![2]);
    let found: Vec<_> =
        places.iter().map(|place| (place.selected, place.group, place.output)).collect();
    assert_eq!(found, vec![(0, 0, 0), (1, 0, 1)]);
    assert!(matches!(
        route_experts(&plan, 2, &selected).unwrap_err(),
        CoordinatorError::PlanIndexOutOfBounds
    ));
    assert!(matches!(
        route_experts(&plan, usize::MAX, &selected).unwrap_err(),
        CoordinatorError::PlanIndexOverflow
    ));
}

#[test]
fn workers_are_greeted_with_their_experts() {
    let setups = plan_worker_setups(&small_plan(), 2, ActivationDtype::Q8);
    assert_eq!(setups.len(), 2);
    assert_eq!(setups[0].node_index, 1);
    assert_eq!(setups[0].address, "a");
    assert_eq!(setups[0].hello.assigned_experts, vec![(0, 1), (1, 0), (1, 2)]);
    assert_eq!(setups[0].assigned_by_layer, vec![vec![1], vec![0, 2]]);
    assert_eq!(setups[1].hello.assigned_experts, vec![(0, 2)]);
    assert_eq!(setups[1].hello.activation_dtype, ActivationDtype::Q8);
}

fn entry(layer: usize, kind: u8, byte_offset: u64) -> ShardTensorEntry {
    ShardTensorEntry {
        layer,
        expert_idx: 0,
        kind,
        ttype: 1,
        rows: 2,
        cols: 3,
        byte_offset,
        byte_len: 6,
    }
}

#[test]
fn shards_are_merged_behind_each_other() {
    let header = plain_header(100);
    let payload = encode_model_shard_header(&header).unwrap();
    let ssm = SsmShardData {
        entries: vec![entry(0, 3, 0), entry(0, 4, 6)],
        total_bytes: 12,
        ssm_inner_size: 8,
        ssm_group_count: 2,
        ssm_time_step_rank: 4,
        ssm_state_size: 2,
        ssm_conv_kernel: 3,
        eps: 9,
        float_payload: vec![5, 6],
    };
    let merged = merge_ssm_shard(&payload, ssm).unwrap();
    let gate = GateShardData {
        entries: vec![entry(0, 9, 0)],
        total_bytes: 6,
        n_experts_per_tok: 2,
        moe_n_group: 4,
        moe_topk_group: 1,
    };
    let merged = merge_gate_shard(&merged, &gate).unwrap();
    let back = decode_model_shard_header(&merged).unwrap();
    assert_eq!(back.total_bytes, 118);
    let offsets: Vec<u64> = back.entries.iter().map(|entry| entry.byte_offset).collect();
    assert_eq!(offsets, vec![0, 100, 106, 112]);
    assert_eq!((back.ssm_inner_size, back.ssm_eps, back.ssm_float_payload), (8, 9, vec![5, 6]));
    assert_eq!((back.n_experts_per_tok, back.moe_n_group, back.moe_topk_group), (2, 4, 1));
    let error = merge_gate_shard(&[1, 2], &gate).unwrap_err();
    assert!(matches!(error, MergeError::DecodeForRouting(_)));
    assert_eq!(
        error.message(),
        "failed to re-decode shard header for gate merge: truncated u64 payload"
    );
    let error = merge_ssm_shard(&[1, 2], recurrent_part(8).shard).unwrap_err();
    assert!(matches!(error, MergeError::Decode(_)));
    assert_eq!(error.message(), "failed to re-decode shard header: truncated u64 payload");
}

fn plain_header(total_bytes: u64) -> ModelShardHeaderFrame {
    ModelShardHeaderFrame {
        total_bytes,
        n_layers: 1,
        n_experts: 1,
        dim: 3,
        expert_hidden_dim: 2,
        entries: vec![entry(0, 0, 0)],
        ssm_inner_size: 0,
        ssm_group_count: 0,
        ssm_time_step_rank: 0,
        ssm_state_size: 0,
        ssm_conv_kernel: 0,
        ssm_eps: 0,
        ssm_float_payload: Vec::new(),
        n_experts_per_tok: 0,
        moe_n_group: 0,
        moe_topk_group: 0,
    }
}

fn recurrent_part(ssm_inner_size: usize) -> RecurrentPart {
    RecurrentPart {
        shard: SsmShardData {
            entries: vec![entry(0, 3, 0)],
            total_bytes: 2,
            ssm_inner_size,
            ssm_group_count: 2,
            ssm_time_step_rank: 4,
            ssm_state_size: 2,
            ssm_conv_kernel: 3,
            eps: 9,
            float_payload: vec![5, 6],
        },
        ranges: vec![(8, 2)],
    }
}

#[test]
fn workers_are_sent_what_their_headers_announce() {
    let mapped: Vec<u8> = (0..10).collect();
    let parts = || {
        vec![
            ExpertPart { header: plain_header(3), ranges: vec![(4, 1), (0, 2)] },
            ExpertPart { header: plain_header(2), ranges: vec![(6, 2)] },
        ]
    };
    let routing = Some(RoutingPart {
        shard: GateShardData {
            entries: vec![entry(0, 9, 0)],
            total_bytes: 1,
            n_experts_per_tok: 2,
            moe_n_group: 4,
            moe_topk_group: 1,
        },
        ranges: vec![(3, 1)],
    });
    let shards =
        assemble_shards(&mapped, &parts(), Some(recurrent_part(8)), &routing).unwrap();
    assert_eq!(shards[0].data, vec![4, 0, 1, 8, 9, 3]);
    assert_eq!(shards[1].data, vec![6, 7, 3]);
    let first = decode_model_shard_header(&shards[0].header_payload).unwrap();
    let second = decode_model_shard_header(&shards[1].header_payload).unwrap();
    assert_eq!((first.total_bytes, second.total_bytes), (6, 3));
    let offsets: Vec<u64> = first.entries.iter().map(|entry| entry.byte_offset).collect();
    assert_eq!(offsets, vec![0, 3, 5]);
    assert_eq!((first.ssm_inner_size, second.ssm_inner_size), (8, 0));
    assert_eq!((first.moe_n_group, second.moe_n_group), (4, 4));
    let plain = assemble_shards(&mapped, &parts(), None, &None).unwrap();
    assert_eq!(plain[0].data, vec![4, 0, 1]);
    assert!(assemble_shards(&mapped, &parts(), Some(recurrent_part(1 << 33)), &None).is_err());
}

#[test]
fn ranges_are_gathered_in_order() {
    let mapped: Vec<u8> = (0..10).collect();
    let mut data = vec![99];
    gather_ranges(&mapped, &[(7, 2), (0, 3), (5, 0)], &mut data);
    assert_eq!(data, vec![99, 7, 8, 0, 1, 2]);
}

#[test]
fn local_experts_use_their_own_matrices_where_there_are_any() {
    let matrix = |data_offset: usize| QuantizedTensor { data_offset, ttype: 0, rows: 4, cols: 2 };
    let tensors = |at: usize| WorkerExpertTensors {
        gate: matrix(at),
        up: matrix(at + 1),
        down: matrix(at + 2),
    };
    let extents = ExpertExtents { expert_hidden: 5, dim: 2 };
    let selected = [(2usize, 0.5f32), (0, 0.25)];
    let packed = plan_local_experts(&None, tensors(100), extents, 1, &selected);
    assert_eq!((packed[0].ffn_row, packed[0].down_row), (10, 4));
    assert_eq!((packed[1].ffn_row, packed[1].down_row), (0, 0));
    assert_eq!(packed[0].tensors, tensors(100));
    let slots = ExpertSlots {
        slots: vec![None, None, None, None, None, Some(tensors(7))],
        n_layers: 2,
        n_experts: 3,
    };
    let mixed = plan_local_experts(&Some(slots), tensors(100), extents, 1, &selected);
    assert_eq!(mixed[0], ExpertRows { tensors: tensors(7), ffn_row: 0, down_row: 0 });
    assert_eq!(mixed[1].tensors, tensors(100));
    assert!(computes_in_parallel(2, true));
    assert!(!computes_in_parallel(1, true) && !computes_in_parallel(5, false));
}

#[test]
fn shares_hand_out_all_bytes() {
    let nodes = vec![placed(100, 20, 0, 2), placed(70, 0, 0, 1), placed(500, 450, 0, 8)];
    for total in [0, 1, 7, 100, 199, 200] {
        let shares = ideal_assigned_bytes_by_node(&nodes, total).unwrap();
        assert_eq!(shares.iter().sum::<usize>(), total);
        for (share, node) in shares.iter().zip(&nodes) {
            assert!(*share <= node_assignable_capacity_bytes(node));
        }
    }
    // There is no room for more than 200 bytes.
    let shares = ideal_assigned_bytes_by_node(&nodes, 300).unwrap();
    assert_eq!(shares, vec![80, 70, 50]);
    let alike = vec![placed(100, 0, 0, 1), placed(400, 0, 0, 1), placed(400, 0, 0, 3)];
    let shares = ideal_assigned_bytes_by_node(&alike, 170).unwrap();
    assert_eq!(shares, vec![10, 40, 120]);
}

#[test]
fn no_share_is_smaller_than_its_part_of_the_weights() {
    let nodes = vec![placed(100, 0, 0, 1), placed(400, 0, 0, 1), placed(400, 0, 0, 3)];
    // The weights are 100, 400 and 1200.
    for total in [0usize, 1, 33, 170, 899, 900, 901, 5_000] {
        let shares = ideal_assigned_bytes_by_node(&nodes, total).unwrap();
        assert_eq!(shares.iter().sum::<usize>(), total.min(900));
        for ((share, node), weight) in shares.iter().zip(&nodes).zip([100, 400, 1200]) {
            let capacity = node_assignable_capacity_bytes(node);
            assert!(*share >= (total * weight / 1700).min(capacity));
        }
    }
}
