use inference_engine::bits::{
    bf16_to_fp32, encode_fp32_scalar_to_bf16_bits, encode_fp32_scalar_to_fp16_bits, fp16_to_fp32,
};
use inference_engine::distributed::activation::{
    activation_vector_encoded_len, decode_activation_vector, encode_activation_vector,
    encode_bf16_vector, encode_fp16_vector, ActivationValues,
};
use inference_engine::distributed::control::{
    decode_discover_response_frame, decode_error_frame, decode_hello_frame, decode_ready_frame,
    encode_discover_response_frame, encode_error_frame, encode_hello_frame, encode_ready_frame,
    DiscoverResponseFrame, HelloFrame, ReadyFrame,
};
use inference_engine::distributed::experts::{
    decode_expert_batch_request, decode_expert_batch_response, decode_proposed_expert_batch,
    decode_speculation_advance, encode_expert_batch_request, encode_expert_batch_response,
    encode_proposed_expert_batch, encode_speculation_advance, ExpertBatchRequest,
    ExpertBatchResponse, ProposedExpertBatchFrame, SpeculationAdvanceFrame,
};
use inference_engine::distributed::protocol::{
    read_size_list, read_string, read_u16_le, read_u32_le, read_u64_le, write_size,
    write_size_list, write_string, ActivationDtype, FrameKind, Primitive, ProtocolError,
    Utf8Failure, WireField,
};
use inference_engine::distributed::shard::{
    decode_model_shard_header, decode_ssm_layer_request, decode_ssm_layer_response,
    encode_model_shard_header, encode_ssm_layer_request, encode_ssm_layer_response,
    ModelShardHeaderFrame, ShardTensorEntry, SsmLayerRequest, SsmLayerResponse,
    DEFAULT_SSM_EPS_BITS,
};
use inference_engine::distributed::transport::{
    encode_frame_header, next_chunk, parse_frame_header, raw_stream_len, HeaderError,
};

fn bits(values: &[f32]) -> Vec<u32> {
    values.iter().map(|value| value.to_bits()).collect()
}

fn bf16(values: &[f32]) -> ActivationValues {
    ActivationValues::Bf16(bits(values))
}

/// Quantises to bytes with one scale.
fn q8(values: &[f32]) -> ActivationValues {
    let max_abs = values.iter().fold(0.0f32, |acc, value| acc.max(value.abs()));
    let scale = if max_abs > 0.0 { max_abs / 127.0 } else { 1.0 };
    let inv_scale = if scale > 0.0 { 1.0 / scale } else { 0.0 };
    ActivationValues::Q8 {
        scale: scale.to_bits(),
        quantized: values
            .iter()
            .map(|value| (value * inv_scale).round().clamp(-127.0, 127.0) as i8)
            .collect(),
    }
}

fn floats(values: &ActivationValues) -> Vec<f32> {
    match values {
        ActivationValues::Fp16(patterns) | ActivationValues::Bf16(patterns) => {
            patterns.iter().map(|pattern| f32::from_bits(*pattern)).collect()
        }
        ActivationValues::Q8 { scale, quantized } => quantized
            .iter()
            .map(|value| f32::from(*value) * f32::from_bits(*scale))
            .collect(),
    }
}

fn encoded(values: &ActivationValues) -> Vec<u8> {
    let mut out = Vec::new();
    encode_activation_vector(values, &mut out);
    out
}

#[test]
fn bf16_round_trip_has_expected_length() {
    let values = [0.0f32, 1.5, -2.25, 7.0];
    let bytes = encoded(&bf16(&values));
    assert_eq!(bytes.len(), values.len() * 2);
    let decoded = decode_activation_vector(&bytes, ActivationDtype::Bf16, values.len())
        .expect("decode failed");
    assert_eq!(decoded.len(), values.len());
    assert_eq!(floats(&decoded), values.to_vec());
}

#[test]
fn expert_batch_request_round_trip() {
    let request = ExpertBatchRequest {
        token_pos: 17,
        layer: 3,
        activation_dtype: ActivationDtype::Bf16,
        dim: 4,
        expert_ids: vec![1, 9],
        activation: bf16(&[0.25, -0.5, 1.0, 2.0]),
        hint_expert_ids: vec![3, 7],
    };
    let payload = encode_expert_batch_request(&request).expect("encode failed");
    let decoded = decode_expert_batch_request(&payload).expect("decode failed");
    assert_eq!(decoded.token_pos, request.token_pos);
    assert_eq!(decoded.layer, request.layer);
    assert_eq!(decoded.dim, request.dim);
    assert_eq!(decoded.expert_ids, request.expert_ids);
    assert_eq!(decoded.activation.len(), request.activation.len());
    assert_eq!(decoded.hint_expert_ids, request.hint_expert_ids);
    assert_eq!(floats(&decoded.activation), vec![0.25, -0.5, 1.0, 2.0]);
    assert_eq!(
        decode_expert_batch_request(&payload[..payload.len() - 1]).unwrap_err(),
        ProtocolError::Truncated(Primitive::U32)
    );
}

#[test]
fn speculation_advance_round_trip() {
    let frame = SpeculationAdvanceFrame {
        layer: 5,
        activation_dtype: ActivationDtype::Bf16,
        dim: 4,
        activation: bf16(&[0.25, -0.5, 1.0, 2.0]),
        hint_expert_ids: vec![2, 6, 9],
    };
    let payload = encode_speculation_advance(&frame).expect("encode failed");
    let decoded = decode_speculation_advance(&payload).expect("decode failed");
    assert_eq!(decoded.layer, frame.layer);
    assert_eq!(decoded.dim, frame.dim);
    assert_eq!(decoded.hint_expert_ids, frame.hint_expert_ids);
    assert_eq!(decoded.activation.len(), frame.activation.len());
}

#[test]
fn proposed_expert_batch_round_trip() {
    let frame = ProposedExpertBatchFrame {
        layer: 7,
        output_dtype: ActivationDtype::Bf16,
        dim: 4,
        expert_ids: vec![3, 11],
        outputs: vec![bf16(&[0.25, -0.5, 1.0, 2.0]), bf16(&[1.5, 2.5, -3.5, 4.5])],
    };
    let payload = encode_proposed_expert_batch(&frame).expect("encode failed");
    let decoded = decode_proposed_expert_batch(&payload).expect("decode failed");
    assert_eq!(decoded.layer, frame.layer);
    assert_eq!(decoded.dim, frame.dim);
    assert_eq!(decoded.expert_ids, frame.expert_ids);
    assert_eq!(decoded.outputs.len(), frame.outputs.len());
    assert_eq!(floats(&decoded.outputs[1]), vec![1.5, 2.5, -3.5, 4.5]);
}

#[test]
fn hello_frame_round_trip_with_assignments() {
    let frame = HelloFrame {
        node_address: "192.168.10.11:7000".to_string(),
        dim: 8,
        n_layers: 4,
        n_experts: 16,
        activation_dtype: ActivationDtype::Bf16,
        assigned_experts: vec![(0, 1), (3, 7)],
        speculative_push: true,
    };
    let payload = encode_hello_frame(&frame).expect("encode failed");
    let decoded = decode_hello_frame(&payload).expect("decode failed");
    assert_eq!(decoded.node_address, frame.node_address);
    assert_eq!(decoded.assigned_experts, frame.assigned_experts);
    assert_eq!(decoded.speculative_push, frame.speculative_push);
}

#[test]
fn q8_round_trip_preserves_shape_and_small_error() {
    let values = [0.0f32, 1.5, -2.25, 7.0, -0.125, 0.333];
    let bytes = encoded(&q8(&values));
    assert_eq!(
        bytes.len(),
        activation_vector_encoded_len(values.len(), ActivationDtype::Q8)
    );
    let decoded = decode_activation_vector(&bytes, ActivationDtype::Q8, values.len())
        .expect("decode failed");
    let max_abs_err = values
        .iter()
        .zip(floats(&decoded).iter())
        .map(|(lhs, rhs)| (lhs - rhs).abs())
        .fold(0.0f32, f32::max);
    assert!(max_abs_err < 0.05, "q8 max_abs_err={max_abs_err}");
}

#[test]
fn encoded_lengths_saturate() {
    assert_eq!(activation_vector_encoded_len(5, ActivationDtype::Fp16), 10);
    assert_eq!(activation_vector_encoded_len(5, ActivationDtype::Q8), 9);
    assert_eq!(
        activation_vector_encoded_len(usize::MAX, ActivationDtype::Bf16),
        usize::MAX
    );
    assert_eq!(activation_vector_encoded_len(usize::MAX, ActivationDtype::Q8), usize::MAX);
    assert_eq!(
        decode_activation_vector(&[0, 1, 2], ActivationDtype::Fp16, 2).unwrap_err(),
        ProtocolError::ActivationSizeMismatch { got: 3, expected: 4 }
    );
}

#[test]
fn vectors_are_appended_in_wire_order() {
    let mut out = vec![9u8];
    encode_fp16_vector(&bits(&[1.0, -2.0]), &mut out);
    assert_eq!(out, vec![9, 0x00, 0x3c, 0x00, 0xc0]);
    let mut out = Vec::new();
    encode_bf16_vector(&bits(&[1.0, -2.0]), &mut out);
    assert_eq!(out, vec![0x80, 0x3f, 0x00, 0xc0]);
}

#[test]
fn half_patterns_survive_widening() {
    for half in 0..=u16::MAX {
        let exponent = half >> 10 & 0x1f;
        if exponent != 0x1f {
            assert_eq!(encode_fp32_scalar_to_fp16_bits(fp16_to_fp32(half)), half);
        }
        let wide = bf16_to_fp32(half);
        if f32::from_bits(wide).is_finite() {
            assert_eq!(encode_fp32_scalar_to_bf16_bits(wide), half);
        }
    }
    assert_eq!(fp16_to_fp32(0x3555), 0x3eaa_a000);
    assert_eq!(fp16_to_fp32(0x0001), (1.0f32 / 16_777_216.0).to_bits());
    assert_eq!(fp16_to_fp32(0x7c00), f32::INFINITY.to_bits());
}

#[test]
fn control_frames_round_trip() {
    let ready = ReadyFrame {
        node_address: "n\u{e9}".to_string(),
        dim: 8,
        n_layers: 4,
        n_experts: 16,
        activation_dtype: ActivationDtype::Q8,
        speculative_push: true,
        logical_cpu_count: 12,
        memory_bytes: 1 << 40,
        loaded_expert_count: 9,
    };
    let back = decode_ready_frame(&encode_ready_frame(&ready).unwrap()).unwrap();
    assert_eq!(back.node_address, ready.node_address);
    assert_eq!(back.activation_dtype, ready.activation_dtype);
    assert_eq!(back.memory_bytes, ready.memory_bytes);
    assert_eq!(back.loaded_expert_count, 9);
    let found = DiscoverResponseFrame {
        node_address: "w".to_string(),
        dim: 1,
        n_layers: 2,
        n_experts: 3,
        logical_cpu_count: 4,
        memory_bytes: 5,
    };
    let bytes = encode_discover_response_frame(&found).unwrap();
    let back = decode_discover_response_frame(&bytes).unwrap();
    assert_eq!(
        (back.dim, back.n_layers, back.n_experts, back.logical_cpu_count, back.memory_bytes),
        (1, 2, 3, 4, 5)
    );
    let bytes = encode_error_frame("worker is out of memory").unwrap();
    assert_eq!(decode_error_frame(&bytes).unwrap(), "worker is out of memory");
}

#[test]
fn error_payloads_must_be_whole_and_readable() {
    let mut bytes = encode_error_frame("oops").unwrap();
    assert_eq!(
        decode_error_frame(&bytes[..bytes.len() - 1]).unwrap_err(),
        ProtocolError::TruncatedErrorPayload
    );
    let last = bytes.len() - 1;
    bytes[last] = 0xff;
    let error = decode_error_frame(&bytes).unwrap_err();
    assert_eq!(
        error,
        ProtocolError::ErrorPayloadNotUtf8(Utf8Failure::Invalid { at: 3, len: 1 })
    );
    assert_eq!(
        error.message(),
        "distributed error payload was not valid utf-8: invalid utf-8 sequence of 1 bytes from index 3"
    );
    assert_eq!(
        decode_error_frame(&[1]).unwrap_err(),
        ProtocolError::Truncated(Primitive::U32)
    );
}

#[test]
fn strings_must_be_whole_and_readable() {
    let mut out = Vec::new();
    write_string(&mut out, "h\u{fc}").unwrap();
    let mut offset = 0;
    assert_eq!(read_string(&out, &mut offset).unwrap(), "h\u{fc}");
    assert_eq!(offset, out.len());
    let mut offset = 0;
    assert_eq!(
        read_string(&out[..out.len() - 1], &mut offset).unwrap_err(),
        ProtocolError::TruncatedString
    );
    let last = out.len() - 1;
    out[last] = 0x20;
    let mut offset = 0;
    let error = read_string(&out, &mut offset).unwrap_err();
    assert_eq!(error, ProtocolError::StringNotUtf8(Utf8Failure::Invalid { at: 1, len: 1 }));
    assert_eq!(
        error.message(),
        "string payload was not valid utf-8: invalid utf-8 sequence of 1 bytes from index 1"
    );
    assert_eq!(offset, 2);
    let mut offset = 0;
    assert_eq!(
        read_string(&[7], &mut offset).unwrap_err(),
        ProtocolError::Truncated(Primitive::U16)
    );
    assert_eq!(offset, 0);
    let long = "x".repeat(70_000);
    assert_eq!(
        write_string(&mut Vec::new(), &long).unwrap_err(),
        ProtocolError::StringTooLarge
    );
}

#[test]
fn unreadable_strings_are_reported_as_std_reports_them() {
    let cases: [&[u8]; 9] = [
        b"\xff",
        b"ab\xc3",
        b"ab\xe2\x82",
        b"ab\xe2\x82x",
        b"\xf0\x9f\x98",
        b"\xf0\x9f\x98x",
        b"\xed\xa0\x80",
        b"\xc0\x80",
        b"\xf4\x90\x80\x80",
    ];
    for bytes in cases {
        let expected = String::from_utf8(bytes.to_vec()).unwrap_err().to_string();
        let mut text = vec![bytes.len() as u8, 0];
        text.extend_from_slice(bytes);
        assert_eq!(
            read_string(&text, &mut 0).unwrap_err().message(),
            format!("string payload was not valid utf-8: {expected}")
        );
        let mut frame = vec![bytes.len() as u8, 0, 0, 0];
        frame.extend_from_slice(bytes);
        assert_eq!(
            decode_error_frame(&frame).unwrap_err().message(),
            format!("distributed error payload was not valid utf-8: {expected}")
        );
    }
    assert_eq!(Utf8Failure::new(2, None), Utf8Failure::Incomplete { at: 2 });
    assert_eq!(
        Utf8Failure::new(2, None).message(),
        "incomplete utf-8 byte sequence from index 2"
    );
}

#[test]
fn lists_stop_where_they_fail() {
    let mut out = vec![9];
    let field = WireField::ExpertId;
    assert!(write_size_list(&mut out, &vec![1, 2], field).is_ok());
    let whole = out.clone();
    assert_eq!(whole, [9, 1, 0, 0, 0, 2, 0, 0, 0]);
    assert_eq!(
        write_size_list(&mut out, &vec![3, usize::MAX, 4], field).unwrap_err(),
        ProtocolError::FieldOverflow(field)
    );
    assert_eq!(out[..whole.len()], whole[..]);
    assert_eq!(out[whole.len()..], [3, 0, 0, 0]);
    let mut offset = 1;
    assert_eq!(read_size_list(&whole, &mut offset, 2).unwrap(), [1, 2]);
    assert_eq!(offset, 9);
    let mut offset = 1;
    assert_eq!(
        read_size_list(&whole[..8], &mut offset, 2).unwrap_err(),
        ProtocolError::Truncated(Primitive::U32)
    );
    assert_eq!(offset, 5);
}

#[test]
fn numbers_are_little_endian_and_bounded() {
    let bytes = [1u8, 2, 3, 4, 5, 6, 7, 8];
    let mut offset = 0;
    assert_eq!(read_u16_le(&bytes, &mut offset).unwrap(), 0x0201);
    assert_eq!(read_u32_le(&bytes, &mut offset).unwrap(), 0x0605_0403);
    assert_eq!(
        read_u64_le(&bytes, &mut offset).unwrap_err(),
        ProtocolError::Truncated(Primitive::U64)
    );
    let mut out = Vec::new();
    assert_eq!(
        write_size(&mut out, 1 << 33, WireField::Dim).unwrap_err().message(),
        "dim overflow"
    );
}

#[test]
fn kinds_and_types_have_their_numbers() {
    for value in 0..40u16 {
        if let Ok(kind) = FrameKind::from_u16(value) {
            assert_eq!(kind.to_u16(), value);
        }
        if let Ok(dtype) = ActivationDtype::from_u16(value) {
            assert_eq!(dtype.to_u16(), value);
        }
    }
    assert_eq!(
        FrameKind::from_u16(999).unwrap_err(),
        ProtocolError::UnknownFrameKind(999)
    );
    assert_eq!(
        ActivationDtype::from_u16(77).unwrap_err(),
        ProtocolError::UnknownActivationDtype(77)
    );
    assert_eq!(ActivationDtype::Bf16.as_str(), "bf16");
}

#[test]
fn responses_keep_their_hit_mark() {
    for spec_hit in [false, true] {
        let frame = ExpertBatchResponse {
            layer: 2,
            output_dtype: ActivationDtype::Q8,
            dim: 3,
            expert_ids: vec![5],
            outputs: vec![q8(&[1.0, -0.5, 0.25])],
            spec_hit,
        };
        let bytes = encode_expert_batch_response(&frame).unwrap();
        let back = decode_expert_batch_response(&bytes).unwrap();
        assert_eq!(back.spec_hit, spec_hit);
        assert_eq!(back.expert_ids, vec![5]);
        assert_eq!(floats(&back.outputs[0]), floats(&frame.outputs[0]));
    }
    let short = ExpertBatchResponse {
        layer: 2,
        output_dtype: ActivationDtype::Bf16,
        dim: 3,
        expert_ids: vec![5, 6],
        outputs: vec![bf16(&[1.0, 2.0, 3.0])],
        spec_hit: false,
    };
    assert_eq!(
        encode_expert_batch_response(&short).unwrap_err(),
        ProtocolError::ResponseOutputCount
    );
    let wrong = ProposedExpertBatchFrame {
        layer: 2,
        output_dtype: ActivationDtype::Bf16,
        dim: 3,
        expert_ids: vec![5],
        outputs: vec![bf16(&[1.0, 2.0])],
    };
    assert_eq!(
        encode_proposed_expert_batch(&wrong).unwrap_err(),
        ProtocolError::ProposedVectorLength { got: 2, expected: 3 }
    );
}

fn header() -> ModelShardHeaderFrame {
    let entry = |layer: usize, kind: u8| ShardTensorEntry {
        layer,
        expert_idx: 4,
        kind,
        ttype: -3,
        rows: 10,
        cols: 20,
        byte_offset: 1 << 35,
        byte_len: 77,
    };
    ModelShardHeaderFrame {
        total_bytes: 1 << 36,
        n_layers: 2,
        n_experts: 5,
        dim: 20,
        expert_hidden_dim: 10,
        entries: vec![entry(0, 1), entry(1, 2)],
        ssm_inner_size: 6,
        ssm_group_count: 1,
        ssm_time_step_rank: 2,
        ssm_state_size: 3,
        ssm_conv_kernel: 4,
        ssm_eps: 1e-5f32.to_bits(),
        ssm_float_payload: vec![1, 2, 3],
        n_experts_per_tok: 2,
        moe_n_group: 1,
        moe_topk_group: 1,
    }
}

#[test]
fn shard_headers_round_trip() {
    let frame = header();
    let bytes = encode_model_shard_header(&frame).unwrap();
    let back = decode_model_shard_header(&bytes).unwrap();
    assert_eq!(back.entries, frame.entries);
    assert_eq!(back.total_bytes, frame.total_bytes);
    assert_eq!(back.ssm_eps, frame.ssm_eps);
    assert_eq!(back.ssm_float_payload, frame.ssm_float_payload);
    assert_eq!(
        (back.n_experts_per_tok, back.moe_n_group, back.moe_topk_group),
        (2, 1, 1)
    );
}

#[test]
fn shard_headers_without_recurrent_fields_use_defaults() {
    let frame = header();
    let bytes = encode_model_shard_header(&frame).unwrap();
    let fixed = 8 + 4 * 4 + 4;
    let mut probe = frame;
    probe.entries = Vec::new();
    let empty = encode_model_shard_header(&probe).unwrap();
    let per_entry = (bytes.len() - empty.len()) / 2;
    let plain = &bytes[..fixed + 2 * per_entry];
    let back = decode_model_shard_header(plain).unwrap();
    assert_eq!(back.entries.len(), 2);
    assert_eq!(back.ssm_eps, DEFAULT_SSM_EPS_BITS);
    assert!(back.ssm_float_payload.is_empty());
    assert_eq!(
        decode_model_shard_header(&plain[..plain.len() - 1]).unwrap_err(),
        ProtocolError::Truncated(Primitive::U64)
    );
}

#[test]
fn recurrent_frames_round_trip() {
    let request = SsmLayerRequest { layer: 3, xb: bits(&[1.0, -2.5]) };
    let bytes = encode_ssm_layer_request(&request);
    let back = decode_ssm_layer_request(&bytes).unwrap();
    assert_eq!((back.layer, back.xb), (3, request.xb));
    assert_eq!(
        decode_ssm_layer_request(&bytes[..bytes.len() - 1]).unwrap_err(),
        ProtocolError::TruncatedSsmRequest
    );
    let response = SsmLayerResponse { layer: 4, xb2: bits(&[0.5]) };
    let bytes = encode_ssm_layer_response(&response);
    let back = decode_ssm_layer_response(&bytes).unwrap();
    assert_eq!((back.layer, back.xb2), (4, response.xb2));
    assert_eq!(
        decode_ssm_layer_response(&bytes[..bytes.len() - 1]).unwrap_err(),
        ProtocolError::TruncatedSsmResponse
    );
}

#[test]
fn frame_headers_round_trip() {
    let bytes = encode_frame_header(FrameKind::Ready, 0x0102_0304_0506, 99).unwrap();
    assert_eq!(bytes.len(), 20);
    let header = parse_frame_header(&bytes).unwrap();
    assert_eq!(header.kind, FrameKind::Ready);
    assert_eq!(header.request_id, 0x0102_0304_0506);
    assert_eq!(header.payload_len, 99);
    let mut bad = bytes.clone();
    bad[0] ^= 1;
    assert!(matches!(parse_frame_header(&bad).unwrap_err(), HeaderError::InvalidMagic(_)));
    let mut bad = bytes.clone();
    bad[4] = 5;
    assert_eq!(parse_frame_header(&bad).unwrap_err(), HeaderError::UnsupportedVersion(5));
    let mut bad = bytes.clone();
    bad[6] = 200;
    assert_eq!(
        parse_frame_header(&bad).unwrap_err(),
        HeaderError::Frame(ProtocolError::UnknownFrameKind(200))
    );
    assert_eq!(
        encode_frame_header(FrameKind::Ready, 0, 1 << 32).unwrap_err(),
        HeaderError::PayloadTooLarge
    );
    assert_eq!(raw_stream_len(&[(5, 10), (0, 7)]), 17);
    assert_eq!(next_chunk(100), 100);
    assert_eq!(next_chunk(9_000_000), 8_388_608);
}

#[test]
fn requests_without_hints_have_none() {
    let request = ExpertBatchRequest {
        token_pos: 17,
        layer: 3,
        activation_dtype: ActivationDtype::Bf16,
        dim: 2,
        expert_ids: vec![1],
        activation: bf16(&[0.25, -0.5]),
        hint_expert_ids: Vec::new(),
    };
    let payload = encode_expert_batch_request(&request).unwrap();
    // The count of hints is the last field; payloads that end before it are whole.
    let decoded = decode_expert_batch_request(&payload[..payload.len() - 4]).unwrap();
    assert!(decoded.hint_expert_ids.is_empty());
    assert_eq!(
        decode_expert_batch_request(&payload[..payload.len() - 5]).unwrap_err(),
        ProtocolError::TruncatedRequestActivation
    );
}

fn full_hello() -> HelloFrame {
    HelloFrame {
        node_address: "10.0.0.2:7000".to_string(),
        dim: 8,
        n_layers: 2,
        n_experts: 4,
        activation_dtype: ActivationDtype::Bf16,
        assigned_experts: vec![(0, 1), (1, 3)],
        speculative_push: true,
    }
}

fn small_ready() -> ReadyFrame {
    ReadyFrame {
        node_address: "w".to_string(),
        dim: 1,
        n_layers: 2,
        n_experts: 3,
        activation_dtype: ActivationDtype::Fp16,
        speculative_push: false,
        logical_cpu_count: 4,
        memory_bytes: 5,
        loaded_expert_count: 6,
    }
}

fn small_discovery() -> DiscoverResponseFrame {
    DiscoverResponseFrame {
        node_address: "w".to_string(),
        dim: 1,
        n_layers: 2,
        n_experts: 3,
        logical_cpu_count: 4,
        memory_bytes: 5,
    }
}

#[test]
fn bytes_behind_control_frames_are_ignored() {
    let rest = [9u8, 9, 9];
    let hello = [encode_hello_frame(&full_hello()).unwrap(), rest.to_vec()].concat();
    let back = decode_hello_frame(&hello).unwrap();
    assert_eq!(back.assigned_experts, vec![(0, 1), (1, 3)]);
    assert!(back.speculative_push);
    let ready = [encode_ready_frame(&small_ready()).unwrap(), rest.to_vec()].concat();
    let back = decode_ready_frame(&ready).unwrap();
    assert_eq!((back.memory_bytes, back.loaded_expert_count), (5, 6));
    let found = [encode_discover_response_frame(&small_discovery()).unwrap(), rest.to_vec()];
    assert_eq!(decode_discover_response_frame(&found.concat()).unwrap().memory_bytes, 5);
    let error = [encode_error_frame("full").unwrap(), rest.to_vec()].concat();
    assert_eq!(decode_error_frame(&error).unwrap(), "full");
}

#[test]
fn control_frames_that_are_cut_off_are_refused() {
    let hello = encode_hello_frame(&full_hello()).unwrap();
    let last = hello.len() - 1;
    for n in 0..last {
        assert!(decode_hello_frame(&hello[..n]).is_err());
    }
    // Without its last byte a hello asks for no pushes.
    let back = decode_hello_frame(&hello[..last]).unwrap();
    assert_eq!(back.assigned_experts, vec![(0, 1), (1, 3)]);
    assert!(!back.speculative_push);
    let ready = encode_ready_frame(&small_ready()).unwrap();
    for n in 0..ready.len() {
        assert!(decode_ready_frame(&ready[..n]).is_err());
    }
    let found = encode_discover_response_frame(&small_discovery()).unwrap();
    for n in 0..found.len() {
        assert!(decode_discover_response_frame(&found[..n]).is_err());
    }
    let error = encode_error_frame("full").unwrap();
    for n in 0..error.len() {
        assert!(decode_error_frame(&error[..n]).is_err());
    }
}

#[test]
fn requests_are_whole_or_end_before_their_hints() {
    let request = ExpertBatchRequest {
        token_pos: 17,
        layer: 3,
        activation_dtype: ActivationDtype::Bf16,
        dim: 2,
        expert_ids: vec![1],
        activation: bf16(&[0.25, -0.5]),
        hint_expert_ids: vec![4, 5],
    };
    let payload = encode_expert_batch_request(&request).unwrap();
    let hints = payload.len() - 12;
    for n in 0..payload.len() {
        match decode_expert_batch_request(&payload[..n]) {
            Ok(back) => {
                assert!(n >= hints && n < hints + 4);
                assert!(back.hint_expert_ids.is_empty());
                assert_eq!(floats(&back.activation), vec![0.25, -0.5]);
            }
            Err(_) => assert!(n < hints || n >= hints + 4),
        }
    }
    let followed = [payload, vec![7, 7]].concat();
    assert_eq!(decode_expert_batch_request(&followed).unwrap().hint_expert_ids, vec![4, 5]);
}

#[test]
fn advance_frames_end_with_their_activation() {
    let frame = SpeculationAdvanceFrame {
        layer: 5,
        activation_dtype: ActivationDtype::Bf16,
        dim: 2,
        activation: bf16(&[0.25, -0.5]),
        hint_expert_ids: vec![2],
    };
    let mut payload = encode_speculation_advance(&frame).unwrap();
    for n in 0..payload.len() {
        assert!(decode_speculation_advance(&payload[..n]).is_err());
    }
    payload.push(0);
    assert_eq!(
        decode_speculation_advance(&payload).unwrap_err(),
        ProtocolError::ActivationSizeMismatch { got: 5, expected: 4 }
    );
}

#[test]
fn outputs_that_are_cut_off_are_refused() {
    let frame = ProposedExpertBatchFrame {
        layer: 7,
        output_dtype: ActivationDtype::Bf16,
        dim: 2,
        expert_ids: vec![3, 11],
        outputs: vec![bf16(&[0.25, -0.5]), bf16(&[1.5, 2.5])],
    };
    let payload = encode_proposed_expert_batch(&frame).unwrap();
    for n in 0..payload.len() {
        assert!(decode_proposed_expert_batch(&payload[..n]).is_err());
        assert!(decode_expert_batch_response(&payload[..n]).is_err());
    }
    // What follows is ignored in a proposal; in a response its first byte marks a hit.
    for (rest, spec_hit) in [(vec![], false), (vec![0u8, 1], false), (vec![2, 0], true)] {
        let followed = [payload.clone(), rest].concat();
        assert_eq!(decode_proposed_expert_batch(&followed).unwrap().expert_ids, vec![3, 11]);
        let response = decode_expert_batch_response(&followed).unwrap();
        assert_eq!(response.spec_hit, spec_hit);
        assert_eq!(floats(&response.outputs[1]), vec![1.5, 2.5]);
    }
}

#[test]
fn shard_headers_may_end_early_only_between_their_parts() {
    let bytes = encode_model_shard_header(&header()).unwrap();
    let entries_end = 28 + 2 * 37;
    let payload_start = entries_end + 32;
    let payload_end = payload_start + 3;
    assert_eq!(bytes.len(), payload_end + 12);
    for n in (0..entries_end).chain(payload_start..payload_end) {
        assert!(decode_model_shard_header(&bytes[..n]).is_err());
    }
    let back = decode_model_shard_header(&bytes[..payload_end]).unwrap();
    assert_eq!((back.ssm_inner_size, back.ssm_float_payload), (6, vec![1, 2, 3]));
    assert_eq!((back.n_experts_per_tok, back.moe_n_group, back.moe_topk_group), (0, 0, 0));
    let followed = [bytes, vec![8; 9]].concat();
    assert_eq!(decode_model_shard_header(&followed).unwrap().n_experts_per_tok, 2);
    let mut vector = encode_ssm_layer_request(&SsmLayerRequest { layer: 3, xb: bits(&[1.0]) });
    for n in 0..vector.len() {
        assert!(decode_ssm_layer_request(&vector[..n]).is_err());
    }
    vector.push(1);
    assert_eq!(decode_ssm_layer_request(&vector).unwrap().xb, bits(&[1.0]));
}
