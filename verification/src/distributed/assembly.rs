//! The shards that workers are sent: a header and the bytes that it describes.
use crate::distributed::protocol::ProtocolError;
use crate::distributed::setup::{
    can_shift, gather_ranges, gathered, gathered_len, merge_gate_shard, merge_ssm_shard,
    with_gate, with_ssm, GateShardData, MergeError, SsmShardData,
};
use crate::distributed::shard::{
    encode_model_shard_header, header_bytes, header_rejection, header_round_trip,
    ModelShardHeaderFrame, ModelShardHeaderView,
};
use crate::distributed::transport::total_len;
use crate::values::copy_values;
use vstd::prelude::*;

verus! {

/// The experts of a worker: their header, and where their bytes are in the model file.
#[derive(Debug)]
pub struct ExpertPart {
    pub header: ModelShardHeaderFrame,
    pub ranges: Vec<(usize, usize)>,
}

/// The recurrent tensors, which the first worker is sent.
#[derive(Debug)]
pub struct RecurrentPart {
    pub shard: SsmShardData,
    pub ranges: Vec<(usize, usize)>,
}

/// The routing tensors, which every worker is sent.
#[derive(Debug)]
pub struct RoutingPart {
    pub shard: GateShardData,
    pub ranges: Vec<(usize, usize)>,
}

/// What a worker is sent.
#[derive(Debug)]
pub struct WorkerShard {
    pub header_payload: Vec<u8>,
    pub data: Vec<u8>,
}

/// The headers of the experts alone.
pub open spec fn expert_headers(parts: Seq<ExpertPart>) -> Seq<ModelShardHeaderView> {
    parts.map(|i: int, part: ExpertPart| part.header@)
}

/// The headers with recurrent tensors added to the first.
pub open spec fn recurrent_headers(
    headers: Seq<ModelShardHeaderView>,
    recurrent: Option<RecurrentPart>,
) -> Seq<ModelShardHeaderView> {
    match recurrent {
        Some(part) => if headers.len() > 0 {
            headers.update(0, with_ssm(headers[0], part.shard))
        } else {
            headers
        },
        None => headers,
    }
}

/// A header with routing tensors added, where there are any.
pub open spec fn routed_header(
    header: ModelShardHeaderView,
    routing: Option<RoutingPart>,
) -> ModelShardHeaderView {
    match routing {
        Some(part) => with_gate(header, part.shard),
        None => header,
    }
}

/// The headers with routing tensors added to each.
pub open spec fn routed_headers(
    headers: Seq<ModelShardHeaderView>,
    routing: Option<RoutingPart>,
) -> Seq<ModelShardHeaderView> {
    headers.map(|i: int, header: ModelShardHeaderView| routed_header(header, routing))
}

/// The bytes of a worker: those of its experts, of the recurrent tensors where it is the first,
/// and of the routing tensors.
pub open spec fn worker_bytes(
    mapped: Seq<u8>,
    part: ExpertPart,
    recurrent: Option<RecurrentPart>,
    routing: Option<RoutingPart>,
    first: bool,
) -> Seq<u8> {
    gathered(mapped, part.ranges@) + (match recurrent {
        Some(tensors) => if first {
            gathered(mapped, tensors.ranges@)
        } else {
            Seq::empty()
        },
        None => Seq::empty(),
    }) + (match routing {
        Some(tensors) => gathered(mapped, tensors.ranges@),
        None => Seq::empty(),
    })
}

/// Why the first of the first `k` headers that cannot be encoded cannot be.
pub open spec fn first_rejection(headers: Seq<ModelShardHeaderView>, k: nat) -> Option<
    ProtocolError,
>
    decreases k,
{
    if k == 0 {
        None
    } else {
        match first_rejection(headers, (k - 1) as nat) {
            Some(error) => Some(error),
            None => header_rejection(headers[k - 1]),
        }
    }
}

/// Why shards cannot be assembled, if they cannot: the headers of the experts are encoded first,
/// then that with recurrent tensors, then those with routing tensors.
pub open spec fn assembly_problem(
    parts: Seq<ExpertPart>,
    recurrent: Option<RecurrentPart>,
    routing: Option<RoutingPart>,
) -> Option<ProtocolError> {
    let experts = expert_headers(parts);
    let extended = recurrent_headers(experts, recurrent);
    match first_rejection(experts, experts.len()) {
        Some(error) => Some(error),
        None => if recurrent is Some && experts.len() > 0 && header_rejection(extended[0])
            is Some {
            header_rejection(extended[0])
        } else if routing is Some {
            first_rejection(routed_headers(extended, routing), extended.len())
        } else {
            None
        },
    }
}

/// Whether ranges lie within the model file.
pub open spec fn ranges_within(ranges: Seq<(usize, usize)>, len: nat) -> bool {
    forall|i: int| 0 <= i < ranges.len() ==> (#[trigger] ranges[i]).0 + ranges[i].1 <= len
}

/// Whether all bytes are in the model file.
pub open spec fn bytes_present(
    parts: Seq<ExpertPart>,
    recurrent: Option<RecurrentPart>,
    routing: Option<RoutingPart>,
    len: nat,
) -> bool {
    &&& forall|i: int| 0 <= i < parts.len() ==> ranges_within((#[trigger] parts[i]).ranges@, len)
    &&& recurrent matches Some(part) ==> ranges_within(part.ranges@, len)
    &&& routing matches Some(part) ==> ranges_within(part.ranges@, len)
}

/// Whether all offsets are machine numbers.
pub open spec fn offsets_fit(
    parts: Seq<ExpertPart>,
    recurrent: Option<RecurrentPart>,
    routing: Option<RoutingPart>,
) -> bool {
    let experts = expert_headers(parts);
    let extended = recurrent_headers(experts, recurrent);
    &&& recurrent matches Some(part) ==> parts.len() > 0 ==> can_shift(
        part.shard.entries@,
        experts[0].total_bytes as int,
    ) && experts[0].total_bytes + part.shard.total_bytes <= u64::MAX
    &&& routing matches Some(part) ==> forall|i: int|
        0 <= i < extended.len() ==> can_shift(
            part.shard.entries@,
            (#[trigger] extended[i]).total_bytes as int,
        ) && extended[i].total_bytes + part.shard.total_bytes <= u64::MAX
}

fn gather_worker(
    mapped: &[u8],
    part: &ExpertPart,
    recurrent: &Option<RecurrentPart>,
    routing: &Option<RoutingPart>,
    first: bool,
) -> (data: Vec<u8>)
    requires
        ranges_within(part.ranges@, mapped@.len()),
        *recurrent matches Some(tensors) ==> ranges_within(tensors.ranges@, mapped@.len()),
        *routing matches Some(tensors) ==> ranges_within(tensors.ranges@, mapped@.len()),
    ensures
        data@ == worker_bytes(mapped@, *part, *recurrent, *routing, first),
{
    let mut data: Vec<u8> = Vec::new();
    gather_ranges(mapped, part.ranges.as_slice(), &mut data);
    if first {
        if let Some(tensors) = recurrent {
            gather_ranges(mapped, tensors.ranges.as_slice(), &mut data);
        }
    }
    if let Some(tensors) = routing {
        gather_ranges(mapped, tensors.ranges.as_slice(), &mut data);
    }
    assert(data@ =~= worker_bytes(mapped@, *part, *recurrent, *routing, first));
    data
}

proof fn lemma_rejection_stays(headers: Seq<ModelShardHeaderView>, k: nat, n: nat)
    requires
        k <= n,
        first_rejection(headers, k) is Some,
    ensures
        first_rejection(headers, n) == first_rejection(headers, k),
    decreases n,
{
    if k < n {
        lemma_rejection_stays(headers, k, (n - 1) as nat);
    }
}

fn encode_experts(parts: &Vec<ExpertPart>) -> (result: Result<Vec<Vec<u8>>, MergeError>)
    ensures
        ({
            let experts = expert_headers(parts@);
            match result {
                Ok(payloads) => first_rejection(experts, experts.len()) is None && payloads@.len()
                    == parts@.len() && forall|i: int|
                    0 <= i < payloads@.len() ==> encodes(#[trigger] payloads@[i], experts[i]),
                Err(error) => first_rejection(experts, experts.len()) is Some && error
                    == MergeError::Encode(first_rejection(experts, experts.len())->Some_0),
            }
        }),
{
    let ghost experts = expert_headers(parts@);
    let mut payloads: Vec<Vec<u8>> = Vec::new();
    let mut i: usize = 0;
    while i < parts.len()
        invariant
            experts == expert_headers(parts@),
            i == payloads@.len(),
            i <= parts@.len(),
            first_rejection(experts, i as nat) is None,
            forall|j: int|
                0 <= j < payloads@.len() ==> encodes(#[trigger] payloads@[j], experts[j]),
        decreases parts.len() - i,
    {
        assert(experts[i as int] == parts@[i as int].header@);
        match encode_model_shard_header(&parts[i].header) {
            Ok(payload) => {
                assert(payload@.len() == payload.len());
                payloads.push(payload);
            },
            Err(error) => {
                proof {
                    lemma_rejection_stays(experts, (i + 1) as nat, experts.len());
                }
                return Err(MergeError::Encode(error));
            },
        }
        i = i + 1;
    }
    Ok(payloads)
}

/// Whether a payload is that of a header.
pub open spec fn encodes(payload: Vec<u8>, header: ModelShardHeaderView) -> bool {
    &&& payload@ == header_bytes(header)
    &&& header_rejection(header) is None
    &&& payload@.len() <= usize::MAX
}

/// Assembles the shards of all workers.
pub fn assemble_shards(
    mapped: &[u8],
    parts: &Vec<ExpertPart>,
    recurrent: Option<RecurrentPart>,
    routing: &Option<RoutingPart>,
) -> (result: Result<Vec<WorkerShard>, MergeError>)
    requires
        bytes_present(parts@, recurrent, *routing, mapped@.len()),
        offsets_fit(parts@, recurrent, *routing),
    ensures
        match assembly_problem(parts@, recurrent, *routing) {
            Some(error) => result == Err::<Vec<WorkerShard>, MergeError>(
                MergeError::Encode(error),
            ),
            None => result matches Ok(shards) && shards@.len() == parts@.len() && forall|i: int|
                0 <= i < shards@.len() ==> (#[trigger] shards@[i]).header_payload@ == header_bytes(
                    routed_headers(
                        recurrent_headers(expert_headers(parts@), recurrent),
                        *routing,
                    )[i],
                ) && shards@[i].data@ == worker_bytes(
                    mapped@,
                    parts@[i],
                    recurrent,
                    *routing,
                    i == 0,
                ),
        },
{
    let ghost experts = expert_headers(parts@);
    let ghost extended = recurrent_headers(experts, recurrent);
    let ghost routed = routed_headers(extended, *routing);
    let ghost whole = recurrent;
    let mut payloads: Vec<Vec<u8>> = match encode_experts(parts) {
        Ok(payloads) => payloads,
        Err(error) => return Err(error),
    };
    let mut datas: Vec<Vec<u8>> = Vec::new();
    let mut i: usize = 0;
    while i < parts.len()
        invariant
            i == datas@.len(),
            i <= parts@.len(),
            recurrent == whole,
            bytes_present(parts@, recurrent, *routing, mapped@.len()),
            forall|j: int|
                0 <= j < datas@.len() ==> (#[trigger] datas@[j])@ == worker_bytes(
                    mapped@,
                    parts@[j],
                    whole,
                    *routing,
                    j == 0,
                ),
        decreases parts.len() - i,
    {
        datas.push(gather_worker(mapped, &parts[i], &recurrent, routing, i == 0));
        i = i + 1;
    }
    if let Some(part) = recurrent {
        if payloads.len() > 0 {
            proof {
                assert(encodes(payloads@[0], experts[0]));
                header_round_trip(experts[0]);
            }
            match merge_ssm_shard(payloads[0].as_slice(), part.shard) {
                Ok(payload) => {
                    assert(payload@.len() == payload.len());
                    payloads.set(0, payload);
                },
                Err(error) => return Err(error),
            }
        }
    }
    assert(forall|j: int|
        0 <= j < payloads@.len() ==> encodes(#[trigger] payloads@[j], extended[j]));
    let mut shards: Vec<WorkerShard> = Vec::new();
    let mut k: usize = 0;
    while k < payloads.len()
        invariant
            k == shards@.len(),
            k <= payloads@.len(),
            whole == recurrent,
            payloads@.len() == parts@.len(),
            datas@.len() == parts@.len(),
            experts == expert_headers(parts@),
            extended == recurrent_headers(experts, whole),
            routed == routed_headers(extended, *routing),
            offsets_fit(parts@, whole, *routing),
            first_rejection(experts, experts.len()) is None,
            whole is Some && experts.len() > 0 ==> header_rejection(extended[0]) is None,
            *routing is Some ==> first_rejection(routed, k as nat) is None,
            forall|j: int|
                0 <= j < payloads@.len() ==> encodes(#[trigger] payloads@[j], extended[j]),
            forall|j: int|
                0 <= j < datas@.len() ==> (#[trigger] datas@[j])@ == worker_bytes(
                    mapped@,
                    parts@[j],
                    whole,
                    *routing,
                    j == 0,
                ),
            forall|j: int|
                0 <= j < shards@.len() ==> (#[trigger] shards@[j]).header_payload@ == header_bytes(
                    routed[j],
                ) && shards@[j].data@ == worker_bytes(
                    mapped@,
                    parts@[j],
                    whole,
                    *routing,
                    j == 0,
                ),
        decreases payloads.len() - k,
    {
        let ghost header = extended[k as int];
        assert(encodes(payloads@[k as int], header));
        assert(routed[k as int] == routed_header(header, *routing));
        let header_payload: Vec<u8> = match routing {
            Some(part) => {
                proof {
                    header_round_trip(header);
                }
                match merge_gate_shard(payloads[k].as_slice(), &part.shard) {
                    Ok(payload) => payload,
                    Err(error) => {
                        proof {
                            lemma_rejection_stays(routed, (k + 1) as nat, extended.len());
                        }
                        return Err(error);
                    },
                }
            },
            None => copy_values(&payloads[k]),
        };
        shards.push(WorkerShard { header_payload, data: copy_values(&datas[k]) });
        k = k + 1;
    }
    Ok(shards)
}

/// The header of a worker with all that it is sent.
pub open spec fn whole_header(
    part: ExpertPart,
    recurrent: Option<RecurrentPart>,
    routing: Option<RoutingPart>,
    first: bool,
) -> ModelShardHeaderView {
    routed_header(
        match recurrent {
            Some(tensors) => if first {
                with_ssm(part.header@, tensors.shard)
            } else {
                part.header@
            },
            None => part.header@,
        },
        routing,
    )
}

/// The bytes that a worker is sent are as many as its header announces, where that holds of each
/// part.
pub proof fn announced_bytes_are_sent(
    mapped: Seq<u8>,
    part: ExpertPart,
    recurrent: Option<RecurrentPart>,
    routing: Option<RoutingPart>,
    first: bool,
)
    requires
        ranges_within(part.ranges@, mapped.len()),
        part.header.total_bytes == total_len(part.ranges@),
        recurrent matches Some(tensors) ==> ranges_within(tensors.ranges@, mapped.len())
            && tensors.shard.total_bytes == total_len(tensors.ranges@),
        routing matches Some(tensors) ==> ranges_within(tensors.ranges@, mapped.len())
            && tensors.shard.total_bytes == total_len(tensors.ranges@),
        worker_bytes(mapped, part, recurrent, routing, first).len() <= u64::MAX,
    ensures
        worker_bytes(mapped, part, recurrent, routing, first).len() == whole_header(
            part,
            recurrent,
            routing,
            first,
        ).total_bytes,
{
    gathered_len(mapped, part.ranges@);
    if let Some(tensors) = recurrent {
        gathered_len(mapped, tensors.ranges@);
    }
    if let Some(tensors) = routing {
        gathered_len(mapped, tensors.ranges@);
    }
}

/// The bytes of every part are found where the header of the worker announces them: those of the
/// experts at the offsets they have, those of recurrent tensors behind the experts, and those of
/// routing tensors behind both.
pub proof fn parts_lie_where_announced(
    mapped: Seq<u8>,
    part: ExpertPart,
    recurrent: Option<RecurrentPart>,
    routing: Option<RoutingPart>,
    first: bool,
    offset: int,
    len: int,
)
    requires
        ranges_within(part.ranges@, mapped.len()),
        part.header.total_bytes == total_len(part.ranges@),
        recurrent matches Some(tensors) ==> ranges_within(tensors.ranges@, mapped.len())
            && tensors.shard.total_bytes == total_len(tensors.ranges@),
        routing matches Some(tensors) ==> ranges_within(tensors.ranges@, mapped.len())
            && tensors.shard.total_bytes == total_len(tensors.ranges@),
        0 <= offset,
        0 <= len,
    ensures
        ({
            let sent = worker_bytes(mapped, part, recurrent, routing, first);
            let experts = part.header.total_bytes as int;
            let both = experts + if first && recurrent is Some {
                recurrent->0.shard.total_bytes as int
            } else {
                0
            };
            &&& offset + len <= experts ==> sent.subrange(offset, offset + len) == gathered(
                mapped,
                part.ranges@,
            ).subrange(offset, offset + len)
            &&& first ==> (recurrent matches Some(tensors) ==> offset + len
                <= tensors.shard.total_bytes ==> sent.subrange(
                experts + offset,
                experts + offset + len,
            ) == gathered(mapped, tensors.ranges@).subrange(offset, offset + len))
            &&& routing matches Some(tensors) ==> offset + len <= tensors.shard.total_bytes
                ==> sent.subrange(both + offset, both + offset + len) == gathered(
                mapped,
                tensors.ranges@,
            ).subrange(offset, offset + len)
        }),
{
    gathered_len(mapped, part.ranges@);
    if let Some(tensors) = recurrent {
        gathered_len(mapped, tensors.ranges@);
    }
    if let Some(tensors) = routing {
        gathered_len(mapped, tensors.ranges@);
    }
    let sent = worker_bytes(mapped, part, recurrent, routing, first);
    let experts = part.header.total_bytes as int;
    let both = experts + if first && recurrent is Some {
        recurrent->0.shard.total_bytes as int
    } else {
        0
    };
    let own = gathered(mapped, part.ranges@);
    assert(own.len() == experts);
    if offset + len <= experts {
        assert(sent.subrange(offset, offset + len) =~= own.subrange(offset, offset + len));
    }
    if let Some(tensors) = recurrent {
        let bytes = gathered(mapped, tensors.ranges@);
        if first && offset + len <= tensors.shard.total_bytes {
            assert(sent.subrange(experts + offset, experts + offset + len) =~= bytes.subrange(
                offset,
                offset + len,
            ));
        }
    }
    if let Some(tensors) = routing {
        let bytes = gathered(mapped, tensors.ranges@);
        if offset + len <= tensors.shard.total_bytes {
            assert(sent.subrange(both + offset, both + offset + len) =~= bytes.subrange(
                offset,
                offset + len,
            ));
        }
    }
}

/// Only the first worker is sent recurrent tensors, and every worker the routing tensors.
pub proof fn headers_name_what_is_sent(
    parts: Seq<ExpertPart>,
    recurrent: Option<RecurrentPart>,
    routing: Option<RoutingPart>,
    i: int,
)
    requires
        0 <= i < parts.len(),
    ensures
        ({
            let headers = routed_headers(
                recurrent_headers(expert_headers(parts), recurrent),
                routing,
            );
            let own = parts[i].header@;
            let extended = if i == 0 && recurrent is Some {
                with_ssm(own, recurrent->0.shard)
            } else {
                own
            };
            &&& headers.len() == parts.len()
            &&& headers[i] == if routing is Some {
                with_gate(extended, routing->0.shard)
            } else {
                extended
            }
        }),
{
}

} // verus!
