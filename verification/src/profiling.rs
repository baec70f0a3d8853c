//! Counters of where time and traffic go.
use vstd::prelude::*;

verus! {

/// The counters. They wrap around like any machine counter.
#[derive(Clone, Copy, Debug, PartialEq, Eq, Structural)]
pub struct Profile {
    pub enabled: bool,
    pub transformer_ns: u64,
    pub matmul_ns: u64,
    pub ssm_ns: u64,
    pub attention_ns: u64,
    pub moe_ns: u64,
    pub ffn_ns: u64,
    pub forward_passes: u64,
    pub remote_batches: u64,
    pub remote_experts: u64,
    pub local_experts: u64,
    pub bytes_sent: u64,
    pub bytes_received: u64,
    pub remote_wait_ns: u64,
    pub coordinator_total_ns: u64,
    pub coordinator_local_ns: u64,
    pub coordinator_remote_ns: u64,
    pub push_frames: u64,
    pub push_experts: u64,
}

/// A counter after an amount was added to it.
pub open spec fn counted(counter: u64, amount: int) -> u64 {
    ((counter + amount) % 0x1_0000_0000_0000_0000) as u64
}

fn count(counter: &mut u64, amount: u64)
    ensures
        *final(counter) == counted(*old(counter), amount as int),
{
    *counter = counter.wrapping_add(amount);
}

/// Switches the measuring of times on or off.
pub fn set_profiling_enabled(profile: &mut Profile, enabled: bool)
    ensures
        *final(profile) == (Profile { enabled, ..*old(profile) }),
{
    profile.enabled = enabled;
}

/// Whether times are measured.
pub fn profiling_enabled(profile: &Profile) -> (enabled: bool)
    ensures
        enabled == profile.enabled,
{
    profile.enabled
}

/// The start of a measurement at the given time, where times are measured.
pub fn prof_start(profile: &Profile, now_ns: u64) -> (start: Option<u64>)
    ensures
        start == if profile.enabled {
            Some(now_ns)
        } else {
            None
        },
{
    if profiling_enabled(profile) {
        Some(now_ns)
    } else {
        None
    }
}

/// Ends a measurement: the time since its start is added to the counter.
pub fn prof_end(counter: &mut u64, start: Option<u64>, now_ns: u64)
    ensures
        *final(counter) == match start {
            Some(from) => counted(
                *old(counter),
                if now_ns >= from {
                    now_ns - from
                } else {
                    0
                },
            ),
            None => *old(counter),
        },
{
    if let Some(from) = start {
        let elapsed: u64 = now_ns.saturating_sub(from);
        count(counter, elapsed);
    }
}

/// Counts a forward pass.
pub fn record_forward_pass(profile: &mut Profile)
    ensures
        *final(profile) == (Profile {
            forward_passes: counted(old(profile).forward_passes, 1),
            ..*old(profile)
        }),
{
    count(&mut profile.forward_passes, 1);
}

/// Counts experts that were computed locally.
pub fn record_distributed_local_experts(profile: &mut Profile, experts: usize)
    ensures
        *final(profile) == (Profile {
            local_experts: counted(old(profile).local_experts, experts as int),
            ..*old(profile)
        }),
{
    count(&mut profile.local_experts, experts as u64);
}

/// Counts a request to a worker with what it carried and how long it took.
pub fn record_distributed_remote_request(
    profile: &mut Profile,
    experts: usize,
    bytes_sent: usize,
    bytes_received: usize,
    wait_ns: u64,
)
    ensures
        *final(profile) == (Profile {
            remote_batches: counted(old(profile).remote_batches, 1),
            remote_experts: counted(old(profile).remote_experts, experts as int),
            bytes_sent: counted(old(profile).bytes_sent, bytes_sent as int),
            bytes_received: counted(old(profile).bytes_received, bytes_received as int),
            remote_wait_ns: counted(old(profile).remote_wait_ns, wait_ns as int),
            ..*old(profile)
        }),
{
    count(&mut profile.remote_batches, 1);
    count(&mut profile.remote_experts, experts as u64);
    count(&mut profile.bytes_sent, bytes_sent as u64);
    count(&mut profile.bytes_received, bytes_received as u64);
    count(&mut profile.remote_wait_ns, wait_ns);
}

/// Counts traffic that belongs to no request.
pub fn record_distributed_transport_bytes(
    profile: &mut Profile,
    bytes_sent: usize,
    bytes_received: usize,
)
    ensures
        *final(profile) == (Profile {
            bytes_sent: counted(old(profile).bytes_sent, bytes_sent as int),
            bytes_received: counted(old(profile).bytes_received, bytes_received as int),
            ..*old(profile)
        }),
{
    count(&mut profile.bytes_sent, bytes_sent as u64);
    count(&mut profile.bytes_received, bytes_received as u64);
}

/// Counts the times of a distributed layer.
pub fn record_distributed_coordinator_timing(
    profile: &mut Profile,
    total_ns: u64,
    local_ns: u64,
    remote_ns: u64,
)
    ensures
        *final(profile) == (Profile {
            coordinator_total_ns: counted(old(profile).coordinator_total_ns, total_ns as int),
            coordinator_local_ns: counted(old(profile).coordinator_local_ns, local_ns as int),
            coordinator_remote_ns: counted(old(profile).coordinator_remote_ns, remote_ns as int),
            ..*old(profile)
        }),
{
    count(&mut profile.coordinator_total_ns, total_ns);
    count(&mut profile.coordinator_local_ns, local_ns);
    count(&mut profile.coordinator_remote_ns, remote_ns);
}

/// Counts a frame that a worker pushed.
pub fn record_distributed_push_frame(profile: &mut Profile, experts: usize)
    ensures
        *final(profile) == (Profile {
            push_frames: counted(old(profile).push_frames, 1),
            push_experts: counted(old(profile).push_experts, experts as int),
            ..*old(profile)
        }),
{
    count(&mut profile.push_frames, 1);
    count(&mut profile.push_experts, experts as u64);
}

/// All counters at zero.
pub open spec fn cleared(enabled: bool) -> Profile {
    Profile {
        enabled,
        transformer_ns: 0,
        matmul_ns: 0,
        ssm_ns: 0,
        attention_ns: 0,
        moe_ns: 0,
        ffn_ns: 0,
        forward_passes: 0,
        remote_batches: 0,
        remote_experts: 0,
        local_experts: 0,
        bytes_sent: 0,
        bytes_received: 0,
        remote_wait_ns: 0,
        coordinator_total_ns: 0,
        coordinator_local_ns: 0,
        coordinator_remote_ns: 0,
        push_frames: 0,
        push_experts: 0,
    }
}

impl Default for Profile {
    fn default() -> (profile: Profile)
        ensures
            profile == cleared(false),
    {
        Profile {
            enabled: false,
            transformer_ns: 0,
            matmul_ns: 0,
            ssm_ns: 0,
            attention_ns: 0,
            moe_ns: 0,
            ffn_ns: 0,
            forward_passes: 0,
            remote_batches: 0,
            remote_experts: 0,
            local_experts: 0,
            bytes_sent: 0,
            bytes_received: 0,
            remote_wait_ns: 0,
            coordinator_total_ns: 0,
            coordinator_local_ns: 0,
            coordinator_remote_ns: 0,
            push_frames: 0,
            push_experts: 0,
        }
    }
}

/// Sets every counter to zero; whether times are measured stays.
pub fn profiling_reset(profile: &mut Profile)
    ensures
        *final(profile) == cleared(old(profile).enabled),
{
    let enabled = profile.enabled;
    *profile = Profile::default();
    profile.enabled = enabled;
}

/// Whether a report has anything to say of distributed work.
pub fn has_distributed_activity(profile: &Profile) -> (active: bool)
    ensures
        active == (profile.remote_batches > 0 || profile.remote_experts > 0 || profile.bytes_sent
            > 0 || profile.bytes_received > 0),
{
    profile.remote_batches > 0 || profile.remote_experts > 0 || profile.bytes_sent > 0
        || profile.bytes_received > 0
}

/// A counter grows by what is added to it, and begins again at zero behind its largest value.
pub proof fn counters_grow_and_wrap(counter: u64, amount: u64)
    ensures
        counted(counter, amount as int) == if counter + amount <= u64::MAX {
            counter + amount
        } else {
            counter + amount - u64::MAX - 1
        },
{
}

} // verus!
