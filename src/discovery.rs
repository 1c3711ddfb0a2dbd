use vstd::prelude::*;

use crate::descriptor::{
    config_header_ok, device_payload_ok, frame_at, frame_ok, frames_from, frames_ok,
    num_configurations_of, parse_descriptor, parse_num_configurations, parse_total_length,
    payload_of, total_length_of, Descriptor, TYPE_CONFIGURATION, TYPE_DEVICE, concat_frames,
    lemma_concat_frames_read_back, payloads_fit,
};

verus! {

/// Address that a device was given on the bus.
#[derive(Copy, Clone, Debug, PartialEq, Eq, Structural)]
pub struct DeviceAddress(pub u8);

/// Where the discovery of one device stands.
#[derive(Copy, Clone, Debug, PartialEq, Eq, Structural)]
pub enum DiscoveryState {
    /// Waiting for the device descriptor.
    DeviceDesc,
    /// Waiting for the header of configuration `n` of `m`, to learn its length.
    ConfigDescLen(u8, u8),
    /// Waiting for the whole of configuration `n` of `m`.
    ConfigDesc(u8, u8),
    /// Every descriptor was read; no transfer is pending.
    Done,
    /// A descriptor could not be parsed; no transfer is pending.
    ParseError,
}

impl DiscoveryState {
    /// `Done` and `ParseError` end discovery.
    pub open spec fn terminal(self) -> bool {
        self is Done || self is ParseError
    }

    /// The configuration index stays below the count. The one exception is the
    /// first index of a device that reports no configuration at all.
    pub open spec fn wf(self) -> bool {
        match self {
            DiscoveryState::ConfigDescLen(n, m) => n < m || n == 0,
            DiscoveryState::ConfigDesc(n, m) => n < m || n == 0,
            _ => true,
        }
    }
}

/// What the host reports. Only `ControlInData` moves discovery on.
#[derive(Copy, Clone, Debug, PartialEq, Eq, Structural)]
pub enum Event {
    /// A control-in transfer completed with the given number of bytes.
    ControlInData(Option<DeviceAddress>, u16),
    /// A control-out transfer completed.
    ControlOutComplete(Option<DeviceAddress>),
    /// The device stalled a transfer.
    Stall,
    /// The device was detached.
    Detached,
}

/// A GET_DESCRIPTOR control-in request addressed to the whole device.
#[derive(Copy, Clone, Debug, PartialEq, Eq, Structural)]
pub struct DescriptorRequest {
    pub dev_addr: DeviceAddress,
    pub descriptor_type: u8,
    pub index: u8,
    pub length: u16,
}

/// The outcome of one event: the next state, the descriptors to hand to every
/// driver in this order, and the transfer to start, if any.
#[derive(Debug)]
pub struct Step {
    pub state: DiscoveryState,
    pub dispatched: Vec<Descriptor>,
    pub request: Option<DescriptorRequest>,
}

/// The request for descriptor `index` of a type, `length` bytes long.
pub open spec fn request_of(
    dev_addr: DeviceAddress,
    descriptor_type: u8,
    index: u8,
    length: u16,
) -> DescriptorRequest {
    DescriptorRequest { dev_addr, descriptor_type, index, length }
}

/// The bytes that a `ControlInData` event of `length` bytes makes readable.
pub open spec fn received_bytes(length: u16, received: Seq<u8>) -> Seq<u8> {
    if length as int <= received.len() {
        received.take(length as int)
    } else {
        received
    }
}

/// `d` starts with a frame whose payload is a device descriptor.
pub open spec fn device_desc_ok(d: Seq<u8>) -> bool {
    frame_ok(d, 0) && device_payload_ok(payload_of(d, frame_at(d, 0)))
}

/// `d` starts with a frame whose payload is a configuration header.
pub open spec fn config_len_ok(d: Seq<u8>) -> bool {
    frame_ok(d, 0) && config_header_ok(payload_of(d, frame_at(d, 0)))
}

/// The state that follows `state` once the bytes `d` were received.
pub open spec fn next_state(state: DiscoveryState, d: Seq<u8>) -> DiscoveryState {
    match state {
        DiscoveryState::DeviceDesc => if device_desc_ok(d) {
            DiscoveryState::ConfigDescLen(
                0,
                num_configurations_of(payload_of(d, frame_at(d, 0))),
            )
        } else {
            DiscoveryState::ParseError
        },
        DiscoveryState::ConfigDescLen(n, m) => if config_len_ok(d) {
            DiscoveryState::ConfigDesc(n, m)
        } else {
            DiscoveryState::ParseError
        },
        DiscoveryState::ConfigDesc(n, m) => if !frames_ok(d, 0) {
            DiscoveryState::ParseError
        } else if n + 1 < m {
            DiscoveryState::ConfigDescLen((n + 1) as u8, m)
        } else {
            DiscoveryState::Done
        },
        _ => state,
    }
}

/// The transfer started once the bytes `d` were received in `state`.
pub open spec fn next_request(
    dev_addr: DeviceAddress,
    state: DiscoveryState,
    d: Seq<u8>,
) -> Option<DescriptorRequest> {
    match state {
        DiscoveryState::DeviceDesc => if device_desc_ok(d) {
            Some(request_of(dev_addr, TYPE_CONFIGURATION, 0, 9))
        } else {
            None
        },
        DiscoveryState::ConfigDescLen(n, m) => if config_len_ok(d) {
            Some(
                request_of(
                    dev_addr,
                    TYPE_CONFIGURATION,
                    n,
                    total_length_of(payload_of(d, frame_at(d, 0))),
                ),
            )
        } else {
            None
        },
        DiscoveryState::ConfigDesc(n, m) => if frames_ok(d, 0) && n + 1 < m {
            Some(request_of(dev_addr, TYPE_CONFIGURATION, (n + 1) as u8, 9))
        } else {
            None
        },
        _ => None,
    }
}

/// The descriptors handed to the drivers once the bytes `d` were received in
/// `state`: each frame read before the first malformed one, if any.
pub open spec fn dispatched_frames(state: DiscoveryState, d: Seq<u8>) -> Seq<Descriptor> {
    match state {
        DiscoveryState::DeviceDesc => if frame_ok(d, 0) {
            seq![frame_at(d, 0)]
        } else {
            seq![]
        },
        DiscoveryState::ConfigDesc(_, _) => frames_from(d, 0),
        _ => seq![],
    }
}

/// Begins discovery: returns `DeviceDesc` and the request for the 18 bytes of
/// the device descriptor, which the caller starts on an idle bus.
pub fn start_discovery(dev_addr: DeviceAddress) -> (r: (DiscoveryState, DescriptorRequest))
    ensures
        r.0 == DiscoveryState::DeviceDesc,
        r.1 == request_of(dev_addr, TYPE_DEVICE, 0, 18),
{
    (
        DiscoveryState::DeviceDesc,
        DescriptorRequest { dev_addr, descriptor_type: TYPE_DEVICE, index: 0, length: 18 },
    )
}

fn parse_error(dispatched: Vec<Descriptor>) -> (r: Step)
    ensures
        r.state == DiscoveryState::ParseError,
        r.dispatched@ == dispatched@,
        r.request is None,
{
    Step { state: DiscoveryState::ParseError, dispatched, request: None }
}

/// Takes one event for the device at `dev_addr` in `state`. `received` is the
/// host's last received buffer, of which a `ControlInData` event makes the
/// first `length` bytes readable. Any other event leaves the state as it is.
pub fn process_discovery(
    event: Event,
    dev_addr: DeviceAddress,
    state: DiscoveryState,
    received: &[u8],
) -> (step: Step)
    requires
        !state.terminal(),
        state.wf(),
    ensures
        step.state.wf(),
        !(event is ControlInData) ==> step.state == state && step.request is None
            && step.dispatched@.len() == 0,
        event is ControlInData ==> {
            let d = received_bytes(event->ControlInData_1, received@);
            &&& step.state == next_state(state, d)
            &&& step.request == next_request(dev_addr, state, d)
            &&& step.dispatched@ == dispatched_frames(state, d)
            &&& step.request is Some <==> !step.state.terminal()
        },
        step.state is ParseError ==> step.request is None,
{
    let length = match event {
        Event::ControlInData(_, length) => length,
        _ => {
            return Step { state, dispatched: Vec::new(), request: None };
        },
    };
    let end: usize = if (length as usize) <= received.len() {
        length as usize
    } else {
        received.len()
    };
    let data = vstd::slice::slice_subrange(received, 0, end);
    assert(data@ == received_bytes(length, received@));
    let mut dispatched: Vec<Descriptor> = Vec::new();
    match state {
        DiscoveryState::DeviceDesc => {
            let frame = match parse_descriptor(data, 0) {
                Some(f) => f,
                None => {
                    return parse_error(dispatched);
                },
            };
            dispatched.push(frame);
            let payload = vstd::slice::slice_subrange(data, frame.start, frame.end);
            let m = match parse_num_configurations(payload) {
                Some(m) => m,
                None => {
                    return parse_error(dispatched);
                },
            };
            assert(payload@ == payload_of(data@, frame_at(data@, 0)));
            Step {
                state: DiscoveryState::ConfigDescLen(0, m),
                dispatched,
                request: Some(
                    DescriptorRequest {
                        dev_addr,
                        descriptor_type: TYPE_CONFIGURATION,
                        index: 0,
                        length: 9,
                    },
                ),
            }
        },
        DiscoveryState::ConfigDescLen(n, m) => {
            let frame = match parse_descriptor(data, 0) {
                Some(f) => f,
                None => {
                    return parse_error(dispatched);
                },
            };
            let payload = vstd::slice::slice_subrange(data, frame.start, frame.end);
            let total_length = match parse_total_length(payload) {
                Some(l) => l,
                None => {
                    return parse_error(dispatched);
                },
            };
            Step {
                state: DiscoveryState::ConfigDesc(n, m),
                dispatched,
                request: Some(
                    DescriptorRequest {
                        dev_addr,
                        descriptor_type: TYPE_CONFIGURATION,
                        index: n,
                        length: total_length,
                    },
                ),
            }
        },
        DiscoveryState::ConfigDesc(n, m) => {
            let mut pos: usize = 0;
            loop
                invariant_except_break
                    dispatched@ + frames_from(data@, pos as int) == frames_from(data@, 0),
                    frames_ok(data@, pos as int) == frames_ok(data@, 0),
                invariant
                    event is ControlInData,
                    data@ == received_bytes(event->ControlInData_1, received@),
                    state == DiscoveryState::ConfigDesc(n, m),
                    pos <= data@.len(),
                ensures
                    dispatched@ == frames_from(data@, 0),
                    frames_ok(data@, 0),
                decreases data@.len() - pos,
            {
                let frame = match parse_descriptor(data, pos) {
                    Some(f) => f,
                    None => {
                        return parse_error(dispatched);
                    },
                };
                dispatched.push(frame);
                if frame.end < data.len() {
                    pos = frame.end;
                } else {
                    break;
                }
            }
            if n + 1 < m {
                Step {
                    state: DiscoveryState::ConfigDescLen(n + 1, m),
                    dispatched,
                    request: Some(
                        DescriptorRequest {
                            dev_addr,
                            descriptor_type: TYPE_CONFIGURATION,
                            index: n + 1,
                            length: 9,
                        },
                    ),
                }
            } else {
                Step { state: DiscoveryState::Done, dispatched, request: None }
            }
        },
        _ => Step { state, dispatched, request: None },
    }
}

/// The bytes `d` are what `state` waits for: a device descriptor, a
/// configuration header, or a run of frames that fills the buffer.
pub open spec fn well_formed_for(state: DiscoveryState, d: Seq<u8>) -> bool {
    match state {
        DiscoveryState::DeviceDesc => device_desc_ok(d),
        DiscoveryState::ConfigDescLen(_, _) => config_len_ok(d),
        DiscoveryState::ConfigDesc(_, _) => frames_ok(d, 0),
        _ => false,
    }
}

/// An 18-byte device descriptor that reports `m` configurations moves
/// `DeviceDesc` to `ConfigDescLen(0, m)`, asks for the 9-byte header of
/// configuration 0, and hands the drivers that one descriptor, with its type
/// and its 16 bytes of payload.
pub proof fn lemma_device_descriptor_step(dev_addr: DeviceAddress, d: Seq<u8>)
    requires
        d.len() == 18,
        d[0] == 18,
        d[1] == TYPE_DEVICE,
    ensures
        next_state(DiscoveryState::DeviceDesc, d) == DiscoveryState::ConfigDescLen(0, d[17]),
        next_request(dev_addr, DiscoveryState::DeviceDesc, d) == Some(
            request_of(dev_addr, TYPE_CONFIGURATION, 0, 9),
        ),
        dispatched_frames(DiscoveryState::DeviceDesc, d).len() == 1,
        dispatched_frames(DiscoveryState::DeviceDesc, d)[0].descriptor_type == TYPE_DEVICE,
        payload_of(d, dispatched_frames(DiscoveryState::DeviceDesc, d)[0]) == d.subrange(2, 18),
{
    assert(payload_of(d, frame_at(d, 0)).len() == 16);
}

/// A 9-byte configuration header that declares a total length moves
/// `ConfigDescLen(n, m)` to `ConfigDesc(n, m)` and asks for configuration `n`
/// with that length; no descriptor is handed to the drivers.
pub proof fn lemma_config_header_step(dev_addr: DeviceAddress, n: u8, m: u8, d: Seq<u8>)
    requires
        d.len() == 9,
        d[0] == 9,
        d[1] == TYPE_CONFIGURATION,
    ensures
        next_state(DiscoveryState::ConfigDescLen(n, m), d) == DiscoveryState::ConfigDesc(n, m),
        next_request(dev_addr, DiscoveryState::ConfigDescLen(n, m), d) == Some(
            request_of(dev_addr, TYPE_CONFIGURATION, n, (d[2] + 256 * d[3]) as u16),
        ),
        dispatched_frames(DiscoveryState::ConfigDescLen(n, m), d).len() == 0,
{
    let p = payload_of(d, frame_at(d, 0));
    assert(p[0] == d[2] && p[1] == d[3]);
}

/// A buffer of `k` well-formed frames written one after another, received in
/// `ConfigDesc(n, m)`, hands the drivers exactly those `k` descriptors in
/// buffer order. Then, if `n + 1 < m`, discovery moves to
/// `ConfigDescLen(n + 1, m)` and asks for the 9-byte header of configuration
/// `n + 1`; otherwise it is `Done` and asks for nothing.
pub proof fn lemma_config_bundle_step(
    dev_addr: DeviceAddress,
    n: u8,
    m: u8,
    fs: Seq<(u8, Seq<u8>)>,
)
    requires
        DiscoveryState::ConfigDesc(n, m).wf(),
        fs.len() >= 1,
        payloads_fit(fs),
        concat_frames(fs).len() <= usize::MAX,
    ensures
        ({
            let state = DiscoveryState::ConfigDesc(n, m);
            let d = concat_frames(fs);
            let r = dispatched_frames(state, d);
            &&& r.len() == fs.len()
            &&& forall|i: int|
                #![trigger r[i]]
                0 <= i < fs.len() ==> r[i].descriptor_type == fs[i].0 && payload_of(d, r[i])
                    == fs[i].1
            &&& n + 1 < m ==> next_state(state, d) == DiscoveryState::ConfigDescLen(
                (n + 1) as u8,
                m,
            ) && next_request(dev_addr, state, d) == Some(
                request_of(dev_addr, TYPE_CONFIGURATION, (n + 1) as u8, 9),
            )
            &&& n + 1 >= m ==> next_state(state, d) == DiscoveryState::Done && next_request(
                dev_addr,
                state,
                d,
            ) is None
        }),
{
    lemma_concat_frames_read_back(fs);
}

/// Bytes that are not what a non-terminal state waits for end discovery in
/// `ParseError`, and no transfer is started.
pub proof fn lemma_malformed_fails(dev_addr: DeviceAddress, state: DiscoveryState, d: Seq<u8>)
    requires
        !state.terminal(),
        !well_formed_for(state, d),
    ensures
        next_state(state, d) == DiscoveryState::ParseError,
        next_request(dev_addr, state, d) is None,
{
}

} // verus!
