use usbh_discovery::descriptor::{
    parse_descriptor, parse_num_configurations, parse_total_length, TYPE_CONFIGURATION,
    TYPE_DEVICE,
};
use usbh_discovery::{
    process_discovery, start_discovery, Descriptor, DescriptorRequest, DeviceAddress,
    DiscoveryState, Event,
};

const ADDR: DeviceAddress = DeviceAddress(5);

fn device_descriptor(num_configurations: u8) -> Vec<u8> {
    vec![
        18, 1, 0x00, 0x02, 0, 0, 0, 64, 0x34, 0x12, 0x78, 0x56, 0x00, 0x01, 1, 2, 3,
        num_configurations,
    ]
}

fn config_header(total_length: u16) -> Vec<u8> {
    vec![9, 2, (total_length & 0xff) as u8, (total_length >> 8) as u8, 1, 1, 0, 0x80, 50]
}

fn frame(descriptor_type: u8, payload_len: usize) -> Vec<u8> {
    let mut f = vec![(payload_len + 2) as u8, descriptor_type];
    for i in 0..payload_len {
        f.push(i as u8);
    }
    f
}

fn data_event(len: usize) -> Event {
    Event::ControlInData(Some(ADDR), len as u16)
}

fn config_request(index: u8, length: u16) -> Option<DescriptorRequest> {
    Some(DescriptorRequest { dev_addr: ADDR, descriptor_type: TYPE_CONFIGURATION, index, length })
}

#[test]
fn start_requests_device_descriptor() {
    let (state, request) = start_discovery(ADDR);
    assert_eq!(state, DiscoveryState::DeviceDesc);
    assert_eq!(
        request,
        DescriptorRequest { dev_addr: ADDR, descriptor_type: TYPE_DEVICE, index: 0, length: 18 }
    );
    let (_, other) = start_discovery(DeviceAddress(17));
    assert_eq!(other.dev_addr, DeviceAddress(17));
}

#[test]
fn other_events_leave_state_unchanged() {
    let states = [
        DiscoveryState::DeviceDesc,
        DiscoveryState::ConfigDescLen(0, 2),
        DiscoveryState::ConfigDesc(1, 2),
    ];
    let events = [
        Event::ControlOutComplete(Some(ADDR)),
        Event::Stall,
        Event::Detached,
        Event::ControlOutComplete(None),
    ];
    let buf = device_descriptor(1);
    for state in states {
        for event in events {
            let step = process_discovery(event, ADDR, state, &buf);
            assert_eq!(step.state, state);
            assert!(step.request.is_none());
            assert!(step.dispatched.is_empty());
        }
    }
}

#[test]
fn device_descriptor_moves_to_first_header() {
    let buf = device_descriptor(3);
    let step = process_discovery(data_event(18), ADDR, DiscoveryState::DeviceDesc, &buf);
    assert_eq!(step.state, DiscoveryState::ConfigDescLen(0, 3));
    assert_eq!(step.request, config_request(0, 9));
    assert_eq!(
        step.dispatched,
        vec![Descriptor { descriptor_type: TYPE_DEVICE, start: 2, end: 18 }]
    );
    let d = step.dispatched[0];
    assert_eq!(&buf[d.start..d.end], &buf[2..18]);
}

#[test]
fn device_descriptor_reads_only_reported_length() {
    let mut buf = device_descriptor(2);
    buf.extend_from_slice(&[0xaa, 0xbb, 0xcc]);
    let step = process_discovery(data_event(18), ADDR, DiscoveryState::DeviceDesc, &buf);
    assert_eq!(step.state, DiscoveryState::ConfigDescLen(0, 2));
    // Only 17 of the 18 bytes are readable: the frame overruns.
    let short = process_discovery(data_event(17), ADDR, DiscoveryState::DeviceDesc, &buf);
    assert_eq!(short.state, DiscoveryState::ParseError);
    assert!(short.request.is_none());
    assert!(short.dispatched.is_empty());
}

#[test]
fn device_descriptor_with_short_payload_is_dispatched_then_fails() {
    let buf = frame(TYPE_DEVICE, 10);
    let step = process_discovery(data_event(buf.len()), ADDR, DiscoveryState::DeviceDesc, &buf);
    assert_eq!(step.state, DiscoveryState::ParseError);
    assert!(step.request.is_none());
    assert_eq!(
        step.dispatched,
        vec![Descriptor { descriptor_type: TYPE_DEVICE, start: 2, end: 12 }]
    );
}

#[test]
fn config_header_requests_full_length() {
    let buf = config_header(34);
    let step = process_discovery(data_event(9), ADDR, DiscoveryState::ConfigDescLen(1, 4), &buf);
    assert_eq!(step.state, DiscoveryState::ConfigDesc(1, 4));
    assert_eq!(step.request, config_request(1, 34));
    assert!(step.dispatched.is_empty());
    let big = config_header(0x1234);
    let step = process_discovery(data_event(9), ADDR, DiscoveryState::ConfigDescLen(0, 1), &big);
    assert_eq!(step.request, config_request(0, 0x1234));
}

#[test]
fn config_header_too_short_fails() {
    let buf = frame(TYPE_CONFIGURATION, 1);
    let step = process_discovery(data_event(3), ADDR, DiscoveryState::ConfigDescLen(0, 1), &buf);
    assert_eq!(step.state, DiscoveryState::ParseError);
    assert!(step.request.is_none());
    assert!(step.dispatched.is_empty());
}

#[test]
fn bundle_dispatches_every_frame_and_asks_for_next() {
    let mut buf = config_header(34);
    buf.extend(frame(4, 7));
    buf.extend(frame(0x21, 14));
    assert_eq!(buf.len(), 34);
    let step = process_discovery(data_event(34), ADDR, DiscoveryState::ConfigDesc(0, 2), &buf);
    assert_eq!(step.state, DiscoveryState::ConfigDescLen(1, 2));
    assert_eq!(step.request, config_request(1, 9));
    assert_eq!(
        step.dispatched,
        vec![
            Descriptor { descriptor_type: 2, start: 2, end: 9 },
            Descriptor { descriptor_type: 4, start: 11, end: 18 },
            Descriptor { descriptor_type: 0x21, start: 20, end: 34 },
        ]
    );
}

#[test]
fn last_bundle_finishes_without_request() {
    let mut buf = config_header(20);
    buf.extend(frame(4, 9));
    let step = process_discovery(data_event(20), ADDR, DiscoveryState::ConfigDesc(1, 2), &buf);
    assert_eq!(step.state, DiscoveryState::Done);
    assert!(step.request.is_none());
    assert_eq!(step.dispatched.len(), 2);
}

#[test]
fn bundle_with_trailing_byte_fails_after_dispatching() {
    let mut buf = config_header(10);
    buf.push(7);
    let step = process_discovery(data_event(10), ADDR, DiscoveryState::ConfigDesc(0, 2), &buf);
    assert_eq!(step.state, DiscoveryState::ParseError);
    assert!(step.request.is_none());
    assert_eq!(step.dispatched, vec![Descriptor { descriptor_type: 2, start: 2, end: 9 }]);
}

#[test]
fn empty_buffer_fails_in_every_state() {
    let states = [
        DiscoveryState::DeviceDesc,
        DiscoveryState::ConfigDescLen(0, 1),
        DiscoveryState::ConfigDesc(0, 1),
    ];
    for state in states {
        let step = process_discovery(data_event(0), ADDR, state, &[]);
        assert_eq!(step.state, DiscoveryState::ParseError);
        assert!(step.request.is_none());
        assert!(step.dispatched.is_empty());
    }
}

#[test]
fn length_byte_below_two_fails() {
    for bad in [0u8, 1] {
        let buf = vec![bad, 2, 0, 0];
        let step = process_discovery(data_event(4), ADDR, DiscoveryState::ConfigDesc(0, 1), &buf);
        assert_eq!(step.state, DiscoveryState::ParseError);
        assert!(step.request.is_none());
    }
}

#[test]
fn device_without_configurations_finishes() {
    let step = process_discovery(data_event(18), ADDR, DiscoveryState::DeviceDesc, &device_descriptor(0));
    assert_eq!(step.state, DiscoveryState::ConfigDescLen(0, 0));
    let step = process_discovery(data_event(9), ADDR, step.state, &config_header(9));
    assert_eq!(step.state, DiscoveryState::ConfigDesc(0, 0));
    let step = process_discovery(data_event(9), ADDR, step.state, &config_header(9));
    assert_eq!(step.state, DiscoveryState::Done);
    assert!(step.request.is_none());
}

#[test]
fn two_configurations_full_sequence() {
    let (mut state, request) = start_discovery(ADDR);
    assert_eq!(request.length, 18);
    let mut notifications = 0;
    let mut requests = 1;

    let mut bundle0 = config_header(34);
    bundle0.extend(frame(4, 7));
    bundle0.extend(frame(0x21, 14));
    let mut bundle1 = config_header(20);
    bundle1.extend(frame(4, 9));

    let inputs = [
        (device_descriptor(2), DiscoveryState::ConfigDescLen(0, 2), config_request(0, 9)),
        (config_header(34), DiscoveryState::ConfigDesc(0, 2), config_request(0, 34)),
        (bundle0, DiscoveryState::ConfigDescLen(1, 2), config_request(1, 9)),
        (config_header(20), DiscoveryState::ConfigDesc(1, 2), config_request(1, 20)),
        (bundle1, DiscoveryState::Done, None),
    ];
    for (buf, expected_state, expected_request) in inputs {
        let step = process_discovery(data_event(buf.len()), ADDR, state, &buf);
        assert_eq!(step.state, expected_state);
        assert_eq!(step.request, expected_request);
        notifications += step.dispatched.len();
        if step.request.is_some() {
            requests += 1;
        }
        state = step.state;
    }
    assert_eq!(state, DiscoveryState::Done);
    assert_eq!(notifications, 6);
    assert_eq!(requests, 5);
}

#[test]
fn parse_helpers_read_fields() {
    let buf = device_descriptor(7);
    let f = parse_descriptor(&buf, 0).unwrap();
    assert_eq!(f, Descriptor { descriptor_type: 1, start: 2, end: 18 });
    assert_eq!(parse_num_configurations(&buf[f.start..f.end]), Some(7));
    assert_eq!(parse_num_configurations(&buf[2..17]), None);
    assert_eq!(parse_descriptor(&buf, 17), None);
    assert_eq!(parse_descriptor(&buf, 18), None);
    assert_eq!(parse_total_length(&[0x22, 0x01]), Some(0x0122));
    assert_eq!(parse_total_length(&[0x22]), None);
}
