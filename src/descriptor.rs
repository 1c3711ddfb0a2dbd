use vstd::prelude::*;

verus! {

/// Descriptor type of a device descriptor.
pub const TYPE_DEVICE: u8 = 1;

/// Descriptor type of a configuration descriptor.
pub const TYPE_CONFIGURATION: u8 = 2;

/// One descriptor frame found in a buffer: its type tag, and where its
/// payload (the bytes after the length and type fields) lies in that buffer.
#[derive(Copy, Clone, Debug, PartialEq, Eq, Structural)]
pub struct Descriptor {
    pub descriptor_type: u8,
    pub start: usize,
    pub end: usize,
}

/// A well-formed frame starts at `pos`: a length byte of at least 2 (itself
/// and the type byte), and all of its bytes inside `d`.
pub open spec fn frame_ok(d: Seq<u8>, pos: int) -> bool {
    &&& 0 <= pos
    &&& pos + 2 <= d.len()
    &&& d[pos] >= 2
    &&& pos + d[pos] <= d.len()
}

/// Position just past the frame that starts at `pos`.
pub open spec fn frame_end(d: Seq<u8>, pos: int) -> int {
    pos + d[pos]
}

/// The frame that starts at `pos`, as a `Descriptor`.
pub open spec fn frame_at(d: Seq<u8>, pos: int) -> Descriptor {
    Descriptor {
        descriptor_type: d[pos + 1],
        start: (pos + 2) as usize,
        end: frame_end(d, pos) as usize,
    }
}

/// The payload bytes of a descriptor in the buffer `d`.
pub open spec fn payload_of(d: Seq<u8>, f: Descriptor) -> Seq<u8> {
    d.subrange(f.start as int, f.end as int)
}

/// The frames read one after another from `pos`, until one is malformed or
/// the buffer is used up.
pub open spec fn frames_from(d: Seq<u8>, pos: int) -> Seq<Descriptor>
    decreases d.len() - pos,
{
    if !frame_ok(d, pos) {
        seq![]
    } else if frame_end(d, pos) >= d.len() {
        seq![frame_at(d, pos)]
    } else {
        seq![frame_at(d, pos)] + frames_from(d, frame_end(d, pos))
    }
}

/// From `pos` on, `d` is a run of one or more well-formed frames that ends
/// exactly at the end of the buffer.
pub open spec fn frames_ok(d: Seq<u8>, pos: int) -> bool
    decreases d.len() - pos,
{
    frame_ok(d, pos) && (frame_end(d, pos) >= d.len() || frames_ok(d, frame_end(d, pos)))
}

/// Reads the descriptor frame that starts at `pos` in `input`.
pub fn parse_descriptor(input: &[u8], pos: usize) -> (r: Option<Descriptor>)
    ensures
        r is Some <==> frame_ok(input@, pos as int),
        r is Some ==> r->0 == frame_at(input@, pos as int),
{
    if pos >= input.len() || input.len() - pos < 2 {
        return None;
    }
    let length: u8 = input[pos];
    if length < 2 || (length as usize) > input.len() - pos {
        return None;
    }
    Some(Descriptor { descriptor_type: input[pos + 1], start: pos + 2, end: pos + length as usize })
}

/// Length of the payload of a device descriptor.
pub const DEVICE_PAYLOAD_LEN: usize = 16;

/// The payload holds a whole device descriptor.
pub open spec fn device_payload_ok(p: Seq<u8>) -> bool {
    p.len() >= DEVICE_PAYLOAD_LEN
}

/// The number of configurations that a device descriptor's payload reports:
/// its last field.
pub open spec fn num_configurations_of(p: Seq<u8>) -> u8 {
    p[15]
}

/// Reads the number of configurations from the payload of a device descriptor.
pub fn parse_num_configurations(payload: &[u8]) -> (r: Option<u8>)
    ensures
        r is Some <==> device_payload_ok(payload@),
        r is Some ==> r->0 == num_configurations_of(payload@),
{
    if payload.len() < DEVICE_PAYLOAD_LEN {
        None
    } else {
        Some(payload[15])
    }
}

/// The payload starts with a configuration descriptor's total length field.
pub open spec fn config_header_ok(p: Seq<u8>) -> bool {
    p.len() >= 2
}

/// The total length that a configuration descriptor's payload declares, in
/// little-endian order.
pub open spec fn total_length_of(p: Seq<u8>) -> u16 {
    (p[0] + 256 * p[1]) as u16
}

/// Reads the declared total length from the payload of a configuration
/// descriptor.
pub fn parse_total_length(payload: &[u8]) -> (r: Option<u16>)
    ensures
        r is Some <==> config_header_ok(payload@),
        r is Some ==> r->0 == total_length_of(payload@),
{
    if payload.len() < 2 {
        None
    } else {
        Some(payload[0] as u16 + 256 * (payload[1] as u16))
    }
}

/// The bytes of one frame: a length byte, the type tag, then the payload.
pub open spec fn frame_bytes(descriptor_type: u8, payload: Seq<u8>) -> Seq<u8> {
    seq![(payload.len() + 2) as u8, descriptor_type] + payload
}

/// The frames `fs`, each a type tag and a payload, written one after another.
pub open spec fn concat_frames(fs: Seq<(u8, Seq<u8>)>) -> Seq<u8>
    decreases fs.len(),
{
    if fs.len() == 0 {
        seq![]
    } else {
        frame_bytes(fs[0].0, fs[0].1) + concat_frames(fs.drop_first())
    }
}

/// Every payload fits in a frame, whose length byte counts two more bytes.
pub open spec fn payloads_fit(fs: Seq<(u8, Seq<u8>)>) -> bool {
    forall|i: int| 0 <= i < fs.len() ==> #[trigger] fs[i].1.len() <= 253
}

proof fn lemma_frames_after(p: Seq<u8>, fs: Seq<(u8, Seq<u8>)>)
    requires
        fs.len() >= 1,
        payloads_fit(fs),
        p.len() + concat_frames(fs).len() <= usize::MAX,
    ensures
        ({
            let d = p + concat_frames(fs);
            let r = frames_from(d, p.len() as int);
            &&& frames_ok(d, p.len() as int)
            &&& r.len() == fs.len()
            &&& forall|i: int|
                #![trigger r[i]]
                0 <= i < fs.len() ==> r[i].descriptor_type == fs[i].0 && payload_of(d, r[i])
                    == fs[i].1
        }),
    decreases fs.len(),
{
    let d = p + concat_frames(fs);
    let rest = fs.drop_first();
    let q = p + frame_bytes(fs[0].0, fs[0].1);
    assert(fs[0].1.len() <= 253);
    assert(d =~= q + concat_frames(rest));
    let pos = p.len() as int;
    assert(d[pos] == (fs[0].1.len() + 2) as u8);
    assert(d[pos + 1] == fs[0].0);
    assert(frame_ok(d, pos));
    assert(frame_end(d, pos) == q.len());
    assert(payload_of(d, frame_at(d, pos)) =~= fs[0].1);
    if rest.len() == 0 {
        assert(concat_frames(rest) =~= seq![]);
        assert(frames_from(d, pos) =~= seq![frame_at(d, pos)]);
        assert(frames_ok(d, pos));
        let r = frames_from(d, pos);
        assert forall|i: int| #![trigger r[i]] 0 <= i < fs.len() implies r[i].descriptor_type
            == fs[i].0 && payload_of(d, r[i]) == fs[i].1 by {
            assert(i == 0);
        }
    } else {
        assert(concat_frames(rest).len() >= 2);
        assert forall|i: int| 0 <= i < rest.len() implies #[trigger] rest[i].1.len() <= 253 by {
            assert(rest[i] == fs[i + 1]);
        }
        lemma_frames_after(q, rest);
        assert(frames_ok(d, pos));
        let r = frames_from(d, pos);
        assert(r == seq![frame_at(d, pos)] + frames_from(d, q.len() as int));
        assert forall|i: int| #![trigger r[i]] 0 <= i < fs.len() implies r[i].descriptor_type
            == fs[i].0 && payload_of(d, r[i]) == fs[i].1 by {
            if i > 0 {
                assert(r[i] == frames_from(d, q.len() as int)[i - 1]);
                assert(fs[i] == rest[i - 1]);
            }
        }
    }
}

/// A run of one or more well-formed frames written one after another reads
/// back as exactly those frames, in the same order, with the same type tags
/// and payloads.
pub proof fn lemma_concat_frames_read_back(fs: Seq<(u8, Seq<u8>)>)
    requires
        fs.len() >= 1,
        payloads_fit(fs),
        concat_frames(fs).len() <= usize::MAX,
    ensures
        ({
            let d = concat_frames(fs);
            let r = frames_from(d, 0);
            &&& frames_ok(d, 0)
            &&& r.len() == fs.len()
            &&& forall|i: int|
                #![trigger r[i]]
                0 <= i < fs.len() ==> r[i].descriptor_type == fs[i].0 && payload_of(d, r[i])
                    == fs[i].1
        }),
{
    let e = Seq::<u8>::empty();
    lemma_frames_after(e, fs);
    assert(e + concat_frames(fs) =~= concat_frames(fs));
}

} // verus!
