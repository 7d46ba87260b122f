use tcp_dissect::attr::{Attr, Range, Variant};
use tcp_dissect::layer::{Confidence, Layer, Payload};
use tcp_dissect::tcp::{dissect, DissectError, TcpWorker};

fn header(ofs_and_flag: u8, flag: u8) -> Vec<u8> {
    vec![
        0x01, 0xBB, // src 443
        0xC3, 0x50, // dst 50000
        0x00, 0x00, 0x00, 0x01, // seq
        0x00, 0x00, 0x00, 0x02, // ack
        ofs_and_flag, flag, //
        0xFF, 0xFF, // window
        0x12, 0x34, // checksum
        0x00, 0x07, // urgent
    ]
}

fn find<'a>(layer: &'a Layer, id: &str) -> Option<&'a Attr> {
    layer.attr(&id.to_string())
}

fn bool_of(layer: &Layer, id: &str) -> bool {
    match &find(layer, id).unwrap().value {
        Variant::Bool(b) => *b,
        other => panic!("{} is not a bool: {:?}", id, other),
    }
}

fn uint_of(layer: &Layer, id: &str) -> u64 {
    match &find(layer, id).unwrap().value {
        Variant::Uint64(v) => *v,
        other => panic!("{} is not an unsigned integer: {:?}", id, other),
    }
}

fn count(layer: &Layer, id: &str) -> usize {
    layer.attrs.iter().filter(|a| a.id == id).count()
}

#[test]
fn syn_flags_decode() {
    let mut seg = header(0x50, 0x02);
    seg.push(0x00);
    seg.extend(vec![0xAA; 20]);
    let (layer, res) = dissect(&seg, Range::new(0, seg.len()), &[10, 0, 0, 1], &[10, 0, 0, 2]);
    assert!(res.is_ok());
    assert_eq!(uint_of(&layer, "tcp.flags"), 0x002);
    assert_eq!(find(&layer, "tcp.flags").unwrap().typ, "@flags");
    assert_eq!(find(&layer, "tcp.flags").unwrap().range, Range::new(12, 14));
    assert!(bool_of(&layer, "tcp.flags.syn"));
    for id in ["tcp.flags.ns", "tcp.flags.cwr", "tcp.flags.ece", "tcp.flags.urg", "tcp.flags.ack",
        "tcp.flags.psh", "tcp.flags.rst", "tcp.flags.fin"] {
        assert!(!bool_of(&layer, id), "{}", id);
    }
    assert_eq!(find(&layer, "tcp.flags.ns").unwrap().range, Range::new(12, 13));
    assert_eq!(find(&layer, "tcp.flags.syn").unwrap().range, Range::new(13, 14));
    assert_eq!(uint_of(&layer, "tcp.offset"), 5);
}

#[test]
fn ns_bit_comes_from_offset_byte() {
    let mut seg = header(0x51, 0x11);
    seg.push(0x00);
    seg.extend(vec![0; 20]);
    let (layer, _) = dissect(&seg, Range::new(0, seg.len()), &[], &[]);
    assert_eq!(uint_of(&layer, "tcp.flags"), 0x111);
    assert!(bool_of(&layer, "tcp.flags.ns"));
    assert!(bool_of(&layer, "tcp.flags.ack"));
    assert!(bool_of(&layer, "tcp.flags.fin"));
    assert!(!bool_of(&layer, "tcp.flags.syn"));
}

#[test]
fn fixed_fields_decode() {
    let mut seg = header(0x50, 0x10);
    seg.push(0x00);
    seg.extend(vec![0; 20]);
    let (layer, _) = dissect(&seg, Range::new(0, seg.len()), &[], &[]);
    assert_eq!(uint_of(&layer, "tcp.src"), 443);
    assert_eq!(uint_of(&layer, "tcp.dst"), 50000);
    assert_eq!(uint_of(&layer, "tcp.seq"), 1);
    assert_eq!(uint_of(&layer, "tcp.ack"), 2);
    assert_eq!(uint_of(&layer, "tcp.window"), 0xFFFF);
    assert_eq!(uint_of(&layer, "tcp.checksum"), 0x1234);
    assert_eq!(uint_of(&layer, "tcp.urgent"), 7);
    assert_eq!(find(&layer, "tcp.src").unwrap().range, Range::new(0, 2));
    assert_eq!(find(&layer, "tcp.seq").unwrap().range, Range::new(4, 8));
    assert_eq!(find(&layer, "tcp.urgent").unwrap().range, Range::new(18, 20));
    let opts = find(&layer, "tcp.options").unwrap();
    assert_eq!(opts.typ, "@nested");
    assert!(matches!(opts.value, Variant::Nil));
    assert_eq!(layer.id, "tcp");
    assert_eq!(layer.tags, vec!["tcp".to_string()]);
}

#[test]
fn common_options_parse() {
    let mut seg = header(0x80, 0x02);
    seg.extend(vec![0x02, 0x04, 0x05, 0xB4, 0x01, 0x03, 0x03, 0x07, 0x01, 0x01, 0x04, 0x02]);
    seg.push(0x08); // an unsupported kind ends the list
    seg.extend(vec![0x55; 32]);
    let (layer, res) = dissect(&seg, Range::new(0, seg.len()), &[], &[]);
    assert_eq!(res, Ok(()));
    assert_eq!(layer.confidence, Confidence::Exact);
    assert_eq!(uint_of(&layer, "tcp.options.mss"), 1460);
    assert_eq!(find(&layer, "tcp.options.mss").unwrap().range, Range::new(22, 24));
    assert_eq!(uint_of(&layer, "tcp.options.scale"), 7);
    assert_eq!(find(&layer, "tcp.options.scale").unwrap().range, Range::new(27, 28));
    assert!(bool_of(&layer, "tcp.options.selectiveAckPermitted"));
    assert_eq!(find(&layer, "tcp.options.selectiveAckPermitted").unwrap().range, Range::new(30, 31));
    // the bytes hold a NOP after the MSS and two after the window scale
    assert_eq!(count(&layer, "tcp.options.nop"), 3);
    let nop = find(&layer, "tcp.options.nop").unwrap();
    assert_eq!(nop.typ, "@novalue");
    assert_eq!(nop.range, Range::new(24, 25));
    assert_eq!(layer.attrs.len(), 19 + 6);
    assert_eq!(layer.payloads.len(), 1);
    assert_eq!(layer.payloads[0].slices, vec![vec![0x55; 32]]);
    assert_eq!(layer.payloads[0].range, Range::new(33, 65));
}

#[test]
fn end_of_options_first_stops_at_once() {
    let mut seg = header(0x50, 0x02);
    seg.push(0x00);
    seg.push(0x01); // would be a NOP, but the list has ended
    seg.extend(vec![0x11; 19]);
    let (layer, res) = dissect(&seg, Range::new(0, seg.len()), &[], &[]);
    assert!(res.is_ok());
    assert_eq!(layer.attrs.len(), 19);
    assert!(layer.attrs.iter().all(|a| !a.id.starts_with("tcp.options.")));
    assert_eq!(layer.payloads[0].range, Range::new(21, 41));
}

#[test]
fn complete_segment_payload_length() {
    // offset 5: the residual is the 20 bytes after the end-of-options byte
    let mut seg = header(0x50, 0x18);
    seg.extend(vec![0x01, 0x01, 0x00]);
    seg.extend((0..20).map(|i| i as u8));
    let base = 34;
    let (layer, res) = dissect(&seg, Range::new(base, base + seg.len()), &[], &[]);
    assert!(res.is_ok());
    assert_eq!(layer.confidence, Confidence::Exact);
    let p = &layer.payloads[0];
    assert_eq!(p.slices[0].len(), seg.len() - (20 + 3));
    assert_eq!(p.slices[0], (0..20).map(|i| i as u8).collect::<Vec<u8>>());
    assert_eq!(p.range, Range::new(base + 23, base + 43));
    assert_eq!(layer.range, Range::new(base, base + seg.len()));
}

#[test]
fn short_residual_is_truncated() {
    let mut seg = header(0x50, 0x02);
    seg.push(0x00);
    seg.extend(vec![0; 19]);
    let (layer, res) = dissect(&seg, Range::new(0, seg.len()), &[], &[]);
    assert!(res.is_err());
    assert_eq!(layer.confidence, Confidence::Error);
    assert_eq!(layer.attrs.len(), 19);
    assert!(layer.payloads.is_empty());
}

#[test]
fn options_without_end_are_truncated() {
    let mut seg = header(0x60, 0x02);
    seg.extend(vec![0x01, 0x01, 0x04, 0x02]);
    let (layer, res) = dissect(&seg, Range::new(0, seg.len()), &[], &[]);
    assert!(res.is_err());
    assert_eq!(layer.confidence, Confidence::Error);
    assert_eq!(count(&layer, "tcp.options.nop"), 2);
    assert!(bool_of(&layer, "tcp.options.selectiveAckPermitted"));
}

#[test]
fn truncated_mss_adds_nothing() {
    let mut seg = header(0x60, 0x02);
    seg.extend(vec![0x02, 0x04, 0x05]);
    let (layer, res) = dissect(&seg, Range::new(0, seg.len()), &[], &[]);
    assert!(res.is_err());
    assert_eq!(layer.attrs.len(), 19);
    assert!(find(&layer, "tcp.options.mss").is_none());
}

#[test]
fn short_segments_keep_what_was_read() {
    let full = header(0x50, 0x02);
    let expected = [0, 0, 0, 0, 2, 2, 2, 2, 3, 3, 3, 3, 4, 5, 15, 15, 16, 16, 17, 17];
    for len in 0..20 {
        let seg = &full[..len];
        let (layer, res) = dissect(seg, Range::new(0, len), &[1], &[2]);
        assert!(res.is_err(), "length {}", len);
        assert_eq!(layer.confidence, Confidence::Error, "length {}", len);
        assert_eq!(layer.attrs.len(), expected[len], "length {}", len);
        assert!(layer.payloads.is_empty());
        assert_eq!(layer.worker.is_some(), len >= 4);
        for a in &layer.attrs {
            assert!(a.range.start <= a.range.end && a.range.end <= len, "{} at length {}", a.id, len);
        }
    }
}

#[test]
fn attribute_ranges_stay_in_segment() {
    let mut seg = header(0x50, 0x02);
    seg.extend(vec![0x02, 0x04, 0x05, 0xB4, 0x03, 0x03, 0x07, 0x04, 0x02, 0x01, 0x00]);
    seg.extend(vec![0; 20]);
    let (layer, _) = dissect(&seg, Range::new(100, 100 + seg.len()), &[], &[]);
    for a in &layer.attrs {
        assert!(a.range.start <= a.range.end && a.range.end <= seg.len(), "{}", a.id);
    }
    let p = &layer.payloads[0];
    assert!(p.range.start >= 100 && p.range.end <= 100 + seg.len());
}

#[test]
fn sack_permitted_at_end_of_data() {
    let mut seg = header(0x00, 0x02);
    seg.push(0x04);
    let (layer, res) = dissect(&seg, Range::new(0, seg.len()), &[], &[]);
    assert!(res.is_err());
    assert_eq!(find(&layer, "tcp.options.selectiveAckPermitted").unwrap().range, Range::new(20, 21));
}

fn ip_layer(seg: Vec<u8>, src: Vec<u8>, dst: Vec<u8>) -> Layer {
    let mut ip = Layer::new("ipv4".to_string(), Range::new(0, 20 + seg.len()));
    ip.add_attr(Attr::with_value("ipv4.src".to_string(), Range::new(12, 16), Variant::Bytes(src)));
    ip.add_attr(Attr::with_value("ipv4.dst".to_string(), Range::new(16, 20), Variant::Bytes(dst)));
    let mut p = Payload::new();
    let len = seg.len();
    p.add_slice(seg);
    p.set_range(Range::new(20, 20 + len));
    ip.add_payload(p);
    ip
}

#[test]
fn analyze_attaches_tcp_layer() {
    let mut seg = header(0x50, 0x02);
    seg.push(0x00);
    seg.extend(vec![0; 20]);
    let mut ip = ip_layer(seg, vec![192, 168, 0, 1], vec![192, 168, 0, 2]);
    let res = TcpWorker::new().analyze(&mut ip);
    assert_eq!(res, Ok(()));
    assert_eq!(ip.children.len(), 1);
    let tcp = &ip.children[0];
    assert_eq!(tcp.id, "tcp");
    assert_eq!(tcp.confidence, Confidence::Exact);
    assert_eq!(tcp.range, Range::new(20, 61));
    assert_eq!(tcp.payloads[0].range, Range::new(41, 61));
    let sum: u32 = 443 + 50000 + (192 + 168 + 1) + (192 + 168 + 2);
    assert_eq!(tcp.worker, Some((sum % 16) as u8));
}

#[test]
fn analyze_follows_address_aliases() {
    let mut seg = header(0x50, 0x02);
    seg.push(0x00);
    seg.extend(vec![0; 20]);
    let mut ip = Layer::new("ipv6".to_string(), Range::new(0, 81));
    ip.add_attr(Attr::with_value("ipv6.source".to_string(), Range::new(8, 24), Variant::Bytes(vec![1; 16])));
    ip.add_attr(Attr::with_value("ipv6.dst".to_string(), Range::new(24, 40), Variant::Bytes(vec![2; 16])));
    ip.add_alias("ipv6.src".to_string(), "ipv6.source".to_string());
    let mut p = Payload::new();
    p.add_slice(seg);
    p.set_range(Range::new(40, 81));
    ip.add_payload(p);
    assert_eq!(TcpWorker::new().analyze(&mut ip), Ok(()));
    let sum: u32 = 443 + 50000 + 16 + 32;
    assert_eq!(ip.children[0].worker, Some((sum % 16) as u8));
}

#[test]
fn analyze_reports_truncation() {
    let mut ip = ip_layer(vec![0x01, 0xBB, 0xC3, 0x50, 0x00], vec![1], vec![2]);
    assert_eq!(TcpWorker::new().analyze(&mut ip), Err(DissectError::Truncated));
    assert_eq!(ip.children.len(), 1);
    assert_eq!(ip.children[0].confidence, Confidence::Error);
    assert_eq!(ip.children[0].attrs.len(), 2);
}

#[test]
fn analyze_without_payload() {
    let mut ip = Layer::new("ipv4".to_string(), Range::new(0, 20));
    assert_eq!(TcpWorker::new().analyze(&mut ip), Err(DissectError::NoPayload));
    assert!(ip.children.is_empty());
}

#[test]
fn analyze_without_slice() {
    let mut ip = Layer::new("ipv4".to_string(), Range::new(0, 20));
    ip.add_payload(Payload::new());
    assert_eq!(TcpWorker::new().analyze(&mut ip), Err(DissectError::NoSlice));
    assert!(ip.children.is_empty());
}

#[test]
fn analyze_without_address() {
    let mut ip = ip_layer(header(0x50, 0), vec![1], vec![2]);
    ip.attrs.pop();
    assert_eq!(TcpWorker::new().analyze(&mut ip), Err(DissectError::NoAddress));
    let mut ip = ip_layer(header(0x50, 0), vec![1], vec![2]);
    ip.attrs[0].value = Variant::Uint64(1);
    assert_eq!(TcpWorker::new().analyze(&mut ip), Err(DissectError::NoAddress));
    assert!(ip.children.is_empty());
}

#[test]
fn analyze_range_overflow() {
    let mut ip = ip_layer(header(0x50, 0), vec![1], vec![2]);
    ip.payloads[0].set_range(Range::new(usize::MAX - 5, usize::MAX));
    assert_eq!(TcpWorker::new().analyze(&mut ip), Err(DissectError::RangeOverflow));
    assert!(ip.children.is_empty());
}
