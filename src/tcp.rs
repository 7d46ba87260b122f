use vstd::prelude::*;
use crate::affinity::{affinity_of, worker_affinity};
use crate::attr::{Attr, AttrView, Range, Value, Variant};
use crate::layer::{Confidence, Layer, Payload, PayloadView};
use crate::reader::{ByteReader, Truncated, be16, be32};

verus! {

/// The length of the fixed part of a TCP header.
pub const FIXED_HEADER_LEN: usize = 20;

pub open spec fn plain_attr(id: Seq<char>, value: Value, start: int, end: int) -> AttrView {
    AttrView { id, typ: Seq::empty(), value, range: Range::spec_new(start, end) }
}

/// The data offset: the header length in 32-bit words, the high nibble of byte 12.
pub open spec fn data_offset_of(d: Seq<u8>) -> u8 {
    d[12] >> 4u8
}

/// The nine flag bits: byte 13, with the low bit of byte 12 as bit 8 (NS).
pub open spec fn flags_of(d: Seq<u8>) -> u16 {
    (d[13] as u16) | (((d[12] & 1u8) as u16) << 8u16)
}

pub open spec fn flag_attr(id: Seq<char>, d: Seq<u8>, mask: u16, start: int) -> AttrView {
    plain_attr(id, Value::Bool(flags_of(d) & mask != 0), start, start + 1)
}

/// The attributes of the fixed header, in the order they are added.
pub open spec fn header_attrs(d: Seq<u8>) -> Seq<AttrView> {
    seq![
        plain_attr("tcp.src"@, Value::Uint64(be16(d, 0) as u64), 0, 2),
        plain_attr("tcp.dst"@, Value::Uint64(be16(d, 2) as u64), 2, 4),
        plain_attr("tcp.seq"@, Value::Uint64(be32(d, 4) as u64), 4, 8),
        plain_attr("tcp.ack"@, Value::Uint64(be32(d, 8) as u64), 8, 12),
        plain_attr("tcp.offset"@, Value::Uint64(data_offset_of(d) as u64), 12, 13),
        AttrView {
            id: "tcp.flags"@,
            typ: "@flags"@,
            value: Value::Uint64(flags_of(d) as u64),
            range: Range::spec_new(12, 14),
        },
        flag_attr("tcp.flags.ns"@, d, 0x100, 12),
        flag_attr("tcp.flags.cwr"@, d, 0x80, 13),
        flag_attr("tcp.flags.ece"@, d, 0x40, 13),
        flag_attr("tcp.flags.urg"@, d, 0x20, 13),
        flag_attr("tcp.flags.ack"@, d, 0x10, 13),
        flag_attr("tcp.flags.psh"@, d, 0x8, 13),
        flag_attr("tcp.flags.rst"@, d, 0x4, 13),
        flag_attr("tcp.flags.syn"@, d, 0x2, 13),
        flag_attr("tcp.flags.fin"@, d, 0x1, 13),
        plain_attr("tcp.window"@, Value::Uint64(be16(d, 14) as u64), 14, 16),
        plain_attr("tcp.checksum"@, Value::Uint64(be16(d, 16) as u64), 16, 18),
        plain_attr("tcp.urgent"@, Value::Uint64(be16(d, 18) as u64), 18, 20),
        AttrView { id: "tcp.options"@, typ: "@nested"@, value: Value::Nil, range: Range::spec_new(0, 0) },
    ]
}

/// How many header attributes a segment of `len` bytes yields before the
/// first read that cannot complete.
pub open spec fn header_count(len: int) -> int {
    if len < 4 {
        0
    } else if len < 8 {
        2
    } else if len < 12 {
        3
    } else if len < 13 {
        4
    } else if len < 14 {
        5
    } else if len < 16 {
        15
    } else if len < 18 {
        16
    } else if len < 20 {
        17
    } else {
        19
    }
}

/// The options read from `pos` on: their attributes, and the position just
/// after the kind byte that ended the list, or `None` where a read ran out of
/// bytes first.  Kinds 1 (NOP), 2 (MSS), 3 (window scale) and 4
/// (SACK-permitted) are read; any other kind ends the list.
pub open spec fn scan_options(d: Seq<u8>, pos: int) -> (Seq<AttrView>, Option<int>)
    decreases d.len() - pos,
{
    if pos < 0 || pos >= d.len() {
        (Seq::empty(), None)
    } else if d[pos] == 1 {
        let a = AttrView {
            id: "tcp.options.nop"@,
            typ: "@novalue"@,
            value: Value::Bool(true),
            range: Range::spec_new(pos, pos + 1),
        };
        let rest = scan_options(d, pos + 1);
        (seq![a] + rest.0, rest.1)
    } else if d[pos] == 2 {
        if pos + 4 <= d.len() {
            let a = plain_attr("tcp.options.mss"@, Value::Uint64(be16(d, pos + 2) as u64), pos + 2, pos + 4);
            let rest = scan_options(d, pos + 4);
            (seq![a] + rest.0, rest.1)
        } else {
            (Seq::empty(), None)
        }
    } else if d[pos] == 3 {
        if pos + 3 <= d.len() {
            let a = plain_attr("tcp.options.scale"@, Value::Uint64(d[pos + 2] as u64), pos + 2, pos + 3);
            let rest = scan_options(d, pos + 3);
            (seq![a] + rest.0, rest.1)
        } else {
            (Seq::empty(), None)
        }
    } else if d[pos] == 4 {
        let a = plain_attr("tcp.options.selectiveAckPermitted"@, Value::Bool(true), pos, pos + 1);
        let next = if pos + 2 <= d.len() {
            pos + 2
        } else {
            d.len() as int
        };
        let rest = scan_options(d, next);
        (seq![a] + rest.0, rest.1)
    } else {
        (Seq::empty(), Some(pos + 1))
    }
}

/// What dissecting a segment yields, seen as mathematical values.
pub struct TcpOutcome {
    pub confidence: Confidence,
    pub attrs: Seq<AttrView>,
    pub worker: Option<u8>,
    pub payloads: Seq<PayloadView>,
}

/// The outcome of dissecting the segment `d`, whose first byte stands at
/// `base` in the frame, between the addresses `src_addr` and `dst_addr`.
/// Attribute ranges count from the first byte of the segment; the payload's
/// range is frame-relative.  The payload is the `4 * data offset` bytes that
/// follow the byte that ended the options list.
pub open spec fn tcp_outcome(d: Seq<u8>, base: int, src_addr: Seq<u8>, dst_addr: Seq<u8>) -> TcpOutcome {
    let worker = if d.len() >= 4 {
        Some(affinity_of(be16(d, 0) as u16, be16(d, 2) as u16, src_addr, dst_addr) as u8)
    } else {
        None
    };
    if d.len() < 20 {
        TcpOutcome {
            confidence: Confidence::Error,
            attrs: header_attrs(d).take(header_count(d.len() as int)),
            worker,
            payloads: Seq::empty(),
        }
    } else {
        let opts = scan_options(d, 20);
        let attrs = header_attrs(d) + opts.0;
        let n = data_offset_of(d) as int * 4;
        match opts.1 {
            Some(p) => if p + n <= d.len() {
                TcpOutcome {
                    confidence: Confidence::Exact,
                    attrs,
                    worker,
                    payloads: seq![
                        PayloadView {
                            slices: seq![d.subrange(p, p + n)],
                            range: Range::spec_new(base + p, base + p + n),
                        },
                    ],
                }
            } else {
                TcpOutcome { confidence: Confidence::Error, attrs, worker, payloads: Seq::empty() }
            },
            None => TcpOutcome { confidence: Confidence::Error, attrs, worker, payloads: Seq::empty() },
        }
    }
}

/// `layer` is the `tcp` layer that dissecting `d` yields.
pub open spec fn is_tcp_layer(layer: Layer, d: Seq<u8>, range: Range, src_addr: Seq<u8>, dst_addr: Seq<u8>) -> bool {
    let o = tcp_outcome(d, range.start as int, src_addr, dst_addr);
    &&& layer.id@ == "tcp"@
    &&& layer.tags_view() == seq!["tcp"@]
    &&& layer.range == range
    &&& layer.confidence == o.confidence
    &&& layer.attrs_view() == o.attrs
    &&& layer.worker == o.worker
    &&& layer.payloads_view() == o.payloads
    &&& layer.aliases@.len() == 0
    &&& layer.children@.len() == 0
}

/// An attribute without a rendering hint.
fn plain(id: &str, value: Variant, range: Range) -> (r: Attr)
    ensures
        r@ == plain_attr(id@, value@, range.start as int, range.end as int),
{
    Attr::with_value(String::from_str(id), range, value)
}

/// An attribute with a rendering hint.
fn typed(id: &str, typ: &str, value: Variant, range: Range) -> (r: Attr)
    ensures
        r@ == (AttrView { id: id@, typ: typ@, value: value@, range }),
{
    Attr::with_type(String::from_str(id), String::from_str(typ), range, value)
}

/// Reads options from the cursor into `child` until a kind byte other than
/// NOP, MSS, window scale or SACK-permitted ends the list.
fn read_options(child: &mut Layer, rdr: &mut ByteReader) -> (r: Result<(), Truncated>)
    requires
        old(rdr).wf(),
    ensures
        final(rdr).wf(),
        final(rdr).data() == old(rdr).data(),
        final(child).attrs_view() == old(child).attrs_view() + scan_options(old(rdr).data(), old(rdr).pos()).0,
        r is Ok <==> scan_options(old(rdr).data(), old(rdr).pos()).1 is Some,
        r is Ok ==> scan_options(old(rdr).data(), old(rdr).pos()).1 == Some(final(rdr).pos()),
        *final(child) == (Layer { attrs: final(child).attrs, ..*old(child) }),
{
    let ghost d = rdr.data();
    let ghost start = rdr.pos();
    loop
        invariant
            rdr.wf(),
            rdr.data() == d,
            d == old(rdr).data(),
            start == old(rdr).pos(),
            child.attrs_view() + scan_options(d, rdr.pos()).0 == old(child).attrs_view() + scan_options(d, start).0,
            scan_options(d, rdr.pos()).1 == scan_options(d, start).1,
            *child == (Layer { attrs: child.attrs, ..*old(child) }),
        decreases d.len() - rdr.pos(),
    {
        let ghost pos = rdr.pos();
        let ghost before = child.attrs_view();
        let (kind, range) = match rdr.read_u8() {
            Ok(v) => v,
            Err(e) => {
                assert(child.attrs_view() =~= child.attrs_view() + scan_options(d, pos).0);
                return Err(e);
            },
        };
        if kind == 1 {
            child.add_attr(typed("tcp.options.nop", "@novalue", Variant::Bool(true), range));
        } else if kind == 2 {
            rdr.consume(1);
            match rdr.read_u16() {
                Ok((mss, r)) => child.add_attr(plain("tcp.options.mss", Variant::Uint64(mss as u64), r)),
                Err(e) => {
                    assert(child.attrs_view() =~= child.attrs_view() + scan_options(d, pos).0);
                    return Err(e);
                },
            }
        } else if kind == 3 {
            rdr.consume(1);
            match rdr.read_u8() {
                Ok((scale, r)) => child.add_attr(plain("tcp.options.scale", Variant::Uint64(scale as u64), r)),
                Err(e) => {
                    assert(child.attrs_view() =~= child.attrs_view() + scan_options(d, pos).0);
                    return Err(e);
                },
            }
        } else if kind == 4 {
            rdr.consume(1);
            child.add_attr(plain("tcp.options.selectiveAckPermitted", Variant::Bool(true), range));
        } else {
            assert(child.attrs_view() =~= child.attrs_view() + scan_options(d, pos).0);
            return Ok(());
        }
        proof {
            let rest = scan_options(d, rdr.pos());
            assert(scan_options(d, pos).0 =~= seq![child.attrs_view().last()] + rest.0);
            assert(child.attrs_view() + rest.0 =~= before + scan_options(d, pos).0);
        }
    }
}

/// The worker that the ports of `d` and the two addresses give.
pub open spec fn worker_of(d: Seq<u8>, src_addr: Seq<u8>, dst_addr: Seq<u8>) -> Option<u8> {
    if d.len() >= 4 {
        Some(affinity_of(be16(d, 0) as u16, be16(d, 2) as u16, src_addr, dst_addr) as u8)
    } else {
        None
    }
}

/// Reads the ports, the sequence and acknowledgement numbers and the data
/// offset, and sets the worker; returns the offset byte and the flag byte.
fn read_addressing(child: &mut Layer, rdr: &mut ByteReader, src_addr: &[u8], dst_addr: &[u8]) -> (r: Result<(u8, u8), Truncated>)
    requires
        old(rdr).wf(),
        old(rdr).pos() == 0,
        old(child).attrs@.len() == 0,
        old(child).worker is None,
    ensures
        final(rdr).wf(),
        final(rdr).data() == old(rdr).data(),
        final(child).worker == worker_of(old(rdr).data(), src_addr@, dst_addr@),
        *final(child) == (Layer { attrs: final(child).attrs, worker: final(child).worker, ..*old(child) }),
        match r {
            Ok((ofs, flag)) => {
                &&& old(rdr).data().len() >= 14
                &&& final(rdr).pos() == 14
                &&& ofs == old(rdr).data()[12]
                &&& flag == old(rdr).data()[13]
                &&& final(child).attrs_view() == header_attrs(old(rdr).data()).take(5)
            },
            Err(_) => {
                &&& old(rdr).data().len() < 14
                &&& final(child).attrs_view() == header_attrs(old(rdr).data()).take(
                    header_count(old(rdr).data().len() as int),
                )
            },
        },
{
    let ghost d = rdr.data();
    let ghost h = header_attrs(d);
    assert(child.attrs_view() =~= Seq::<AttrView>::empty());
    let (src, src_range) = match rdr.read_u16() {
        Ok(v) => v,
        Err(e) => {
            assert(child.attrs_view() =~= h.take(0));
            return Err(e);
        },
    };
    let (dst, dst_range) = match rdr.read_u16() {
        Ok(v) => v,
        Err(e) => {
            assert(child.attrs_view() =~= h.take(0));
            return Err(e);
        },
    };
    child.add_attr(plain("tcp.src", Variant::Uint64(src as u64), src_range));
    child.add_attr(plain("tcp.dst", Variant::Uint64(dst as u64), dst_range));
    child.set_worker(worker_affinity(src, dst, src_addr, dst_addr));
    match rdr.read_u32() {
        Ok((seq, r)) => child.add_attr(plain("tcp.seq", Variant::Uint64(seq as u64), r)),
        Err(e) => {
            assert(child.attrs_view() =~= h.take(2));
            return Err(e);
        },
    }
    match rdr.read_u32() {
        Ok((ack, r)) => child.add_attr(plain("tcp.ack", Variant::Uint64(ack as u64), r)),
        Err(e) => {
            assert(child.attrs_view() =~= h.take(3));
            return Err(e);
        },
    }
    let (ofs_and_flag, ofs_range) = match rdr.read_u8() {
        Ok(v) => v,
        Err(e) => {
            assert(child.attrs_view() =~= h.take(4));
            return Err(e);
        },
    };
    let data_offset: u8 = ofs_and_flag >> 4u8;
    child.add_attr(plain("tcp.offset", Variant::Uint64(data_offset as u64), ofs_range));
    let (flag, _) = match rdr.read_u8() {
        Ok(v) => v,
        Err(e) => {
            assert(child.attrs_view() =~= h.take(5));
            return Err(e);
        },
    };
    assert(child.attrs_view() =~= h.take(5));
    Ok((ofs_and_flag, flag))
}

/// Adds the flag word and one boolean per flag bit.
fn add_flags(child: &mut Layer, ofs_and_flag: u8, flag: u8, Ghost(d): Ghost<Seq<u8>>)
    requires
        d.len() >= 14,
        ofs_and_flag == d[12],
        flag == d[13],
        old(child).attrs_view() == header_attrs(d).take(5),
    ensures
        final(child).attrs_view() == header_attrs(d).take(15),
        *final(child) == (Layer { attrs: final(child).attrs, ..*old(child) }),
{
    let ghost h = header_attrs(d);
    let flags: u16 = (flag as u16) | (((ofs_and_flag & 1u8) as u16) << 8u16);
    child.add_attr(typed("tcp.flags", "@flags", Variant::Uint64(flags as u64), Range::new(12, 14)));
    child.add_attr(plain("tcp.flags.ns", Variant::Bool(flags & 0x100 != 0), Range::new(12, 13)));
    child.add_attr(plain("tcp.flags.cwr", Variant::Bool(flags & 0x80 != 0), Range::new(13, 14)));
    child.add_attr(plain("tcp.flags.ece", Variant::Bool(flags & 0x40 != 0), Range::new(13, 14)));
    child.add_attr(plain("tcp.flags.urg", Variant::Bool(flags & 0x20 != 0), Range::new(13, 14)));
    child.add_attr(plain("tcp.flags.ack", Variant::Bool(flags & 0x10 != 0), Range::new(13, 14)));
    child.add_attr(plain("tcp.flags.psh", Variant::Bool(flags & 0x8 != 0), Range::new(13, 14)));
    child.add_attr(plain("tcp.flags.rst", Variant::Bool(flags & 0x4 != 0), Range::new(13, 14)));
    child.add_attr(plain("tcp.flags.syn", Variant::Bool(flags & 0x2 != 0), Range::new(13, 14)));
    child.add_attr(plain("tcp.flags.fin", Variant::Bool(flags & 0x1 != 0), Range::new(13, 14)));
    assert(child.attrs_view() =~= h.take(15));
}

/// Reads the window, checksum and urgent pointer and adds the options marker.
fn read_tail(child: &mut Layer, rdr: &mut ByteReader) -> (r: Result<(), Truncated>)
    requires
        old(rdr).wf(),
        old(rdr).pos() == 14,
        old(child).attrs_view() == header_attrs(old(rdr).data()).take(15),
    ensures
        final(rdr).wf(),
        final(rdr).data() == old(rdr).data(),
        *final(child) == (Layer { attrs: final(child).attrs, ..*old(child) }),
        r is Ok ==> old(rdr).data().len() >= 20 && final(rdr).pos() == 20 && final(child).attrs_view()
            == header_attrs(old(rdr).data()),
        r is Err ==> old(rdr).data().len() < 20 && final(child).attrs_view() == header_attrs(
            old(rdr).data(),
        ).take(header_count(old(rdr).data().len() as int)),
{
    let ghost d = rdr.data();
    let ghost h = header_attrs(d);
    match rdr.read_u16() {
        Ok((window, r)) => child.add_attr(plain("tcp.window", Variant::Uint64(window as u64), r)),
        Err(e) => {
            return Err(e);
        },
    }
    match rdr.read_u16() {
        Ok((checksum, r)) => child.add_attr(plain("tcp.checksum", Variant::Uint64(checksum as u64), r)),
        Err(e) => {
            assert(child.attrs_view() =~= h.take(16));
            return Err(e);
        },
    }
    match rdr.read_u16() {
        Ok((urgent, r)) => child.add_attr(plain("tcp.urgent", Variant::Uint64(urgent as u64), r)),
        Err(e) => {
            assert(child.attrs_view() =~= h.take(17));
            return Err(e);
        },
    }
    child.add_attr(typed("tcp.options", "@nested", Variant::Nil, Range::empty()));
    assert(child.attrs_view() =~= h);
    Ok(())
}

/// Reads the header, the options and the payload of `seg` into `child`,
/// stopping at the first read that runs out of bytes.
fn read_segment(child: &mut Layer, seg: &[u8], base: usize, src_addr: &[u8], dst_addr: &[u8]) -> (r: Result<(), Truncated>)
    requires
        old(child).attrs@.len() == 0,
        old(child).payloads@.len() == 0,
        old(child).worker is None,
        base + seg@.len() <= usize::MAX,
    ensures
        ({
            let o = tcp_outcome(seg@, base as int, src_addr@, dst_addr@);
            &&& final(child).attrs_view() == o.attrs
            &&& final(child).worker == o.worker
            &&& final(child).payloads_view() == o.payloads
            &&& (r is Ok <==> o.confidence == Confidence::Exact)
        }),
        *final(child) == (Layer {
            attrs: final(child).attrs,
            worker: final(child).worker,
            payloads: final(child).payloads,
            ..*old(child)
        }),
{
    let ghost d = seg@;
    let mut rdr = ByteReader::new(seg);
    assert(child.payloads_view() =~= Seq::<PayloadView>::empty());
    let (ofs_and_flag, flag) = match read_addressing(child, &mut rdr, src_addr, dst_addr) {
        Ok(v) => v,
        Err(e) => {
            return Err(e);
        },
    };
    add_flags(child, ofs_and_flag, flag, Ghost(d));
    let tail = read_tail(child, &mut rdr);
    if tail.is_err() {
        return tail;
    }
    let opts = read_options(child, &mut rdr);
    if opts.is_err() {
        return opts;
    }
    let n: usize = (ofs_and_flag >> 4u8) as usize * 4;
    let (data, range) = match rdr.read_slice(n) {
        Ok(v) => v,
        Err(e) => {
            return Err(e);
        },
    };
    let mut payload = Payload::new();
    payload.add_slice(data);
    payload.set_range(Range::new(range.start + base, range.end + base));
    child.add_payload(payload);
    assert(payload@.slices =~= seq![d.subrange(range.start as int, range.start + n)]);
    assert(child.payloads_view() =~= tcp_outcome(d, base as int, src_addr@, dst_addr@).payloads);
    Ok(())
}

/// Dissects the TCP segment `seg` whose payload occupies `range` of the
/// frame, between the addresses `src_addr` and `dst_addr`.  It returns the
/// `tcp` layer, `Exact` where every read completed and `Error` with the
/// attributes read so far where one ran out of bytes, and whether every read
/// completed.
pub fn dissect(seg: &[u8], range: Range, src_addr: &[u8], dst_addr: &[u8]) -> (r: (Layer, Result<(), Truncated>))
    requires
        range.start + seg@.len() <= usize::MAX,
    ensures
        is_tcp_layer(r.0, seg@, range, src_addr@, dst_addr@),
        r.1 is Ok <==> r.0.confidence == Confidence::Exact,
{
    let mut child = Layer::new(String::from_str("tcp"), range);
    child.add_tag(String::from_str("tcp"));
    let res = read_segment(&mut child, seg, range.start, src_addr, dst_addr);
    if res.is_ok() {
        child.set_confidence(Confidence::Exact);
    }
    proof {
        assert(child.tags_view() =~= seq!["tcp"@]);
    }
    (child, res)
}

/// Why a layer could not be dissected as TCP.
#[derive(Clone, Copy, Debug, PartialEq, Eq, Structural)]
pub enum DissectError {
    /// The parent layer has no payload.
    NoPayload,
    /// The parent's first payload has no slice.
    NoSlice,
    /// The parent has no source or destination address as bytes.
    NoAddress,
    /// The payload's range would run past the largest offset.
    RangeOverflow,
    /// A read ran past the end of the segment.
    Truncated,
}

/// The address bytes of attribute `<layer id><suffix>` of `layer`, if it
/// holds bytes.
pub open spec fn addr_of(layer: Layer, suffix: Seq<char>) -> Option<Seq<u8>> {
    match layer.lookup(layer.id@ + suffix) {
        Some(a) => match a.value {
            Value::Bytes(b) => Some(b),
            _ => None,
        },
        None => None,
    }
}

/// The address bytes of attribute `id` of `layer`.
fn address<'a>(layer: &'a Layer, id: String) -> (r: Option<&'a [u8]>)
    ensures
        match layer.lookup(id@) {
            Some(a) => match a.value {
                Value::Bytes(b) => r matches Some(s) && s@ == b,
                _ => r is None,
            },
            None => r is None,
        },
{
    match layer.attr(&id) {
        Some(a) => match &a.value {
            Variant::Bytes(b) => Some(b.as_slice()),
            _ => None,
        },
        None => None,
    }
}

/// The dissector of layers tagged `tcp`.
pub struct TcpWorker;

impl TcpWorker {
    pub fn new() -> (r: TcpWorker) {
        TcpWorker
    }

    /// Dissects the first slice of the first payload of `layer` as a TCP
    /// segment, between the addresses `<id>.src` and `<id>.dst` of `layer`,
    /// and attaches the resulting `tcp` layer as its last child.  Where the
    /// input is missing, `layer` is left as it was.
    pub fn analyze(&self, layer: &mut Layer) -> (r: Result<(), DissectError>)
        ensures
            old(layer).payloads@.len() == 0 ==> r == Err::<(), DissectError>(DissectError::NoPayload)
                && *final(layer) == *old(layer),
            old(layer).payloads@.len() > 0 && old(layer).payloads@[0].slices@.len() == 0 ==> r == Err::<
                (),
                DissectError,
            >(DissectError::NoSlice) && *final(layer) == *old(layer),
            old(layer).payloads@.len() > 0 && old(layer).payloads@[0].slices@.len() > 0 && (addr_of(
                *old(layer),
                ".src"@,
            ) is None || addr_of(*old(layer), ".dst"@) is None) ==> r == Err::<(), DissectError>(
                DissectError::NoAddress,
            ) && *final(layer) == *old(layer),
            old(layer).payloads@.len() > 0 && old(layer).payloads@[0].slices@.len() > 0 && addr_of(
                *old(layer),
                ".src"@,
            ) is Some && addr_of(*old(layer), ".dst"@) is Some ==> ({
                let seg = old(layer).payloads@[0].slices@[0]@;
                let range = old(layer).payloads@[0].range;
                if range.start + seg.len() > usize::MAX {
                    r == Err::<(), DissectError>(DissectError::RangeOverflow) && *final(layer)
                        == *old(layer)
                } else {
                    let child = final(layer).children@.last();
                    &&& final(layer).children@ == old(layer).children@.push(child)
                    &&& *final(layer) == (Layer { children: final(layer).children, ..*old(layer) })
                    &&& is_tcp_layer(
                        child,
                        seg,
                        range,
                        addr_of(*old(layer), ".src"@)->0,
                        addr_of(*old(layer), ".dst"@)->0,
                    )
                    &&& r is Ok <==> child.confidence == Confidence::Exact
                    &&& r is Err ==> r == Err::<(), DissectError>(DissectError::Truncated)
                }
            }),
    {
        if layer.payloads.len() == 0 {
            return Err(DissectError::NoPayload);
        }
        if layer.payloads[0].slices.len() == 0 {
            return Err(DissectError::NoSlice);
        }
        let child;
        let res;
        {
            let src_addr = match address(layer, layer.id.clone().concat(".src")) {
                Some(a) => a,
                None => {
                    return Err(DissectError::NoAddress);
                },
            };
            let dst_addr = match address(layer, layer.id.clone().concat(".dst")) {
                Some(a) => a,
                None => {
                    return Err(DissectError::NoAddress);
                },
            };
            let payload = &layer.payloads[0];
            let seg = payload.slices[0].as_slice();
            if seg.len() > usize::MAX - payload.range.start {
                return Err(DissectError::RangeOverflow);
            }
            let (c, rs) = dissect(seg, payload.range, src_addr, dst_addr);
            child = c;
            res = rs;
        }
        layer.add_layer(child);
        match res {
            Ok(()) => Ok(()),
            Err(_) => Err(DissectError::Truncated),
        }
    }
}

/// Every range of an option attribute read from `pos` on lies within `d`.
pub proof fn lemma_option_ranges_within(d: Seq<u8>, pos: int)
    requires
        d.len() <= usize::MAX,
        0 <= pos,
    ensures
        forall|i: int|
            0 <= i < scan_options(d, pos).0.len() ==> (#[trigger] scan_options(d, pos).0[i]).range.within(
                d.len() as int,
            ),
        scan_options(d, pos).1 matches Some(p) ==> pos < p <= d.len(),
    decreases d.len() - pos,
{
    if pos < d.len() {
        let k = d[pos];
        if k == 1 {
            lemma_option_ranges_within(d, pos + 1);
        } else if k == 2 && pos + 4 <= d.len() {
            lemma_option_ranges_within(d, pos + 4);
        } else if k == 3 && pos + 3 <= d.len() {
            lemma_option_ranges_within(d, pos + 3);
        } else if k == 4 {
            lemma_option_ranges_within(d, if pos + 2 <= d.len() { pos + 2 } else { d.len() as int });
        }
        let r = scan_options(d, pos);
        assert forall|i: int| 0 <= i < r.0.len() implies (#[trigger] r.0[i]).range.within(d.len() as int) by {
            if i > 0 {
                let next = if k == 1 {
                    pos + 1
                } else if k == 2 {
                    pos + 4
                } else if k == 3 {
                    pos + 3
                } else if pos + 2 <= d.len() {
                    pos + 2
                } else {
                    d.len() as int
                };
                assert(r.0[i] == scan_options(d, next).0[i - 1]);
            }
        }
    }
}

/// Every attribute that dissecting a segment yields has a range within the
/// segment, and the payload's range lies within the segment's place in the
/// frame.
pub proof fn lemma_ranges_within_segment(d: Seq<u8>, base: int, src_addr: Seq<u8>, dst_addr: Seq<u8>)
    requires
        d.len() <= usize::MAX,
        0 <= base,
        base + d.len() <= usize::MAX,
    ensures
        ({
            let o = tcp_outcome(d, base, src_addr, dst_addr);
            &&& forall|i: int| 0 <= i < o.attrs.len() ==> (#[trigger] o.attrs[i]).range.within(d.len() as int)
            &&& forall|i: int|
                0 <= i < o.payloads.len() ==> base <= (#[trigger] o.payloads[i]).range.start
                    && o.payloads[i].range.within(base + d.len())
        }),
{
    let o = tcp_outcome(d, base, src_addr, dst_addr);
    let h = header_attrs(d);
    if d.len() < 20 {
        assert forall|i: int| 0 <= i < o.attrs.len() implies (#[trigger] o.attrs[i]).range.within(d.len() as int) by {
            assert(o.attrs[i] == h[i]);
        }
    } else {
        lemma_option_ranges_within(d, 20);
        let opts = scan_options(d, 20);
        assert forall|i: int| 0 <= i < o.attrs.len() implies (#[trigger] o.attrs[i]).range.within(d.len() as int) by {
            if i >= 19 {
                assert(o.attrs[i] == opts.0[i - 19]);
            }
        }
    }
}

/// A segment shorter than the fixed header is never dissected exactly: it
/// yields no payload and only the header attributes read before the first
/// read that ran out of bytes.
pub proof fn lemma_short_segment_error(d: Seq<u8>, base: int, src_addr: Seq<u8>, dst_addr: Seq<u8>)
    requires
        d.len() < FIXED_HEADER_LEN,
    ensures
        ({
            let o = tcp_outcome(d, base, src_addr, dst_addr);
            &&& o.confidence == Confidence::Error
            &&& o.payloads.len() == 0
            &&& o.attrs == header_attrs(d).take(header_count(d.len() as int))
            &&& o.attrs.len() < 19
            &&& forall|i: int| 0 <= i < o.attrs.len() ==> (#[trigger] o.attrs[i]).range.within(d.len() as int)
        }),
{
    lemma_ranges_within_segment(d, 0, src_addr, dst_addr);
}

/// A segment whose options list is ended by a kind byte and is followed by
/// exactly `4 * data offset` further bytes is dissected exactly, and its
/// payload holds the bytes left after the fixed header and the option bytes
/// read (the ending kind byte included).
pub proof fn lemma_complete_segment_exact(d: Seq<u8>, base: int, src_addr: Seq<u8>, dst_addr: Seq<u8>)
    requires
        FIXED_HEADER_LEN <= d.len() <= usize::MAX,
        scan_options(d, 20).1 is Some,
        scan_options(d, 20).1->0 + 4 * data_offset_of(d) == d.len(),
    ensures
        ({
            let o = tcp_outcome(d, base, src_addr, dst_addr);
            let consumed = scan_options(d, 20).1->0 - 20;
            &&& o.confidence == Confidence::Exact
            &&& o.payloads.len() == 1
            &&& o.payloads[0].slices.len() == 1
            &&& o.payloads[0].slices[0].len() == d.len() - (20 + consumed)
            &&& o.payloads[0].slices[0] == d.subrange(20 + consumed, d.len() as int)
        }),
{
    lemma_option_ranges_within(d, 20);
}

/// A first options byte outside NOP, MSS, window scale and SACK-permitted
/// (such as End of Options, kind 0) ends the list at once: the segment yields
/// the header attributes and no option attribute.
pub proof fn lemma_end_of_options_first(d: Seq<u8>, base: int, src_addr: Seq<u8>, dst_addr: Seq<u8>)
    requires
        d.len() > FIXED_HEADER_LEN,
        !(1 <= d[20] <= 4),
    ensures
        scan_options(d, 20) == (Seq::<AttrView>::empty(), Some(21int)),
        tcp_outcome(d, base, src_addr, dst_addr).attrs == header_attrs(d),
{
    assert(header_attrs(d) + Seq::<AttrView>::empty() =~= header_attrs(d));
}

} // verus!
