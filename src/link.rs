use vstd::prelude::*;
use crate::attr::{Attr, AttrView, Range, Value, Variant};
use crate::layer::{Confidence, Layer, Payload, PayloadView};

verus! {

/// The decimal digits of `n`, most significant first.
pub open spec fn decimal(n: nat) -> Seq<char>
    decreases n,
{
    if n < 10 {
        seq![(n + '0' as nat) as char]
    } else {
        decimal(n / 10).push(((n % 10) + '0' as nat) as char)
    }
}

/// Relies on `u32::to_string` (its `Display` impl): the decimal digits of the
/// number, without sign or padding.
#[verifier::external_body]
fn decimal_string(n: u32) -> (r: String)
    ensures
        r@ == decimal(n as nat),
{
    n.to_string()
}

/// The identifier of the root layer of a frame of link type `link`.
pub open spec fn link_id(link: u32) -> Seq<char> {
    "[link-"@ + decimal(link as nat) + "]"@
}

/// The attributes of a root link layer, in order.
pub open spec fn link_attrs(link: u32, length: u32, ts_bits: u64, ts_sec: u32, ts_usec: u32) -> Seq<AttrView> {
    let none = Range::spec_new(0, 0);
    seq![
        AttrView { id: "link.type"@, typ: Seq::empty(), value: Value::Int64(link as i64), range: none },
        AttrView { id: "link.length"@, typ: Seq::empty(), value: Value::Uint64(length as u64), range: none },
        AttrView { id: "link.timestamp"@, typ: "@datetime:unix"@, value: Value::Double(ts_bits), range: none },
        AttrView { id: "link.timestamp.sec"@, typ: Seq::empty(), value: Value::Uint64(ts_sec as u64), range: none },
        AttrView { id: "link.timestamp.usec"@, typ: Seq::empty(), value: Value::Uint64(ts_usec as u64), range: none },
    ]
}

/// The root layer of a captured frame: link type `link`, length on the wire
/// `length`, capture time `ts_sec` seconds and `ts_usec` microseconds, which
/// `ts_bits` gives as the bit pattern of a double in seconds.  The frame's
/// bytes are its single payload.
pub fn link_layer(link: u32, length: u32, ts_sec: u32, ts_usec: u32, ts_bits: u64, frame: Vec<u8>) -> (r: Layer)
    ensures
        r.id@ == link_id(link),
        r.confidence == Confidence::Exact,
        r.range == Range::spec_new(0, frame@.len() as int),
        r.attrs_view() == link_attrs(link, length, ts_bits, ts_sec, ts_usec),
        r.payloads_view() == seq![
            PayloadView { slices: seq![frame@], range: Range::spec_new(0, frame@.len() as int) },
        ],
        r.tags@.len() == 0,
        r.aliases@.len() == 0,
        r.children@.len() == 0,
        r.worker is None,
{
    let digits = decimal_string(link);
    let id = String::from_str("[link-").concat(digits.as_str()).concat("]");
    let range = Range::new(0, frame.len());
    let mut layer = Layer::new(id, range);
    let none = Range::empty();
    layer.add_attr(Attr::with_value(String::from_str("link.type"), none, Variant::Int64(link as i64)));
    layer.add_attr(Attr::with_value(String::from_str("link.length"), none, Variant::Uint64(length as u64)));
    layer.add_attr(
        Attr::with_type(
            String::from_str("link.timestamp"),
            String::from_str("@datetime:unix"),
            none,
            Variant::Double(ts_bits),
        ),
    );
    layer.add_attr(Attr::with_value(String::from_str("link.timestamp.sec"), none, Variant::Uint64(ts_sec as u64)));
    layer.add_attr(Attr::with_value(String::from_str("link.timestamp.usec"), none, Variant::Uint64(ts_usec as u64)));
    let mut payload = Payload::new();
    payload.add_slice(frame);
    payload.set_range(range);
    layer.add_payload(payload);
    layer.set_confidence(Confidence::Exact);
    proof {
        assert(layer.attrs_view() =~= link_attrs(link, length, ts_bits, ts_sec, ts_usec));
        assert(payload@.slices =~= seq![frame@]);
        assert(layer.payloads_view() =~= seq![payload@]);
    }
    layer
}

} // verus!
