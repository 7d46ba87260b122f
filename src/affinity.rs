use vstd::prelude::*;
use vstd::arithmetic::div_mod::lemma_add_mod_noop;

verus! {

/// The number of concurrent workers that layers are spread over.
pub const MAX_WORKER: u32 = 16;

/// The sum of the bytes of `s`, without wrapping.
pub open spec fn byte_sum(s: Seq<u8>) -> nat
    decreases s.len(),
{
    if s.len() == 0 {
        0
    } else {
        byte_sum(s.drop_last()) + s.last() as nat
    }
}

/// The worker of a flow: the two ports and every address byte added up as
/// unsigned 32-bit integers (wrapping), modulo the number of workers.
pub open spec fn affinity_of(src_port: u16, dst_port: u16, src_addr: Seq<u8>, dst_addr: Seq<u8>) -> int {
    ((src_port + dst_port + byte_sum(src_addr) + byte_sum(dst_addr)) % 0x1_0000_0000) % (
    MAX_WORKER as int)
}

/// The bytes of `s` added up as unsigned 32-bit integers, wrapping.
pub fn wrapping_byte_sum(s: &[u8]) -> (r: u32)
    ensures
        r as int == byte_sum(s@) % 0x1_0000_0000,
{
    let mut acc: u32 = 0;
    let mut i: usize = 0;
    while i < s.len()
        invariant
            i <= s@.len(),
            acc as int == byte_sum(s@.take(i as int)) % 0x1_0000_0000,
        decreases s@.len() - i,
    {
        proof {
            assert(s@.take(i + 1).drop_last() =~= s@.take(i as int));
            lemma_add_mod_noop(byte_sum(s@.take(i as int)) as int, s@[i as int] as int, 0x1_0000_0000);
        }
        acc = acc.wrapping_add(s[i] as u32);
        i = i + 1;
    }
    assert(s@.take(i as int) =~= s@);
    acc
}

/// The worker that must handle the descendants of a layer of the flow
/// between `src_addr:src_port` and `dst_addr:dst_port`.
pub fn worker_affinity(src_port: u16, dst_port: u16, src_addr: &[u8], dst_addr: &[u8]) -> (r: u8)
    ensures
        r as int == affinity_of(src_port, dst_port, src_addr@, dst_addr@),
{
    let a = wrapping_byte_sum(src_addr);
    let b = wrapping_byte_sum(dst_addr);
    let sum = (src_port as u32).wrapping_add(dst_port as u32).wrapping_add(a).wrapping_add(b);
    proof {
        let m: int = 0x1_0000_0000;
        let sa = byte_sum(src_addr@) as int;
        let sb = byte_sum(dst_addr@) as int;
        lemma_add_mod_noop(src_port + dst_port, sa, m);
        lemma_add_mod_noop(src_port + dst_port + sa, sb, m);
        assert((src_port + dst_port) % m == src_port + dst_port);
        assert(((src_port + dst_port) % m + a) % m == (src_port + dst_port + sa) % m) by {
            lemma_add_mod_noop(src_port + dst_port, sa, m);
            vstd::arithmetic::div_mod::lemma_mod_twice(sa, m);
        }
        assert(((src_port + dst_port + sa) % m + b) % m == (src_port + dst_port + sa + sb) % m) by {
            lemma_add_mod_noop(src_port + dst_port + sa, sb, m);
            vstd::arithmetic::div_mod::lemma_mod_twice(sb, m);
        }
    }
    (sum % MAX_WORKER) as u8
}

/// Swapping the two endpoints of a flow keeps its worker: both directions of
/// a connection are handled by the same worker.
pub proof fn lemma_affinity_symmetric(src_port: u16, dst_port: u16, src_addr: Seq<u8>, dst_addr: Seq<u8>)
    ensures
        affinity_of(src_port, dst_port, src_addr, dst_addr) == affinity_of(
            dst_port,
            src_port,
            dst_addr,
            src_addr,
        ),
{
}

} // verus!
