use vstd::prelude::*;
use crate::attr::Range;

verus! {

/// A read ran past the end of the available bytes.
#[derive(Clone, Copy, Debug, PartialEq, Eq, Structural)]
pub struct Truncated;

/// The big-endian 16-bit integer at `i` of `s`.
pub open spec fn be16(s: Seq<u8>, i: int) -> int {
    s[i] as int * 256 + s[i + 1] as int
}

/// The big-endian 32-bit integer at `i` of `s`.
pub open spec fn be32(s: Seq<u8>, i: int) -> int {
    be16(s, i) * 65536 + be16(s, i + 2)
}

/// Relies on byteorder's `BigEndian::read_u16`: the first two bytes, most
/// significant first; it panics on fewer than two.
#[verifier::external_body]
fn read_be_u16(b: &[u8]) -> (r: u16)
    requires
        b@.len() >= 2,
    ensures
        r as int == be16(b@, 0),
{
    <byteorder::BigEndian as byteorder::ByteOrder>::read_u16(b)
}

/// Relies on byteorder's `BigEndian::read_u32`: the first four bytes, most
/// significant first; it panics on fewer than four.
#[verifier::external_body]
fn read_be_u32(b: &[u8]) -> (r: u32)
    requires
        b@.len() >= 4,
    ensures
        r as int == be32(b@, 0),
{
    <byteorder::BigEndian as byteorder::ByteOrder>::read_u32(b)
}

/// A cursor over a byte slice.  Each read returns the value together with
/// the range it was read from, counted from the start of the slice.
pub struct ByteReader<'a> {
    data: &'a [u8],
    pos: usize,
}

impl<'a> ByteReader<'a> {
    pub closed spec fn data(&self) -> Seq<u8> {
        self.data@
    }

    pub closed spec fn pos(&self) -> int {
        self.pos as int
    }

    /// The position never passes the end of the data.
    pub open spec fn wf(&self) -> bool {
        0 <= self.pos() <= self.data().len()
    }

    pub fn new(data: &'a [u8]) -> (r: ByteReader<'a>)
        ensures
            r.wf(),
            r.data() == data@,
            r.pos() == 0,
    {
        ByteReader { data, pos: 0 }
    }

    pub fn position(&self) -> (r: usize)
        ensures
            r as int == self.pos(),
    {
        self.pos
    }

    /// Advances over `n` bytes, stopping at the end of the data; every read
    /// after running out fails.
    pub fn consume(&mut self, n: usize)
        requires
            old(self).wf(),
        ensures
            final(self).wf(),
            final(self).data() == old(self).data(),
            final(self).pos() == if old(self).pos() + n <= old(self).data().len() {
                old(self).pos() + n
            } else {
                old(self).data().len() as int
            },
    {
        if n <= self.data.len() - self.pos {
            self.pos = self.pos + n;
        } else {
            self.pos = self.data.len();
        }
    }

    /// Reads one byte.
    pub fn read_u8(&mut self) -> (r: Result<(u8, Range), Truncated>)
        requires
            old(self).wf(),
        ensures
            final(self).wf(),
            final(self).data() == old(self).data(),
            old(self).pos() + 1 <= old(self).data().len() ==> r == Ok::<(u8, Range), Truncated>(
                (old(self).data()[old(self).pos()], Range::spec_new(old(self).pos(), old(self).pos() + 1)),
            ) && final(self).pos() == old(self).pos() + 1,
            old(self).pos() + 1 > old(self).data().len() ==> r is Err && final(self).pos() == old(self).pos(),
    {
        if self.pos < self.data.len() {
            let v = self.data[self.pos];
            let start = self.pos;
            self.pos = self.pos + 1;
            Ok((v, Range::new(start, self.pos)))
        } else {
            Err(Truncated)
        }
    }

    /// Reads a big-endian 16-bit integer.
    pub fn read_u16(&mut self) -> (r: Result<(u16, Range), Truncated>)
        requires
            old(self).wf(),
        ensures
            final(self).wf(),
            final(self).data() == old(self).data(),
            old(self).pos() + 2 <= old(self).data().len() ==> (r matches Ok((v, rg)) && v as int == be16(
                old(self).data(),
                old(self).pos(),
            ) && rg == Range::spec_new(old(self).pos(), old(self).pos() + 2) && final(self).pos()
                == old(self).pos() + 2),
            old(self).pos() + 2 > old(self).data().len() ==> r is Err && final(self).pos() == old(self).pos(),
    {
        if self.data.len() - self.pos >= 2 {
            let start = self.pos;
            let v = read_be_u16(&self.data[start..start + 2]);
            self.pos = start + 2;
            Ok((v, Range::new(start, self.pos)))
        } else {
            Err(Truncated)
        }
    }

    /// Reads a big-endian 32-bit integer.
    pub fn read_u32(&mut self) -> (r: Result<(u32, Range), Truncated>)
        requires
            old(self).wf(),
        ensures
            final(self).wf(),
            final(self).data() == old(self).data(),
            old(self).pos() + 4 <= old(self).data().len() ==> (r matches Ok((v, rg)) && v as int == be32(
                old(self).data(),
                old(self).pos(),
            ) && rg == Range::spec_new(old(self).pos(), old(self).pos() + 4) && final(self).pos()
                == old(self).pos() + 4),
            old(self).pos() + 4 > old(self).data().len() ==> r is Err && final(self).pos() == old(self).pos(),
    {
        if self.data.len() - self.pos >= 4 {
            let start = self.pos;
            let v = read_be_u32(&self.data[start..start + 4]);
            self.pos = start + 4;
            Ok((v, Range::new(start, self.pos)))
        } else {
            Err(Truncated)
        }
    }

    /// Reads the next `n` bytes verbatim.
    pub fn read_slice(&mut self, n: usize) -> (r: Result<(Vec<u8>, Range), Truncated>)
        requires
            old(self).wf(),
        ensures
            final(self).wf(),
            final(self).data() == old(self).data(),
            old(self).pos() + n <= old(self).data().len() ==> (r matches Ok((v, rg)) && v@
                == old(self).data().subrange(old(self).pos(), old(self).pos() + n) && rg
                == Range::spec_new(old(self).pos(), old(self).pos() + n) && final(self).pos()
                == old(self).pos() + n),
            old(self).pos() + n > old(self).data().len() ==> r is Err && final(self).pos() == old(self).pos(),
    {
        if self.data.len() - self.pos >= n {
            let start = self.pos;
            let v = vstd::slice::slice_to_vec(&self.data[start..start + n]);
            self.pos = start + n;
            Ok((v, Range::new(start, self.pos)))
        } else {
            Err(Truncated)
        }
    }
}

} // verus!
