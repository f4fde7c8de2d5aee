//! An in-memory byte stream with the read/write behaviour of a socket:
//! a fixed supply of incoming bytes consumed from a cursor, and a growing
//! record of everything written. The parser is verified against it.
use crate::api_err::ApiErr;
use vstd::prelude::*;
use vstd::slice::slice_subrange;
use vstd::slice::slice_to_vec;

verus! {

/// The text a short read reports.
pub open spec fn short_read_chars() -> Seq<char> {
    "not enough data in MockTcpStream"@
}

/// An in-memory two-way stream.
pub struct MockTcpStream {
    pub read_data: Vec<u8>,
    pub position: usize,
    pub write_data: Vec<u8>,
}

impl MockTcpStream {
    /// The cursor never passes the end of the incoming bytes.
    pub open spec fn wf(&self) -> bool {
        self.position <= self.read_data@.len()
    }

    /// The incoming bytes not yet consumed.
    pub open spec fn remaining(&self) -> Seq<u8> {
        self.read_data@.skip(self.position as int)
    }

    /// A stream that will serve `read_data` and has written nothing.
    pub fn new(read_data: Vec<u8>) -> (r: MockTcpStream)
        ensures
            r.read_data == read_data,
            r.position == 0,
            r.write_data@ == Seq::<u8>::empty(),
            r.wf(),
    {
        MockTcpStream { read_data, position: 0, write_data: Vec::new() }
    }

    /// Reads up to `n` bytes: as many as are left, never more than asked.
    pub fn read(&mut self, n: usize) -> (r: Vec<u8>)
        requires
            old(self).wf(),
        ensures
            final(self).wf(),
            r@.len() == if n <= old(self).remaining().len() { n as int } else { old(self).remaining().len() as int },
            r@ == old(self).remaining().take(r@.len() as int),
            final(self).position == old(self).position + r@.len(),
            final(self).read_data == old(self).read_data,
            final(self).write_data == old(self).write_data,
    {
        let remaining = self.read_data.len() - self.position;
        let to_copy = if n < remaining { n } else { remaining };
        let out = slice_to_vec(slice_subrange(self.read_data.as_slice(), self.position, self.position + to_copy));
        self.position = self.position + to_copy;
        proof {
            assert(out@ =~= old(self).remaining().take(out@.len() as int));
        }
        out
    }

    /// Reads exactly `n` bytes, or fails without consuming anything when
    /// fewer are left.
    pub fn read_exact(&mut self, n: usize) -> (r: Result<Vec<u8>, ApiErr>)
        requires
            old(self).wf(),
        ensures
            final(self).wf(),
            final(self).read_data == old(self).read_data,
            final(self).write_data == old(self).write_data,
            n <= old(self).remaining().len() ==> {
                &&& r matches Ok(v) && v@ == old(self).remaining().take(n as int)
                &&& final(self).position == old(self).position + n
            },
            n > old(self).remaining().len() ==> {
                &&& r matches Err(e) && e matches ApiErr::StreamError(m) && m@ == short_read_chars()
                &&& final(self).position == old(self).position
            },
    {
        let remaining = self.read_data.len() - self.position;
        if n > remaining {
            return Err(ApiErr::StreamError(String::from_str("not enough data in MockTcpStream")));
        }
        let out = slice_to_vec(slice_subrange(self.read_data.as_slice(), self.position, self.position + n));
        self.position = self.position + n;
        proof {
            assert(out@ =~= old(self).remaining().take(n as int));
        }
        Ok(out)
    }

    /// Appends the buffer to the written record; a mock write accepts it all.
    pub fn write(&mut self, buf: &[u8]) -> (r: usize)
        ensures
            final(self).write_data@ == old(self).write_data@ + buf@,
            final(self).read_data == old(self).read_data,
            final(self).position == old(self).position,
            r == buf@.len(),
    {
        self.write_data.extend_from_slice(buf);
        proof {
            assert(final(self).write_data@ =~= old(self).write_data@ + buf@);
        }
        buf.len()
    }

    /// Nothing is buffered, so flushing changes nothing.
    pub fn flush(&mut self)
        ensures
            *final(self) == *old(self),
    {
    }
}

} // verus!
