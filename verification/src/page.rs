use crate::codec::{
    lemma_i32_be_round_trip, spec_i32_from_be_bytes, spec_i32_to_be_bytes, i32_from_be_bytes,
    i32_to_be_bytes,
};
use vstd::prelude::*;
use vstd::slice::{slice_index_get, slice_subrange, slice_to_vec};
use vstd::string::StringSliceAdditionalSpecFns;
use vstd::utf8::{decode_utf8, encode_utf8, encode_utf8_decode_utf8, encode_utf8_valid_utf8, valid_utf8};

verus! {

/// `buf` with `data` laid over it starting at `off`: bytes inside the
/// window come from `data`, bytes outside keep their old values, and the
/// overall length is unchanged.
pub open spec fn store_bytes_at(buf: Seq<u8>, off: int, data: Seq<u8>) -> Seq<u8>
    recommends
        0 <= off,
        off + data.len() <= buf.len(),
{
    Seq::new(
        buf.len(),
        |i: int|
            if off <= i < off + data.len() {
                data[i - off]
            } else {
                buf[i]
            },
    )
}

/// The value of the four-byte big-endian length prefix stored at `off`.
pub open spec fn stored_len(buf: Seq<u8>, off: int) -> int
    recommends
        0 <= off,
        off + 4 <= buf.len(),
{
    spec_i32_from_be_bytes(buf.subrange(off, off + 4)) as int
}

/// The payload of the length-prefixed blob stored at `off`.
pub open spec fn stored_blob(buf: Seq<u8>, off: int) -> Seq<u8>
    recommends
        0 <= off,
        off + 4 <= buf.len(),
        0 <= stored_len(buf, off),
        off + 4 + stored_len(buf, off) <= buf.len(),
{
    buf.subrange(off + 4, off + 4 + stored_len(buf, off))
}

/// `buf` after storing `data` at `off` as a length-prefixed blob: a
/// four-byte big-endian prefix holding `data.len()`, then `data` itself.
pub open spec fn store_blob_at(buf: Seq<u8>, off: int, data: Seq<u8>) -> Seq<u8>
    recommends
        0 <= off,
        data.len() <= i32::MAX,
        off + 4 + data.len() <= buf.len(),
{
    store_bytes_at(store_bytes_at(buf, off, spec_i32_to_be_bytes(data.len() as i32)), off + 4, data)
}

/// The placeholder character sequence substituted when stored string
/// bytes are not valid UTF-8.
pub open spec fn replacement_marker() -> Seq<char> {
    seq!['\u{00ef}', '\u{00bf}', '\u{00bd}']
}

/// The string stored as a length-prefixed blob at `off`: the decoding of
/// its payload when that payload is valid UTF-8, the placeholder marker
/// otherwise.
pub open spec fn stored_string(buf: Seq<u8>, off: int) -> Seq<char>
    recommends
        0 <= off,
        off + 4 <= buf.len(),
        0 <= stored_len(buf, off),
        off + 4 + stored_len(buf, off) <= buf.len(),
{
    if valid_utf8(stored_blob(buf, off)) {
        decode_utf8(stored_blob(buf, off))
    } else {
        replacement_marker()
    }
}

/// A fixed-length in-memory byte buffer with typed accessors implementing
/// the length-prefixed big-endian encoding. Every accessor takes an
/// explicit offset; the page keeps no cursor between calls.
#[derive(Debug, Clone)]
pub struct Page {
    pub buffer: Vec<u8>,
}

/// Relies on std's `String::from_utf8`: it returns `Ok` with the decoded
/// string exactly when the bytes are valid UTF-8, and `Err` otherwise.
#[verifier::external_body]
fn string_from_utf8(bytes: Vec<u8>) -> (r: Option<String>)
    ensures
        r is Some <==> valid_utf8(bytes@),
        (r matches Some(s) ==> s@ == decode_utf8(bytes@)),
{
    match std::string::String::from_utf8(bytes) {
        Ok(s) => Some(s),
        Err(_) => None,
    }
}

/// Overwrite `dst[off .. off + src.len()]` with `src`, leaving every
/// other byte and the overall length unchanged.
fn write_bytes_at(dst: &mut Vec<u8>, off: usize, src: &[u8])
    requires
        off + src@.len() <= old(dst)@.len(),
    ensures
        final(dst)@ == store_bytes_at(old(dst)@, off as int, src@),
{
    proof {
        vstd::std_specs::vec::axiom_spec_len(dst);
    }
    let mut j: usize = 0;
    while j < src.len()
        invariant
            j <= src@.len(),
            off + src@.len() <= old(dst)@.len(),
            old(dst)@.len() <= usize::MAX,
            dst@.len() == old(dst)@.len(),
            forall|i: int| 0 <= i < j ==> dst@[off + i] == src@[i],
            forall|i: int|
                0 <= i < dst@.len() && !(off <= i < off + j) ==> dst@[i] == old(dst)@[i],
        decreases src@.len() - j,
    {
        let v: u8 = *slice_index_get(src, j);
        dst.set(off + j, v);
        j += 1;
    }
    proof {
        assert(dst@ =~= store_bytes_at(old(dst)@, off as int, src@));
    }
}

impl Page {
    /// A page zero-filled to `block_size` bytes, the transfer unit for
    /// whole-block reads and writes.
    pub fn new(block_size: u64) -> (r: Page)
        requires
            block_size <= usize::MAX,
        ensures
            r.buffer@ == Seq::new(block_size as nat, |i: int| 0u8),
    {
        let n = block_size as usize;
        let mut buffer: Vec<u8> = Vec::new();
        let mut j: usize = 0;
        while j < n
            invariant
                j <= n,
                buffer@.len() == j,
                forall|i: int| 0 <= i < j ==> buffer@[i] == 0u8,
            decreases n - j,
        {
            buffer.push(0u8);
            j += 1;
        }
        proof {
            assert(buffer@ =~= Seq::new(block_size as nat, |i: int| 0u8));
        }
        Page { buffer }
    }

    /// A page holding a verbatim copy of `b`; its size is `b`'s length,
    /// used where content rather than a uniform block defines the size.
    pub fn from_bytes(b: &[u8]) -> (r: Page)
        ensures
            r.buffer@ == b@,
    {
        Page { buffer: slice_to_vec(b) }
    }

    /// Read the 32-bit signed integer stored big-endian at `offset`.
    pub fn i32_mut(&self, offset: usize) -> (r: i32)
        requires
            offset + 4 <= self.buffer@.len(),
        ensures
            r == spec_i32_from_be_bytes(self.buffer@.subrange(offset as int, offset as int + 4)),
    {
        proof {
            vstd::std_specs::vec::axiom_spec_len(&self.buffer);
        }
        let b0 = self.buffer[offset];
        let b1 = self.buffer[offset + 1];
        let b2 = self.buffer[offset + 2];
        let b3 = self.buffer[offset + 3];
        proof {
            assert(seq![b0, b1, b2, b3] =~= self.buffer@.subrange(
                offset as int,
                offset as int + 4,
            ));
        }
        i32_from_be_bytes(b0, b1, b2, b3)
    }

    /// Store `n` big-endian at `offset`, leaving all other bytes and the
    /// page size unchanged.
    pub fn i32(&mut self, offset: usize, n: i32)
        requires
            offset + 4 <= old(self).buffer@.len(),
        ensures
            final(self).buffer@ == store_bytes_at(
                old(self).buffer@,
                offset as int,
                spec_i32_to_be_bytes(n),
            ),
    {
        let bytes = i32_to_be_bytes(n);
        write_bytes_at(&mut self.buffer, offset, bytes.as_slice());
    }

    /// Read the length-prefixed blob stored at `offset`: a four-byte
    /// big-endian length `N`, then exactly `N` payload bytes.
    pub fn bytes(&self, offset: usize) -> (r: Vec<u8>)
        requires
            offset + 4 <= self.buffer@.len(),
            0 <= stored_len(self.buffer@, offset as int),
            offset + 4 + stored_len(self.buffer@, offset as int) <= self.buffer@.len(),
        ensures
            r@ == stored_blob(self.buffer@, offset as int),
    {
        proof {
            vstd::std_specs::vec::axiom_spec_len(&self.buffer);
        }
        let n = self.i32_mut(offset);
        let len = n as usize;
        slice_to_vec(slice_subrange(self.buffer.as_slice(), offset + 4, offset + 4 + len))
    }

    /// Store `b` at `offset` as a length-prefixed blob: its length as a
    /// four-byte big-endian prefix, then `b` itself; nothing else moves.
    pub fn bytes_mut(&mut self, offset: usize, b: &[u8])
        requires
            b@.len() <= i32::MAX,
            offset + 4 + b@.len() <= old(self).buffer@.len(),
        ensures
            final(self).buffer@ == store_blob_at(old(self).buffer@, offset as int, b@),
    {
        proof {
            vstd::std_specs::vec::axiom_spec_len(&self.buffer);
        }
        let prefix = i32_to_be_bytes(b.len() as i32);
        write_bytes_at(&mut self.buffer, offset, prefix.as_slice());
        write_bytes_at(&mut self.buffer, offset + 4, b);
    }

    /// Read the string stored at `offset` as a length-prefixed UTF-8
    /// blob. A payload that is not valid UTF-8 yields the placeholder
    /// marker instead of an error.
    pub fn string(&self, offset: usize) -> (r: String)
        requires
            offset + 4 <= self.buffer@.len(),
            0 <= stored_len(self.buffer@, offset as int),
            offset + 4 + stored_len(self.buffer@, offset as int) <= self.buffer@.len(),
        ensures
            r@ == stored_string(self.buffer@, offset as int),
    {
        let b = self.bytes(offset);
        match string_from_utf8(b) {
            Some(s) => s,
            None => {
                let marker = "\u{00ef}\u{00bf}\u{00bd}";
                proof {
                    reveal_strlit("\u{00ef}\u{00bf}\u{00bd}");
                    assert(marker@ =~= replacement_marker());
                }
                marker.to_owned()
            },
        }
    }

    /// Store `s` at `offset` as a length-prefixed blob whose payload is
    /// the UTF-8 encoding of `s`.
    pub fn string_mut(&mut self, offset: usize, s: &str)
        requires
            encode_utf8(s@).len() <= i32::MAX,
            offset + 4 + encode_utf8(s@).len() <= old(self).buffer@.len(),
        ensures
            final(self).buffer@ == store_blob_at(old(self).buffer@, offset as int, encode_utf8(s@)),
    {
        let b = s.as_bytes();
        self.bytes_mut(offset, b);
    }

    /// The page size needed to hold a string or blob of `str_size` bytes
    /// together with its four-byte length prefix.
    pub fn max_length(str_size: usize) -> (r: usize)
        requires
            str_size + 4 <= usize::MAX,
        ensures
            r == str_size + 4,
    {
        4 + str_size
    }

    /// Read-only view of the whole buffer, for bulk transfers.
    pub fn contents(&self) -> (r: &[u8])
        ensures
            r@ == self.buffer@,
    {
        self.buffer.as_slice()
    }

    /// Mutable view of the whole buffer, for bulk transfers that fill the
    /// page in place.
    pub fn contents_mut(&mut self) -> (r: &mut [u8])
        ensures
            r@ == old(self).buffer@,
            final(self).buffer@ == final(r)@,
    {
        self.buffer.as_mut_slice()
    }

    /// The total buffer length in bytes.
    pub fn size(&self) -> (r: usize)
        ensures
            r == self.buffer@.len(),
    {
        self.buffer.len()
    }
}

/// Storing a blob and reading it back yields the blob: after
/// `store_blob_at(buf, off, data)` the prefix holds `data.len()`, the
/// payload is `data`, and every byte outside the written window
/// `[off, off + 4 + data.len())` is unchanged.
pub proof fn lemma_blob_round_trip(buf: Seq<u8>, off: int, data: Seq<u8>)
    requires
        0 <= off,
        data.len() <= i32::MAX,
        off + 4 + data.len() <= buf.len(),
    ensures
        store_blob_at(buf, off, data).len() == buf.len(),
        stored_len(store_blob_at(buf, off, data), off) == data.len(),
        stored_blob(store_blob_at(buf, off, data), off) == data,
        forall|i: int|
            0 <= i < buf.len() && !(off <= i < off + 4 + data.len()) ==> store_blob_at(
                buf,
                off,
                data,
            )[i] == buf[i],
{
    let stored = store_blob_at(buf, off, data);
    lemma_i32_be_round_trip(data.len() as i32);
    assert(stored.subrange(off, off + 4) =~= spec_i32_to_be_bytes(data.len() as i32));
    assert(stored_len(stored, off) == data.len());
    assert(stored_blob(stored, off) =~= data);
}

/// Storing a string and reading it back yields the string: the payload
/// written by `store_blob_at(buf, off, encode_utf8(s))` decodes to `s`
/// exactly, never to the placeholder marker.
pub proof fn lemma_string_round_trip(buf: Seq<u8>, off: int, s: Seq<char>)
    requires
        0 <= off,
        encode_utf8(s).len() <= i32::MAX,
        off + 4 + encode_utf8(s).len() <= buf.len(),
    ensures
        stored_string(store_blob_at(buf, off, encode_utf8(s)), off) == s,
{
    lemma_blob_round_trip(buf, off, encode_utf8(s));
    encode_utf8_valid_utf8(s);
    encode_utf8_decode_utf8(s);
}

/// Storing an integer and reading it back yields the integer, for every
/// 32-bit signed value.
pub proof fn lemma_i32_store_round_trip(buf: Seq<u8>, off: int, v: i32)
    requires
        0 <= off,
        off + 4 <= buf.len(),
    ensures
        spec_i32_from_be_bytes(
            store_bytes_at(buf, off, spec_i32_to_be_bytes(v)).subrange(off, off + 4),
        ) == v,
{
    lemma_i32_be_round_trip(v);
    assert(store_bytes_at(buf, off, spec_i32_to_be_bytes(v)).subrange(off, off + 4)
        =~= spec_i32_to_be_bytes(v));
}

} // verus!
