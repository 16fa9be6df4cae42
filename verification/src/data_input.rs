//! Primitive reader for the ABX format: fixed-width big-endian values,
//! length-prefixed UTF-8 strings, and the interned-string protocol, over an
//! in-memory byte stream with a cursor.

use crate::render::string_from_utf8;
use crate::{AbxError, GAbxError};
use vstd::prelude::*;
use vstd::slice::{slice_subrange, slice_to_vec};
use vstd::utf8::{decode_utf8, valid_utf8};

verus! {

/// The 16-bit big-endian value at `p`.
pub open spec fn be16(d: Seq<u8>, p: int) -> int {
    d[p] * 256 + d[p + 1]
}

/// The 32-bit big-endian value at `p`.
pub open spec fn be32(d: Seq<u8>, p: int) -> int {
    ((d[p] * 256 + d[p + 1]) * 256 + d[p + 2]) * 256 + d[p + 3]
}

/// The 64-bit big-endian value at `p`.
pub open spec fn be64(d: Seq<u8>, p: int) -> int {
    (((((((d[p] * 256 + d[p + 1]) * 256 + d[p + 2]) * 256 + d[p + 3]) * 256 + d[p + 4]) * 256 + d[p
        + 5]) * 256 + d[p + 6]) * 256) + d[p + 7]
}

/// The value at `p` read as a two's-complement signed 32-bit integer.
pub open spec fn sbe32(d: Seq<u8>, p: int) -> int {
    if be32(d, p) >= 0x8000_0000 {
        be32(d, p) - 0x1_0000_0000
    } else {
        be32(d, p)
    }
}

/// The value at `p` read as a two's-complement signed 64-bit integer.
pub open spec fn sbe64(d: Seq<u8>, p: int) -> int {
    if be64(d, p) >= 0x8000_0000_0000_0000 {
        be64(d, p) - 0x1_0000_0000_0000_0000
    } else {
        be64(d, p)
    }
}

/// Outcome of reading a length-prefixed UTF-8 string at a position: the
/// decoded characters and the position after, or an error and the position
/// the cursor stops at.
pub ghost enum GUtf {
    Got(Seq<char>, int),
    Fail(GAbxError, int),
}

/// What reading a length-prefixed UTF-8 string at `p` yields: a 16-bit
/// big-endian length, that many raw bytes, then UTF-8 validation. A short
/// length read, a short byte read and invalid UTF-8 are distinct errors.
pub open spec fn spec_read_utf(d: Seq<u8>, p: int) -> GUtf {
    if p + 2 > d.len() {
        GUtf::Fail(GAbxError::ReadError("short"@), p)
    } else {
        let n = be16(d, p);
        if p + 2 + n > d.len() {
            GUtf::Fail(GAbxError::ReadError("UTF string"@), p + 2)
        } else {
            let bytes = d.subrange(p + 2, p + 2 + n);
            if valid_utf8(bytes) {
                GUtf::Got(decode_utf8(bytes), p + 2 + n)
            } else {
                GUtf::Fail(GAbxError::ReadError("UTF string (invalid UTF-8)"@), p + 2 + n)
            }
        }
    }
}

/// Outcome of reading an interned string: the characters, the position
/// after, and the table after (grown by one on a first occurrence).
pub ghost enum GInterned {
    Got(Seq<char>, int, Seq<Seq<char>>),
    Fail(GAbxError, int),
}

/// What the interned-string protocol yields at `p` against table `tbl`:
/// index `0xFFFF` means a new string follows, which is appended to the
/// table; any other index is a back-reference that must be in bounds.
pub open spec fn spec_read_interned(d: Seq<u8>, p: int, tbl: Seq<Seq<char>>) -> GInterned {
    if p + 2 > d.len() {
        GInterned::Fail(GAbxError::ReadError("short"@), p)
    } else {
        let idx = be16(d, p);
        if idx == 0xFFFF {
            match spec_read_utf(d, p + 2) {
                GUtf::Got(s, p2) => GInterned::Got(s, p2, tbl.push(s)),
                GUtf::Fail(e, p2) => GInterned::Fail(e, p2),
            }
        } else if idx < tbl.len() {
            GInterned::Got(tbl[idx], p + 2, tbl)
        } else {
            GInterned::Fail(GAbxError::InvalidInternedStringIndex(idx as u16), p + 2)
        }
    }
}

/// Interned-string round trip: a token with index `0xFFFF` defines a new
/// string and appends it to the table at index `tbl.len()`; any later
/// token that back-references that index, against any table state the
/// decode has grown on top of it, yields the same characters.
pub proof fn lemma_interned_round_trip(
    d: Seq<u8>,
    p_def: int,
    tbl: Seq<Seq<char>>,
    d2: Seq<u8>,
    p_ref: int,
    tbl3: Seq<Seq<char>>,
)
    requires
        p_def + 2 <= d.len(),
        be16(d, p_def) == 0xFFFF,
        spec_read_interned(d, p_def, tbl) is Got,
        p_ref + 2 <= d2.len(),
        be16(d2, p_ref) == tbl.len(),
        tbl.len() < 0xFFFF,
        (match spec_read_interned(d, p_def, tbl) {
            GInterned::Got(s, p2, t2) => t2.is_prefix_of(tbl3),
            GInterned::Fail(e, p2) => false,
        }),
    ensures
        (match (spec_read_interned(d, p_def, tbl), spec_read_interned(d2, p_ref, tbl3)) {
            (GInterned::Got(s, p2, t2), GInterned::Got(s_back, p3, t3)) => s_back == s && t3
                == tbl3 && p3 == p_ref + 2,
            _ => false,
        }),
{
    match spec_read_interned(d, p_def, tbl) {
        GInterned::Got(s, p2, t2) => {
            assert(t2 == tbl.push(s));
            assert(t2[tbl.len() as int] == s);
            assert(tbl3.subrange(0, t2.len() as int) =~= t2);
            assert(tbl3[tbl.len() as int] == s);
        },
        GInterned::Fail(e, p2) => {
            assert(false);
        },
    }
}

/// Reader of ABX primitives over an in-memory byte stream. Owns the
/// interned-string table of one decode session.
pub struct FastDataInput {
    data: Vec<u8>,
    pos: usize,
    interned_strings: Vec<String>,
}

impl FastDataInput {
    /// The whole underlying byte stream.
    pub closed spec fn data_spec(&self) -> Seq<u8> {
        self.data@
    }

    /// The cursor: the position the next read starts at.
    pub closed spec fn pos_spec(&self) -> int {
        self.pos as int
    }

    /// The interned-string table, in first-occurrence order.
    pub closed spec fn table_spec(&self) -> Seq<Seq<char>> {
        self.interned_strings.deep_view()
    }

    /// The cursor never passes the end of the stream.
    pub open spec fn wf(&self) -> bool {
        0 <= self.pos_spec() <= self.data_spec().len()
    }

    /// A new reader over `data`, with the cursor at the start and an empty
    /// interned-string table.
    pub fn new(data: Vec<u8>) -> (r: Self)
        ensures
            r.wf(),
            r.data_spec() == data@,
            r.pos_spec() == 0,
            r.table_spec() =~= Seq::<Seq<char>>::empty(),
    {
        FastDataInput { data, pos: 0, interned_strings: Vec::new() }
    }

    /// Reads a single byte.
    pub fn read_byte(&mut self) -> (r: Result<u8, AbxError>)
        requires
            old(self).wf(),
        ensures
            final(self).wf(),
            final(self).data_spec() == old(self).data_spec(),
            final(self).table_spec() == old(self).table_spec(),
            old(self).pos_spec() < old(self).data_spec().len() ==> (r matches Ok(b)
                && b == old(self).data_spec()[old(self).pos_spec()]
                && final(self).pos_spec() == old(self).pos_spec() + 1),
            old(self).pos_spec() >= old(self).data_spec().len() ==> (r matches Err(e)
                && e@ == GAbxError::ReadError("byte"@)
                && final(self).pos_spec() == old(self).pos_spec()),
    {
        if self.pos < self.data.len() {
            let b = self.data[self.pos];
            self.pos = self.pos + 1;
            Ok(b)
        } else {
            Err(AbxError::ReadError("byte".to_owned()))
        }
    }

    /// Reads a 16-bit unsigned integer, big-endian.
    pub fn read_short(&mut self) -> (r: Result<u16, AbxError>)
        requires
            old(self).wf(),
        ensures
            final(self).wf(),
            final(self).data_spec() == old(self).data_spec(),
            final(self).table_spec() == old(self).table_spec(),
            old(self).pos_spec() + 2 <= old(self).data_spec().len() ==> (r matches Ok(v)
                && v == be16(old(self).data_spec(), old(self).pos_spec())
                && final(self).pos_spec() == old(self).pos_spec() + 2),
            old(self).pos_spec() + 2 > old(self).data_spec().len() ==> (r matches Err(e)
                && e@ == GAbxError::ReadError("short"@)
                && final(self).pos_spec() == old(self).pos_spec()),
    {
        if self.data.len() - self.pos >= 2 {
            let hi = self.data[self.pos];
            let lo = self.data[self.pos + 1];
            self.pos = self.pos + 2;
            Ok((hi as u16) * 256 + (lo as u16))
        } else {
            Err(AbxError::ReadError("short".to_owned()))
        }
    }

    /// Reads a 32-bit signed integer, big-endian.
    pub fn read_int(&mut self) -> (r: Result<i32, AbxError>)
        requires
            old(self).wf(),
        ensures
            final(self).wf(),
            final(self).data_spec() == old(self).data_spec(),
            final(self).table_spec() == old(self).table_spec(),
            old(self).pos_spec() + 4 <= old(self).data_spec().len() ==> (r matches Ok(v)
                && v as int == sbe32(old(self).data_spec(), old(self).pos_spec())
                && final(self).pos_spec() == old(self).pos_spec() + 4),
            old(self).pos_spec() + 4 > old(self).data_spec().len() ==> (r matches Err(e)
                && e@ == GAbxError::ReadError("int"@)
                && final(self).pos_spec() == old(self).pos_spec()),
    {
        if self.data.len() - self.pos >= 4 {
            let b0 = self.data[self.pos] as u32;
            let b1 = self.data[self.pos + 1] as u32;
            let b2 = self.data[self.pos + 2] as u32;
            let b3 = self.data[self.pos + 3] as u32;
            self.pos = self.pos + 4;
            let u: u32 = ((b0 * 256 + b1) * 256 + b2) * 256 + b3;
            let v: i32 = #[verifier::truncate] (u as i32);
            proof {
                assert(u == be32(old(self).data_spec(), old(self).pos_spec()));
                assert(v as int == if u >= 0x8000_0000u32 {
                    u - 0x1_0000_0000
                } else {
                    u as int
                }) by (bit_vector)
                    requires
                        v == u as i32,
                ;
            }
            Ok(v)
        } else {
            Err(AbxError::ReadError("int".to_owned()))
        }
    }

    /// Reads a 64-bit signed integer, big-endian.
    pub fn read_long(&mut self) -> (r: Result<i64, AbxError>)
        requires
            old(self).wf(),
        ensures
            final(self).wf(),
            final(self).data_spec() == old(self).data_spec(),
            final(self).table_spec() == old(self).table_spec(),
            old(self).pos_spec() + 8 <= old(self).data_spec().len() ==> (r matches Ok(v)
                && v as int == sbe64(old(self).data_spec(), old(self).pos_spec())
                && final(self).pos_spec() == old(self).pos_spec() + 8),
            old(self).pos_spec() + 8 > old(self).data_spec().len() ==> (r matches Err(e)
                && e@ == GAbxError::ReadError("long"@)
                && final(self).pos_spec() == old(self).pos_spec()),
    {
        if self.data.len() - self.pos >= 8 {
            let b0 = self.data[self.pos] as u64;
            let b1 = self.data[self.pos + 1] as u64;
            let b2 = self.data[self.pos + 2] as u64;
            let b3 = self.data[self.pos + 3] as u64;
            let b4 = self.data[self.pos + 4] as u64;
            let b5 = self.data[self.pos + 5] as u64;
            let b6 = self.data[self.pos + 6] as u64;
            let b7 = self.data[self.pos + 7] as u64;
            self.pos = self.pos + 8;
            let u: u64 = ((((((b0 * 256 + b1) * 256 + b2) * 256 + b3) * 256 + b4) * 256 + b5) * 256
                + b6) * 256 + b7;
            let v: i64 = #[verifier::truncate] (u as i64);
            proof {
                assert(u == be64(old(self).data_spec(), old(self).pos_spec()));
                assert(v as int == if u >= 0x8000_0000_0000_0000u64 {
                    u - 0x1_0000_0000_0000_0000
                } else {
                    u as int
                }) by (bit_vector)
                    requires
                        v == u as i64,
                ;
            }
            Ok(v)
        } else {
            Err(AbxError::ReadError("long".to_owned()))
        }
    }

    /// Reads a byte array of the given length.
    pub fn read_bytes(&mut self, length: u16) -> (r: Result<Vec<u8>, AbxError>)
        requires
            old(self).wf(),
        ensures
            final(self).wf(),
            final(self).data_spec() == old(self).data_spec(),
            final(self).table_spec() == old(self).table_spec(),
            old(self).pos_spec() + length <= old(self).data_spec().len() ==> (r matches Ok(v)
                && v@ == old(self).data_spec().subrange(
                old(self).pos_spec(),
                old(self).pos_spec() + length,
            ) && final(self).pos_spec() == old(self).pos_spec() + length),
            old(self).pos_spec() + length > old(self).data_spec().len() ==> (r matches Err(e)
                && e@ == GAbxError::ReadError("bytes"@)
                && final(self).pos_spec() == old(self).pos_spec()),
    {
        let n = length as usize;
        if n <= self.data.len() && self.pos <= self.data.len() - n {
            let out = slice_to_vec(slice_subrange(self.data.as_slice(), self.pos, self.pos + n));
            self.pos = self.pos + n;
            Ok(out)
        } else {
            Err(AbxError::ReadError("bytes".to_owned()))
        }
    }

    /// Reads a length-prefixed UTF-8 string: a 16-bit big-endian length,
    /// that many raw bytes, then UTF-8 validation.
    pub fn read_utf(&mut self) -> (r: Result<String, AbxError>)
        requires
            old(self).wf(),
        ensures
            final(self).wf(),
            final(self).data_spec() == old(self).data_spec(),
            final(self).table_spec() == old(self).table_spec(),
            match spec_read_utf(old(self).data_spec(), old(self).pos_spec()) {
                GUtf::Got(s, p2) => r matches Ok(v) && v@ == s && final(self).pos_spec() == p2,
                GUtf::Fail(e, p2) => r matches Err(err) && err@ == e && final(self).pos_spec()
                    == p2,
            },
    {
        let length = match self.read_short() {
            Ok(v) => v,
            Err(_) => {
                return Err(AbxError::ReadError("short".to_owned()));
            },
        };
        let n = length as usize;
        if !(n <= self.data.len() && self.pos <= self.data.len() - n) {
            return Err(AbxError::ReadError("UTF string".to_owned()));
        }
        let buffer = slice_to_vec(slice_subrange(self.data.as_slice(), self.pos, self.pos + n));
        self.pos = self.pos + n;
        match string_from_utf8(buffer) {
            Some(s) => Ok(s),
            None => Err(AbxError::ReadError("UTF string (invalid UTF-8)".to_owned())),
        }
    }

    /// Reads an interned string: index `0xFFFF` defines a new string, which
    /// is appended to the table and returned; any other index must resolve
    /// within the table's current bounds.
    pub fn read_interned_utf(&mut self) -> (r: Result<String, AbxError>)
        requires
            old(self).wf(),
        ensures
            final(self).wf(),
            final(self).data_spec() == old(self).data_spec(),
            match spec_read_interned(
                old(self).data_spec(),
                old(self).pos_spec(),
                old(self).table_spec(),
            ) {
                GInterned::Got(s, p2, tbl2) => r matches Ok(v) && v@ == s
                    && final(self).pos_spec() == p2 && final(self).table_spec() == tbl2,
                GInterned::Fail(e, p2) => r matches Err(err) && err@ == e
                    && final(self).pos_spec() == p2 && final(self).table_spec() == old(
                    self,
                ).table_spec(),
            },
    {
        let index = match self.read_short() {
            Ok(v) => v,
            Err(_) => {
                return Err(AbxError::ReadError("short".to_owned()));
            },
        };
        if index == 0xFFFF {
            let string = match self.read_utf() {
                Ok(s) => s,
                Err(e) => {
                    return Err(e);
                },
            };
            self.interned_strings.push(string.clone());
            proof {
                assert(self.interned_strings.deep_view() =~= old(self).table_spec().push(string@));
            }
            Ok(string)
        } else if (index as usize) < self.interned_strings.len() {
            let s = self.interned_strings[index as usize].clone();
            Ok(s)
        } else {
            Err(AbxError::InvalidInternedStringIndex(index))
        }
    }

    /// The current position in the stream.
    pub fn tell(&mut self) -> (r: Result<u64, AbxError>)
        requires
            old(self).wf(),
        ensures
            *final(self) == *old(self),
            r matches Ok(p) && p == old(self).pos_spec(),
    {
        Ok(self.pos as u64)
    }

    /// Moves the cursor to an absolute position within the stream.
    pub fn seek(&mut self, pos: u64) -> (r: Result<(), AbxError>)
        requires
            old(self).wf(),
            pos <= old(self).data_spec().len(),
        ensures
            final(self).wf(),
            final(self).data_spec() == old(self).data_spec(),
            final(self).table_spec() == old(self).table_spec(),
            final(self).pos_spec() == pos,
            r matches Ok(u) && u == (),
    {
        let n = self.data.len();
        proof {
            assert(pos <= n);
        }
        self.pos = pos as usize;
        Ok(())
    }

    /// Whether the cursor has reached the end of the stream.
    pub fn is_eof(&mut self) -> (r: bool)
        requires
            old(self).wf(),
        ensures
            *final(self) == *old(self),
            r == (old(self).pos_spec() >= old(self).data_spec().len()),
    {
        self.pos >= self.data.len()
    }

    /// The interned strings read so far, in first-occurrence order.
    pub fn interned_strings(&self) -> (r: &Vec<String>)
        ensures
            r.deep_view() == self.table_spec(),
    {
        &self.interned_strings
    }
}

} // verus!
