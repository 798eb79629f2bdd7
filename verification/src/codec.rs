//! Encoding of records into the byte representation held by the durable
//! store, and its verified inverse.
//!
//! The layout is: id (8 bytes little-endian), created_at (8 bytes), a one-byte
//! tag for the optional timestamp followed by 8 bytes when present, then the
//! four string fields, each as an 8-byte character count followed by 4 bytes
//! per character (the scalar value, little-endian).

use crate::record::{CrisisUpdate, RecordSpec};
use vstd::bytes::{
    lemma_auto_spec_u32_to_from_le_bytes, lemma_auto_spec_u64_to_from_le_bytes,
    spec_u32_to_le_bytes, spec_u64_to_le_bytes, u32_to_le_bytes, u64_to_le_bytes,
    u32_from_le_bytes, u64_from_le_bytes,
};
use vstd::prelude::*;
use vstd::slice::slice_subrange;
use vstd::utf8::{char_is_scalar, char_u32_cast};

verus! {

broadcast use vstd::std_specs::vec::axiom_spec_len;

/// The bytes of a character sequence: 4 bytes per character.
pub open spec fn enc_chars(s: Seq<char>) -> Seq<u8>
    decreases s.len(),
{
    if s.len() == 0 {
        Seq::empty()
    } else {
        spec_u32_to_le_bytes(s[0] as u32) + enc_chars(s.skip(1))
    }
}

/// The bytes of a string field: character count, then the characters.
pub open spec fn enc_str(s: Seq<char>) -> Seq<u8> {
    spec_u64_to_le_bytes(s.len() as u64) + enc_chars(s)
}

/// The bytes of the optional last-modified timestamp.
pub open spec fn enc_opt_u64(t: Option<u64>) -> Seq<u8> {
    match t {
        None => seq![0u8],
        Some(x) => seq![1u8] + spec_u64_to_le_bytes(x),
    }
}

/// The full encoding of a record.
pub open spec fn enc_record(r: RecordSpec) -> Seq<u8> {
    spec_u64_to_le_bytes(r.id) + spec_u64_to_le_bytes(r.created_at) + enc_opt_u64(r.timestamp)
        + enc_str(r.title) + enc_str(r.author) + enc_str(r.description) + enc_str(r.location)
}

/// Encoded size of a record, in bytes.
pub open spec fn rec_size(r: RecordSpec) -> int {
    49 + (if r.timestamp is Some {
        8int
    } else {
        0int
    }) + 4 * (r.title.len() + r.author.len() + r.description.len() + r.location.len())
}

pub proof fn lemma_enc_chars_len(s: Seq<char>)
    ensures
        enc_chars(s).len() == 4 * s.len(),
    decreases s.len(),
{
    lemma_auto_spec_u32_to_from_le_bytes();
    if s.len() > 0 {
        lemma_enc_chars_len(s.skip(1));
    }
}

pub proof fn lemma_enc_record_len(r: RecordSpec)
    ensures
        enc_record(r).len() == rec_size(r),
{
    lemma_auto_spec_u64_to_from_le_bytes();
    lemma_enc_chars_len(r.title);
    lemma_enc_chars_len(r.author);
    lemma_enc_chars_len(r.description);
    lemma_enc_chars_len(r.location);
}

pub proof fn lemma_enc_chars_push(s: Seq<char>, c: char)
    ensures
        enc_chars(s.push(c)) == enc_chars(s) + spec_u32_to_le_bytes(c as u32),
    decreases s.len(),
{
    if s.len() == 0 {
        assert(s.push(c)[0] == c);
        assert(s.push(c).skip(1) =~= Seq::<char>::empty());
        assert(enc_chars(s.push(c)) == spec_u32_to_le_bytes(c as u32) + enc_chars(
            Seq::<char>::empty(),
        ));
        assert(enc_chars(Seq::<char>::empty()) == Seq::<u8>::empty());
        assert(enc_chars(s) == Seq::<u8>::empty());
        assert(enc_chars(s.push(c)) =~= enc_chars(s) + spec_u32_to_le_bytes(c as u32));
    } else {
        lemma_enc_chars_push(s.skip(1), c);
        assert(s.push(c).skip(1) =~= s.skip(1).push(c));
        assert(s.push(c)[0] == s[0]);
        assert(enc_chars(s.push(c)) =~= enc_chars(s) + spec_u32_to_le_bytes(c as u32));
    }
}

pub proof fn lemma_enc_chars_index(s: Seq<char>, j: int)
    requires
        0 <= j < s.len(),
    ensures
        enc_chars(s).subrange(4 * j, 4 * j + 4) == spec_u32_to_le_bytes(s[j] as u32),
    decreases j,
{
    lemma_auto_spec_u32_to_from_le_bytes();
    lemma_enc_chars_len(s);
    lemma_enc_chars_len(s.skip(1));
    if j == 0 {
        assert(enc_chars(s).subrange(0, 4) =~= spec_u32_to_le_bytes(s[0] as u32));
    } else {
        lemma_enc_chars_index(s.skip(1), j - 1);
        assert(enc_chars(s).subrange(4 * j, 4 * j + 4) =~= enc_chars(s.skip(1)).subrange(
            4 * (j - 1),
            4 * (j - 1) + 4,
        ));
    }
}

/// Appends the little-endian bytes of the given integer.
fn push_u64(out: &mut Vec<u8>, x: u64)
    ensures
        final(out)@ == old(out)@ + spec_u64_to_le_bytes(x),
{
    let mut b = u64_to_le_bytes(x);
    out.append(&mut b);
}

/// Appends the encoding of one string field.
fn push_str(out: &mut Vec<u8>, s: &str)
    ensures
        final(out)@ == old(out)@ + enc_str(s@),
{
    let n: usize = s.unicode_len();
    push_u64(out, n as u64);
    let ghost mid = out@;
    let mut i: usize = 0;
    while i < n
        invariant
            i <= n,
            n == s@.len(),
            mid == old(out)@ + spec_u64_to_le_bytes(n as u64),
            out@ == mid + enc_chars(s@.take(i as int)),
        decreases n - i,
    {
        let c = s.get_char(i);
        let mut cb = u32_to_le_bytes(c as u32);
        proof {
            lemma_enc_chars_push(s@.take(i as int), c);
            assert(s@.take(i as int).push(s@[i as int]) =~= s@.take(i + 1 as int));
        }
        out.append(&mut cb);
        i += 1;
    }
    proof {
        assert(s@.take(n as int) =~= s@);
        assert(mid + enc_chars(s@) =~= old(out)@ + enc_str(s@));
    }
}

impl CrisisUpdate {
    /// Encodes the record for the durable store.
    pub fn to_bytes(&self) -> (out: Vec<u8>)
        ensures
            out@ == enc_record(self@),
    {
        let mut out: Vec<u8> = Vec::new();
        push_u64(&mut out, self.id);
        push_u64(&mut out, self.created_at);
        match self.timestamp {
            None => {
                out.push(0u8);
                proof {
                    assert(out@ =~= spec_u64_to_le_bytes(self.id) + spec_u64_to_le_bytes(
                        self.created_at,
                    ) + enc_opt_u64(self@.timestamp));
                }
            },
            Some(t) => {
                out.push(1u8);
                push_u64(&mut out, t);
                proof {
                    assert(out@ =~= spec_u64_to_le_bytes(self.id) + spec_u64_to_le_bytes(
                        self.created_at,
                    ) + enc_opt_u64(self@.timestamp));
                }
            },
        }
        push_str(&mut out, self.title.as_str());
        push_str(&mut out, self.author.as_str());
        push_str(&mut out, self.description.as_str());
        push_str(&mut out, self.location.as_str());
        proof {
            assert(out@ =~= enc_record(self@));
        }
        out
    }
}

/// Reads an 8-byte little-endian integer at the given offset.
fn read_u64_at(b: &Vec<u8>, pos: usize) -> (x: u64)
    requires
        pos + 8 <= b@.len(),
    ensures
        x == vstd::bytes::spec_u64_from_le_bytes(b@.subrange(pos as int, pos as int + 8)),
{
    let _bl: usize = b.len();
    let s = slice_subrange(b.as_slice(), pos, pos + 8);
    u64_from_le_bytes(s)
}

/// Reads a 4-byte little-endian integer at the given offset.
fn read_u32_at(b: &Vec<u8>, pos: usize) -> (x: u32)
    requires
        pos + 4 <= b@.len(),
    ensures
        x == vstd::bytes::spec_u32_from_le_bytes(b@.subrange(pos as int, pos as int + 4)),
{
    let _bl: usize = b.len();
    let s = slice_subrange(b.as_slice(), pos, pos + 4);
    u32_from_le_bytes(s)
}

/// Reads one encoded string field at the given offset; returns the string and
/// the offset just past it.
fn read_str_at(b: &Vec<u8>, pos: usize, Ghost(s): Ghost<Seq<char>>) -> (r: (String, usize))
    requires
        pos + 8 + 4 * s.len() <= b@.len(),
        b@.subrange(pos as int, pos as int + 8 + 4 * s.len()) == enc_str(s),
    ensures
        r.0@ == s,
        r.1 == pos + 8 + 4 * s.len(),
{
    proof {
        lemma_auto_spec_u64_to_from_le_bytes();
        lemma_enc_chars_len(s);
    }
    let bl: usize = b.len();
    let len64: u64 = read_u64_at(b, pos);
    proof {
        assert(b@.subrange(pos as int, pos as int + 8) =~= enc_str(s).subrange(0, 8));
        assert(enc_str(s).subrange(0, 8) =~= spec_u64_to_le_bytes(s.len() as u64));
    }
    let n: usize = len64 as usize;
    assert(n == s.len());
    let mut acc = String::new();
    let mut i: usize = 0;
    while i < n
        invariant
            i <= n,
            n == s.len(),
            bl == b@.len(),
            pos + 8 + 4 * s.len() <= b@.len(),
            b@.subrange(pos as int, pos as int + 8 + 4 * s.len()) == enc_str(s),
            acc@ == s.take(i as int),
        decreases n - i,
    {
        let v: u32 = read_u32_at(b, pos + 8 + 4 * i);
        proof {
            lemma_enc_chars_len(s);
            lemma_enc_chars_index(s, i as int);
            lemma_auto_spec_u32_to_from_le_bytes();
            lemma_auto_spec_u64_to_from_le_bytes();
            let es = b@.subrange(pos as int, pos as int + 8 + 4 * s.len());
            assert(b@.subrange(
                pos + 8 + 4 * (i as int),
                pos + 8 + 4 * (i as int) + 4,
            ) =~= es.subrange(8 + 4 * (i as int), 8 + 4 * (i as int) + 4));
            assert(es.subrange(8 + 4 * (i as int), 8 + 4 * (i as int) + 4) =~= enc_chars(
                s,
            ).subrange(4 * (i as int), 4 * (i as int) + 4));
            char_is_scalar(s[i as int]);
        }
        if let Some(c) = char::from_u32(v) {
            proof {
                char_u32_cast(s[i as int], v);
                char_u32_cast(c, v);
            }
            acc.push(c);
            proof {
                assert(s.take(i + 1 as int) =~= s.take(i as int).push(s[i as int]));
            }
            i += 1;
        } else {
            proof {
                assert(false);
            }
        }
    }
    proof {
        assert(s.take(n as int) =~= s);
    }
    (acc, pos + 8 + 4 * n)
}

impl CrisisUpdate {
    /// Decodes a record from its durable encoding.
    pub(crate) fn from_bytes(b: &Vec<u8>, Ghost(rs): Ghost<RecordSpec>) -> (r: CrisisUpdate)
        requires
            b@ == enc_record(rs),
        ensures
            r@ == rs,
    {
        proof {
            lemma_auto_spec_u64_to_from_le_bytes();
            lemma_enc_chars_len(rs.title);
            lemma_enc_chars_len(rs.author);
            lemma_enc_chars_len(rs.description);
            lemma_enc_chars_len(rs.location);
        }
        let ghost seg_id = spec_u64_to_le_bytes(rs.id);
        let ghost seg_ca = spec_u64_to_le_bytes(rs.created_at);
        let ghost seg_ts = enc_opt_u64(rs.timestamp);
        let ghost seg_t = enc_str(rs.title);
        let ghost seg_a = enc_str(rs.author);
        let ghost seg_d = enc_str(rs.description);
        let ghost seg_l = enc_str(rs.location);
        let bl: usize = b.len();
        let id: u64 = read_u64_at(b, 0);
        proof {
            assert(b@.subrange(0, 8) =~= seg_id);
        }
        let created_at: u64 = read_u64_at(b, 8);
        proof {
            assert(b@.subrange(8, 16) =~= seg_ca);
        }
        let tag: u8 = b[16];
        proof {
            assert(b@[16] == seg_ts[0]);
        }
        let (timestamp, off): (Option<u64>, usize) = if tag == 1 {
            let t: u64 = read_u64_at(b, 17);
            proof {
                assert(b@.subrange(17, 25) =~= spec_u64_to_le_bytes(rs.timestamp->0));
            }
            (Some(t), 25)
        } else {
            assert(rs.timestamp is None);
            (None, 17)
        };
        proof {
            assert(b@.subrange(off as int, off as int + 8 + 4 * rs.title.len()) =~= seg_t);
        }
        let (title, off): (String, usize) = read_str_at(b, off, Ghost(rs.title));
        proof {
            assert(b@.subrange(off as int, off as int + 8 + 4 * rs.author.len()) =~= seg_a);
        }
        let (author, off): (String, usize) = read_str_at(b, off, Ghost(rs.author));
        proof {
            assert(b@.subrange(off as int, off as int + 8 + 4 * rs.description.len()) =~= seg_d);
        }
        let (description, off): (String, usize) = read_str_at(b, off, Ghost(rs.description));
        proof {
            assert(b@.subrange(off as int, off as int + 8 + 4 * rs.location.len()) =~= seg_l);
        }
        let (location, _off): (String, usize) = read_str_at(b, off, Ghost(rs.location));
        let r = CrisisUpdate { id, title, author, description, location, timestamp, created_at };
        assert(r@ == rs);
        r
    }
}

} // verus!
