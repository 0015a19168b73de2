//! The record type and its length-delimited wire form.
//!
//! A record is serialized as a base-128 varint holding the body length,
//! followed by the body: an optional id field (tag 0x08, varint value,
//! omitted when the id is zero) and an optional data field (tag 0x12,
//! varint length, raw bytes, omitted when the data is empty). A chunk's
//! decompressed payload is a plain concatenation of such records.

use vstd::prelude::*;
use crate::Error;

verus! {

/// One structured record carried by the codec.
#[derive(Debug, Clone, PartialEq, Eq)]
pub struct Record {
    pub id: u64,
    pub data: Vec<u8>,
}

/// The mathematical value of a record.
#[verifier::ext_equal]
pub ghost struct RecordV {
    pub id: nat,
    pub data: Seq<u8>,
}

impl View for Record {
    type V = RecordV;

    open spec fn view(&self) -> RecordV {
        RecordV { id: self.id as nat, data: self.data@ }
    }
}

/// The values of a sequence of records.
pub open spec fn views_of(rs: Seq<Record>) -> Seq<RecordV> {
    rs.map_values(|r: Record| r@)
}

/// A record value whose serialized form a machine can address: the id
/// fits a machine word, and the data leaves room for the field tags and
/// length prefixes, so the body length itself parses back as a varint.
pub open spec fn record_fits(r: RecordV) -> bool {
    r.id <= u64::MAX && r.data.len() + 32 <= u64::MAX
}

pub open spec fn records_fit(rs: Seq<RecordV>) -> bool {
    forall|i: int| 0 <= i < rs.len() ==> record_fits(#[trigger] rs[i])
}

/// Base-128 varint encoding, least significant group first.
pub open spec fn varint(n: nat) -> Seq<u8>
    decreases n,
{
    if n < 128 {
        seq![n as u8]
    } else {
        seq![((n % 128) + 128) as u8] + varint(n / 128)
    }
}

/// Reads one varint from the front: the value and the bytes consumed.
/// As on the wire, a varint spans at most ten bytes and holds a value a
/// machine word can hold; anything longer or larger is rejected.
pub open spec fn parse_varint(d: Seq<u8>) -> Option<(nat, nat)>
    decreases d.len(),
{
    if d.len() == 0 {
        None
    } else if d[0] < 128 {
        Some((d[0] as nat, 1))
    } else {
        match parse_varint(d.skip(1)) {
            Some(vk) => {
                if vk.1 + 1 <= 10 && (d[0] - 128) + 128 * vk.0 <= u64::MAX {
                    Some((((d[0] - 128) + 128 * vk.0) as nat, vk.1 + 1))
                } else {
                    None
                }
            },
            None => None,
        }
    }
}

/// The serialized body of a record: its fields, defaults omitted.
pub open spec fn record_body(r: RecordV) -> Seq<u8> {
    (if r.id != 0 {
        seq![8u8] + varint(r.id)
    } else {
        Seq::<u8>::empty()
    }) + (if r.data.len() != 0 {
        seq![0x12u8] + varint(r.data.len()) + r.data
    } else {
        Seq::<u8>::empty()
    })
}

/// The full serialized form: body length as a varint, then the body.
pub open spec fn record_encoding(r: RecordV) -> Seq<u8> {
    varint(record_body(r).len() as nat) + record_body(r)
}

/// The concatenated serialized forms of a sequence of records.
pub open spec fn encoded_seq(rs: Seq<RecordV>) -> Seq<u8>
    decreases rs.len(),
{
    if rs.len() == 0 {
        Seq::<u8>::empty()
    } else {
        record_encoding(rs[0]) + encoded_seq(rs.skip(1))
    }
}

pub open spec fn empty_record() -> RecordV {
    RecordV { id: 0, data: Seq::<u8>::empty() }
}

/// Reads the fields of one record body, front to back; a later occurrence
/// of a field overrides an earlier one. Unknown tags are rejected.
pub open spec fn parse_fields(d: Seq<u8>, acc: RecordV) -> Option<RecordV>
    decreases d.len(),
{
    if d.len() == 0 {
        Some(acc)
    } else if d[0] == 8 {
        match parse_varint(d.skip(1)) {
            Some(vk) => {
                if 1 + vk.1 <= d.len() {
                    parse_fields(d.skip(1 + vk.1 as int), RecordV { id: vk.0, data: acc.data })
                } else {
                    None
                }
            },
            None => None,
        }
    } else if d[0] == 0x12 {
        match parse_varint(d.skip(1)) {
            Some(lk) => {
                if 1 + lk.1 + lk.0 <= d.len() {
                    parse_fields(
                        d.skip(1 + lk.1 + lk.0 as int),
                        RecordV { id: acc.id, data: d.subrange(1 + lk.1 as int, 1 + lk.1 + lk.0 as int) },
                    )
                } else {
                    None
                }
            },
            None => None,
        }
    } else {
        None
    }
}

/// Reads one length-delimited record from the front: the record and the
/// bytes consumed.
pub open spec fn parse_record(d: Seq<u8>) -> Option<(RecordV, nat)> {
    match parse_varint(d) {
        Some(lk) => {
            if lk.1 + lk.0 <= d.len() {
                match parse_fields(d.subrange(lk.1 as int, lk.1 + lk.0 as int), empty_record()) {
                    Some(r) => Some((r, lk.1 + lk.0)),
                    None => None,
                }
            } else {
                None
            }
        },
        None => None,
    }
}

/// Reads length-delimited records until the bytes are exhausted.
pub open spec fn parse_all(d: Seq<u8>) -> Option<Seq<RecordV>>
    decreases d.len(),
{
    if d.len() == 0 {
        Some(Seq::<RecordV>::empty())
    } else {
        match parse_record(d) {
            Some(rn) => {
                if 1 <= rn.1 && rn.1 <= d.len() {
                    match parse_all(d.skip(rn.1 as int)) {
                        Some(rs) => Some(seq![rn.0] + rs),
                        None => None,
                    }
                } else {
                    None
                }
            },
            None => None,
        }
    }
}

/// 128 raised to a power: the least value a varint of a given length
/// cannot reach.
pub open spec fn exp128(k: nat) -> nat
    decreases k,
{
    if k == 0 {
        1nat
    } else {
        128 * exp128((k - 1) as nat)
    }
}

proof fn lemma_varint_len_le(n: nat, k: nat)
    requires
        k >= 1,
        n < exp128(k),
    ensures
        1 <= varint(n).len() <= k,
    decreases k,
{
    if n >= 128 {
        assert(exp128(k) == 128 * exp128((k - 1) as nat));
        if k == 1 {
            assert(exp128(1) == 128 * exp128(0));
            assert(false);
        }
        assert(n / 128 < exp128((k - 1) as nat)) by (nonlinear_arith)
            requires
                n < 128 * exp128((k - 1) as nat),
        ;
        lemma_varint_len_le(n / 128, (k - 1) as nat);
    }
}

/// A varint of a value that a machine word holds spans at most ten bytes.
proof fn lemma_varint_len_10(n: nat)
    requires
        n <= u64::MAX,
    ensures
        1 <= varint(n).len() <= 10,
{
    reveal_with_fuel(exp128, 11);
    assert(exp128(10) == 0x400000000000000000);
    lemma_varint_len_le(n, 10);
}

proof fn lemma_body_len(r: RecordV)
    requires
        record_fits(r),
    ensures
        record_body(r).len() <= 22 + r.data.len(),
{
    if r.id != 0 {
        lemma_varint_len_10(r.id);
    }
    if r.data.len() != 0 {
        lemma_varint_len_10(r.data.len());
    }
}

/// Parsing a varint from the front of a buffer reads back the value that
/// was encoded, however the buffer continues.
proof fn lemma_varint_round_trip(n: nat, rest: Seq<u8>)
    requires
        n <= u64::MAX,
    ensures
        parse_varint(varint(n) + rest) == Some((n, varint(n).len() as nat)),
    decreases n,
{
    let d = varint(n) + rest;
    if n < 128 {
        assert(d[0] == n as u8);
    } else {
        assert(d[0] == ((n % 128) + 128) as u8);
        assert(d.skip(1) =~= varint(n / 128) + rest);
        lemma_varint_round_trip(n / 128, rest);
        lemma_varint_len_10(n);
        assert(varint(n / 128).len() + 1 <= 10);
        assert(n == 128 * (n / 128) + n % 128) by (nonlinear_arith);
        assert((d[0] - 128) + 128 * (n / 128) == n);
    }
}

/// An id field at the front of a body is read into the accumulator and
/// the rest of the body is parsed on.
proof fn lemma_parse_id_field(id: nat, tail: Seq<u8>, acc: RecordV)
    requires
        id <= u64::MAX,
    ensures
        parse_fields(seq![8u8] + varint(id) + tail, acc)
            == parse_fields(tail, RecordV { id: id, data: acc.data }),
{
    let d = seq![8u8] + varint(id) + tail;
    assert(d[0] == 8);
    assert(d.skip(1) =~= varint(id) + tail);
    lemma_varint_round_trip(id, tail);
    let k = varint(id).len() as nat;
    lemma_varint_len_10(id);
    assert(1 + k <= d.len());
    assert(d.skip(1 + k as int) =~= tail);
}

/// A data field at the front of a body is read into the accumulator and
/// the rest of the body is parsed on.
proof fn lemma_parse_data_field(data: Seq<u8>, tail: Seq<u8>, acc: RecordV)
    requires
        data.len() <= u64::MAX,
    ensures
        parse_fields(seq![0x12u8] + varint(data.len()) + data + tail, acc)
            == parse_fields(tail, RecordV { id: acc.id, data: data }),
{
    let d = seq![0x12u8] + varint(data.len()) + data + tail;
    assert(d[0] == 0x12);
    assert(d.skip(1) =~= varint(data.len()) + (data + tail));
    lemma_varint_round_trip(data.len(), data + tail);
    let k = varint(data.len()).len() as nat;
    lemma_varint_len_10(data.len());
    assert(parse_varint(d.skip(1)) == Some((data.len(), k)));
    assert(1 + k + data.len() <= d.len());
    assert(d.subrange(1 + k as int, 1 + k + data.len() as int) =~= data);
    assert(d.skip(1 + k + data.len() as int) =~= tail);
}

/// Parsing a serialized body reconstructs the record it came from.
proof fn lemma_parse_body(r: RecordV)
    requires
        record_fits(r),
    ensures
        parse_fields(record_body(r), empty_record()) == Some(r),
{
    let body = record_body(r);
    if r.id != 0 {
        if r.data.len() != 0 {
            assert(body =~= seq![8u8] + varint(r.id) + (seq![0x12u8] + varint(r.data.len()) + r.data));
            lemma_parse_id_field(r.id, seq![0x12u8] + varint(r.data.len()) + r.data, empty_record());
            let acc1 = RecordV { id: r.id, data: Seq::<u8>::empty() };
            assert(seq![0x12u8] + varint(r.data.len()) + r.data
                =~= seq![0x12u8] + varint(r.data.len()) + r.data + Seq::<u8>::empty());
            lemma_parse_data_field(r.data, Seq::<u8>::empty(), acc1);
            assert(RecordV { id: acc1.id, data: r.data } == r);
        } else {
            assert(body =~= seq![8u8] + varint(r.id) + Seq::<u8>::empty());
            lemma_parse_id_field(r.id, Seq::<u8>::empty(), empty_record());
            assert(RecordV { id: r.id, data: empty_record().data } =~= r);
        }
    } else {
        if r.data.len() != 0 {
            assert(body =~= seq![0x12u8] + varint(r.data.len()) + r.data + Seq::<u8>::empty());
            lemma_parse_data_field(r.data, Seq::<u8>::empty(), empty_record());
            assert(RecordV { id: empty_record().id, data: r.data } == r);
        } else {
            assert(body =~= Seq::<u8>::empty());
            assert(empty_record() =~= r);
        }
    }
}

/// Parsing one record from the front of a buffer reads back the record
/// that was encoded, however the buffer continues.
proof fn lemma_record_round_trip(r: RecordV, rest: Seq<u8>)
    requires
        record_fits(r),
    ensures
        parse_record(record_encoding(r) + rest)
            == Some((r, record_encoding(r).len() as nat)),
{
    let body = record_body(r);
    lemma_body_len(r);
    let d = record_encoding(r) + rest;
    assert(d =~= varint(body.len()) + (body + rest));
    lemma_varint_round_trip(body.len(), body + rest);
    let k = varint(body.len()).len() as nat;
    lemma_varint_len_10(body.len());
    assert(parse_varint(d) == Some((body.len(), k)));
    assert(k + body.len() <= d.len());
    assert(d.subrange(k as int, k + body.len() as int) =~= body);
    lemma_parse_body(r);
}

proof fn lemma_record_encoding_len(r: RecordV)
    requires
        record_fits(r),
    ensures
        1 <= record_encoding(r).len(),
{
    lemma_body_len(r);
    lemma_varint_len_10(record_body(r).len());
}

/// Appending one record to a sequence appends its serialized form.
pub proof fn lemma_encoded_seq_snoc(rs: Seq<RecordV>, r: RecordV)
    ensures
        encoded_seq(rs + seq![r]) == encoded_seq(rs) + record_encoding(r),
    decreases rs.len(),
{
    let s = rs + seq![r];
    if rs.len() == 0 {
        assert(s =~= seq![r]);
        assert(encoded_seq(Seq::<RecordV>::empty()) == Seq::<u8>::empty());
        assert(s.skip(1) =~= Seq::<RecordV>::empty());
        assert(encoded_seq(s) == record_encoding(s[0]) + encoded_seq(s.skip(1)));
        assert(encoded_seq(s) =~= encoded_seq(rs) + record_encoding(r));
    } else {
        assert(s[0] == rs[0]);
        assert(s.skip(1) =~= rs.skip(1) + seq![r]);
        assert(encoded_seq(s) == record_encoding(s[0]) + encoded_seq(s.skip(1)));
        lemma_encoded_seq_snoc(rs.skip(1), r);
        assert(encoded_seq(rs) == record_encoding(rs[0]) + encoded_seq(rs.skip(1)));
        assert(encoded_seq(s) =~= encoded_seq(rs) + record_encoding(r));
    }
}

/// Round trip: the concatenated serialized forms of any sequence of
/// records parse back to exactly that sequence — every record, in order,
/// none dropped, duplicated, reordered or split.
pub proof fn lemma_round_trip(rs: Seq<RecordV>)
    requires
        records_fit(rs),
    ensures
        parse_all(encoded_seq(rs)) == Some(rs),
    decreases rs.len(),
{
    if rs.len() == 0 {
    } else {
        let d = encoded_seq(rs);
        assert(record_fits(rs[0]));
        lemma_record_round_trip(rs[0], encoded_seq(rs.skip(1)));
        lemma_record_encoding_len(rs[0]);
        let n = record_encoding(rs[0]).len() as nat;
        assert(parse_record(d) == Some((rs[0], n)));
        assert(d.skip(n as int) =~= encoded_seq(rs.skip(1)));
        assert(records_fit(rs.skip(1))) by {
            assert(forall|i: int| 0 <= i < rs.skip(1).len()
                ==> #[trigger] rs.skip(1)[i] == rs[i + 1]);
        }
        lemma_round_trip(rs.skip(1));
        assert(seq![rs[0]] + rs.skip(1) =~= rs);
    }
}

/// Appends the varint encoding of a value to a buffer.
pub(crate) fn encode_varint(n: u64, out: &mut Vec<u8>)
    ensures
        final(out)@ == old(out)@ + varint(n as nat),
    decreases n,
{
    if n < 128 {
        out.push(n as u8);
        assert(out@ =~= old(out)@ + varint(n as nat));
    } else {
        out.push((n % 128 + 128) as u8);
        encode_varint(n / 128, out);
        assert(out@ =~= old(out)@ + varint(n as nat));
    }
}

impl Record {
    /// Appends the serialized body of this record to a buffer.
    pub(crate) fn encode_body(&self, out: &mut Vec<u8>)
        ensures
            final(out)@ == old(out)@ + record_body(self@),
    {
        if self.id != 0 {
            out.push(8u8);
            encode_varint(self.id, out);
        }
        let ghost mid = out@;
        if self.data.len() != 0 {
            out.push(0x12u8);
            encode_varint(self.data.len() as u64, out);
            let ghost base = out@;
            let mut i: usize = 0;
            while i < self.data.len()
                invariant
                    i <= self.data@.len(),
                    out@ == base + self.data@.subrange(0, i as int),
                decreases self.data@.len() - i,
            {
                out.push(self.data[i]);
                i = i + 1;
                assert(out@ =~= base + self.data@.subrange(0, i as int));
            }
            assert(self.data@.subrange(0, self.data@.len() as int) =~= self.data@);
            assert(out@ =~= mid + (seq![0x12u8] + varint(self@.data.len()) + self@.data));
        }
        assert(out@ =~= old(out)@ + record_body(self@));
    }
}

/// Reads one varint between two positions of a buffer.
pub(crate) fn decode_varint(buf: &[u8], pos: usize, end: usize) -> (r: Result<(u64, usize), Error>)
    requires
        pos <= end && end <= buf@.len(),
    ensures
        match r {
            Ok(vp) => {
                &&& pos < vp.1 <= end
                &&& parse_varint(buf@.subrange(pos as int, end as int))
                    == Some((vp.0 as nat, (vp.1 - pos) as nat))
            },
            Err(e) => {
                &&& parse_varint(buf@.subrange(pos as int, end as int)) is None
                &&& e is ProstDecode
            },
        },
    decreases end - pos,
{
    if pos == end {
        Err(Error::ProstDecode)
    } else {
        let b = buf[pos];
        assert(buf@.subrange(pos as int, end as int)[0] == b);
        if b < 128 {
            Ok((b as u64, pos + 1))
        } else {
            let rec = decode_varint(buf, pos + 1, end);
            proof {
                assert(buf@.subrange(pos as int + 1, end as int)
                    =~= buf@.subrange(pos as int, end as int).skip(1));
            }
            match rec {
                Ok((v, next)) => {
                    let low = (b - 128) as u64;
                    proof {
                        assert((v <= (u64::MAX - low) / 128) == (low + 128 * v <= u64::MAX))
                            by (nonlinear_arith)
                            requires
                                low < 128,
                        ;
                    }
                    if next - pos <= 10 && v <= (u64::MAX - low) / 128 {
                        Ok((low + 128 * v, next))
                    } else {
                        Err(Error::ProstDecode)
                    }
                },
                Err(e) => Err(e),
            }
        }
    }
}

/// Reads one length-delimited record starting at a position of a buffer.
#[verifier::loop_isolation(false)]
pub(crate) fn decode_record(buf: &[u8], pos: usize) -> (r: Result<(Record, usize), Error>)
    requires
        pos <= buf@.len(),
    ensures
        match r {
            Ok(rp) => {
                &&& pos < rp.1 <= buf@.len()
                &&& parse_record(buf@.skip(pos as int)) == Some((rp.0@, (rp.1 - pos) as nat))
            },
            Err(e) => {
                &&& parse_record(buf@.skip(pos as int)) is None
                &&& e is ProstDecode
            },
        },
{
    let ghost d = buf@.skip(pos as int);
    proof {
        assert(d =~= buf@.subrange(pos as int, buf@.len() as int));
    }
    let total = buf.len();
    let (l, p1) = match decode_varint(buf, pos, total) {
        Ok(x) => x,
        Err(e) => {
            return Err(e);
        },
    };
    if l > (total - p1) as u64 {
        return Err(Error::ProstDecode);
    }
    let end = p1 + (l as usize);
    let ghost seg = buf@.subrange(p1 as int, end as int);
    proof {
        let lk = parse_varint(d)->Some_0;
        assert(lk == ((l as nat, (p1 - pos) as nat)));
        assert(d.subrange(lk.1 as int, lk.1 + lk.0 as int) =~= seg);
    }
    let mut id: u64 = 0;
    let mut data: Vec<u8> = Vec::new();
    let mut p = p1;
    while p < end
        invariant
            pos <= p1 <= p <= end <= buf@.len(),
            parse_fields(buf@.subrange(p as int, end as int), RecordV { id: id as nat, data: data@ })
                == parse_fields(buf@.subrange(p1 as int, end as int), empty_record()),
        decreases end - p,
    {
        let ghost rem = buf@.subrange(p as int, end as int);
        let ghost acc = RecordV { id: id as nat, data: data@ };
        let b = buf[p];
        assert(rem[0] == b);
        proof {
            assert(rem.skip(1) =~= buf@.subrange(p as int + 1, end as int));
        }
        if b == 8 {
            match decode_varint(buf, p + 1, end) {
                Ok((v, next)) => {
                    proof {
                        assert(rem.skip(1 + ((next - (p + 1)) as nat) as int)
                            =~= buf@.subrange(next as int, end as int));
                    }
                    id = v;
                    p = next;
                },
                Err(e) => {
                    assert(parse_fields(rem, acc) is None);
                    return Err(e);
                },
            }
        } else if b == 0x12 {
            match decode_varint(buf, p + 1, end) {
                Ok((l2, next)) => {
                    if l2 > (end - next) as u64 {
                        assert(parse_fields(rem, acc) is None);
                        return Err(Error::ProstDecode);
                    }
                    let dend = next + (l2 as usize);
                    let ghost k = (next - (p + 1)) as nat;
                    proof {
                        assert(rem.subrange(1 + k as int, 1 + k + (l2 as nat) as int)
                            =~= buf@.subrange(next as int, dend as int));
                        assert(rem.skip(1 + k + (l2 as nat) as int)
                            =~= buf@.subrange(dend as int, end as int));
                    }
                    let mut nd: Vec<u8> = Vec::new();
                    let mut j = next;
                    while j < dend
                        invariant
                            next <= j <= dend <= buf@.len(),
                            nd@ == buf@.subrange(next as int, j as int),
                        decreases dend - j,
                    {
                        nd.push(buf[j]);
                        j = j + 1;
                        assert(nd@ =~= buf@.subrange(next as int, j as int));
                    }
                    data = nd;
                    p = dend;
                },
                Err(e) => {
                    assert(parse_fields(rem, acc) is None);
                    return Err(e);
                },
            }
        } else {
            assert(parse_fields(rem, acc) is None);
            return Err(Error::ProstDecode);
        }
    }
    proof {
        assert(buf@.subrange(end as int, end as int) =~= Seq::<u8>::empty());
        assert(parse_fields(buf@.subrange(p1 as int, end as int), empty_record())
            == Some(RecordV { id: id as nat, data: data@ }));
    }
    let rec = Record { id, data };
    assert(parse_record(d) == Some((rec@, (end - pos) as nat)));
    Ok((rec, end))
}

} // verus!
