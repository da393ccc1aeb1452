use vstd::prelude::*;

use crate::codec::{
    at, i64_bytes, lemma_at_concat, lemma_i64_bytes_len, lemma_i64_unique, lemma_text_unique,
    read_i64, read_text, text_bytes, text_fits, write_i64, write_text,
};

verus! {

/// A resource record bound to a host name.
#[derive(Clone, Debug, PartialEq, Eq)]
pub struct Record {
    pub host: String,
    pub ttl: i64,
    pub record_type: String,
    pub value: String,
}

pub struct RecordView {
    pub host: Seq<char>,
    pub ttl: i64,
    pub record_type: Seq<char>,
    pub value: Seq<char>,
}

impl View for Record {
    type V = RecordView;

    open spec fn view(&self) -> RecordView {
        RecordView {
            host: self.host@,
            ttl: self.ttl,
            record_type: self.record_type@,
            value: self.value@,
        }
    }
}

/// A record that has an encoding: each text fits its length prefix.
pub open spec fn record_wf(r: RecordView) -> bool {
    text_fits(r.host) && text_fits(r.record_type) && text_fits(r.value)
}

/// The stored form of a record, its fields in declaration order.
pub open spec fn record_bytes(r: RecordView) -> Seq<u8> {
    text_bytes(r.host) + i64_bytes(r.ttl) + text_bytes(r.record_type) + text_bytes(r.value)
}

/// Where a record is encoded at `pos`, each field is encoded at its offset.
pub proof fn lemma_record_fields(b: Seq<u8>, pos: int, r: RecordView)
    requires
        at(b, pos, record_bytes(r)),
    ensures
        at(b, pos, text_bytes(r.host)),
        at(b, pos + text_bytes(r.host).len(), i64_bytes(r.ttl)),
        at(b, pos + text_bytes(r.host).len() + 8, text_bytes(r.record_type)),
        at(
            b,
            pos + text_bytes(r.host).len() + 8 + text_bytes(r.record_type).len(),
            text_bytes(r.value),
        ),
        record_bytes(r).len() == text_bytes(r.host).len() + 8 + text_bytes(r.record_type).len()
            + text_bytes(r.value).len(),
{
    lemma_i64_bytes_len(r.ttl);
    let f1 = text_bytes(r.host);
    let f2 = f1 + i64_bytes(r.ttl);
    let f3 = f2 + text_bytes(r.record_type);
    lemma_at_concat(b, pos, f3, text_bytes(r.value));
    lemma_at_concat(b, pos, f2, text_bytes(r.record_type));
    lemma_at_concat(b, pos, f1, i64_bytes(r.ttl));
}

/// At most one record is encoded at a given position.
pub proof fn lemma_record_unique(b: Seq<u8>, pos: int, x: RecordView, y: RecordView)
    requires
        record_wf(x),
        record_wf(y),
        at(b, pos, record_bytes(x)),
        at(b, pos, record_bytes(y)),
    ensures
        x == y,
{
    lemma_record_fields(b, pos, x);
    lemma_record_fields(b, pos, y);
    lemma_text_unique(b, pos, x.host, y.host);
    let t1 = text_bytes(x.host).len();
    lemma_i64_unique(b, pos + t1, x.ttl, y.ttl);
    lemma_text_unique(b, pos + t1 + 8, x.record_type, y.record_type);
    let t2 = text_bytes(x.record_type).len();
    lemma_text_unique(b, pos + t1 + 8 + t2, x.value, y.value);
}

/// The record that a payload of exactly these bytes decodes to, if any.
pub open spec fn record_payload(p: Seq<u8>) -> Option<RecordView> {
    if exists|r: RecordView| record_wf(r) && record_bytes(r) == p {
        Some(choose|r: RecordView| record_wf(r) && record_bytes(r) == p)
    } else {
        None
    }
}

/// A payload that encodes a record decodes to that record.
pub proof fn lemma_record_payload(p: Seq<u8>, r: RecordView)
    requires
        record_wf(r),
        record_bytes(r) == p,
    ensures
        record_payload(p) == Some(r),
{
    let c = choose|c: RecordView| record_wf(c) && record_bytes(c) == p;
    assert(p.subrange(0, p.len() as int) =~= p);
    lemma_record_unique(p, 0, c, r);
}

impl Record {
    pub open spec fn wf(&self) -> bool {
        record_wf(self@)
    }

    /// The stored form of this record.
    pub fn encode(&self) -> (r: Vec<u8>)
        requires
            self.wf(),
        ensures
            r@ == record_bytes(self@),
    {
        let mut out: Vec<u8> = Vec::new();
        write_text(&mut out, &self.host);
        write_i64(&mut out, self.ttl);
        write_text(&mut out, &self.record_type);
        write_text(&mut out, &self.value);
        assert(out@ =~= record_bytes(self@));
        out
    }

    /// Decodes the record encoded at `pos`, with the position just past it;
    /// fails exactly where no record is encoded there.
    pub fn decode_at(b: &[u8], pos: usize) -> (r: Option<(Record, usize)>)
        ensures
            r.is_some() ==> ({
                let (x, next) = r.unwrap();
                &&& x.wf()
                &&& at(b@, pos as int, record_bytes(x@))
                &&& next == pos + record_bytes(x@).len()
            }),
            r.is_none() ==> forall|x: RecordView|
                record_wf(x) ==> !#[trigger] at(b@, pos as int, record_bytes(x)),
    {
        proof {
            assert(b@.len() == b.len());
        }
        let (host, host_end) = match read_text(b, pos) {
            Some(t) => t,
            None => {
                proof {
                    assert forall|x: RecordView| record_wf(x) implies !#[trigger] at(
                        b@,
                        pos as int,
                        record_bytes(x),
                    ) by {
                        if at(b@, pos as int, record_bytes(x)) {
                            lemma_record_fields(b@, pos as int, x);
                        }
                    }
                }
                return None;
            },
        };
        let ttl = match read_i64(b, host_end) {
            Some(v) => v,
            None => {
                proof {
                    assert forall|x: RecordView| record_wf(x) implies !#[trigger] at(
                        b@,
                        pos as int,
                        record_bytes(x),
                    ) by {
                        if at(b@, pos as int, record_bytes(x)) {
                            lemma_record_fields(b@, pos as int, x);
                            lemma_text_unique(b@, pos as int, x.host, host@);
                            lemma_i64_bytes_len(x.ttl);
                        }
                    }
                }
                return None;
            },
        };
        let (record_type, type_end) = match read_text(b, host_end + 8) {
            Some(t) => t,
            None => {
                proof {
                    assert forall|x: RecordView| record_wf(x) implies !#[trigger] at(
                        b@,
                        pos as int,
                        record_bytes(x),
                    ) by {
                        if at(b@, pos as int, record_bytes(x)) {
                            lemma_record_fields(b@, pos as int, x);
                            lemma_text_unique(b@, pos as int, x.host, host@);
                        }
                    }
                }
                return None;
            },
        };
        let (value, value_end) = match read_text(b, type_end) {
            Some(t) => t,
            None => {
                proof {
                    assert forall|x: RecordView| record_wf(x) implies !#[trigger] at(
                        b@,
                        pos as int,
                        record_bytes(x),
                    ) by {
                        if at(b@, pos as int, record_bytes(x)) {
                            lemma_record_fields(b@, pos as int, x);
                            lemma_text_unique(b@, pos as int, x.host, host@);
                            lemma_text_unique(b@, host_end + 8, x.record_type, record_type@);
                        }
                    }
                }
                return None;
            },
        };
        let x = Record { host, ttl, record_type, value };
        proof {
            let f1 = text_bytes(x@.host);
            let f2 = f1 + i64_bytes(ttl);
            let f3 = f2 + text_bytes(x@.record_type);
            lemma_i64_bytes_len(ttl);
            lemma_at_concat(b@, pos as int, f1, i64_bytes(ttl));
            lemma_at_concat(b@, pos as int, f2, text_bytes(x@.record_type));
            lemma_at_concat(b@, pos as int, f3, text_bytes(x@.value));
        }
        Some((x, value_end))
    }

    /// Decodes a record that takes up all of `b`, as an instruction payload
    /// does; fails exactly where `b` is not the encoding of a record.
    pub fn decode(b: &[u8]) -> (r: Option<Record>)
        ensures
            r.is_some() ==> r.unwrap().wf() && record_bytes(r.unwrap()@) == b@,
            r.is_none() ==> forall|x: RecordView| record_wf(x) ==> record_bytes(x) != b@,
    {
        match Record::decode_at(b, 0) {
            Some((x, next)) => {
                if next == b.len() {
                    assert(b@.subrange(0, next as int) =~= b@);
                    Some(x)
                } else {
                    proof {
                        assert forall|y: RecordView| record_wf(y) implies record_bytes(y) != b@ by {
                            if record_bytes(y) == b@ {
                                assert(b@.subrange(0, b@.len() as int) =~= b@);
                                lemma_record_unique(b@, 0, y, x@);
                            }
                        }
                    }
                    None
                }
            },
            None => {
                proof {
                    assert forall|y: RecordView| record_wf(y) implies record_bytes(y) != b@ by {
                        if record_bytes(y) == b@ {
                            assert(b@.subrange(0, b@.len() as int) =~= b@);
                            assert(at(b@, 0, record_bytes(y)));
                        }
                    }
                }
                None
            },
        }
    }
}

} // verus!
