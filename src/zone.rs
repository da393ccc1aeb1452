use vstd::prelude::*;

use crate::codec::{
    at, bool_bytes, i64_bytes, lemma_at_concat, lemma_bool_at, lemma_i64_bytes_len, lemma_i64_unique,
    lemma_text_unique, read_bool, read_i64, read_key, read_text, text_bytes, text_fits, write_bool,
    write_i64, write_key, write_text,
};
use crate::pubkey::Pubkey;

verus! {

/// A namespace that a party controls, with its leasing price and floor.
#[derive(Clone, Debug, PartialEq, Eq)]
pub struct Zone {
    pub owner: Pubkey,
    pub lamports_per_second: i64,
    pub min_lease_duration_secs: i64,
    pub domain: String,
    pub subdivided: bool,
}

pub struct ZoneView {
    pub owner: Seq<u8>,
    pub lamports_per_second: i64,
    pub min_lease_duration_secs: i64,
    pub domain: Seq<char>,
    pub subdivided: bool,
}

impl View for Zone {
    type V = ZoneView;

    open spec fn view(&self) -> ZoneView {
        ZoneView {
            owner: self.owner@,
            lamports_per_second: self.lamports_per_second,
            min_lease_duration_secs: self.min_lease_duration_secs,
            domain: self.domain@,
            subdivided: self.subdivided,
        }
    }
}

/// A zone that has an encoding: a 32-byte owner and a domain that fits its
/// length prefix.
pub open spec fn zone_wf(z: ZoneView) -> bool {
    z.owner.len() == 32 && text_fits(z.domain)
}

/// The stored form of a zone, its fields in declaration order.
pub open spec fn zone_bytes(z: ZoneView) -> Seq<u8> {
    z.owner + i64_bytes(z.lamports_per_second) + i64_bytes(z.min_lease_duration_secs) + text_bytes(
        z.domain,
    ) + bool_bytes(z.subdivided)
}

/// Where a zone is encoded at `pos`, each field is encoded at its offset.
pub proof fn lemma_zone_fields(b: Seq<u8>, pos: int, z: ZoneView)
    requires
        at(b, pos, zone_bytes(z)),
        z.owner.len() == 32,
    ensures
        at(b, pos, z.owner),
        at(b, pos + 32, i64_bytes(z.lamports_per_second)),
        at(b, pos + 40, i64_bytes(z.min_lease_duration_secs)),
        at(b, pos + 48, text_bytes(z.domain)),
        at(b, pos + 48 + text_bytes(z.domain).len(), bool_bytes(z.subdivided)),
        zone_bytes(z).len() == 49 + text_bytes(z.domain).len(),
{
    lemma_i64_bytes_len(z.lamports_per_second);
    lemma_i64_bytes_len(z.min_lease_duration_secs);
    let f1 = z.owner;
    let f2 = f1 + i64_bytes(z.lamports_per_second);
    let f3 = f2 + i64_bytes(z.min_lease_duration_secs);
    let f4 = f3 + text_bytes(z.domain);
    lemma_at_concat(b, pos, f4, bool_bytes(z.subdivided));
    lemma_at_concat(b, pos, f3, text_bytes(z.domain));
    lemma_at_concat(b, pos, f2, i64_bytes(z.min_lease_duration_secs));
    lemma_at_concat(b, pos, f1, i64_bytes(z.lamports_per_second));
}

/// At most one zone is encoded at a given position.
pub proof fn lemma_zone_unique(b: Seq<u8>, pos: int, x: ZoneView, y: ZoneView)
    requires
        zone_wf(x),
        zone_wf(y),
        at(b, pos, zone_bytes(x)),
        at(b, pos, zone_bytes(y)),
    ensures
        x == y,
{
    lemma_zone_fields(b, pos, x);
    lemma_zone_fields(b, pos, y);
    lemma_i64_unique(b, pos + 32, x.lamports_per_second, y.lamports_per_second);
    lemma_i64_unique(b, pos + 40, x.min_lease_duration_secs, y.min_lease_duration_secs);
    lemma_text_unique(b, pos + 48, x.domain, y.domain);
    assert(x.owner == y.owner);
    lemma_bool_at(b, pos + 48 + text_bytes(x.domain).len(), x.subdivided);
    lemma_bool_at(b, pos + 48 + text_bytes(x.domain).len(), y.subdivided);
}

/// The zone that a payload of exactly these bytes decodes to, if any.
pub open spec fn zone_payload(p: Seq<u8>) -> Option<ZoneView> {
    if exists|z: ZoneView| zone_wf(z) && zone_bytes(z) == p {
        Some(choose|z: ZoneView| zone_wf(z) && zone_bytes(z) == p)
    } else {
        None
    }
}

/// A payload that encodes a zone decodes to that zone.
pub proof fn lemma_zone_payload(p: Seq<u8>, z: ZoneView)
    requires
        zone_wf(z),
        zone_bytes(z) == p,
    ensures
        zone_payload(p) == Some(z),
{
    let c = choose|c: ZoneView| zone_wf(c) && zone_bytes(c) == p;
    assert(p.subrange(0, p.len() as int) =~= p);
    lemma_zone_unique(p, 0, c, z);
}

impl Zone {
    pub open spec fn wf(&self) -> bool {
        zone_wf(self@)
    }

    /// The stored form of this zone.
    pub fn encode(&self) -> (r: Vec<u8>)
        requires
            self.wf(),
        ensures
            r@ == zone_bytes(self@),
    {
        let mut out: Vec<u8> = Vec::new();
        write_key(&mut out, &self.owner);
        write_i64(&mut out, self.lamports_per_second);
        write_i64(&mut out, self.min_lease_duration_secs);
        write_text(&mut out, &self.domain);
        write_bool(&mut out, self.subdivided);
        assert(out@ =~= zone_bytes(self@));
        out
    }

    /// Decodes the zone encoded at `pos`, with the position just past it;
    /// fails exactly where no zone is encoded there.
    pub fn decode_at(b: &[u8], pos: usize) -> (r: Option<(Zone, usize)>)
        ensures
            r.is_some() ==> ({
                let (z, next) = r.unwrap();
                &&& z.wf()
                &&& at(b@, pos as int, zone_bytes(z@))
                &&& next == pos + zone_bytes(z@).len()
            }),
            r.is_none() ==> forall|z: ZoneView|
                zone_wf(z) ==> !#[trigger] at(b@, pos as int, zone_bytes(z)),
    {
        proof {
            assert(b@.len() == b.len());
        }
        let owner = match read_key(b, pos) {
            Some(k) => k,
            None => {
                proof {
                    assert forall|z: ZoneView| zone_wf(z) implies !#[trigger] at(
                        b@,
                        pos as int,
                        zone_bytes(z),
                    ) by {
                        if at(b@, pos as int, zone_bytes(z)) {
                            lemma_zone_fields(b@, pos as int, z);
                        }
                    }
                }
                return None;
            },
        };
        let lamports_per_second = match read_i64(b, pos + 32) {
            Some(v) => v,
            None => {
                proof {
                    assert forall|z: ZoneView| zone_wf(z) implies !#[trigger] at(
                        b@,
                        pos as int,
                        zone_bytes(z),
                    ) by {
                        if at(b@, pos as int, zone_bytes(z)) {
                            lemma_zone_fields(b@, pos as int, z);
                            lemma_i64_bytes_len(z.lamports_per_second);
                        }
                    }
                }
                return None;
            },
        };
        let min_lease_duration_secs = match read_i64(b, pos + 40) {
            Some(v) => v,
            None => {
                proof {
                    assert forall|z: ZoneView| zone_wf(z) implies !#[trigger] at(
                        b@,
                        pos as int,
                        zone_bytes(z),
                    ) by {
                        if at(b@, pos as int, zone_bytes(z)) {
                            lemma_zone_fields(b@, pos as int, z);
                            lemma_i64_bytes_len(z.min_lease_duration_secs);
                        }
                    }
                }
                return None;
            },
        };
        let (domain, next) = match read_text(b, pos + 48) {
            Some(t) => t,
            None => {
                proof {
                    assert forall|z: ZoneView| zone_wf(z) implies !#[trigger] at(
                        b@,
                        pos as int,
                        zone_bytes(z),
                    ) by {
                        if at(b@, pos as int, zone_bytes(z)) {
                            lemma_zone_fields(b@, pos as int, z);
                        }
                    }
                }
                return None;
            },
        };
        let subdivided = match read_bool(b, next) {
            Some(v) => v,
            None => {
                proof {
                    assert forall|z: ZoneView| zone_wf(z) implies !#[trigger] at(
                        b@,
                        pos as int,
                        zone_bytes(z),
                    ) by {
                        if at(b@, pos as int, zone_bytes(z)) {
                            lemma_zone_fields(b@, pos as int, z);
                            lemma_text_unique(b@, pos + 48, z.domain, domain@);
                            lemma_bool_at(b@, next as int, z.subdivided);
                        }
                    }
                }
                return None;
            },
        };
        let z = Zone { owner, lamports_per_second, min_lease_duration_secs, domain, subdivided };
        proof {
            let f1 = z@.owner;
            let f2 = f1 + i64_bytes(lamports_per_second);
            let f3 = f2 + i64_bytes(min_lease_duration_secs);
            let f4 = f3 + text_bytes(domain@);
            lemma_i64_bytes_len(lamports_per_second);
            lemma_i64_bytes_len(min_lease_duration_secs);
            lemma_at_concat(b@, pos as int, f1, i64_bytes(lamports_per_second));
            lemma_at_concat(b@, pos as int, f2, i64_bytes(min_lease_duration_secs));
            lemma_at_concat(b@, pos as int, f3, text_bytes(domain@));
            lemma_at_concat(b@, pos as int, f4, bool_bytes(subdivided));
        }
        Some((z, next + 1))
    }

    /// Decodes a zone that takes up all of `b`, as an instruction payload
    /// does; fails exactly where `b` is not the encoding of a zone.
    pub fn decode(b: &[u8]) -> (r: Option<Zone>)
        ensures
            r.is_some() ==> r.unwrap().wf() && zone_bytes(r.unwrap()@) == b@,
            r.is_none() ==> forall|z: ZoneView| zone_wf(z) ==> zone_bytes(z) != b@,
    {
        match Zone::decode_at(b, 0) {
            Some((z, next)) => {
                if next == b.len() {
                    assert(b@.subrange(0, next as int) =~= b@);
                    Some(z)
                } else {
                    proof {
                        assert forall|y: ZoneView| zone_wf(y) implies zone_bytes(y) != b@ by {
                            if zone_bytes(y) == b@ {
                                assert(b@.subrange(0, b@.len() as int) =~= b@);
                                lemma_zone_unique(b@, 0, y, z@);
                            }
                        }
                    }
                    None
                }
            },
            None => {
                proof {
                    assert forall|y: ZoneView| zone_wf(y) implies zone_bytes(y) != b@ by {
                        if zone_bytes(y) == b@ {
                            assert(b@.subrange(0, b@.len() as int) =~= b@);
                            assert(at(b@, 0, zone_bytes(y)));
                        }
                    }
                }
                None
            },
        }
    }
}

} // verus!
