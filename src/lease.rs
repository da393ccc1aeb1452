use vstd::prelude::*;

use crate::codec::{
    at, bool_bytes, i64_bytes, lemma_at_concat, lemma_bool_at, lemma_i64_bytes_len,
    lemma_i64_unique, lemma_text_unique, read_bool, read_i64, read_key, read_text, text_bytes,
    text_fits, write_bool, write_i64, write_key, write_text,
};
use crate::pubkey::Pubkey;

verus! {

/// A time-bounded grant of a domain within a zone.
#[derive(Clone, Debug, PartialEq, Eq)]
pub struct Lease {
    pub zone_account: Pubkey,
    pub owner: Pubkey,
    pub domain: String,
    pub expiration: i64,
    pub expired: bool,
}

pub struct LeaseView {
    pub zone_account: Seq<u8>,
    pub owner: Seq<u8>,
    pub domain: Seq<char>,
    pub expiration: i64,
    pub expired: bool,
}

impl View for Lease {
    type V = LeaseView;

    open spec fn view(&self) -> LeaseView {
        LeaseView {
            zone_account: self.zone_account@,
            owner: self.owner@,
            domain: self.domain@,
            expiration: self.expiration,
            expired: self.expired,
        }
    }
}

/// A lease that has an encoding: 32-byte keys and a domain that fits its
/// length prefix.
pub open spec fn lease_wf(l: LeaseView) -> bool {
    l.zone_account.len() == 32 && l.owner.len() == 32 && text_fits(l.domain)
}

/// The stored form of a lease, its fields in declaration order.
pub open spec fn lease_bytes(l: LeaseView) -> Seq<u8> {
    l.zone_account + l.owner + text_bytes(l.domain) + i64_bytes(l.expiration) + bool_bytes(
        l.expired,
    )
}

/// Where a lease is encoded at `pos`, each field is encoded at its offset.
pub proof fn lemma_lease_fields(b: Seq<u8>, pos: int, l: LeaseView)
    requires
        at(b, pos, lease_bytes(l)),
        l.zone_account.len() == 32,
        l.owner.len() == 32,
    ensures
        at(b, pos, l.zone_account),
        at(b, pos + 32, l.owner),
        at(b, pos + 64, text_bytes(l.domain)),
        at(b, pos + 64 + text_bytes(l.domain).len(), i64_bytes(l.expiration)),
        at(b, pos + 72 + text_bytes(l.domain).len(), bool_bytes(l.expired)),
        lease_bytes(l).len() == 73 + text_bytes(l.domain).len(),
{
    lemma_i64_bytes_len(l.expiration);
    let f1 = l.zone_account;
    let f2 = f1 + l.owner;
    let f3 = f2 + text_bytes(l.domain);
    let f4 = f3 + i64_bytes(l.expiration);
    lemma_at_concat(b, pos, f4, bool_bytes(l.expired));
    lemma_at_concat(b, pos, f3, i64_bytes(l.expiration));
    lemma_at_concat(b, pos, f2, text_bytes(l.domain));
    lemma_at_concat(b, pos, f1, l.owner);
}

/// At most one lease is encoded at a given position.
pub proof fn lemma_lease_unique(b: Seq<u8>, pos: int, x: LeaseView, y: LeaseView)
    requires
        lease_wf(x),
        lease_wf(y),
        at(b, pos, lease_bytes(x)),
        at(b, pos, lease_bytes(y)),
    ensures
        x == y,
{
    lemma_lease_fields(b, pos, x);
    lemma_lease_fields(b, pos, y);
    lemma_text_unique(b, pos + 64, x.domain, y.domain);
    let t = text_bytes(x.domain).len();
    lemma_i64_unique(b, pos + 64 + t, x.expiration, y.expiration);
    lemma_bool_at(b, pos + 72 + t, x.expired);
    lemma_bool_at(b, pos + 72 + t, y.expired);
    assert(x.zone_account == y.zone_account);
    assert(x.owner == y.owner);
}

/// The lease that a payload of exactly these bytes decodes to, if any.
pub open spec fn lease_payload(p: Seq<u8>) -> Option<LeaseView> {
    if exists|l: LeaseView| lease_wf(l) && lease_bytes(l) == p {
        Some(choose|l: LeaseView| lease_wf(l) && lease_bytes(l) == p)
    } else {
        None
    }
}

/// The lease that an account buffer holds after its leading tag byte, if any.
/// Bytes past the lease are not looked at.
pub open spec fn stored_lease(buf: Seq<u8>) -> Option<LeaseView> {
    if exists|l: LeaseView| lease_wf(l) && #[trigger] at(buf, 1, lease_bytes(l)) {
        Some(choose|l: LeaseView| lease_wf(l) && #[trigger] at(buf, 1, lease_bytes(l)))
    } else {
        None
    }
}

/// A payload that encodes a lease decodes to that lease.
pub proof fn lemma_lease_payload(p: Seq<u8>, l: LeaseView)
    requires
        lease_wf(l),
        lease_bytes(l) == p,
    ensures
        lease_payload(p) == Some(l),
{
    let c = choose|c: LeaseView| lease_wf(c) && lease_bytes(c) == p;
    assert(p.subrange(0, p.len() as int) =~= p);
    lemma_lease_unique(p, 0, c, l);
}

/// A buffer that holds a lease after its tag byte yields that lease.
pub proof fn lemma_stored_lease(buf: Seq<u8>, l: LeaseView)
    requires
        lease_wf(l),
        at(buf, 1, lease_bytes(l)),
    ensures
        stored_lease(buf) == Some(l),
{
    let c = choose|c: LeaseView| lease_wf(c) && #[trigger] at(buf, 1, lease_bytes(c));
    lemma_lease_unique(buf, 1, c, l);
}

impl Lease {
    pub open spec fn wf(&self) -> bool {
        lease_wf(self@)
    }

    /// The stored form of this lease.
    pub fn encode(&self) -> (r: Vec<u8>)
        requires
            self.wf(),
        ensures
            r@ == lease_bytes(self@),
    {
        let mut out: Vec<u8> = Vec::new();
        write_key(&mut out, &self.zone_account);
        write_key(&mut out, &self.owner);
        write_text(&mut out, &self.domain);
        write_i64(&mut out, self.expiration);
        write_bool(&mut out, self.expired);
        assert(out@ =~= lease_bytes(self@));
        out
    }

    /// Decodes the lease encoded at `pos`, with the position just past it;
    /// fails exactly where no lease is encoded there.
    pub fn decode_at(b: &[u8], pos: usize) -> (r: Option<(Lease, usize)>)
        ensures
            r.is_some() ==> ({
                let (l, next) = r.unwrap();
                &&& l.wf()
                &&& at(b@, pos as int, lease_bytes(l@))
                &&& next == pos + lease_bytes(l@).len()
            }),
            r.is_none() ==> forall|l: LeaseView|
                lease_wf(l) ==> !#[trigger] at(b@, pos as int, lease_bytes(l)),
    {
        proof {
            assert(b@.len() == b.len());
        }
        let zone_account = match read_key(b, pos) {
            Some(k) => k,
            None => {
                proof {
                    assert forall|l: LeaseView| lease_wf(l) implies !#[trigger] at(
                        b@,
                        pos as int,
                        lease_bytes(l),
                    ) by {
                        if at(b@, pos as int, lease_bytes(l)) {
                            lemma_lease_fields(b@, pos as int, l);
                        }
                    }
                }
                return None;
            },
        };
        let owner = match read_key(b, pos + 32) {
            Some(k) => k,
            None => {
                proof {
                    assert forall|l: LeaseView| lease_wf(l) implies !#[trigger] at(
                        b@,
                        pos as int,
                        lease_bytes(l),
                    ) by {
                        if at(b@, pos as int, lease_bytes(l)) {
                            lemma_lease_fields(b@, pos as int, l);
                        }
                    }
                }
                return None;
            },
        };
        let (domain, p) = match read_text(b, pos + 64) {
            Some(t) => t,
            None => {
                proof {
                    assert forall|l: LeaseView| lease_wf(l) implies !#[trigger] at(
                        b@,
                        pos as int,
                        lease_bytes(l),
                    ) by {
                        if at(b@, pos as int, lease_bytes(l)) {
                            lemma_lease_fields(b@, pos as int, l);
                        }
                    }
                }
                return None;
            },
        };
        let expiration = match read_i64(b, p) {
            Some(v) => v,
            None => {
                proof {
                    assert forall|l: LeaseView| lease_wf(l) implies !#[trigger] at(
                        b@,
                        pos as int,
                        lease_bytes(l),
                    ) by {
                        if at(b@, pos as int, lease_bytes(l)) {
                            lemma_lease_fields(b@, pos as int, l);
                            lemma_text_unique(b@, pos + 64, l.domain, domain@);
                            lemma_i64_bytes_len(l.expiration);
                        }
                    }
                }
                return None;
            },
        };
        let expired = match read_bool(b, p + 8) {
            Some(v) => v,
            None => {
                proof {
                    assert forall|l: LeaseView| lease_wf(l) implies !#[trigger] at(
                        b@,
                        pos as int,
                        lease_bytes(l),
                    ) by {
                        if at(b@, pos as int, lease_bytes(l)) {
                            lemma_lease_fields(b@, pos as int, l);
                            lemma_text_unique(b@, pos + 64, l.domain, domain@);
                            lemma_bool_at(b@, p + 8, l.expired);
                        }
                    }
                }
                return None;
            },
        };
        let l = Lease { zone_account, owner, domain, expiration, expired };
        proof {
            let f1 = l@.zone_account;
            let f2 = f1 + l@.owner;
            let f3 = f2 + text_bytes(domain@);
            let f4 = f3 + i64_bytes(expiration);
            lemma_i64_bytes_len(expiration);
            lemma_at_concat(b@, pos as int, f1, l@.owner);
            lemma_at_concat(b@, pos as int, f2, text_bytes(domain@));
            lemma_at_concat(b@, pos as int, f3, i64_bytes(expiration));
            lemma_at_concat(b@, pos as int, f4, bool_bytes(expired));
        }
        Some((l, p + 9))
    }

    /// Decodes a lease that takes up all of `b`, as an instruction payload
    /// does; fails exactly where `b` is not the encoding of a lease.
    pub fn decode(b: &[u8]) -> (r: Option<Lease>)
        ensures
            r.is_some() ==> r.unwrap().wf() && lease_bytes(r.unwrap()@) == b@,
            r.is_none() ==> forall|l: LeaseView| lease_wf(l) ==> lease_bytes(l) != b@,
    {
        match Lease::decode_at(b, 0) {
            Some((l, next)) => {
                if next == b.len() {
                    assert(b@.subrange(0, next as int) =~= b@);
                    Some(l)
                } else {
                    proof {
                        assert forall|y: LeaseView| lease_wf(y) implies lease_bytes(y) != b@ by {
                            if lease_bytes(y) == b@ {
                                assert(b@.subrange(0, b@.len() as int) =~= b@);
                                lemma_lease_unique(b@, 0, y, l@);
                            }
                        }
                    }
                    None
                }
            },
            None => {
                proof {
                    assert forall|y: LeaseView| lease_wf(y) implies lease_bytes(y) != b@ by {
                        if lease_bytes(y) == b@ {
                            assert(b@.subrange(0, b@.len() as int) =~= b@);
                            assert(at(b@, 0, lease_bytes(y)));
                        }
                    }
                }
                None
            },
        }
    }
}

} // verus!
