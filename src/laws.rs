//! Properties that relate the codec and the handlers across calls.
use vstd::prelude::*;

use crate::codec::at;
use crate::lease::{
    lease_bytes, lease_payload, lease_wf, lemma_lease_fields, lemma_lease_payload,
    lemma_stored_lease, stored_lease, LeaseView,
};
use crate::processor::{
    decommission_effect, is_known_tag, lease_effect, leased, normalized, processed, record_effect,
    Account, RegistryError, DISCRIMINATOR_LEASE, DISCRIMINATOR_RECORD, RECORD_TTL,
};
use crate::record::{
    lemma_record_fields, lemma_record_payload, lemma_record_unique, record_bytes, record_payload,
    record_wf, RecordView,
};
use crate::zone::{lemma_zone_payload, zone_bytes, zone_payload, zone_wf, ZoneView};

verus! {

/// `bytes` occupies the start of `buf` from index 1, after the tag byte.
proof fn lemma_tagged_at(tag: u8, bytes: Seq<u8>, rest: Seq<u8>)
    ensures
        at(seq![tag] + bytes + rest, 1, bytes),
        (seq![tag] + bytes + rest)[0] == tag,
{
    let b = seq![tag] + bytes + rest;
    assert(b.subrange(1, 1 + bytes.len() as int) =~= bytes);
}

/// Payload bytes that decode to a zone are exactly that zone's encoding.
pub proof fn zone_decode_then_encode(p: Seq<u8>)
    requires
        zone_payload(p) is Some,
    ensures
        zone_bytes(zone_payload(p).unwrap()) == p,
{
}

/// A zone's encoding decodes to the same zone.
pub proof fn zone_encode_then_decode(z: ZoneView)
    requires
        zone_wf(z),
    ensures
        zone_payload(zone_bytes(z)) == Some(z),
{
    lemma_zone_payload(zone_bytes(z), z);
}

/// Payload bytes that decode to a lease are exactly that lease's encoding.
pub proof fn lease_decode_then_encode(p: Seq<u8>)
    requires
        lease_payload(p) is Some,
    ensures
        lease_bytes(lease_payload(p).unwrap()) == p,
{
}

/// A lease's encoding decodes to the same lease.
pub proof fn lease_encode_then_decode(l: LeaseView)
    requires
        lease_wf(l),
    ensures
        lease_payload(lease_bytes(l)) == Some(l),
{
    lemma_lease_payload(lease_bytes(l), l);
}

/// Payload bytes that decode to a record are exactly that record's encoding.
pub proof fn record_decode_then_encode(p: Seq<u8>)
    requires
        record_payload(p) is Some,
    ensures
        record_bytes(record_payload(p).unwrap()) == p,
{
}

/// A record's encoding decodes to the same record.
pub proof fn record_encode_then_decode(x: RecordView)
    requires
        record_wf(x),
    ensures
        record_payload(record_bytes(x)) == Some(x),
{
    lemma_record_payload(record_bytes(x), x);
}

/// Whatever the instruction, a target account that this program does not own
/// is refused with `IncorrectOwner` and keeps its buffer.
pub proof fn owner_gate(
    program_id: Seq<u8>,
    before: Seq<Account>,
    after: Seq<Account>,
    data: Seq<u8>,
    now: Option<i64>,
    r: Result<(), RegistryError>,
)
    requires
        processed(program_id, before, after, data, now, r),
        data.len() > 0,
        is_known_tag(data[0]),
        before.len() > 0,
        before[0].owner@ != program_id,
    ensures
        r == Err::<(), RegistryError>(RegistryError::IncorrectOwner),
        after[0]@ == before[0]@,
        after.len() == before.len(),
{
}

/// A lease created with duration `d` at time `t` is stored, under the lease
/// tag, with deadline `t + d` and not expired.
pub proof fn lease_duration_conversion(buf: Seq<u8>, l: LeaseView, t: i64)
    requires
        lease_wf(l),
        i64::MIN <= l.expiration + t <= i64::MAX,
        1 + lease_bytes(l).len() <= buf.len(),
    ensures
        lease_effect(buf, lease_bytes(l), t) is Ok,
        lease_effect(buf, lease_bytes(l), t)->Ok_0[0] == DISCRIMINATOR_LEASE,
        stored_lease(lease_effect(buf, lease_bytes(l), t)->Ok_0) == Some(
            LeaseView { expiration: (l.expiration + t) as i64, expired: false, ..l },
        ),
        lease_effect(buf, lease_bytes(l), t)->Ok_0.len() == buf.len(),
{
    lemma_lease_payload(lease_bytes(l), l);
    let n = leased(l, t);
    let body = lease_bytes(n);
    let nb = seq![DISCRIMINATOR_LEASE] + body;
    assert(lease_bytes(l).len() == lease_bytes(n).len()) by {
        let b1 = lease_bytes(l);
        let b2 = lease_bytes(n);
        assert(b1.subrange(0, b1.len() as int) =~= b1);
        assert(b2.subrange(0, b2.len() as int) =~= b2);
        lemma_lease_fields(b1, 0, l);
        lemma_lease_fields(b2, 0, n);
    }
    let rest = buf.subrange(nb.len() as int, buf.len() as int);
    lemma_tagged_at(DISCRIMINATOR_LEASE, body, rest);
    lemma_stored_lease(nb + rest, n);
}

/// Whatever time-to-live the caller sends, the record is stored, under the
/// record tag, with the fixed time-to-live and its other fields as sent.
pub proof fn record_ttl_normalization(buf: Seq<u8>, x: RecordView)
    requires
        record_wf(x),
        1 + record_bytes(x).len() <= buf.len(),
    ensures
        record_effect(buf, record_bytes(x)) is Ok,
        record_effect(buf, record_bytes(x))->Ok_0[0] == DISCRIMINATOR_RECORD,
        at(
            record_effect(buf, record_bytes(x))->Ok_0,
            1,
            record_bytes(RecordView { ttl: RECORD_TTL, ..x }),
        ),
        forall|y: RecordView|
            record_wf(y) && #[trigger] at(
                record_effect(buf, record_bytes(x))->Ok_0,
                1,
                record_bytes(y),
            ) ==> y == (RecordView { ttl: 300, ..x }),
{
    lemma_record_payload(record_bytes(x), x);
    let n = normalized(x);
    let body = record_bytes(n);
    assert(record_bytes(x).len() == record_bytes(n).len()) by {
        let b1 = record_bytes(x);
        let b2 = record_bytes(n);
        assert(b1.subrange(0, b1.len() as int) =~= b1);
        assert(b2.subrange(0, b2.len() as int) =~= b2);
        lemma_record_fields(b1, 0, x);
        lemma_record_fields(b2, 0, n);
    }
    let rest = buf.subrange(1 + body.len() as int, buf.len() as int);
    lemma_tagged_at(DISCRIMINATOR_RECORD, body, rest);
    let nb = seq![DISCRIMINATOR_RECORD] + body + rest;
    assert forall|y: RecordView| record_wf(y) && #[trigger] at(nb, 1, record_bytes(y)) implies y
        == (RecordView { ttl: 300, ..x }) by {
        lemma_record_unique(nb, 1, y, n);
    }
}

/// Decommissioning a lease before its deadline leaves the buffer as it was.
pub proof fn decommission_before_expiry(buf: Seq<u8>, l: LeaseView, t: i64)
    requires
        lease_wf(l),
        at(buf, 1, lease_bytes(l)),
        t < l.expiration,
    ensures
        decommission_effect(buf, t) == Ok::<Seq<u8>, RegistryError>(buf),
{
    lemma_stored_lease(buf, l);
}

/// Decommissioning a lease at or after its deadline marks it expired; a
/// further decommission, at any time, changes nothing and succeeds.
pub proof fn decommission_terminal(buf: Seq<u8>, l: LeaseView, t: i64, later: i64)
    requires
        lease_wf(l),
        at(buf, 1, lease_bytes(l)),
        t >= l.expiration,
    ensures
        decommission_effect(buf, t) is Ok,
        stored_lease(decommission_effect(buf, t)->Ok_0) == Some(LeaseView { expired: true, ..l }),
        decommission_effect(decommission_effect(buf, t)->Ok_0, later) == Ok::<
            Seq<u8>,
            RegistryError,
        >(decommission_effect(buf, t)->Ok_0),
{
    lemma_stored_lease(buf, l);
    let n = LeaseView { expired: true, ..l };
    let body = lease_bytes(n);
    assert(lease_bytes(l).len() == body.len()) by {
        let b1 = lease_bytes(l);
        assert(b1.subrange(0, b1.len() as int) =~= b1);
        assert(body.subrange(0, body.len() as int) =~= body);
        lemma_lease_fields(b1, 0, l);
        lemma_lease_fields(body, 0, n);
    }
    let tagged = seq![DISCRIMINATOR_LEASE] + body;
    let rest = buf.subrange(tagged.len() as int, buf.len() as int);
    let nb = tagged + rest;
    lemma_tagged_at(DISCRIMINATOR_LEASE, body, rest);
    lemma_stored_lease(nb, n);
    assert(decommission_effect(buf, t) == Ok::<Seq<u8>, RegistryError>(nb));
    if later >= n.expiration {
        assert(nb.subrange(tagged.len() as int, nb.len() as int) =~= rest);
        assert(LeaseView { expired: true, ..n } == n);
    }
}

} // verus!
