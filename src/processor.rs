//! The instruction dispatcher and the four handlers that rewrite an account's
//! buffer in place.
use vstd::prelude::*;

use crate::lease::{
    lease_bytes, lease_payload, lemma_lease_payload, lemma_stored_lease, stored_lease, Lease,
    LeaseView,
};
use crate::pubkey::Pubkey;
use crate::record::{lemma_record_payload, record_bytes, record_payload, Record, RecordView};
use crate::zone::{lemma_zone_payload, zone_bytes, zone_payload, Zone};

verus! {

/// Tag of a zone, and of the instruction that writes one.
pub const DISCRIMINATOR_ZONE: u8 = 1;

/// Tag of a lease, and of the instruction that creates or renews one.
pub const DISCRIMINATOR_LEASE: u8 = 2;

/// Tag of a record, and of the instruction that writes one.
pub const DISCRIMINATOR_RECORD: u8 = 3;

/// Tag of the instruction that marks an expired lease.
pub const DISCRIMINATOR_DECOMMISSION_LEASE: u8 = 4;

/// The time-to-live that every stored record carries.
pub const RECORD_TTL: i64 = 300;

#[derive(Clone, Copy, Debug, PartialEq, Eq, Structural)]
pub enum RegistryError {
    /// The instruction is empty, or its payload (or the stored lease) does not decode.
    MalformedInstruction,
    /// The target account is not owned by this program.
    IncorrectOwner,
    /// No account was supplied for the instruction.
    AccountExhausted,
    /// The bytes to store do not fit the account's buffer.
    BufferOverflow,
    /// The host could not supply the current time.
    ClockUnavailable,
}

/// A storage account as the host hands it over: its declared owner and its
/// fixed-length buffer.
#[derive(Clone, Debug)]
pub struct Account {
    pub owner: Pubkey,
    pub data: Vec<u8>,
}

pub struct AccountView {
    pub owner: Seq<u8>,
    pub data: Seq<u8>,
}

impl View for Account {
    type V = AccountView;

    open spec fn view(&self) -> AccountView {
        AccountView { owner: self.owner@, data: self.data@ }
    }
}

/// `bytes` written over the start of `buf`, the rest of `buf` kept; an
/// overflow where `bytes` is longer than `buf`.
pub open spec fn overwrite(buf: Seq<u8>, bytes: Seq<u8>) -> Result<Seq<u8>, RegistryError> {
    if bytes.len() <= buf.len() {
        Ok(bytes + buf.subrange(bytes.len() as int, buf.len() as int))
    } else {
        Err(RegistryError::BufferOverflow)
    }
}

/// A handler's call ended as `effect` says: on success the buffer holds the
/// new bytes, on failure the same error and the buffer untouched.
pub open spec fn follows(
    r: Result<(), RegistryError>,
    before: Seq<u8>,
    after: Seq<u8>,
    effect: Result<Seq<u8>, RegistryError>,
) -> bool {
    match effect {
        Ok(nb) => r == Ok::<(), RegistryError>(()) && after == nb,
        Err(e) => r == Err::<(), RegistryError>(e) && after == before,
    }
}

/// The new buffer after storing the zone in `payload`.
pub open spec fn zone_effect(buf: Seq<u8>, payload: Seq<u8>) -> Result<Seq<u8>, RegistryError> {
    match zone_payload(payload) {
        Some(z) => overwrite(buf, seq![DISCRIMINATOR_ZONE] + zone_bytes(z)),
        None => Err(RegistryError::MalformedInstruction),
    }
}

/// The lease as stored at time `now`: its duration turned into a deadline,
/// not expired.
pub open spec fn leased(l: LeaseView, now: i64) -> LeaseView {
    LeaseView { expiration: (l.expiration + now) as i64, expired: false, ..l }
}

/// The new buffer after storing the lease in `payload` at time `now`.
pub open spec fn lease_effect(buf: Seq<u8>, payload: Seq<u8>, now: i64) -> Result<
    Seq<u8>,
    RegistryError,
> {
    match lease_payload(payload) {
        Some(l) => if i64::MIN <= l.expiration + now <= i64::MAX {
            overwrite(buf, seq![DISCRIMINATOR_LEASE] + lease_bytes(leased(l, now)))
        } else {
            Err(RegistryError::MalformedInstruction)
        },
        None => Err(RegistryError::MalformedInstruction),
    }
}

/// The record as stored: its time-to-live replaced.
pub open spec fn normalized(r: RecordView) -> RecordView {
    RecordView { ttl: RECORD_TTL, ..r }
}

/// The new buffer after storing the record in `payload`.
pub open spec fn record_effect(buf: Seq<u8>, payload: Seq<u8>) -> Result<Seq<u8>, RegistryError> {
    match record_payload(payload) {
        Some(r) => overwrite(buf, seq![DISCRIMINATOR_RECORD] + record_bytes(normalized(r))),
        None => Err(RegistryError::MalformedInstruction),
    }
}

/// The new buffer after decommissioning the lease that `buf` holds at time
/// `now`: marked expired once its deadline has come, else unchanged.
pub open spec fn decommission_effect(buf: Seq<u8>, now: i64) -> Result<Seq<u8>, RegistryError> {
    match stored_lease(buf) {
        Some(l) => if now >= l.expiration {
            overwrite(buf, seq![DISCRIMINATOR_LEASE] + lease_bytes(LeaseView { expired: true, ..l }))
        } else {
            Ok(buf)
        },
        None => Err(RegistryError::MalformedInstruction),
    }
}

/// A tag that selects one of the four handlers.
pub open spec fn is_known_tag(t: u8) -> bool {
    1 <= t <= 4
}

/// The new buffer of the target account after the instruction `data`, given
/// the program's identity and what the clock gave (`None`: no time).
pub open spec fn instruction_effect(
    program_id: Seq<u8>,
    acct: AccountView,
    data: Seq<u8>,
    now: Option<i64>,
) -> Result<Seq<u8>, RegistryError> {
    if acct.owner != program_id {
        Err(RegistryError::IncorrectOwner)
    } else if data[0] == DISCRIMINATOR_ZONE {
        zone_effect(acct.data, data.drop_first())
    } else if data[0] == DISCRIMINATOR_RECORD {
        record_effect(acct.data, data.drop_first())
    } else {
        match now {
            None => Err(RegistryError::ClockUnavailable),
            Some(t) => if data[0] == DISCRIMINATOR_LEASE {
                lease_effect(acct.data, data.drop_first(), t)
            } else {
                decommission_effect(acct.data, t)
            },
        }
    }
}

/// Writes `bytes` over the start of `data`, leaving the rest as it was.
fn overwrite_prefix(data: &mut Vec<u8>, bytes: &[u8]) -> (r: Result<(), RegistryError>)
    ensures
        follows(r, old(data)@, final(data)@, overwrite(old(data)@, bytes@)),
{
    if bytes.len() > data.len() {
        return Err(RegistryError::BufferOverflow);
    }
    let mut i: usize = 0;
    while i < bytes.len()
        invariant
            i <= bytes@.len() <= data@.len(),
            data@.len() == old(data)@.len(),
            forall|j: int| 0 <= j < i ==> data@[j] == bytes@[j],
            forall|j: int| i <= j < data@.len() ==> data@[j] == old(data)@[j],
        decreases bytes@.len() - i,
    {
        data[i] = bytes[i];
        i = i + 1;
    }
    assert(data@ =~= bytes@ + old(data)@.subrange(bytes@.len() as int, old(data)@.len() as int));
    Ok(())
}

/// Stores `tag` followed by `body` at the start of `data`.
fn store_tagged(data: &mut Vec<u8>, tag: u8, body: Vec<u8>) -> (r: Result<(), RegistryError>)
    ensures
        follows(r, old(data)@, final(data)@, overwrite(old(data)@, seq![tag] + body@)),
{
    let mut bytes: Vec<u8> = Vec::new();
    bytes.push(tag);
    let ghost b0 = body@;
    let mut rest = body;
    bytes.append(&mut rest);
    assert(bytes@ =~= seq![tag] + b0);
    overwrite_prefix(data, bytes.as_slice())
}

/// Stores the zone that `payload` encodes, unchanged, under its tag.
pub fn create_zone(data: &mut Vec<u8>, payload: &[u8]) -> (r: Result<(), RegistryError>)
    ensures
        follows(r, old(data)@, final(data)@, zone_effect(old(data)@, payload@)),
{
    match Zone::decode(payload) {
        Some(z) => {
            proof {
                lemma_zone_payload(payload@, z@);
            }
            store_tagged(data, DISCRIMINATOR_ZONE, z.encode())
        },
        None => Err(RegistryError::MalformedInstruction),
    }
}

/// Stores the lease that `payload` encodes, its `expiration` read as a
/// duration from `now`, and not expired.
pub fn create_lease(data: &mut Vec<u8>, payload: &[u8], now: i64) -> (r: Result<(), RegistryError>)
    ensures
        follows(r, old(data)@, final(data)@, lease_effect(old(data)@, payload@, now)),
{
    match Lease::decode(payload) {
        Some(l) => {
            proof {
                lemma_lease_payload(payload@, l@);
            }
            match l.expiration.checked_add(now) {
                Some(deadline) => {
                    let mut l = l;
                    l.expiration = deadline;
                    l.expired = false;
                    store_tagged(data, DISCRIMINATOR_LEASE, l.encode())
                },
                None => Err(RegistryError::MalformedInstruction),
            }
        },
        None => Err(RegistryError::MalformedInstruction),
    }
}

/// Stores the record that `payload` encodes, its time-to-live replaced by
/// the fixed one.
pub fn create_record(data: &mut Vec<u8>, payload: &[u8]) -> (r: Result<(), RegistryError>)
    ensures
        follows(r, old(data)@, final(data)@, record_effect(old(data)@, payload@)),
{
    match Record::decode(payload) {
        Some(x) => {
            proof {
                lemma_record_payload(payload@, x@);
            }
            let mut x = x;
            x.ttl = RECORD_TTL;
            store_tagged(data, DISCRIMINATOR_RECORD, x.encode())
        },
        None => Err(RegistryError::MalformedInstruction),
    }
}

/// Marks the lease that `data` holds as expired where `now` has reached its
/// deadline; leaves `data` as it was before that.
pub fn decommission_lease(data: &mut Vec<u8>, now: i64) -> (r: Result<(), RegistryError>)
    ensures
        follows(r, old(data)@, final(data)@, decommission_effect(old(data)@, now)),
{
    match Lease::decode_at(data.as_slice(), 1) {
        Some((l, _)) => {
            proof {
                lemma_stored_lease(data@, l@);
            }
            if now >= l.expiration {
                let mut l = l;
                l.expired = true;
                store_tagged(data, DISCRIMINATOR_LEASE, l.encode())
            } else {
                Ok(())
            }
        },
        None => {
            assert(stored_lease(data@) is None);
            Err(RegistryError::MalformedInstruction)
        },
    }
}

/// What one instruction did to the account list: an empty instruction is
/// refused, an unknown tag changes nothing, a known tag needs an account and
/// then acts on the first one alone as `instruction_effect` says.
pub open spec fn processed(
    program_id: Seq<u8>,
    before: Seq<Account>,
    after: Seq<Account>,
    data: Seq<u8>,
    now: Option<i64>,
    r: Result<(), RegistryError>,
) -> bool {
    if data.len() == 0 {
        r == Err::<(), RegistryError>(RegistryError::MalformedInstruction) && after == before
    } else if !is_known_tag(data[0]) {
        r == Ok::<(), RegistryError>(()) && after == before
    } else if before.len() == 0 {
        r == Err::<(), RegistryError>(RegistryError::AccountExhausted) && after == before
    } else {
        &&& after.len() == before.len()
        &&& forall|i: int| 1 <= i < after.len() ==> after[i] == before[i]
        &&& after[0].owner == before[0].owner
        &&& follows(
            r,
            before[0].data@,
            after[0].data@,
            instruction_effect(program_id, before[0]@, data, now),
        )
    }
}

/// Runs one instruction against the accounts, with `now` the time that the
/// clock gave, or `None` where it gave none.
pub fn process(
    program_id: &Pubkey,
    accounts: &mut Vec<Account>,
    instruction_data: &[u8],
    now: Option<i64>,
) -> (r: Result<(), RegistryError>)
    ensures
        processed(program_id@, old(accounts)@, final(accounts)@, instruction_data@, now, r),
{
    if instruction_data.len() == 0 {
        return Err(RegistryError::MalformedInstruction);
    }
    let tag = instruction_data[0];
    if tag < DISCRIMINATOR_ZONE || tag > DISCRIMINATOR_DECOMMISSION_LEASE {
        return Ok(());
    }
    if accounts.len() == 0 {
        return Err(RegistryError::AccountExhausted);
    }
    if !accounts[0].owner.same_as(program_id) {
        return Err(RegistryError::IncorrectOwner);
    }
    let payload = vstd::slice::slice_subrange(instruction_data, 1, instruction_data.len());
    assert(payload@ =~= instruction_data@.drop_first());
    let mut acct = accounts.remove(0);
    let r = if tag == DISCRIMINATOR_ZONE {
        create_zone(&mut acct.data, payload)
    } else if tag == DISCRIMINATOR_RECORD {
        create_record(&mut acct.data, payload)
    } else {
        match now {
            None => Err(RegistryError::ClockUnavailable),
            Some(t) => if tag == DISCRIMINATOR_LEASE {
                create_lease(&mut acct.data, payload, t)
            } else {
                decommission_lease(&mut acct.data, t)
            },
        }
    };
    accounts.insert(0, acct);
    r
}

/// Relies on solana_program's `Clock::get`: it reads the host's clock, and
/// the time, or whether there is one, is the host's.
#[verifier::external_body]
fn current_time() -> (r: Option<i64>) {
    <solana_program::clock::Clock as solana_program::sysvar::Sysvar>::get().ok().map(
        |c| c.unix_timestamp,
    )
}

/// Runs one instruction against the accounts, reading the host's clock for
/// the two lease instructions; the outcome is that of `process` for
/// whatever the clock gave.
pub fn process_instruction(
    program_id: &Pubkey,
    accounts: &mut Vec<Account>,
    instruction_data: &[u8],
) -> (r: Result<(), RegistryError>)
    ensures
        exists|now: Option<i64>|
            processed(program_id@, old(accounts)@, final(accounts)@, instruction_data@, now, r),
{
    let now = if instruction_data.len() > 0 && (instruction_data[0] == DISCRIMINATOR_LEASE
        || instruction_data[0] == DISCRIMINATOR_DECOMMISSION_LEASE) {
        current_time()
    } else {
        None
    };
    process(program_id, accounts, instruction_data, now)
}

} // verus!
