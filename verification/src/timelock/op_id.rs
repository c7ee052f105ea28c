//! The id of an operation: the SHA-256 hash of its description, its target and its ETA.

use super::contract::{big_endian, op_preimage};
use super::types::{Op, OpId, RouterTimelock, TimelockError};
use crate::common::Address;
use crate::text::{hex, hex_char, hex_of};
use vstd::prelude::*;

verus! {

/// How many bytes can be hashed at once within the default budget of the ledger's host:
/// the host charges about 55 instructions a byte, and has a hundred million.
pub const MAX_HASHED_BYTES: usize = 1_816_000;

/// The SHA-256 hash of some bytes.
pub uninterp spec fn sha256_of(bytes: Seq<u8>) -> Seq<u8>;

/// Calls `soroban_sdk::crypto::Crypto::sha256` in the default environment: inside a
/// contract that is its host, elsewhere a new one. Claims that the hash depends on the
/// bytes alone and is 32 bytes long. A host charges its budget by the length of the bytes
/// and refuses beyond it; the limit on the bytes is what a new host can hash.
#[verifier::external_body]
fn sha256(bytes: &Vec<u8>) -> (r: Vec<u8>)
    requires
        bytes@.len() <= MAX_HASHED_BYTES,
    ensures
        r@ == sha256_of(bytes@),
        r@.len() == 32,
{
    let env = soroban_sdk::Env::default();
    let data = soroban_sdk::Bytes::from_slice(&env, bytes.as_slice());
    env.crypto().sha256(&data).to_array().to_vec()
}

/// The id of an operation with this description and this target, as the ledger encodes
/// them, and this ETA.
pub open spec fn id_of(description: Seq<u8>, target: Seq<u8>, eta: u64) -> Seq<char> {
    hex_of(sha256_of(description + target + big_endian(eta)))
}

impl RouterTimelock {
    /// Queues an operation under the hash of its description, its target and its ETA, to
    /// be executed once `delay` seconds have passed. Returns the id. `encoded_description`
    /// and `encoded_target` are the description and the target as the ledger encodes them.
    ///
    /// # Errors
    /// As [`RouterTimelock::queue`].
    pub fn queue_operation(
        &mut self,
        proposer: Address,
        description: String,
        encoded_description: &Vec<u8>,
        target: Address,
        encoded_target: &Vec<u8>,
        delay: u64,
        grace_period_seconds: u64,
        deps: Vec<OpId>,
        now: u64,
    ) -> (r: Result<OpId, TimelockError>)
        requires
            old(self).queue_fault(proposer, delay) is None ==> now + delay <= u64::MAX
                && encoded_description@.len() + encoded_target@.len() + 8 <= MAX_HASHED_BYTES,
        ensures
            ({
                let eta = (now + delay) as u64;
                let id = id_of(encoded_description@, encoded_target@, eta);
                match old(self).queue_fault(proposer, delay) {
                    Some(e) => r == Err::<OpId, _>(e),
                    None => match old(self).dependencies_fault(deps@, id, 0) {
                        Some(e) => r == Err::<OpId, _>(e),
                        None => {
                            &&& r is Ok
                            &&& (r->Ok_0)@ == id
                            &&& id.len() == 64
                            &&& old(self).is_queued(
                                r->Ok_0,
                                Op {
                                    proposer,
                                    description,
                                    target,
                                    eta,
                                    grace_period_seconds,
                                    executed: false,
                                    cancelled: false,
                                },
                                deps,
                                *final(self),
                            )
                        },
                    },
                }
            }),
            r is Err ==> *final(self) == *old(self),
            forall|id: Seq<char>|
                id != id_of(encoded_description@, encoded_target@, (now + delay) as u64)
                    ==> #[trigger] old(self).keeps_finished(id, *final(self)),
            old(self).wf() ==> final(self).wf(),
    {
        match self.check_queue(&proposer, delay) {
            Err(e) => {
                return Err(e);
            },
            Ok(()) => {},
        }
        let preimage: Vec<u8> = op_preimage(encoded_description, encoded_target, now + delay);
        let hash: Vec<u8> = sha256(&preimage);
        proof {
            lemma_hex_length(hash@);
        }
        self.queue(
            proposer,
            description,
            target,
            delay,
            grace_period_seconds,
            deps,
            now,
            hex(hash.as_slice()),
        )
    }
}

/// Two digits stand for a byte.
proof fn lemma_hex_length(bytes: Seq<u8>)
    ensures
        hex_of(bytes).len() == 2 * bytes.len(),
    decreases bytes.len(),
{
    if bytes.len() > 0 {
        lemma_hex_length(bytes.drop_last());
    }
}

/// An id tells which hash it stands for, so that operations whose hashes differ have
/// different ids.
pub proof fn id_tells_the_hash(a: Seq<u8>, b: Seq<u8>)
    requires
        hex_of(a) == hex_of(b),
    ensures
        a == b,
    decreases a.len(),
{
    lemma_hex_length(a);
    lemma_hex_length(b);
    if a.len() > 0 {
        let (x, y) = (hex_of(a), hex_of(b));
        let n = x.len() as int;
        assert(x[n - 1] == hex_char(a.last() as int % 16));
        assert(y[n - 1] == hex_char(b.last() as int % 16));
        assert(x[n - 2] == hex_char(a.last() as int / 16));
        assert(y[n - 2] == hex_char(b.last() as int / 16));
        assert(hex_of(a.drop_last()) =~= x.take(n - 2));
        assert(hex_of(b.drop_last()) =~= y.take(n - 2));
        id_tells_the_hash(a.drop_last(), b.drop_last());
        assert(a =~= a.drop_last().push(a.last()));
        assert(b =~= b.drop_last().push(b.last()));
    }
}

} // verus!
