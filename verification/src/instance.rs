//! The instance identifier of a ladder's claim.

use vstd::prelude::*;

use crate::outside::{parse_uuid, uuid_octets, uuid_version_number};
use crate::text::{law_text_is_found_where_it_stands, occurs_at, strip_prefix};

verus! {

/// What an instance identifier starts with.
pub const INSTANCE_PREFIX: &'static str = "xmp.iid:";

/// Why the claim of a ladder is not as it should be.
#[derive(Clone, Copy, Debug, PartialEq, Eq, Structural)]
pub enum InstanceFault {
    /// The claim is compressed.
    Compressed,
    /// The identifier does not start with [`INSTANCE_PREFIX`].
    NoPrefix,
    /// What follows the prefix is no UUID.
    NoUuid,
    /// The UUID is not a random one.
    NotRandom,
}

/// Whether these are the octets of a random UUID, one of version four.
pub open spec fn is_random_uuid(octets: Seq<u8>) -> bool {
    octets[6] / 16 == 4
}

/// What is to be said of a UUID that was read, or was not.
pub open spec fn uuid_verdict(octets: Option<Seq<u8>>) -> Result<(), InstanceFault> {
    match octets {
        None => Err(InstanceFault::NoUuid),
        Some(o) => if is_random_uuid(o) {
            Ok(())
        } else {
            Err(InstanceFault::NotRandom)
        },
    }
}

/// What is to be said of a claim with this instance identifier.
pub open spec fn instance_verdict(compressed: bool, id: Seq<char>) -> Result<(), InstanceFault> {
    if compressed {
        Err(InstanceFault::Compressed)
    } else if !occurs_at(id, INSTANCE_PREFIX@, 0) {
        Err(InstanceFault::NoPrefix)
    } else {
        uuid_verdict(uuid_octets(id.skip(INSTANCE_PREFIX@.len() as int)))
    }
}

/// Whether the octets, where there are any, are those of a random UUID.
pub fn check_uuid(octets: Option<[u8; 16]>) -> (verdict: Result<(), InstanceFault>)
    ensures
        verdict == uuid_verdict(
            match octets {
                Some(o) => Some(o@),
                None => None,
            },
        ),
{
    match octets {
        None => Err(InstanceFault::NoUuid),
        Some(o) => {
            let version: usize = uuid_version_number(o);
            if version == 4 {
                Ok(())
            } else {
                Err(InstanceFault::NotRandom)
            }
        },
    }
}

/// Whether a claim is uncompressed, whatever was preferred, and has a random UUID for its
/// instance identifier.
pub fn check_instance(compressed: bool, instance_id: &str) -> (verdict: Result<(), InstanceFault>)
    ensures
        verdict == instance_verdict(compressed, instance_id@),
{
    if compressed {
        return Err(InstanceFault::Compressed);
    }
    match strip_prefix(instance_id, INSTANCE_PREFIX) {
        None => Err(InstanceFault::NoPrefix),
        Some(id) => {
            assert(instance_id@.skip(INSTANCE_PREFIX@.len() as int) =~= id@);
            match parse_uuid(id) {
                Ok(octets) => check_uuid(Some(octets)),
                Err(_) => check_uuid(None),
            }
        },
    }
}

/// A claim passes exactly where it is not compressed and its identifier is `xmp.iid:` and then a
/// text that writes a UUID whose version, the high half of its seventh octet, is four. Else the
/// fault is the first that is met, in the order compression, prefix, UUID, version.
pub proof fn law_instances_are_random_uuids(compressed: bool, id: Seq<char>, rest: Seq<char>)
    ensures
        ({
            let verdict = instance_verdict(compressed, id);
            &&& verdict == Err::<(), InstanceFault>(InstanceFault::Compressed) <==> compressed
            &&& verdict == Err::<(), InstanceFault>(InstanceFault::NoPrefix) <==> !compressed
                && !exists|text: Seq<char>| id == #[trigger] ("xmp.iid:"@ + text)
            &&& !compressed && id == "xmp.iid:"@ + rest ==> {
                let octets = uuid_octets(rest);
                &&& verdict == Err::<(), InstanceFault>(InstanceFault::NoUuid) <==> octets is None
                &&& verdict is Ok <==> (octets matches Some(o) && 0x40 <= o[6] <= 0x4f)
                &&& verdict == Err::<(), InstanceFault>(InstanceFault::NotRandom) <==> (
                octets matches Some(o) && !(0x40 <= o[6] <= 0x4f))
            }
        }),
{
    law_text_is_found_where_it_stands(id, "xmp.iid:"@);
    if id == "xmp.iid:"@ + rest {
        assert(id.skip("xmp.iid:"@.len() as int) =~= rest);
        assert(occurs_at(id, "xmp.iid:"@, 0));
    }
}

/// Octets are those of a random UUID by the high half of the seventh alone.
pub proof fn law_uuid_version_is_in_the_seventh_octet(octets: Option<Seq<u8>>)
    ensures
        uuid_verdict(octets) is Ok <==> (octets matches Some(o) && 0x40 <= o[6] <= 0x4f),
        uuid_verdict(octets) == Err::<(), InstanceFault>(InstanceFault::NoUuid)
            <==> octets is None,
        uuid_verdict(octets) == Err::<(), InstanceFault>(InstanceFault::NotRandom) <==> (
        octets matches Some(o) && !(0x40 <= o[6] <= 0x4f)),
{
}

} // verus!
