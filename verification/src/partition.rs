//! Choosing the partition to boot from: the first EFI system partition, or
//! the partition whose unique GUID the configuration names.
use vstd::prelude::*;

use crate::error::Error;
use crate::guid::{esp_type, parse_guid, Guid};

verus! {

/// What the firmware reported for one handle that carries the partition
/// information protocol, in the order the firmware listed the handles.
#[derive(Clone, Copy, Debug)]
pub enum PartitionLookup {
    /// Opening the partition information protocol failed with this status.
    ProtocolError(usize),
    /// The partition is not described by a GPT entry.
    NotGpt,
    /// The partition's GPT entry: its type GUID and its unique GUID.
    Gpt { type_guid: Guid, unique_guid: Guid },
}

/// A GPT partition whose type is the EFI system partition type.
pub open spec fn is_esp(e: PartitionLookup) -> bool {
    e matches PartitionLookup::Gpt { type_guid, .. } && type_guid@ == crate::guid::esp_type_guid()
}

/// An entry that the search for the first EFI system partition passes over:
/// one without a GPT entry, or a GPT partition of another type.
pub open spec fn skipped_by_esp_search(e: PartitionLookup) -> bool {
    e is NotGpt || (e is Gpt && !is_esp(e))
}

/// A GPT partition whose unique GUID is `target`.
pub open spec fn has_unique_guid(e: PartitionLookup, target: Seq<u8>) -> bool {
    e matches PartitionLookup::Gpt { unique_guid, .. } && unique_guid@ == target
}

/// `r` is the outcome of the search for the first EFI system partition in
/// `l`: the search stops at the first entry that is neither skipped nor
/// matching; it yields that entry's index if it is a system partition, the
/// firmware's status if opening the protocol failed there, and
/// `NoBootPartitions` if it never stops.
pub open spec fn esp_search_result(l: Seq<PartitionLookup>, r: Result<usize, Error>) -> bool {
    match r {
        Ok(i) => {
            &&& i < l.len()
            &&& is_esp(l[i as int])
            &&& forall|j: int| 0 <= j < i ==> skipped_by_esp_search(#[trigger] l[j])
        },
        Err(Error::Firmware(status)) => exists|i: int|
            {
                &&& 0 <= i < l.len()
                &&& #[trigger] l[i] == PartitionLookup::ProtocolError(status)
                &&& forall|j: int| 0 <= j < i ==> skipped_by_esp_search(#[trigger] l[j])
            },
        Err(Error::NoBootPartitions) => forall|j: int|
            0 <= j < l.len() ==> skipped_by_esp_search(#[trigger] l[j]),
        _ => false,
    }
}

/// `r` is the outcome of the search for the partition whose unique GUID is
/// `target`: the index of the first such entry, entries whose protocol
/// could not be opened being passed over, or `NoBootPartitions`.
pub open spec fn guid_search_result(l: Seq<PartitionLookup>, target: Seq<u8>, r: Result<usize, Error>) -> bool {
    match r {
        Ok(i) => {
            &&& i < l.len()
            &&& has_unique_guid(l[i as int], target)
            &&& forall|j: int| 0 <= j < i ==> !has_unique_guid(#[trigger] l[j], target)
        },
        Err(Error::NoBootPartitions) => forall|j: int|
            0 <= j < l.len() ==> !has_unique_guid(#[trigger] l[j], target),
        _ => false,
    }
}

/// Whether a configured partition GUID selects the search by unique GUID;
/// an absent or empty setting selects the first EFI system partition.
pub open spec fn names_a_partition(part_uuid: Option<&str>) -> bool {
    part_uuid matches Some(s) && s@.len() > 0
}

/// The outcome of the search that `part_uuid` selects.
pub open spec fn boot_partition_result(
    part_uuid: Option<&str>,
    l: Seq<PartitionLookup>,
    r: Result<usize, Error>,
) -> bool {
    if names_a_partition(part_uuid) {
        match crate::guid::guid_from_text(part_uuid->0@) {
            Ok(target) => guid_search_result(l, target, r),
            Err(_) => false,
        }
    } else {
        esp_search_result(l, r)
    }
}

/// The first EFI system partition among `partitions`. A handle whose
/// partition information could not be opened ends the search with the
/// firmware's status.
pub fn find_first_boot_partition(partitions: &Vec<PartitionLookup>) -> (r: Result<usize, Error>)
    ensures
        esp_search_result(partitions@, r),
{
    let esp = esp_type();
    let mut i: usize = 0;
    while i < partitions.len()
        invariant
            i <= partitions@.len(),
            esp@ == crate::guid::esp_type_guid(),
            forall|j: int| 0 <= j < i ==> skipped_by_esp_search(#[trigger] partitions@[j]),
        decreases partitions@.len() - i,
    {
        match &partitions[i] {
            PartitionLookup::ProtocolError(status) => {
                assert(partitions@[i as int] == PartitionLookup::ProtocolError(*status));
                return Err(Error::Firmware(*status));
            },
            PartitionLookup::NotGpt => {},
            PartitionLookup::Gpt { type_guid, .. } => {
                if type_guid.same_as(&esp) {
                    return Ok(i);
                }
            },
        }
        i = i + 1;
    }
    Err(Error::NoBootPartitions)
}

/// The first partition among `partitions` whose unique GUID is `target`;
/// handles whose partition information could not be opened are passed over.
pub fn find_boot_partition_by_guid(partitions: &Vec<PartitionLookup>, target: &Guid) -> (r: Result<usize, Error>)
    ensures
        guid_search_result(partitions@, target@, r),
{
    let mut i: usize = 0;
    while i < partitions.len()
        invariant
            i <= partitions@.len(),
            forall|j: int| 0 <= j < i ==> !has_unique_guid(#[trigger] partitions@[j], target@),
        decreases partitions@.len() - i,
    {
        if let PartitionLookup::Gpt { unique_guid, .. } = &partitions[i] {
            if unique_guid.same_as(target) {
                return Ok(i);
            }
        }
        i = i + 1;
    }
    Err(Error::NoBootPartitions)
}

/// Picks the partition to boot from: with no partition GUID configured (or
/// an empty one), the first EFI system partition; otherwise the partition
/// whose unique GUID the text names. A configured text that is not a GUID
/// is refused by the caller before the search.
pub fn find_boot_partition(part_uuid: Option<&str>, partitions: &Vec<PartitionLookup>) -> (r: Result<usize, Error>)
    requires
        names_a_partition(part_uuid) ==> crate::guid::guid_from_text(part_uuid->0@) is Ok,
    ensures
        boot_partition_result(part_uuid, partitions@, r),
{
    match part_uuid {
        None => find_first_boot_partition(partitions),
        Some(text) => {
            if text.is_empty() {
                find_first_boot_partition(partitions)
            } else {
                let target = parse_guid(text).unwrap();
                find_boot_partition_by_guid(partitions, &target)
            }
        },
    }
}

/// Taking out an entry that does not carry the target GUID (a handle whose
/// protocol could not be opened, a partition without a GPT entry, or
/// another partition) leaves the search's choice the same: the same entry,
/// one place earlier if it stood after the removed one.
pub proof fn lemma_guid_search_ignores_other_entries(
    l: Seq<PartitionLookup>,
    target: Seq<u8>,
    k: int,
    r1: Result<usize, Error>,
    r2: Result<usize, Error>,
)
    requires
        0 <= k < l.len(),
        !has_unique_guid(l[k], target),
        guid_search_result(l, target, r1),
        guid_search_result(l.remove(k), target, r2),
    ensures
        r1 matches Ok(i) ==> r2 == Ok::<usize, Error>(
            if i > k {
                (i - 1) as usize
            } else {
                i
            },
        ),
        r1 is Err ==> r2 == r1,
{
    let l2 = l.remove(k);
    assert forall|j: int| 0 <= j < l2.len() implies #[trigger] l2[j] == (if j < k {
        l[j]
    } else {
        l[j + 1]
    }) by {}
    match r1 {
        Ok(i) => {
            let i2: int = if i > k {
                i - 1
            } else {
                i as int
            };
            assert(l2[i2] == l[i as int]);
            match r2 {
                Ok(j) => {
                    if j < i2 {
                        if j < k {
                            assert(l2[j as int] == l[j as int]);
                        } else {
                            assert(l2[j as int] == l[j + 1]);
                        }
                    }
                    if j > i2 {
                        assert(!has_unique_guid(l2[i2], target));
                    }
                },
                Err(_) => {
                    assert(!has_unique_guid(l2[i2], target));
                },
            }
        },
        Err(_) => {
            match r2 {
                Ok(j) => {
                    if j < k {
                        assert(l2[j as int] == l[j as int]);
                    } else {
                        assert(l2[j as int] == l[j + 1]);
                    }
                },
                Err(_) => {},
            }
        },
    }
}

/// The search for the first EFI system partition, entry by entry: a
/// handle whose partition information could not be opened ends it with the
/// firmware's status, unless a system partition came first; the first
/// system partition before any such handle is the one chosen; with neither
/// in the list there is no boot partition.
pub proof fn lemma_esp_search_by_entries(l: Seq<PartitionLookup>, r: Result<usize, Error>, k: int)
    requires
        esp_search_result(l, r),
        0 <= k < l.len(),
        forall|j: int|
            0 <= j < k ==> ((#[trigger] l[j]) is NotGpt || (l[j] matches PartitionLookup::Gpt {
                type_guid,
                ..
            } && type_guid@ != crate::guid::esp_type_guid())),
    ensures
        l[k] matches PartitionLookup::ProtocolError(status) ==> r == Err::<usize, Error>(
            Error::Firmware(status),
        ),
        l[k] matches PartitionLookup::Gpt { type_guid, .. } && type_guid@
            == crate::guid::esp_type_guid() ==> r == Ok::<usize, Error>(k as usize),
{
    match r {
        Ok(i) => {
            if i < k {
                assert(skipped_by_esp_search(l[i as int]));
            } else if i > k {
                assert(skipped_by_esp_search(l[k]));
            }
        },
        Err(Error::Firmware(st)) => {
            let i = choose|i: int|
                {
                    &&& 0 <= i < l.len()
                    &&& #[trigger] l[i] == PartitionLookup::ProtocolError(st)
                    &&& forall|j: int| 0 <= j < i ==> skipped_by_esp_search(#[trigger] l[j])
                };
            if i < k {
                assert(l[i] is NotGpt || l[i] is Gpt);
            } else if i > k {
                assert(skipped_by_esp_search(l[k]));
            }
        },
        Err(Error::NoBootPartitions) => {
            assert(skipped_by_esp_search(l[k]));
        },
        _ => {},
    }
}

/// The search by unique GUID never fails on a handle, and it chooses the
/// first entry that is a GPT partition with that unique GUID.
pub proof fn lemma_guid_search_by_entries(l: Seq<PartitionLookup>, target: Seq<u8>, r: Result<usize, Error>, k: int)
    requires
        guid_search_result(l, target, r),
        0 <= k < l.len(),
        l[k] matches PartitionLookup::Gpt { unique_guid, .. } && unique_guid@ == target,
        forall|j: int|
            0 <= j < k ==> !((#[trigger] l[j]) matches PartitionLookup::Gpt { unique_guid, .. }
                && unique_guid@ == target),
    ensures
        r == Ok::<usize, Error>(k as usize),
{
    match r {
        Ok(i) => {
            if i < k {
                assert(has_unique_guid(l[i as int], target));
            } else if i > k {
                assert(!has_unique_guid(l[k], target));
            }
        },
        _ => {
            assert(!has_unique_guid(l[k], target));
        },
    }
}

/// The search by unique GUID ends in no error but `NoBootPartitions`.
pub proof fn lemma_guid_search_never_fails_on_a_handle(l: Seq<PartitionLookup>, target: Seq<u8>, r: Result<usize, Error>)
    requires
        guid_search_result(l, target, r),
    ensures
        r is Err ==> r == Err::<usize, Error>(Error::NoBootPartitions),
        r matches Ok(i) ==> (l[i as int] matches PartitionLookup::Gpt { unique_guid, .. }
            && unique_guid@ == target),
{
}

} // verus!
