use sed_unlock::error::Error;
use sed_unlock::guid::{esp_type, parse_guid, Guid};
use sed_unlock::partition::{
    find_boot_partition, find_boot_partition_by_guid, find_first_boot_partition, PartitionLookup,
};

fn gpt(type_guid: Guid, unique: &str) -> PartitionLookup {
    PartitionLookup::Gpt { type_guid, unique_guid: parse_guid(unique).unwrap() }
}

fn linux_type() -> Guid {
    parse_guid("0fc63daf-8483-4772-8e79-3d69d8477de4").unwrap()
}

#[test]
fn first_esp_skips_non_gpt_and_other_types() {
    let parts = vec![
        PartitionLookup::NotGpt,
        gpt(linux_type(), "1-1-1-1-1"),
        gpt(esp_type(), "2-2-2-2-2"),
        gpt(esp_type(), "3-3-3-3-3"),
    ];
    assert_eq!(find_first_boot_partition(&parts), Ok(2));
}

#[test]
fn first_esp_stops_at_a_protocol_error() {
    let parts = vec![
        gpt(linux_type(), "1-1-1-1-1"),
        PartitionLookup::ProtocolError(0x8000_0000_0000_000e),
        gpt(esp_type(), "2-2-2-2-2"),
    ];
    assert_eq!(
        find_first_boot_partition(&parts),
        Err(Error::Firmware(0x8000_0000_0000_000e))
    );
}

#[test]
fn first_esp_ignores_errors_after_it() {
    let parts = vec![gpt(esp_type(), "2-2-2-2-2"), PartitionLookup::ProtocolError(3)];
    assert_eq!(find_first_boot_partition(&parts), Ok(0));
}

#[test]
fn no_esp_means_no_boot_partition() {
    assert_eq!(find_first_boot_partition(&vec![]), Err(Error::NoBootPartitions));
    let parts = vec![PartitionLookup::NotGpt, gpt(linux_type(), "1-1-1-1-1")];
    assert_eq!(find_first_boot_partition(&parts), Err(Error::NoBootPartitions));
}

#[test]
fn by_guid_skips_protocol_errors_and_matches_unique_guid() {
    let target = parse_guid("aaaa-bb-cc-dd-ee").unwrap();
    let parts = vec![
        PartitionLookup::ProtocolError(5),
        gpt(esp_type(), "1-1-1-1-1"),
        PartitionLookup::NotGpt,
        gpt(linux_type(), "aaaa-bb-cc-dd-ee"),
        gpt(esp_type(), "aaaa-bb-cc-dd-ee"),
    ];
    assert_eq!(find_boot_partition_by_guid(&parts, &target), Ok(3));
    let other = parse_guid("1-2-3-4-5").unwrap();
    assert_eq!(find_boot_partition_by_guid(&parts, &other), Err(Error::NoBootPartitions));
}

#[test]
fn by_guid_does_not_match_the_type_guid() {
    let parts = vec![gpt(esp_type(), "1-1-1-1-1")];
    assert_eq!(
        find_boot_partition_by_guid(&parts, &esp_type()),
        Err(Error::NoBootPartitions)
    );
}

#[test]
fn configured_guid_selects_the_search() {
    let parts = vec![
        gpt(esp_type(), "1-1-1-1-1"),
        gpt(linux_type(), "4f68bce3-e8cd-4db1-96e7-fbcaf984b709"),
    ];
    assert_eq!(find_boot_partition(None, &parts), Ok(0));
    assert_eq!(find_boot_partition(Some(""), &parts), Ok(0));
    assert_eq!(
        find_boot_partition(Some("4F68BCE3-E8CD-4DB1-96E7-FBCAF984B709"), &parts),
        Ok(1)
    );
    assert_eq!(
        find_boot_partition(Some("4f68bce3-e8cd-4db1-96e7-fbcaf984b700"), &parts),
        Err(Error::NoBootPartitions)
    );
}

#[test]
fn removing_entries_without_the_guid_keeps_the_choice() {
    let target = parse_guid("aaaa-bb-cc-dd-ee").unwrap();
    let full = vec![
        PartitionLookup::ProtocolError(5),
        PartitionLookup::NotGpt,
        gpt(esp_type(), "1-1-1-1-1"),
        gpt(linux_type(), "aaaa-bb-cc-dd-ee"),
        PartitionLookup::ProtocolError(7),
    ];
    let chosen = find_boot_partition_by_guid(&full, &target).unwrap();
    for k in [0usize, 1, 2, 4] {
        let mut fewer = full.clone();
        fewer.remove(k);
        let i = find_boot_partition_by_guid(&fewer, &target).unwrap();
        assert_eq!(i, if chosen > k { chosen - 1 } else { chosen });
        let PartitionLookup::Gpt { unique_guid, .. } = fewer[i] else { panic!("not a GPT entry") };
        assert!(unique_guid.same_as(&target));
    }
    let only_gpt: Vec<PartitionLookup> =
        full.iter().copied().filter(|e| matches!(e, PartitionLookup::Gpt { .. })).collect();
    assert_eq!(find_boot_partition_by_guid(&only_gpt, &target), Ok(1));
}
