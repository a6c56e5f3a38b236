//! Tests for resource-fork parsing and resource lookup.

use clarus::rsrc::ResourceError;
use clarus::rsrc::ResourceFork;
use clarus::rsrc::ResourceType;
use clarus::rsrc::ResourceTypeError;

/// Builds a minimal resource fork holding one `STR#` resource with ID 777
/// named "Example", whose data is the given payload.
fn string_table_fork(payload: &[u8]) -> Vec<u8> {
    let data_len = (payload.len() + 4) as u32;
    let map_offset = 16 + data_len;

    let mut fork = Vec::new();
    // Fork header: data offset, map offset, data length, map length.
    fork.extend_from_slice(&16u32.to_be_bytes());
    fork.extend_from_slice(&map_offset.to_be_bytes());
    fork.extend_from_slice(&data_len.to_be_bytes());
    fork.extend_from_slice(&58u32.to_be_bytes());
    // Data area: one resource, length-prefixed.
    fork.extend_from_slice(&(payload.len() as u32).to_be_bytes());
    fork.extend_from_slice(payload);
    // Map: 22 reserved bytes, attributes, type-list offset, name-list
    // offset.
    fork.extend_from_slice(&[0; 22]);
    fork.extend_from_slice(&0u16.to_be_bytes());
    fork.extend_from_slice(&28u16.to_be_bytes());
    fork.extend_from_slice(&50u16.to_be_bytes());
    // Type list: one type ("count minus one" encoding), entry for STR#
    // with one reference at offset 10 from the type list.
    fork.extend_from_slice(&0u16.to_be_bytes());
    fork.extend_from_slice(b"STR#");
    fork.extend_from_slice(&0u16.to_be_bytes());
    fork.extend_from_slice(&10u16.to_be_bytes());
    // Reference list: ID 777, name at offset 0 of the name list, no
    // attributes, data at offset 0, four reserved bytes.
    fork.extend_from_slice(&777u16.to_be_bytes());
    fork.extend_from_slice(&0u16.to_be_bytes());
    fork.push(0);
    fork.extend_from_slice(&[0, 0, 0]);
    fork.extend_from_slice(&[0; 4]);
    // Name list: one Pascal-style string.
    fork.push(7);
    fork.extend_from_slice(b"Example");
    fork
}

#[test]
fn load_resource() {
    let resource_fork = ResourceFork::new(string_table_fork(b"a string table")).unwrap();

    assert_eq!(1, resource_fork.resources().len());

    let mut resource_data = vec![];

    let metadata = resource_fork
        .load_by_id(ResourceType::try_from_str("STR#").unwrap(), 777, &mut resource_data)
        .unwrap();

    assert!(resource_data.len() > 0);
    assert!(metadata.resource_type().matches_str("STR#"));
    assert_eq!(777, metadata.id());
    assert_eq!(Some(&String::from("Example")), metadata.name());

    resource_data.clear();

    let metadata = resource_fork
        .load_by_name(
            ResourceType::try_from_str("STR#").unwrap(),
            String::from("Example"),
            &mut resource_data,
        )
        .unwrap();

    assert!(resource_data.len() > 0);
    assert!(metadata.resource_type().matches_str("STR#"));
    assert_eq!(777, metadata.id());
    assert_eq!(Some(&String::from("Example")), metadata.name());
}

#[test]
fn load_resource_data_is_exact() {
    let resource_fork = ResourceFork::new(string_table_fork(b"payload bytes")).unwrap();

    let mut resource_data = vec![];
    resource_fork
        .load_by_id(ResourceType::try_from_str("STR#").unwrap(), 777, &mut resource_data)
        .unwrap();

    assert_eq!(b"payload bytes", resource_data.as_slice());
}

#[test]
fn missing_resource_is_not_found() {
    let resource_fork = ResourceFork::new(string_table_fork(b"x")).unwrap();
    let mut dest = vec![];

    assert_eq!(
        Err(ResourceError::NotFound),
        resource_fork
            .load_by_id(ResourceType::try_from_str("STR#").unwrap(), 778, &mut dest)
            .map(|_| ())
    );
    assert_eq!(
        Err(ResourceError::NotFound),
        resource_fork
            .load_by_id(ResourceType::try_from_str("ICON").unwrap(), 777, &mut dest)
            .map(|_| ())
    );
    assert_eq!(
        Err(ResourceError::NotFound),
        resource_fork
            .load_by_name(
                ResourceType::try_from_str("STR#").unwrap(),
                String::from("Other"),
                &mut dest,
            )
            .map(|_| ())
    );
    assert!(dest.is_empty());
}

#[test]
fn truncated_fork_is_rejected() {
    assert_eq!(
        Err(ResourceError::UnexpectedEof),
        ResourceFork::new(vec![0u8; 15]).map(|_| ())
    );
}

#[test]
fn short_map_is_corrupt() {
    // A fork whose map is declared shorter than the minimum 30 bytes.
    let mut fork = vec![0u8; 16];
    fork[7] = 16;  // map offset
    fork[15] = 20;  // map length
    fork.extend_from_slice(&[0; 20]);

    assert_eq!(
        Err(ResourceError::CorruptResourceMap),
        ResourceFork::new(fork).map(|_| ())
    );
}

#[test]
fn fork_attributes_are_reported() {
    let mut fork = string_table_fork(b"x");
    // The attributes field sits 22 bytes into the map.
    let map_offset = u32::from_be_bytes([fork[4], fork[5], fork[6], fork[7]]) as usize;
    fork[map_offset + 22] = 0x12;
    fork[map_offset + 23] = 0x34;

    let resource_fork = ResourceFork::new(fork).unwrap();

    assert_eq!(0x1234, resource_fork.attributes());
}

#[test]
fn resource_type_from_slice() {
    let bytes = b"__snd __";

    assert_eq!(
        ResourceType::from_bytes(*b"snd "),
        ResourceType::try_from_slice(&bytes[2..6]).unwrap()
    );

    assert_eq!(
        ResourceTypeError::BadLength(3),
        ResourceType::try_from_slice(&bytes[2..5]).unwrap_err()
    );
}

#[test]
fn resource_type_from_str() {
    assert_eq!(
        ResourceType::from_bytes(*b"snd "),
        ResourceType::try_from_str("snd ").unwrap()
    );

    assert_eq!(
        ResourceTypeError::BadLength(5),
        ResourceType::try_from_str("OH NO").unwrap_err()
    );

    assert_eq!(
        ResourceTypeError::IllegalCharacters,
        ResourceType::try_from_str("\u{1F918}").unwrap_err()
    );
}

#[test]
fn resource_type_to_string() {
    assert_eq!(String::from("snd "), ResourceType::from_bytes(*b"snd ").to_text());
}

#[test]
fn resource_partial_equal_string() {
    assert!(ResourceType::from_bytes(*b"snd ").matches_str(String::from("snd ").as_str()));
    assert!(!ResourceType::from_bytes(*b"snd ").matches_str(String::from("nope").as_str()));
}

#[test]
fn resource_partial_equal_str() {
    assert!(ResourceType::from_bytes(*b"snd ").matches_str("snd "));
    assert!(!ResourceType::from_bytes(*b"snd ").matches_str("nope"));
}

#[test]
fn resource_partial_equal_slice() {
    let bytes = b"__snd __";

    assert!(ResourceType::from_bytes(*b"snd ").matches_slice(&bytes[2..6]));
    assert!(!ResourceType::from_bytes(*b"snd ").matches_slice(&bytes[2..8]));
}
