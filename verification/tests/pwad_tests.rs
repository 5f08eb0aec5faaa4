use iatodng::pwad::Pwad;
use iatodng::IaError;

/// Builds a container: 4-byte tag, lump count, directory offset, lump data,
/// then the 16-byte directory entries.
fn build_container(lumps: &[(&[u8; 8], &[u8])]) -> Vec<u8> {
    let mut data: Vec<u8> = Vec::new();
    data.extend_from_slice(b"PWAD");
    data.extend_from_slice(&(lumps.len() as u32).to_le_bytes());
    // Directory offset patched below.
    data.extend_from_slice(&0u32.to_le_bytes());
    let mut entries: Vec<(u32, u32)> = Vec::new();
    for (_, bytes) in lumps {
        let offset = data.len() as u32;
        data.extend_from_slice(bytes);
        entries.push((offset, bytes.len() as u32));
    }
    let dir_offset = data.len() as u32;
    data[8..12].copy_from_slice(&dir_offset.to_le_bytes());
    for ((name, _), (offset, size)) in lumps.iter().zip(entries.iter()) {
        data.extend_from_slice(&offset.to_le_bytes());
        data.extend_from_slice(&size.to_le_bytes());
        data.extend_from_slice(*name);
    }
    data
}

#[test]
fn test_header_fields() {
    let data = build_container(&[(b"DATA\0\0\0\0", &[1, 2, 3])]);
    let pwad = Pwad::from_bytes(data).unwrap();
    assert_eq!(pwad.header.identification, b"PWAD".to_vec());
    assert_eq!(pwad.header.num_lumps, 1);
    assert_eq!(pwad.directory.len(), 1);
    assert_eq!(pwad.directory[0].size, 3);
    assert_eq!(pwad.directory[0].name, b"DATA\0\0\0\0".to_vec());
}

#[test]
fn test_read_lump_exact_bytes() {
    let payload: &[u8] = &[10, 20, 30, 40, 50];
    let data = build_container(&[(b"DATA\0\0\0\0", payload), (b"OTHER\0\0\0", &[9, 9])]);
    let pwad = Pwad::from_bytes(data).unwrap();
    let entry = &pwad.directory[0];
    let bytes = pwad.read_lump_by_tag(b"DATA").unwrap();
    assert_eq!(bytes.len() as u32, entry.size);
    assert_eq!(bytes, payload.to_vec());
    assert_eq!(
        bytes,
        pwad.data[entry.offset as usize..(entry.offset + entry.size) as usize].to_vec()
    );
}

#[test]
fn test_read_lump_repeatable() {
    let data = build_container(&[(b"DATA\0\0\0\0", &[7, 8, 9])]);
    let pwad = Pwad::from_bytes(data).unwrap();
    let first = pwad.read_lump_by_tag(b"DATA").unwrap();
    let second = pwad.read_lump_by_tag(b"DATA").unwrap();
    assert_eq!(first, second);
}

#[test]
fn test_read_lump_prefix_match_takes_first() {
    let data = build_container(&[
        (b"ABC1\0\0\0\0", &[1]),
        (b"ABC2\0\0\0\0", &[2]),
    ]);
    let pwad = Pwad::from_bytes(data).unwrap();
    let bytes = pwad.read_lump_by_tag(b"ABC").unwrap();
    assert_eq!(bytes, vec![1]);
    let exact = pwad.read_lump_by_tag(b"ABC2").unwrap();
    assert_eq!(exact, vec![2]);
}

#[test]
fn test_read_lump_not_found() {
    let data = build_container(&[(b"DATA\0\0\0\0", &[1])]);
    let pwad = Pwad::from_bytes(data).unwrap();
    assert_eq!(pwad.read_lump_by_tag(b"MISSING!"), Err(IaError::NotFound));
}

#[test]
fn test_from_bytes_short_header() {
    assert_eq!(Pwad::from_bytes(vec![1, 2, 3, 4, 5]).err(), Some(IaError::Format));
}

#[test]
fn test_from_bytes_directory_out_of_range() {
    let mut data = build_container(&[(b"DATA\0\0\0\0", &[1])]);
    let huge = (data.len() as u32 + 100).to_le_bytes();
    data[8..12].copy_from_slice(&huge);
    assert_eq!(Pwad::from_bytes(data).err(), Some(IaError::Format));
}

#[test]
fn test_from_bytes_entry_out_of_range() {
    let mut data = build_container(&[(b"DATA\0\0\0\0", &[1, 2, 3])]);
    // Corrupt the entry's size so offset + size exceeds the file length.
    let dir_offset = u32::from_le_bytes(data[8..12].try_into().unwrap()) as usize;
    data[dir_offset + 4..dir_offset + 8].copy_from_slice(&10_000u32.to_le_bytes());
    assert_eq!(Pwad::from_bytes(data).err(), Some(IaError::Format));
}

#[test]
fn test_empty_directory() {
    let data = build_container(&[]);
    let pwad = Pwad::from_bytes(data).unwrap();
    assert_eq!(pwad.header.num_lumps, 0);
    assert_eq!(pwad.read_lump_by_tag(b"ANY"), Err(IaError::NotFound));
}
