use vors_tracker::archive::{build_index, get, read, EntryRange};
use vors_tracker::TrackError;

/// Packs named files into a sequential archive with the `tar` crate, so the
/// indexer is held against real archive bytes.
fn pack_archive(files: &[(&str, &[u8])]) -> Vec<u8> {
    let mut builder = tar::Builder::new(Vec::new());
    for (name, data) in files {
        let mut header = tar::Header::new_ustar();
        header.set_size(data.len() as u64);
        header.set_mode(0o644);
        header.set_cksum();
        builder.append_data(&mut header, name, *data).unwrap();
    }
    builder.into_inner().unwrap()
}

fn lookup_bytes(buf: &Vec<u8>, entries: &Vec<EntryRange>, name: &str) -> Vec<u8> {
    let entry = get(&name.as_bytes().to_vec(), entries).unwrap();
    read(entry, buf).unwrap()
}

#[test]
fn index_reads_back_archived_content() {
    let files: [(&str, &[u8]); 3] = [
        ("associations.txt", b"1.0 a.png 1.1 b.png\n"),
        ("a.png", b"not really a png"),
        ("b.png", &[0u8, 1, 2, 3, 255, 254]),
    ];
    let buf = pack_archive(&files);
    let entries = build_index(&buf).unwrap();
    assert_eq!(entries.len(), 3);
    for (name, data) in &files {
        assert_eq!(lookup_bytes(&buf, &entries, name), data.to_vec());
    }
}

#[test]
fn index_is_idempotent_on_unchanged_buffer() {
    let buf = pack_archive(&[("x.bin", b"payload"), ("y.bin", b"other")]);
    let first = build_index(&buf).unwrap();
    let second = build_index(&buf).unwrap();
    assert_eq!(first.len(), second.len());
    for (a, b) in first.iter().zip(second.iter()) {
        assert_eq!(a.name, b.name);
        assert_eq!(a.offset, b.offset);
        assert_eq!(a.length, b.length);
    }
}

#[test]
fn empty_buffer_gives_empty_index() {
    let entries = build_index(&Vec::new()).unwrap();
    assert_eq!(entries.len(), 0);
}

#[test]
fn truncated_header_is_malformed() {
    let buf = vec![1u8; 100];
    assert_eq!(build_index(&buf).unwrap_err(), TrackError::MalformedArchive);
}

#[test]
fn bad_size_field_is_malformed() {
    let mut buf = pack_archive(&[("x.bin", b"payload")]);
    // overwrite the octal length field with garbage
    buf[124] = b'z';
    assert_eq!(build_index(&buf).unwrap_err(), TrackError::MalformedArchive);
}

#[test]
fn truncated_payload_is_malformed() {
    let buf = pack_archive(&[("x.bin", b"payload")]);
    // keep the header but cut the payload short
    let cut = buf[..512 + 3].to_vec();
    assert_eq!(build_index(&cut).unwrap_err(), TrackError::MalformedArchive);
}

#[test]
fn unknown_entry_is_rejected() {
    let buf = pack_archive(&[("x.bin", b"payload")]);
    let entries = build_index(&buf).unwrap();
    let missing = get(&b"y.bin".to_vec(), &entries);
    assert_eq!(missing.unwrap_err(), TrackError::UnknownEntry);
}

#[test]
fn out_of_range_entry_is_rejected() {
    let buf = pack_archive(&[("x.bin", b"payload")]);
    let bogus = EntryRange { name: b"x.bin".to_vec(), offset: buf.len() as u64, length: 10 };
    assert_eq!(read(&bogus, &buf).unwrap_err(), TrackError::EntryOutOfRange);
}

#[test]
fn last_entry_wins_on_repeated_name() {
    let buf = pack_archive(&[("dup.bin", b"first"), ("dup.bin", b"second")]);
    let entries = build_index(&buf).unwrap();
    assert_eq!(lookup_bytes(&buf, &entries, "dup.bin"), b"second".to_vec());
}
