use png::HasParameters;

use vors_tracker::session::{create_camera, CameraId};
use vors_tracker::TrackError;
use vors_tracker::WasmTracker;

fn encode_depth_png(width: u32, height: u32, samples: &[u16]) -> Vec<u8> {
    let mut raw = Vec::with_capacity(samples.len() * 2);
    for s in samples {
        raw.push((s >> 8) as u8);
        raw.push((s & 0xff) as u8);
    }
    let mut out = Vec::new();
    {
        let mut encoder = png::Encoder::new(&mut out, width, height);
        encoder.set(png::ColorType::Grayscale).set(png::BitDepth::Sixteen);
        let mut writer = encoder.write_header().unwrap();
        writer.write_image_data(&raw).unwrap();
    }
    out
}

fn encode_gray_png(width: u32, height: u32, samples: &[u8]) -> Vec<u8> {
    let mut out = Vec::new();
    {
        let mut encoder = png::Encoder::new(&mut out, width, height);
        encoder.set(png::ColorType::Grayscale).set(png::BitDepth::Eight);
        let mut writer = encoder.write_header().unwrap();
        writer.write_image_data(samples).unwrap();
    }
    out
}

fn pack_archive(files: &[(&str, &[u8])]) -> Vec<u8> {
    let mut builder = tar::Builder::new(Vec::new());
    for (name, data) in files {
        let mut header = tar::Header::new_ustar();
        header.set_size(data.len() as u64);
        header.set_mode(0o644);
        header.set_cksum();
        builder.append_data(&mut header, name, *data).unwrap();
    }
    builder.into_inner().unwrap()
}

/// A session loaded with a two-frame archive, indexed but not initialized.
fn indexed_session() -> WasmTracker {
    let depth0 = encode_depth_png(2, 2, &[100, 300, 5000, 65535]);
    let color0 = encode_gray_png(2, 2, &[10, 20, 30, 40]);
    let depth1 = encode_depth_png(2, 2, &[1, 2, 3, 4]);
    let color1 = encode_gray_png(2, 2, &[5, 6, 7, 8]);
    let manifest = b"1.0 depth0.png 1.1 color0.png\n2.0 depth1.png 2.1 color1.png\n";
    let archive = pack_archive(&[
        ("associations.txt", manifest),
        ("depth0.png", &depth0),
        ("color0.png", &color0),
        ("depth1.png", &depth1),
        ("color1.png", &color1),
    ]);
    let mut tracker = WasmTracker::new();
    tracker.allocate(archive.len());
    tracker.write_bytes(0, &archive);
    tracker.build_entries_map().unwrap();
    tracker
}

#[test]
fn camera_identifiers_resolve() {
    assert_eq!(create_camera(&b"fr1".to_vec()).unwrap(), CameraId::Fr1);
    assert_eq!(create_camera(&b"fr2".to_vec()).unwrap(), CameraId::Fr2);
    assert_eq!(create_camera(&b"fr3".to_vec()).unwrap(), CameraId::Fr3);
    assert_eq!(create_camera(&b"icl".to_vec()).unwrap(), CameraId::IclNuim);
    assert_eq!(create_camera(&b"fr4".to_vec()).unwrap_err(), TrackError::UnknownCamera);
    assert_eq!(create_camera(&b"".to_vec()).unwrap_err(), TrackError::UnknownCamera);
}

#[test]
fn init_on_two_associations_returns_frame_count_2() {
    let mut tracker = indexed_session();
    let init = tracker.init(&b"fr1".to_vec()).unwrap();
    assert_eq!(init.frame_count, 2);
}

#[test]
fn init_hands_out_frame_0() {
    let mut tracker = indexed_session();
    let init = tracker.init(&b"icl".to_vec()).unwrap();
    assert_eq!(init.first_frame.depth.width, 2);
    assert_eq!(init.first_frame.depth.height, 2);
    assert_eq!(init.first_frame.depth.data, vec![100, 300, 5000, 65535]);
    assert_eq!(init.first_frame.color.data, vec![10, 20, 30, 40]);
    assert_eq!(init.first_frame.depth_timestamp, b"1.0".to_vec());
    assert_eq!(init.first_frame.color_timestamp, b"1.1".to_vec());
}

#[test]
fn track_loads_each_frame() {
    let mut tracker = indexed_session();
    tracker.init(&b"fr2".to_vec()).unwrap();
    let f0 = tracker.track(0).unwrap();
    assert_eq!(f0.depth.data, vec![100, 300, 5000, 65535]);
    assert_eq!(f0.depth_timestamp, b"1.0".to_vec());
    let f1 = tracker.track(1).unwrap();
    assert_eq!(f1.depth.data, vec![1, 2, 3, 4]);
    assert_eq!(f1.color.data, vec![5, 6, 7, 8]);
    assert_eq!(f1.depth_timestamp, b"2.0".to_vec());
    assert_eq!(f1.color_timestamp, b"2.1".to_vec());
}

#[test]
fn track_out_of_range_fails_for_every_such_id() {
    let mut tracker = indexed_session();
    tracker.init(&b"fr3".to_vec()).unwrap();
    for frame_id in [2usize, 3, 100, usize::MAX] {
        let err = tracker.track(frame_id).unwrap_err();
        assert_eq!(err, TrackError::FrameOutOfRange);
    }
    // the session still works afterwards
    assert!(tracker.track(1).is_ok());
}

#[test]
fn track_before_init_is_not_ready() {
    let tracker = indexed_session();
    assert_eq!(tracker.track(0).unwrap_err(), TrackError::SessionNotReady);
}

#[test]
fn init_before_index_build_fails() {
    let mut tracker = WasmTracker::new();
    assert_eq!(tracker.init(&b"fr1".to_vec()).unwrap_err(), TrackError::NotIndexed);
}

#[test]
fn unknown_camera_is_rejected() {
    let mut tracker = indexed_session();
    assert_eq!(tracker.init(&b"kinect".to_vec()).unwrap_err(), TrackError::UnknownCamera);
    // and the session state is unchanged: still not ready
    assert_eq!(tracker.track(0).unwrap_err(), TrackError::SessionNotReady);
}

#[test]
fn missing_manifest_is_rejected() {
    let archive = pack_archive(&[("other.txt", b"hello")]);
    let mut tracker = WasmTracker::new();
    tracker.allocate(archive.len());
    tracker.write_bytes(0, &archive);
    tracker.build_entries_map().unwrap();
    assert_eq!(tracker.init(&b"fr1".to_vec()).unwrap_err(), TrackError::MissingManifest);
}

#[test]
fn empty_manifest_leaves_no_frame_0() {
    let archive = pack_archive(&[("associations.txt", b"# no pairs\n")]);
    let mut tracker = WasmTracker::new();
    tracker.allocate(archive.len());
    tracker.write_bytes(0, &archive);
    tracker.build_entries_map().unwrap();
    assert_eq!(tracker.init(&b"fr1".to_vec()).unwrap_err(), TrackError::FrameOutOfRange);
}

#[test]
fn manifest_referencing_missing_image_fails_init() {
    let archive = pack_archive(&[("associations.txt", b"1.0 depth0.png 1.1 color0.png\n")]);
    let mut tracker = WasmTracker::new();
    tracker.allocate(archive.len());
    tracker.write_bytes(0, &archive);
    tracker.build_entries_map().unwrap();
    assert_eq!(tracker.init(&b"fr1".to_vec()).unwrap_err(), TrackError::UnknownEntry);
}

#[test]
fn reallocate_and_rebuild_replaces_the_index() {
    let mut tracker = indexed_session();
    tracker.init(&b"fr1".to_vec()).unwrap();
    // a fresh archive without the old entries
    let archive = pack_archive(&[("only.txt", b"fresh content")]);
    tracker.allocate(archive.len());
    tracker.write_bytes(0, &archive);
    tracker.build_entries_map().unwrap();
    // nothing of the previous archive is retained
    assert_eq!(tracker.init(&b"fr1".to_vec()).unwrap_err(), TrackError::MissingManifest);
    assert_eq!(tracker.track(0).unwrap_err(), TrackError::SessionNotReady);
}

#[test]
fn malformed_archive_fails_the_build() {
    let mut tracker = WasmTracker::new();
    tracker.allocate(700);
    tracker.write_bytes(0, &vec![7u8; 700]);
    assert_eq!(tracker.build_entries_map().unwrap_err(), TrackError::MalformedArchive);
    assert_eq!(tracker.init(&b"fr1".to_vec()).unwrap_err(), TrackError::NotIndexed);
}

#[test]
fn malformed_manifest_fails_init() {
    let archive = pack_archive(&[("associations.txt", b"1.0 depth0.png\n")]);
    let mut tracker = WasmTracker::new();
    tracker.allocate(archive.len());
    tracker.write_bytes(0, &archive);
    tracker.build_entries_map().unwrap();
    assert_eq!(
        tracker.init(&b"fr1".to_vec()).unwrap_err(),
        TrackError::MalformedAssociationLine
    );
}

#[test]
fn corrupt_depth_image_fails_with_depth_decode_error() {
    let color0 = encode_gray_png(1, 1, &[7]);
    let archive = pack_archive(&[
        ("associations.txt", b"1.0 depth0.png 1.1 color0.png\n"),
        ("depth0.png", b"corrupt"),
        ("color0.png", &color0),
    ]);
    let mut tracker = WasmTracker::new();
    tracker.allocate(archive.len());
    tracker.write_bytes(0, &archive);
    tracker.build_entries_map().unwrap();
    assert_eq!(tracker.init(&b"fr1".to_vec()).unwrap_err(), TrackError::DepthDecodeError);
}

#[test]
fn corrupt_color_image_fails_with_color_decode_error() {
    let depth0 = encode_depth_png(1, 1, &[300]);
    let archive = pack_archive(&[
        ("associations.txt", b"1.0 depth0.png 1.1 color0.png\n"),
        ("depth0.png", &depth0),
        ("color0.png", b"corrupt"),
    ]);
    let mut tracker = WasmTracker::new();
    tracker.allocate(archive.len());
    tracker.write_bytes(0, &archive);
    tracker.build_entries_map().unwrap();
    assert_eq!(tracker.init(&b"fr1".to_vec()).unwrap_err(), TrackError::ColorDecodeError);
}
