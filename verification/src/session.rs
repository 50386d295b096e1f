//! The session controller: a state machine over the archive buffer, its
//! index, and the association sequence.
//!
//! The host allocates the buffer, writes archive bytes into it, builds the
//! index, initializes the session, and then requests frames one at a time.
//! The numerical pose estimation itself belongs to an external tracking
//! engine: the session hands each decoded frame out and the surrounding
//! runtime feeds it to the engine.

use vstd::prelude::*;

use crate::archive;
use crate::archive::{spec_index, spec_lookup, spec_read, views_of, EntryRange, SpecEntry};
use crate::assoc;
use crate::assoc::{assoc_views, spec_parse, AssocSpec, Association};
use crate::decode;
use crate::decode::{
    spec_color_decode, spec_depth_decode, ColorMatrix, DepthMatrix,
};
use crate::errors::TrackError;

verus! {

/// A known camera identifier; the calibration constants themselves live with
/// the host, which resolves an identifier to its intrinsics record.
#[derive(Clone, Copy, Debug, PartialEq, Eq, Structural)]
pub enum CameraId {
    Fr1,
    Fr2,
    Fr3,
    IclNuim,
}

/// The bytes of `"fr1"`.
pub open spec fn fr1_name() -> Seq<u8> {
    seq![102u8, 114u8, 49u8]
}

/// The bytes of `"fr2"`.
pub open spec fn fr2_name() -> Seq<u8> {
    seq![102u8, 114u8, 50u8]
}

/// The bytes of `"fr3"`.
pub open spec fn fr3_name() -> Seq<u8> {
    seq![102u8, 114u8, 51u8]
}

/// The bytes of `"icl"`.
pub open spec fn icl_name() -> Seq<u8> {
    seq![105u8, 99u8, 108u8]
}

/// The camera a given identifier names, if any.
pub open spec fn spec_camera(name: Seq<u8>) -> Option<CameraId> {
    if name == fr1_name() {
        Some(CameraId::Fr1)
    } else if name == fr2_name() {
        Some(CameraId::Fr2)
    } else if name == fr3_name() {
        Some(CameraId::Fr3)
    } else if name == icl_name() {
        Some(CameraId::IclNuim)
    } else {
        None
    }
}

/// Resolves a camera identifier; an unrecognized identifier is rejected,
/// with no partial or default fallback.
pub fn create_camera(camera_id: &Vec<u8>) -> (r: Result<CameraId, TrackError>)
    ensures
        r is Ok <==> spec_camera(camera_id@) is Some,
        r matches Ok(c) ==> spec_camera(camera_id@) == Some(c),
        r matches Err(e) ==> e == TrackError::UnknownCamera,
{
    if camera_id.len() == 3 {
        let c0 = camera_id[0];
        let c1 = camera_id[1];
        let c2 = camera_id[2];
        if c0 == 102 && c1 == 114 && c2 == 49 {
            proof {
                assert(camera_id@ =~= fr1_name());
            }
            return Ok(CameraId::Fr1);
        }
        if c0 == 102 && c1 == 114 && c2 == 50 {
            proof {
                assert(camera_id@ =~= fr2_name());
            }
            return Ok(CameraId::Fr2);
        }
        if c0 == 102 && c1 == 114 && c2 == 51 {
            proof {
                assert(camera_id@ =~= fr3_name());
            }
            return Ok(CameraId::Fr3);
        }
        if c0 == 105 && c1 == 99 && c2 == 108 {
            proof {
                assert(camera_id@ =~= icl_name());
            }
            return Ok(CameraId::IclNuim);
        }
    }
    Err(TrackError::UnknownCamera)
}

/// The bytes of `"associations.txt"`, the archive entry holding the
/// manifest.
pub open spec fn manifest_name() -> Seq<u8> {
    seq![
        97u8, 115u8, 115u8, 111u8, 99u8, 105u8, 97u8, 116u8, 105u8, 111u8, 110u8, 115u8,
        46u8, 116u8, 120u8, 116u8,
    ]
}

fn manifest_name_vec() -> (r: Vec<u8>)
    ensures
        r@ == manifest_name(),
{
    let mut v: Vec<u8> = Vec::new();
    v.push(97);
    v.push(115);
    v.push(115);
    v.push(111);
    v.push(99);
    v.push(105);
    v.push(97);
    v.push(116);
    v.push(105);
    v.push(111);
    v.push(110);
    v.push(115);
    v.push(46);
    v.push(116);
    v.push(120);
    v.push(116);
    proof {
        assert(v@ =~= manifest_name());
    }
    v
}

fn clone_bytes(v: &Vec<u8>) -> (r: Vec<u8>)
    ensures
        r@ == v@,
{
    let mut out: Vec<u8> = Vec::new();
    let mut i: usize = 0;
    while i < v.len()
        invariant
            i <= v@.len(),
            out@ =~= v@.take(i as int),
        decreases v@.len() - i,
    {
        out.push(v[i]);
        i += 1;
    }
    proof {
        assert(v@.take(v@.len() as int) =~= v@);
    }
    out
}

/// One decoded frame, ready to hand to the tracking engine: the depth and
/// grayscale grids with the raw bytes of their capture timestamps.
#[derive(Debug)]
pub struct FrameData {
    pub depth: DepthMatrix,
    pub color: ColorMatrix,
    pub depth_timestamp: Vec<u8>,
    pub color_timestamp: Vec<u8>,
}

/// The mathematical model of one decoded frame: each grid as its width,
/// height and sample sequence.
pub struct FrameSpec {
    pub depth: (nat, nat, Seq<u16>),
    pub color: (nat, nat, Seq<u8>),
    pub depth_timestamp: Seq<u8>,
    pub color_timestamp: Seq<u8>,
}

impl View for FrameData {
    type V = FrameSpec;

    open spec fn view(&self) -> FrameSpec {
        FrameSpec {
            depth: (self.depth.width as nat, self.depth.height as nat, self.depth.data@),
            color: (self.color.width as nat, self.color.height as nat, self.color.data@),
            depth_timestamp: self.depth_timestamp@,
            color_timestamp: self.color_timestamp@,
        }
    }
}

/// What loading an association's image pair out of the buffer yields: look
/// up and read the depth entry and decode it at full bit depth, then the
/// same for the color entry at 8-bit grayscale.
pub open spec fn spec_load_images(b: Seq<u8>, es: Seq<SpecEntry>, a: AssocSpec) -> Result<
    ((nat, nat, Seq<u16>), (nat, nat, Seq<u8>)),
    TrackError,
> {
    match spec_lookup(es, a.depth_file_path) {
        None => Err(TrackError::UnknownEntry),
        Some(de) => match spec_read(b, de) {
            Err(e) => Err(e),
            Ok(dbytes) => match spec_depth_decode(dbytes) {
                Err(e) => Err(e),
                Ok(dm) => match spec_lookup(es, a.color_file_path) {
                    None => Err(TrackError::UnknownEntry),
                    Some(ce) => match spec_read(b, ce) {
                        Err(e) => Err(e),
                        Ok(cbytes) => match spec_color_decode(cbytes) {
                            Err(e) => Err(e),
                            Ok(cm) => Ok((dm, cm)),
                        },
                    },
                },
            },
        },
    }
}

/// Reads and decodes the depth and color images named by one association.
pub fn read_images(a: &Association, buffer: &Vec<u8>, entries: &Vec<EntryRange>) -> (r:
    Result<(DepthMatrix, ColorMatrix), TrackError>)
    ensures
        r is Ok <==> spec_load_images(buffer@, views_of(entries@), a@) is Ok,
        r matches Ok(p) ==> spec_load_images(buffer@, views_of(entries@), a@) == Ok::<
            _,
            TrackError,
        >(
            (
                (p.0.width as nat, p.0.height as nat, p.0.data@),
                (p.1.width as nat, p.1.height as nat, p.1.data@),
            ),
        ) && p.0.wf() && p.1.wf(),
        r matches Err(e) ==> spec_load_images(buffer@, views_of(entries@), a@) == Err::<
            ((nat, nat, Seq<u16>), (nat, nat, Seq<u8>)),
            TrackError,
        >(e),
{
    let dentry = match archive::get(&a.depth_file_path, entries) {
        Err(_) => {
            return Err(TrackError::UnknownEntry);
        },
        Ok(e) => e,
    };
    let dbytes = match archive::read(dentry, buffer) {
        Err(e) => {
            return Err(e);
        },
        Ok(bs) => bs,
    };
    let depth = match decode::decode_depth(&dbytes) {
        Err(e) => {
            return Err(e);
        },
        Ok(m) => m,
    };
    let centry = match archive::get(&a.color_file_path, entries) {
        Err(_) => {
            return Err(TrackError::UnknownEntry);
        },
        Ok(e) => e,
    };
    let cbytes = match archive::read(centry, buffer) {
        Err(e) => {
            return Err(e);
        },
        Ok(bs) => bs,
    };
    let color = match decode::decode_color(&cbytes) {
        Err(e) => {
            return Err(e);
        },
        Ok(m) => m,
    };
    Ok((depth, color))
}

/// What a successful initialization returns to the host runtime: the frame
/// count, the resolved camera, and the first decoded frame with which the
/// runtime constructs the tracking engine.
#[derive(Debug)]
pub struct SessionInit {
    pub frame_count: usize,
    pub camera: CameraId,
    pub first_frame: FrameData,
}

/// What initialization yields, given the session's pre-call state: the
/// resolved camera, the parsed association sequence, and frame 0's images.
pub open spec fn spec_init(
    indexed: bool,
    b: Seq<u8>,
    es: Seq<SpecEntry>,
    cam: Seq<u8>,
) -> Result<(CameraId, Seq<AssocSpec>, ((nat, nat, Seq<u16>), (nat, nat, Seq<u8>))), TrackError> {
    if !indexed {
        Err(TrackError::NotIndexed)
    } else {
        match spec_camera(cam) {
            None => Err(TrackError::UnknownCamera),
            Some(c) => match spec_lookup(es, manifest_name()) {
                None => Err(TrackError::MissingManifest),
                Some(me) => match spec_read(b, me) {
                    Err(e) => Err(e),
                    Ok(text) => match spec_parse(text) {
                        None => Err(TrackError::MalformedAssociationLine),
                        Some(assocs) => if assocs.len() == 0 {
                            Err(TrackError::FrameOutOfRange)
                        } else {
                            match spec_load_images(b, es, assocs[0]) {
                                Err(e) => Err(e),
                                Ok(pair) => Ok((c, assocs, pair)),
                            }
                        },
                    },
                },
            },
        }
    }
}

/// The in-memory session: the archive buffer the host fills, the index built
/// over it, and, once initialized, the association sequence driving frame
/// order.
pub struct WasmTracker {
    pub tar_buffer: Vec<u8>,
    pub entries: Vec<EntryRange>,
    pub indexed: bool,
    pub associations: Vec<Association>,
    pub ready: bool,
}

impl WasmTracker {
    /// A fresh session: empty buffer, no index, no associations.
    pub fn new() -> (r: WasmTracker)
        ensures
            r.tar_buffer@.len() == 0,
            r.entries@.len() == 0,
            !r.indexed,
            r.associations@.len() == 0,
            !r.ready,
    {
        WasmTracker {
            tar_buffer: Vec::new(),
            entries: Vec::new(),
            indexed: false,
            associations: Vec::new(),
            ready: false,
        }
    }

    /// Replaces the buffer with `length` zero bytes, discarding any prior
    /// content and invalidating any previously built index and any loaded
    /// associations.
    pub fn allocate(&mut self, length: usize)
        ensures
            final(self).tar_buffer@ == Seq::new(length as nat, |i: int| 0u8),
            final(self).entries@.len() == 0,
            !final(self).indexed,
            final(self).associations@.len() == 0,
            !final(self).ready,
    {
        let mut buf: Vec<u8> = Vec::new();
        let mut i: usize = 0;
        while i < length
            invariant
                i <= length,
                buf@ =~= Seq::new(i as nat, |k: int| 0u8),
            decreases length - i,
        {
            buf.push(0);
            i += 1;
        }
        self.tar_buffer = buf;
        self.entries = Vec::new();
        self.indexed = false;
        self.associations = Vec::new();
        self.ready = false;
    }

    /// The buffer itself, so the host can fill it through its own write
    /// mechanism; any handle derived from it is invalidated by the next
    /// `allocate`.
    pub fn memory(&self) -> (r: &Vec<u8>)
        ensures
            r@ == self.tar_buffer@,
    {
        &self.tar_buffer
    }

    /// Writes archive bytes into the buffer at `offset`.  Mutating the
    /// buffer invalidates any previously built index, so the index and the
    /// downstream session state are reset.
    pub fn write_bytes(&mut self, offset: usize, data: &Vec<u8>)
        requires
            offset + data@.len() <= old(self).tar_buffer@.len(),
        ensures
            final(self).tar_buffer@.len() == old(self).tar_buffer@.len(),
            forall|k: int|
                0 <= k < old(self).tar_buffer@.len() ==> final(self).tar_buffer@[k] == (
                if offset <= k < offset + data@.len() {
                    data@[k - offset]
                } else {
                    old(self).tar_buffer@[k]
                }),
            final(self).entries@.len() == 0,
            !final(self).indexed,
            final(self).associations@.len() == 0,
            !final(self).ready,
    {
        let blen: usize = self.tar_buffer.len();
        let mut i: usize = 0;
        while i < data.len()
            invariant
                i <= data@.len(),
                blen == self.tar_buffer@.len(),
                offset + data@.len() <= self.tar_buffer@.len(),
                self.tar_buffer@.len() == old(self).tar_buffer@.len(),
                forall|k: int|
                    0 <= k < self.tar_buffer@.len() ==> self.tar_buffer@[k] == (
                    if offset <= k < offset + i {
                        data@[k - offset]
                    } else {
                        old(self).tar_buffer@[k]
                    }),
            decreases data@.len() - i,
        {
            self.tar_buffer.set(offset + i, data[i]);
            i += 1;
        }
        self.entries = Vec::new();
        self.indexed = false;
        self.associations = Vec::new();
        self.ready = false;
    }

    /// Builds the name-to-range index over the current buffer, replacing any
    /// previous index entirely.  A failed build leaves no index behind.
    pub fn build_entries_map(&mut self) -> (r: Result<(), TrackError>)
        ensures
            r is Ok <==> spec_index(old(self).tar_buffer@) is Some,
            final(self).tar_buffer@ == old(self).tar_buffer@,
            final(self).associations@.len() == 0,
            !final(self).ready,
            r is Ok ==> final(self).indexed && Some(views_of(final(self).entries@))
                == spec_index(old(self).tar_buffer@),
            r is Err ==> !final(self).indexed && final(self).entries@.len() == 0 && r
                == Err::<(), TrackError>(TrackError::MalformedArchive),
    {
        match archive::build_index(&self.tar_buffer) {
            Ok(es) => {
                self.entries = es;
                self.indexed = true;
                self.associations = Vec::new();
                self.ready = false;
                Ok(())
            },
            Err(e) => {
                self.entries = Vec::new();
                self.indexed = false;
                self.associations = Vec::new();
                self.ready = false;
                Err(e)
            },
        }
    }

    /// Initializes the session: resolves the camera, reads and parses the
    /// association manifest, and loads frame 0's depth/color pair for the
    /// host to construct the tracking engine with.  On failure the session
    /// is left exactly as it was.
    pub fn init(&mut self, camera_id: &Vec<u8>) -> (r: Result<SessionInit, TrackError>)
        ensures
            r is Ok <==> spec_init(
                old(self).indexed,
                old(self).tar_buffer@,
                views_of(old(self).entries@),
                camera_id@,
            ) is Ok,
            r matches Ok(si) ==> spec_init(
                old(self).indexed,
                old(self).tar_buffer@,
                views_of(old(self).entries@),
                camera_id@,
            ) matches Ok(t) && t.0 == si.camera && t.1 == assoc_views(
                final(self).associations@,
            ) && t.2 == (si.first_frame@.depth, si.first_frame@.color)
                && si.first_frame@.depth_timestamp == t.1[0].depth_timestamp
                && si.first_frame@.color_timestamp == t.1[0].color_timestamp
                && si.frame_count == final(self).associations@.len() && final(self).ready
                && final(self).tar_buffer@ == old(self).tar_buffer@ && final(self).entries@
                == old(self).entries@ && final(self).indexed == old(self).indexed,
            r matches Err(e) ==> spec_init(
                old(self).indexed,
                old(self).tar_buffer@,
                views_of(old(self).entries@),
                camera_id@,
            ) == Err::<
                (CameraId, Seq<AssocSpec>, ((nat, nat, Seq<u16>), (nat, nat, Seq<u8>))),
                TrackError,
            >(e) && *final(self) == *old(self),
    {
        if !self.indexed {
            return Err(TrackError::NotIndexed);
        }
        let camera = match create_camera(camera_id) {
            Err(e) => {
                return Err(e);
            },
            Ok(c) => c,
        };
        let manifest = manifest_name_vec();
        let text = match archive::get(&manifest, &self.entries) {
            Err(_) => {
                return Err(TrackError::MissingManifest);
            },
            Ok(me) => match archive::read(me, &self.tar_buffer) {
                Err(e) => {
                    return Err(e);
                },
                Ok(t) => t,
            },
        };
        let assocs = match assoc::parse_associations(&text) {
            Err(e) => {
                return Err(e);
            },
            Ok(v) => v,
        };
        if assocs.len() == 0 {
            return Err(TrackError::FrameOutOfRange);
        }
        let pair = match read_images(&assocs[0], &self.tar_buffer, &self.entries) {
            Err(e) => {
                return Err(e);
            },
            Ok(p) => p,
        };
        let first_frame = FrameData {
            depth: pair.0,
            color: pair.1,
            depth_timestamp: clone_bytes(&assocs[0].depth_timestamp),
            color_timestamp: clone_bytes(&assocs[0].color_timestamp),
        };
        let frame_count = assocs.len();
        self.associations = assocs;
        self.ready = true;
        Ok(SessionInit { frame_count, camera, first_frame })
    }

    /// Loads the frame a frame id addresses and hands it out for the
    /// tracking engine's incremental update.  A frame id addressing no
    /// association is rejected without clamping, and the session itself is
    /// never mutated by this call.
    pub fn track(&self, frame_id: usize) -> (r: Result<FrameData, TrackError>)
        ensures
            !self.ready ==> r == Err::<FrameData, TrackError>(TrackError::SessionNotReady),
            self.ready && frame_id >= self.associations@.len() ==> r == Err::<
                FrameData,
                TrackError,
            >(TrackError::FrameOutOfRange),
            self.ready && frame_id < self.associations@.len() ==> match r {
                Ok(f) => spec_load_images(
                    self.tar_buffer@,
                    views_of(self.entries@),
                    self.associations@[frame_id as int]@,
                ) == Ok::<_, TrackError>((f@.depth, f@.color)) && f@.depth_timestamp
                    == self.associations@[frame_id as int]@.depth_timestamp
                    && f@.color_timestamp == self.associations@[
                    frame_id as int
                ]@.color_timestamp,
                Err(e) => spec_load_images(
                    self.tar_buffer@,
                    views_of(self.entries@),
                    self.associations@[frame_id as int]@,
                ) == Err::<((nat, nat, Seq<u16>), (nat, nat, Seq<u8>)), TrackError>(e),
            },
    {
        if !self.ready {
            return Err(TrackError::SessionNotReady);
        }
        if frame_id >= self.associations.len() {
            return Err(TrackError::FrameOutOfRange);
        }
        let a = &self.associations[frame_id];
        let pair = match read_images(a, &self.tar_buffer, &self.entries) {
            Err(e) => {
                return Err(e);
            },
            Ok(p) => p,
        };
        Ok(
            FrameData {
                depth: pair.0,
                color: pair.1,
                depth_timestamp: clone_bytes(&a.depth_timestamp),
                color_timestamp: clone_bytes(&a.color_timestamp),
            },
        )
    }
}

} // verus!
