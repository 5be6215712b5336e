//! Media blobs: chunked upload with a digest check, and streaming back.

use crate::collections::StrMap;
use crate::messenger::codec::{Packet, PacketView};
use crate::messenger::digest::{sha256_hex, sha256_of};
use crate::messenger::inbox::packet_views;
use crate::messenger::wire::{
    ErrorCode, MediaAck, MediaAckView, MediaChunk, MediaChunkView, MediaStart, MediaStartView,
    ProtocolError, ProtocolErrorView,
};
use crate::text::{decimal, decimal_string, concat2, concat3, hex_text, same, same_but_case, same_ignoring_case};
use vstd::prelude::*;

verus! {

/// Bytes per chunk.
pub const MEDIA_CHUNK: usize = 65_536;

/// An error packet.
pub open spec fn error_view(code: ErrorCode, detail: Seq<char>) -> PacketView {
    PacketView::Error(ProtocolErrorView { code: code.number(), detail })
}

/// An error packet.
pub fn proto_error(code: ErrorCode, detail: &str) -> (p: Packet)
    ensures
        p@ == error_view(code, detail@),
{
    Packet::Error(ProtocolError { code: code.as_i32(), detail: detail.to_string() })
}

/// A blob that is stored or being uploaded.
pub struct MediaBlob {
    pub file_name: String,
    pub mime_type: String,
    pub total_size: u64,
    pub sha256: String,
    pub data: Vec<u8>,
    pub complete: bool,
}

/// What a [`MediaBlob`] holds.
#[verifier::ext_equal]
pub struct BlobView {
    pub file_name: Seq<char>,
    pub mime_type: Seq<char>,
    pub total_size: u64,
    pub sha256: Seq<char>,
    pub data: Seq<u8>,
    pub complete: bool,
}

impl View for MediaBlob {
    type V = BlobView;

    open spec fn view(&self) -> BlobView {
        BlobView {
            file_name: self.file_name@,
            mime_type: self.mime_type@,
            total_size: self.total_size,
            sha256: self.sha256@,
            data: self.data@,
            complete: self.complete,
        }
    }
}

/// The blob under an id.
pub open spec fn blob_at(m: Map<Seq<char>, MediaBlob>, id: Seq<char>) -> Option<BlobView> {
    if m.contains_key(id) {
        Some(m[id]@)
    } else {
        None
    }
}

/// An acknowledgement of a media frame.
pub open spec fn media_ack(
    media_id: Seq<char>,
    ok: bool,
    complete: bool,
    received_bytes: u64,
    error: Seq<char>,
) -> PacketView {
    PacketView::MediaAck(MediaAckView { media_id, ok, complete, received_bytes, error })
}

fn nack(media_id: &str, received_bytes: u64, error: &str) -> (p: Packet)
    ensures
        p@ == media_ack(media_id@, false, false, received_bytes, error@),
{
    Packet::MediaAck(
        MediaAck {
            media_id: media_id.to_string(),
            ok: false,
            complete: false,
            received_bytes,
            error: error.to_string(),
        },
    )
}

fn ack_ok(media_id: &str, complete: bool, received_bytes: u64) -> (p: Packet)
    ensures
        p@ == media_ack(media_id@, true, complete, received_bytes, Seq::empty()),
{
    Packet::MediaAck(
        MediaAck {
            media_id: media_id.to_string(),
            ok: true,
            complete,
            received_bytes,
            error: String::new(),
        },
    )
}

/// An empty blob as announced.
pub open spec fn announced(m: MediaStartView) -> BlobView {
    BlobView {
        file_name: m.file_name,
        mime_type: m.mime_type,
        total_size: m.total_size,
        sha256: m.sha256,
        data: Seq::empty(),
        complete: false,
    }
}

/// Whether an announced upload is taken.
pub open spec fn start_accepted(m: MediaStartView, max_media_bytes: u64) -> bool {
    m.media_id.len() > 0 && 0 < m.total_size <= max_media_bytes
}

/// The answer to an announced upload.
pub open spec fn start_reply(m: MediaStartView, max_media_bytes: u64) -> PacketView {
    if m.media_id.len() == 0 || m.total_size == 0 {
        error_view(ErrorCode::MediaTransferFailed, "missing media_id/size"@)
    } else if m.total_size > max_media_bytes {
        media_ack(
            m.media_id,
            false,
            false,
            0,
            "blob exceeds max "@ + decimal(max_media_bytes as nat) + " bytes"@,
        )
    } else {
        media_ack(m.media_id, true, false, 0, Seq::empty())
    }
}

/// Begins an upload. `upload` is the blob that the connection is uploading.
pub fn handle_media_start(
    media: &mut StrMap<MediaBlob>,
    upload: &mut Option<String>,
    m: &MediaStart,
    max_media_bytes: u64,
) -> (reply: Packet)
    requires
        old(media).wf(),
    ensures
        final(media).wf(),
        reply@ == start_reply(m@, max_media_bytes),
        start_accepted(m@, max_media_bytes) ==> {
            &&& *final(upload) matches Some(u)
            &&& u@ == m@.media_id
            &&& forall|k: Seq<char>| #[trigger]
                blob_at(final(media)@, k) == (if k == m@.media_id {
                    Some(announced(m@))
                } else {
                    blob_at(old(media)@, k)
                })
        },
        !start_accepted(m@, max_media_bytes) ==> *final(upload) == *old(upload) && final(media)@
            == old(media)@,
{
    if m.media_id.as_str().is_empty() || m.total_size == 0 {
        return proto_error(ErrorCode::MediaTransferFailed, "missing media_id/size");
    }
    if m.total_size > max_media_bytes {
        let error = concat3(
            "blob exceeds max ",
            decimal_string(max_media_bytes).as_str(),
            " bytes",
        );
        return nack(m.media_id.as_str(), 0, error.as_str());
    }
    let blob = MediaBlob {
        file_name: m.file_name.clone(),
        mime_type: m.mime_type.clone(),
        total_size: m.total_size,
        sha256: m.sha256.clone(),
        data: Vec::new(),
        complete: false,
    };
    assert(blob@ =~= announced(m@));
    let _ = media.insert(m.media_id.clone(), blob);
    *upload = Some(m.media_id.clone());
    ack_ok(m.media_id.as_str(), false, 0)
}

/// What a chunk does.
#[verifier::ext_equal]
pub struct ChunkEffect {
    /// The answer.
    pub reply: PacketView,
    /// The blob afterwards; none if it was given up or never known.
    pub blob: Option<BlobView>,
    /// Whether the connection is done with the upload.
    pub done: bool,
    /// Whether the blob has just become complete.
    pub ready: bool,
}

/// The digest that was announced, if any, is that of the data.
pub open spec fn digest_matches(sha256: Seq<char>, data: Seq<u8>) -> bool {
    sha256.len() == 0 || same_but_case(hex_text(sha256_of(data)), sha256)
}

/// What a chunk does to the blob it belongs to, given the blob that the
/// connection is uploading.
pub open spec fn chunk_effect(
    upload: Option<Seq<char>>,
    blob: Option<BlobView>,
    c: MediaChunkView,
) -> ChunkEffect {
    if upload != Some(c.media_id) {
        ChunkEffect {
            reply: error_view(ErrorCode::MediaTransferFailed, "chunk without MediaStart"@),
            blob,
            done: false,
            ready: false,
        }
    } else if blob is None {
        ChunkEffect {
            reply: error_view(ErrorCode::MediaTransferFailed, "unknown media_id"@),
            blob,
            done: false,
            ready: false,
        }
    } else {
        let b = blob->0;
        let data = b.data + c.data;
        if c.offset != b.data.len() {
            ChunkEffect {
                reply: media_ack(
                    c.media_id,
                    false,
                    false,
                    b.data.len() as u64,
                    "out-of-order chunk: expected offset "@ + decimal(b.data.len()),
                ),
                blob,
                done: false,
                ready: false,
            }
        } else if data.len() > b.total_size {
            ChunkEffect {
                reply: media_ack(
                    c.media_id,
                    false,
                    false,
                    0,
                    "blob larger than declared total_size"@,
                ),
                blob: None,
                done: true,
                ready: false,
            }
        } else if !c.last {
            ChunkEffect {
                reply: media_ack(c.media_id, true, false, data.len() as u64, Seq::empty()),
                blob: Some(BlobView { data, ..b }),
                done: false,
                ready: false,
            }
        } else if data.len() != b.total_size {
            ChunkEffect {
                reply: media_ack(
                    c.media_id,
                    false,
                    false,
                    data.len() as u64,
                    "size mismatch at final chunk"@,
                ),
                blob: None,
                done: true,
                ready: false,
            }
        } else if !digest_matches(b.sha256, data) {
            ChunkEffect {
                reply: media_ack(
                    c.media_id,
                    false,
                    false,
                    data.len() as u64,
                    "sha256 mismatch"@,
                ),
                blob: None,
                done: true,
                ready: false,
            }
        } else {
            ChunkEffect {
                reply: media_ack(c.media_id, true, true, data.len() as u64, Seq::empty()),
                blob: Some(BlobView { data, complete: true, ..b }),
                done: true,
                ready: true,
            }
        }
    }
}

/// The text of an optional string.
pub open spec fn opt_text(o: Option<String>) -> Option<Seq<char>> {
    match o {
        Some(s) => Some(s@),
        None => None,
    }
}

/// Takes a chunk of an upload: its answer, and whether the blob has just become
/// complete.
pub fn handle_media_chunk(
    media: &mut StrMap<MediaBlob>,
    upload: &mut Option<String>,
    c: &MediaChunk,
) -> (r: (Packet, bool))
    requires
        old(media).wf(),
    ensures
        final(media).wf(),
        ({
            let e = chunk_effect(
                opt_text(*old(upload)),
                blob_at(old(media)@, c@.media_id),
                c@,
            );
            &&& (r.0)@ == e.reply
            &&& r.1 == e.ready
            &&& opt_text(*final(upload)) == (if e.done {
                None
            } else {
                opt_text(*old(upload))
            })
            &&& forall|k: Seq<char>| #[trigger]
                blob_at(final(media)@, k) == (if k == c@.media_id {
                    e.blob
                } else {
                    blob_at(old(media)@, k)
                })
        }),
{
    let id = c.media_id.as_str();
    let ours = match upload {
        Some(u) => same(u.as_str(), id),
        None => false,
    };
    if !ours {
        return (proto_error(ErrorCode::MediaTransferFailed, "chunk without MediaStart"), false);
    }
    let ghost before = media@;
    let mut blob = match media.remove(id) {
        Some(b) => b,
        None => {
            assert(media@ =~= before);
            return (proto_error(ErrorCode::MediaTransferFailed, "unknown media_id"), false);
        },
    };
    let ghost was = blob@;
    let have: u64 = blob.data.len() as u64;
    if c.offset != have {
        let error = concat2(
            "out-of-order chunk: expected offset ",
            decimal_string(have).as_str(),
        );
        let _ = media.insert(c.media_id.clone(), blob);
        return (nack(id, have, error.as_str()), false);
    }
    if have as u128 + c.data.len() as u128 > blob.total_size as u128 {
        *upload = None;
        return (nack(id, 0, "blob larger than declared total_size"), false);
    }
    blob.data.extend_from_slice(c.data.as_slice());
    assert(blob.data@ =~= was.data + c@.data);
    let received: u64 = blob.data.len() as u64;
    if !c.last {
        assert(blob@ =~= (BlobView { data: was.data + c@.data, ..was }));
        let _ = media.insert(c.media_id.clone(), blob);
        return (ack_ok(id, false, received), false);
    }
    *upload = None;
    if received != blob.total_size {
        return (nack(id, received, "size mismatch at final chunk"), false);
    }
    let digest = sha256_hex(blob.data.as_slice());
    if !blob.sha256.as_str().is_empty() && !same_ignoring_case(
        digest.as_str(),
        blob.sha256.as_str(),
    ) {
        return (nack(id, received, "sha256 mismatch"), false);
    }
    blob.complete = true;
    assert(blob@ =~= (BlobView { data: was.data + c@.data, complete: true, ..was }));
    let _ = media.insert(c.media_id.clone(), blob);
    (ack_ok(id, true, received), true)
}

/// The smaller of two numbers.
pub open spec fn lesser(a: nat, b: nat) -> nat {
    if a <= b {
        a
    } else {
        b
    }
}

/// One chunk of a blob.
pub open spec fn chunk_of(media_id: Seq<char>, data: Seq<u8>, offset: nat) -> MediaChunkView {
    let end = lesser(offset + MEDIA_CHUNK as nat, data.len());
    MediaChunkView {
        media_id,
        offset: offset as u64,
        data: data.subrange(offset as int, end as int),
        last: end == data.len(),
    }
}

/// The chunks of a blob from an offset on.
pub open spec fn chunks_from(media_id: Seq<char>, data: Seq<u8>, offset: nat) -> Seq<MediaChunkView>
    decreases data.len() - offset,
{
    if offset >= data.len() {
        Seq::empty()
    } else {
        seq![chunk_of(media_id, data, offset)] + chunks_from(
            media_id,
            data,
            lesser(offset + MEDIA_CHUNK as nat, data.len()),
        )
    }
}

/// The chunks that a fetch from an offset is answered with; a last, empty one
/// where nothing is left.
pub open spec fn fetched_chunks(
    media_id: Seq<char>,
    data: Seq<u8>,
    from_offset: u64,
) -> Seq<MediaChunkView> {
    if from_offset >= data.len() {
        seq![
            MediaChunkView {
                media_id,
                offset: data.len() as u64,
                data: Seq::empty(),
                last: true,
            },
        ]
    } else {
        chunks_from(media_id, data, from_offset as nat)
    }
}

/// The chunks as packets.
pub open spec fn as_packets(chunks: Seq<MediaChunkView>) -> Seq<PacketView> {
    Seq::new(chunks.len(), |i: int| PacketView::MediaChunk(chunks[i]))
}

/// What a fetch of a blob is answered with.
pub open spec fn media_stream(media_id: Seq<char>, b: BlobView, from_offset: u64) -> Seq<
    PacketView,
> {
    seq![
        PacketView::MediaStart(
            MediaStartView {
                media_id,
                file_name: b.file_name,
                mime_type: b.mime_type,
                total_size: b.total_size,
                sha256: b.sha256,
            },
        ),
    ] + as_packets(fetched_chunks(media_id, b.data, from_offset))
}

/// Some bytes of a blob.
fn slice_of(data: &Vec<u8>, from: usize, to: usize) -> (v: Vec<u8>)
    requires
        from <= to <= data@.len(),
    ensures
        v@ == data@.subrange(from as int, to as int),
{
    let mut out: Vec<u8> = Vec::new();
    let mut i: usize = from;
    while i < to
        invariant
            from <= i <= to <= data@.len(),
            out@ == data@.subrange(from as int, i as int),
        decreases to - i,
    {
        out.push(data[i]);
        assert(out@ =~= data@.subrange(from as int, i as int + 1));
        i += 1;
    }
    out
}

/// One chunk of some data, starting at `offset`.
pub fn cut_chunk(media_id: &str, data: &Vec<u8>, offset: usize) -> (c: MediaChunk)
    requires
        offset <= data@.len(),
    ensures
        c@ == chunk_of(media_id@, data@, offset as nat),
{
    let n: usize = data.len();
    let end: usize = if n - offset > MEDIA_CHUNK {
        offset + MEDIA_CHUNK
    } else {
        n
    };
    MediaChunk {
        media_id: media_id.to_string(),
        offset: offset as u64,
        data: slice_of(data, offset, end),
        last: end == n,
    }
}

/// The packets that a fetch of a blob from an offset is answered with.
pub fn stream_media(media_id: &str, b: &MediaBlob, from_offset: u64) -> (v: Vec<Packet>)
    ensures
        packet_views(v@) == media_stream(media_id@, b@, from_offset),
{
    let mut out: Vec<Packet> = Vec::new();
    let ghost id = media_id@;
    let ghost data = b.data@;
    out.push(
        Packet::MediaStart(
            MediaStart {
                media_id: media_id.to_string(),
                file_name: b.file_name.clone(),
                mime_type: b.mime_type.clone(),
                total_size: b.total_size,
                sha256: b.sha256.clone(),
            },
        ),
    );
    let n: usize = b.data.len();
    let ghost head = packet_views(out@);
    if from_offset >= n as u64 {
        out.push(
            Packet::MediaChunk(
                MediaChunk {
                    media_id: media_id.to_string(),
                    offset: n as u64,
                    data: Vec::new(),
                    last: true,
                },
            ),
        );
        assert(packet_views(out@) =~= media_stream(id, b@, from_offset));
        return out;
    }
    let mut offset: usize = from_offset as usize;
    let ghost all = chunks_from(id, data, from_offset as nat);
    let ghost mut done: int = 0;
    assert(as_packets(all.take(0)) =~= Seq::<PacketView>::empty());
    assert(all.skip(0) =~= all);
    assert(packet_views(out@) =~= head + as_packets(all.take(0)));
    while offset < n
        invariant
            n == data.len(),
            data == b.data@,
            id == media_id@,
            offset <= n,
            0 <= done <= all.len(),
            packet_views(out@) == head + as_packets(all.take(done)),
            all.skip(done) == chunks_from(id, data, offset as nat),
        decreases n - offset,
    {
        let c = cut_chunk(media_id, &b.data, offset);
        let ghost before = out@;
        let step: usize = c.data.len();
        proof {
            let rest = chunks_from(id, data, offset as nat);
            assert(rest[0] == c@);
            assert(all.skip(done).len() > 0);
            assert(all[done] == all.skip(done)[0]);
            assert(all.skip(done).skip(1) =~= all.skip(done + 1));
            assert(rest.skip(1) =~= chunks_from(id, data, offset as nat + step as nat));
            assert(as_packets(all.take(done + 1)) =~= as_packets(all.take(done)).push(
                PacketView::MediaChunk(c@),
            ));
        }
        let ghost cv = c@;
        out.push(Packet::MediaChunk(c));
        assert(packet_views(out@) =~= packet_views(before).push(PacketView::MediaChunk(cv)));
        assert(packet_views(out@) =~= head + as_packets(all.take(done + 1)));
        proof {
            done = done + 1;
        }
        offset += step;
    }
    proof {
        assert(all.skip(done).len() == 0);
        assert(all.take(done) =~= all);
        assert(packet_views(out@) =~= media_stream(id, b@, from_offset));
    }
    out
}

/// The data of some chunks, one after the other.
pub open spec fn joined(chunks: Seq<MediaChunkView>) -> Seq<u8>
    decreases chunks.len(),
{
    if chunks.len() == 0 {
        Seq::empty()
    } else {
        chunks[0].data + joined(chunks.skip(1))
    }
}

/// The chunks from an offset on hold all data from there, and the last one,
/// and no other, says that it is the last.
proof fn lemma_chunks_from(media_id: Seq<char>, data: Seq<u8>, offset: nat)
    requires
        offset < data.len(),
    ensures
        ({
            let cs = chunks_from(media_id, data, offset);
            &&& cs.len() > 0
            &&& joined(cs) == data.skip(offset as int)
            &&& forall|i: int|
                0 <= i < cs.len() ==> ((#[trigger] cs[i]).last <==> i == cs.len() - 1)
        }),
    decreases data.len() - offset,
{
    let end = lesser(offset + MEDIA_CHUNK as nat, data.len());
    let c = chunk_of(media_id, data, offset);
    let rest = chunks_from(media_id, data, end);
    let cs = chunks_from(media_id, data, offset);
    assert(cs =~= seq![c] + rest);
    assert(cs.skip(1) =~= rest);
    if end < data.len() {
        lemma_chunks_from(media_id, data, end);
        assert(data.skip(offset as int) =~= c.data + data.skip(end as int));
        assert forall|i: int| 0 <= i < cs.len() implies ((#[trigger] cs[i]).last <==> i == cs.len()
            - 1) by {
            if i > 0 {
                assert(cs[i] == rest[i - 1]);
            }
        }
    } else {
        assert(rest =~= Seq::<MediaChunkView>::empty());
        assert(joined(rest) =~= Seq::<u8>::empty());
        assert(data.skip(offset as int) =~= c.data + joined(rest));
    }
}

/// A fetch gives back the stored bytes from the requested offset on, and marks
/// the last chunk, and no other, as the last.
pub proof fn law_fetch_gives_the_bytes(media_id: Seq<char>, data: Seq<u8>, from_offset: u64)
    ensures
        ({
            let cs = fetched_chunks(media_id, data, from_offset);
            &&& cs.len() > 0
            &&& joined(cs) == data.skip(lesser(from_offset as nat, data.len()) as int)
            &&& forall|i: int|
                0 <= i < cs.len() ==> ((#[trigger] cs[i]).last <==> i == cs.len() - 1)
        }),
{
    let cs = fetched_chunks(media_id, data, from_offset);
    if from_offset < data.len() {
        lemma_chunks_from(media_id, data, from_offset as nat);
    } else {
        assert(cs.skip(1) =~= Seq::<MediaChunkView>::empty());
        assert(joined(cs.skip(1)) =~= Seq::<u8>::empty());
        assert(data.skip(data.len() as int) =~= Seq::<u8>::empty());
        assert(joined(cs) =~= Seq::<u8>::empty());
    }
}

/// The blob, and what the connection is uploading, once some chunks came in.
pub open spec fn uploaded(
    upload: Option<Seq<char>>,
    blob: Option<BlobView>,
    chunks: Seq<MediaChunkView>,
) -> (Option<Seq<char>>, Option<BlobView>)
    decreases chunks.len(),
{
    if chunks.len() == 0 {
        (upload, blob)
    } else {
        let e = chunk_effect(upload, blob, chunks[0]);
        uploaded(
            if e.done {
                None
            } else {
                upload
            },
            e.blob,
            chunks.skip(1),
        )
    }
}

/// Uploading the rest of a blob.
proof fn lemma_upload_from(media_id: Seq<char>, b: BlobView, data: Seq<u8>, offset: nat)
    requires
        offset < data.len(),
        data.len() == b.total_size,
        b.data == data.take(offset as int),
        digest_matches(b.sha256, data),
    ensures
        uploaded(Some(media_id), Some(b), chunks_from(media_id, data, offset)) == (
            None::<Seq<char>>,
            Some(BlobView { data, complete: true, ..b }),
        ),
    decreases data.len() - offset,
{
    let end = lesser(offset + MEDIA_CHUNK as nat, data.len());
    let c = chunk_of(media_id, data, offset);
    let rest = chunks_from(media_id, data, end);
    let cs = chunks_from(media_id, data, offset);
    assert(cs =~= seq![c] + rest);
    assert(cs.skip(1) =~= rest);
    assert(b.data + c.data =~= data.take(end as int));
    let e = chunk_effect(Some(media_id), Some(b), c);
    if end < data.len() {
        let b2 = BlobView { data: data.take(end as int), ..b };
        assert(e.blob == Some(b2));
        lemma_upload_from(media_id, b2, data, end);
        assert((BlobView { data, complete: true, ..b2 }) =~= (BlobView {
            data,
            complete: true,
            ..b
        }));
    } else {
        assert(data.take(end as int) =~= data);
        assert(rest =~= Seq::<MediaChunkView>::empty());
        assert(uploaded(None, e.blob, rest) == (None::<Seq<char>>, e.blob));
    }
}

/// What was uploaded in chunks is stored whole: data announced with its size
/// and its digest is complete after its last chunk, byte for byte.
pub proof fn law_upload_stores_the_bytes(m: MediaStartView, data: Seq<u8>)
    requires
        data.len() > 0,
        m.total_size == data.len(),
        digest_matches(m.sha256, data),
    ensures
        uploaded(Some(m.media_id), Some(announced(m)), chunks_from(m.media_id, data, 0)) == (
            None::<Seq<char>>,
            Some(BlobView { data, complete: true, ..announced(m) }),
        ),
{
    assert(data.take(0) =~= Seq::<u8>::empty());
    lemma_upload_from(m.media_id, announced(m), data, 0);
}

/// A blob becomes complete only with the announced size and digest.
pub proof fn law_complete_blob_is_verified(
    upload: Option<Seq<char>>,
    blob: Option<BlobView>,
    c: MediaChunkView,
)
    requires
        chunk_effect(upload, blob, c).ready,
    ensures
        chunk_effect(upload, blob, c).blob matches Some(b) && b.complete && b.data.len()
            == b.total_size && digest_matches(b.sha256, b.data),
{
}

/// An upload is taken where it names itself and its size is neither zero nor
/// above the limit, and only there; the client is told which. What is taken
/// starts empty, under the announced name, type, size and digest.
pub proof fn law_sensible_uploads_are_taken(m: MediaStartView, max: u64)
    ensures
        start_accepted(m, max) <==> m.media_id.len() > 0 && m.total_size > 0 && m.total_size <= max,
        start_accepted(m, max) <==> start_reply(m, max) is MediaAck && start_reply(
            m,
            max,
        )->MediaAck_0.ok,
        start_reply(m, max) is MediaAck ==> start_reply(m, max)->MediaAck_0.media_id == m.media_id
            && !start_reply(m, max)->MediaAck_0.complete && start_reply(
            m,
            max,
        )->MediaAck_0.received_bytes == 0,
        start_reply(m, max) is MediaAck || start_reply(m, max) is Error,
        announced(m).data.len() == 0,
        !announced(m).complete,
        announced(m).total_size == m.total_size,
        announced(m).sha256 == m.sha256,
        announced(m).file_name == m.file_name,
        announced(m).mime_type == m.mime_type,
{
}

/// A chunk is taken where it belongs to the blob that the connection uploads,
/// starts where the data ends, and stays within the announced size; the last one
/// has to fill that size, and the digest, where one was announced, has to match.
/// What is taken is appended. A gap leaves the blob as it was, so that the
/// client can go on from where it ended; data that cannot be the blob any more is
/// dropped.
pub proof fn law_chunks_build_the_announced_blob(
    upload: Option<Seq<char>>,
    blob: Option<BlobView>,
    c: MediaChunkView,
)
    requires
        blob is Some ==> blob->0.data.len() + c.data.len() <= u64::MAX,
    ensures
        ({
            let x = chunk_effect(upload, blob, c);
            let b = blob->0;
            let known = upload == Some(c.media_id) && blob is Some;
            let fits = known && c.offset == b.data.len() && b.data.len() + c.data.len()
                <= b.total_size;
            let whole = b.data.len() + c.data.len() == b.total_size && (b.sha256.len() == 0
                || same_but_case(hex_text(sha256_of(b.data + c.data)), b.sha256));
            &&& x.reply is Error <==> !known
            &&& x.reply is MediaAck <==> known
            &&& known ==> x.reply->MediaAck_0.media_id == c.media_id
            &&& known ==> (x.reply->MediaAck_0.ok <==> fits && (c.last ==> whole))
            &&& known ==> (x.reply->MediaAck_0.complete <==> x.ready)
            &&& x.ready <==> fits && c.last && whole
            &&& x.reply is MediaAck && x.reply->MediaAck_0.ok ==> {
                &&& x.blob is Some
                &&& x.blob->0.data == b.data + c.data
                &&& x.blob->0.complete == (b.complete || x.ready)
                &&& x.blob->0.total_size == b.total_size
                &&& x.blob->0.sha256 == b.sha256
                &&& x.blob->0.file_name == b.file_name
                &&& x.blob->0.mime_type == b.mime_type
                &&& x.reply->MediaAck_0.received_bytes == b.data.len() + c.data.len()
            }
            &&& !known || c.offset != b.data.len() ==> x.blob == blob && !x.done
            &&& known && c.offset != b.data.len() ==> x.reply->MediaAck_0.received_bytes
                == b.data.len()
            &&& known && c.offset == b.data.len() && !(fits && (c.last ==> whole)) ==> x.blob is None
                && x.done
            &&& fits && !c.last ==> !x.done
            &&& x.ready ==> x.done
        }),
{
}

/// Every chunk of a blob carries the bytes at its offset, under the id of the
/// blob, and none is longer than a chunk may be. The first one starts where the
/// reader asked to start.
pub proof fn law_chunks_carry_the_bytes_at_their_offset(
    media_id: Seq<char>,
    data: Seq<u8>,
    offset: nat,
    i: int,
)
    requires
        data.len() <= u64::MAX,
        0 <= i < chunks_from(media_id, data, offset).len(),
    ensures
        ({
            let c = chunks_from(media_id, data, offset)[i];
            &&& c.media_id == media_id
            &&& offset <= c.offset
            &&& c.offset + c.data.len() <= data.len()
            &&& c.data == data.subrange(c.offset as int, c.offset + c.data.len())
            &&& 0 < c.data.len() <= MEDIA_CHUNK
            &&& i == 0 ==> c.offset == offset
            &&& c.last <==> c.offset + c.data.len() == data.len()
        }),
    decreases i,
{
    if i > 0 {
        let end = lesser(offset + MEDIA_CHUNK as nat, data.len());
        let rest = chunks_from(media_id, data, end);
        assert(chunks_from(media_id, data, offset)[i] == rest[i - 1]);
        law_chunks_carry_the_bytes_at_their_offset(media_id, data, end, i - 1);
    }
}

} // verus!
