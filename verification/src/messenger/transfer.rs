//! Client side of media transfers: an upload that sends a chunk per
//! acknowledgement, and a download that collects chunks.

use crate::messenger::client::DownloadedMedia;
use crate::messenger::codec::{Packet, PacketView};
use crate::messenger::digest::{sha256_hex, sha256_of};
use crate::messenger::error::MessengerError;
use crate::messenger::media::{
    as_packets, chunk_of, chunks_from, cut_chunk, digest_matches, fetched_chunks, joined,
    law_fetch_gives_the_bytes, lesser, media_stream, BlobView, MEDIA_CHUNK,
};
use crate::messenger::wire::{
    clone_bytes, MediaAckView, MediaChunkView, MediaFetch, MediaFetchView, MediaStart,
    MediaStartView,
};
use crate::text::{hex_text, same, same_but_case, same_ignoring_case};
use vstd::prelude::*;

verus! {

/// An upload under way.
pub struct Upload {
    pub media_id: String,
    pub data: Vec<u8>,
    /// How far the chunks sent so far reach; none while the first
    /// acknowledgement is awaited.
    pub sent: Option<usize>,
}

/// What an [`Upload`] holds.
#[verifier::ext_equal]
pub struct UploadView {
    pub media_id: Seq<char>,
    pub data: Seq<u8>,
    pub sent: Option<nat>,
}

impl View for Upload {
    type V = UploadView;

    open spec fn view(&self) -> UploadView {
        UploadView {
            media_id: self.media_id@,
            data: self.data@,
            sent: match self.sent {
                Some(n) => Some(n as nat),
                None => None,
            },
        }
    }
}

/// What a packet means to an upload.
pub enum UploadStep {
    /// Nothing.
    Wait,
    /// The next chunk goes out.
    Send(Packet),
    /// The server stored so many bytes.
    Done(u64),
    /// The upload failed.
    Failed(MessengerError),
}

/// What an [`UploadStep`] holds.
#[verifier::ext_equal]
pub enum UploadStepView {
    Wait,
    Send(MediaChunkView),
    Done(u64),
    Failed(Seq<char>),
}

/// Whether a step is the one that was described.
pub open spec fn is_step(s: UploadStep, v: UploadStepView) -> bool {
    match v {
        UploadStepView::Wait => s is Wait,
        UploadStepView::Send(c) => s matches UploadStep::Send(p) && p@ == PacketView::MediaChunk(c),
        UploadStepView::Done(n) => s == UploadStep::Done(n),
        UploadStepView::Failed(m) => s matches UploadStep::Failed(MessengerError::Media(x)) && x@
            == m,
    }
}

/// Where the chunk that starts at `from` ends.
pub open spec fn chunk_end(data: Seq<u8>, from: nat) -> nat {
    lesser(from + MEDIA_CHUNK as nat, data.len())
}

/// What an acknowledgement does to an upload.
pub open spec fn upload_step(v: UploadView, a: MediaAckView) -> (UploadView, UploadStepView) {
    let from = match v.sent {
        Some(n) => n,
        None => 0,
    };
    if a.media_id != v.media_id {
        (v, UploadStepView::Wait)
    } else if !a.ok {
        (v, UploadStepView::Failed(a.error))
    } else if v.sent is Some && from >= v.data.len() {
        if a.complete {
            (v, UploadStepView::Done(a.received_bytes))
        } else {
            (v, UploadStepView::Failed("server did not finalize upload"@))
        }
    } else {
        (
            UploadView { sent: Some(chunk_end(v.data, from)), ..v },
            UploadStepView::Send(chunk_of(v.media_id, v.data, from)),
        )
    }
}

impl Upload {
    /// What was sent lies within the data.
    pub open spec fn wf(&self) -> bool {
        self.sent matches Some(n) ==> n <= self.data@.len()
    }

    /// Begins an upload. The packet announces it with its size and digest.
    pub fn start(media_id: &str, file_name: &str, mime_type: &str, data: &Vec<u8>) -> (r: (
        Self,
        Packet,
    ))
        ensures
            (r.0).wf(),
            (r.0)@ == (UploadView { media_id: media_id@, data: data@, sent: None }),
            (r.1)@ == PacketView::MediaStart(
                MediaStartView {
                    media_id: media_id@,
                    file_name: file_name@,
                    mime_type: mime_type@,
                    total_size: data@.len() as u64,
                    sha256: hex_text(sha256_of(data@)),
                },
            ),
    {
        let p = Packet::MediaStart(
            MediaStart {
                media_id: media_id.to_string(),
                file_name: file_name.to_string(),
                mime_type: mime_type.to_string(),
                total_size: data.len() as u64,
                sha256: sha256_hex(data.as_slice()),
            },
        );
        let u = Upload { media_id: media_id.to_string(), data: clone_bytes(data), sent: None };
        assert(u@ =~= (UploadView { media_id: media_id@, data: data@, sent: None }));
        (u, p)
    }

    /// Takes a packet: only acknowledgements of this blob concern an upload.
    pub fn on_packet(&mut self, pkt: &Packet) -> (r: UploadStep)
        requires
            old(self).wf(),
        ensures
            final(self).wf(),
            match pkt@ {
                PacketView::MediaAck(a) => final(self)@ == upload_step(old(self)@, a).0 && is_step(
                    r,
                    upload_step(old(self)@, a).1,
                ),
                _ => final(self)@ == old(self)@ && r is Wait,
            },
    {
        match pkt {
            Packet::MediaAck(a) => {
                if !same(a.media_id.as_str(), self.media_id.as_str()) {
                    return UploadStep::Wait;
                }
                if !a.ok {
                    return UploadStep::Failed(MessengerError::Media(a.error.clone()));
                }
                let from: usize = match self.sent {
                    Some(n) => n,
                    None => 0,
                };
                if self.sent.is_some() && from >= self.data.len() {
                    if a.complete {
                        return UploadStep::Done(a.received_bytes);
                    } else {
                        return UploadStep::Failed(
                            MessengerError::Media("server did not finalize upload".to_string()),
                        );
                    }
                }
                let c = cut_chunk(self.media_id.as_str(), &self.data, from);
                let n: usize = self.data.len();
                let end: usize = if n - from > MEDIA_CHUNK {
                    from + MEDIA_CHUNK
                } else {
                    n
                };
                let ghost was = self@;
                self.sent = Some(end);
                assert(self@ =~= (UploadView {
                    sent: Some(chunk_end(was.data, from as nat)),
                    ..was
                }));
                UploadStep::Send(Packet::MediaChunk(c))
            },
            _ => UploadStep::Wait,
        }
    }
}

/// A positive acknowledgement of a blob.
pub open spec fn positive(a: MediaAckView, media_id: Seq<char>) -> bool {
    a.media_id == media_id && a.ok
}

/// The chunks that an upload sends in answer to some acknowledgements.
pub open spec fn sent_chunks(v: UploadView, acks: Seq<MediaAckView>) -> Seq<MediaChunkView>
    decreases acks.len(),
{
    if acks.len() == 0 {
        Seq::empty()
    } else {
        let (w, s) = upload_step(v, acks[0]);
        match s {
            UploadStepView::Send(c) => seq![c] + sent_chunks(w, acks.skip(1)),
            _ => sent_chunks(w, acks.skip(1)),
        }
    }
}

/// What an upload still has to send.
proof fn lemma_sent_chunks(v: UploadView, acks: Seq<MediaAckView>)
    requires
        v.sent matches Some(n) ==> n <= v.data.len(),
        v.sent is None ==> v.data.len() > 0,
        forall|i: int| 0 <= i < acks.len() ==> positive(#[trigger] acks[i], v.media_id),
        acks.len() >= chunks_from(
            v.media_id,
            v.data,
            match v.sent {
                Some(n) => n,
                None => 0,
            },
        ).len(),
    ensures
        sent_chunks(v, acks) == chunks_from(
            v.media_id,
            v.data,
            match v.sent {
                Some(n) => n,
                None => 0,
            },
        ),
    decreases acks.len(),
{
    let from = match v.sent {
        Some(n) => n,
        None => 0,
    };
    let all = chunks_from(v.media_id, v.data, from);
    if acks.len() > 0 {
        let rest = acks.skip(1);
        assert forall|i: int| 0 <= i < rest.len() implies positive(
            #[trigger] rest[i],
            v.media_id,
        ) by {
            assert(rest[i] == acks[i + 1]);
        }
        assert(positive(acks[0], v.media_id));
        let (w, s) = upload_step(v, acks[0]);
        if from < v.data.len() {
            let tail = chunks_from(v.media_id, v.data, chunk_end(v.data, from));
            assert(all =~= seq![chunk_of(v.media_id, v.data, from)] + tail);
            assert(w.sent == Some(chunk_end(v.data, from)));
            lemma_sent_chunks(w, rest);
        } else {
            assert(all =~= Seq::<MediaChunkView>::empty());
            assert(w == v);
            lemma_sent_chunks(v, rest);
        }
    } else {
        assert(all.len() == 0);
        assert(all =~= Seq::<MediaChunkView>::empty());
    }
}

/// As long as the server acknowledges, an upload sends exactly the chunks of its
/// data, in order.
pub proof fn law_upload_sends_the_chunks(v: UploadView, acks: Seq<MediaAckView>)
    requires
        v.sent is None,
        v.data.len() > 0,
        forall|i: int| 0 <= i < acks.len() ==> positive(#[trigger] acks[i], v.media_id),
        acks.len() >= chunks_from(v.media_id, v.data, 0).len(),
    ensures
        sent_chunks(v, acks) == chunks_from(v.media_id, v.data, 0),
{
    lemma_sent_chunks(v, acks);
}

/// A download under way.
pub struct Download {
    pub media_id: String,
    pub start: Option<MediaStart>,
    pub data: Vec<u8>,
}

/// What a [`Download`] holds.
#[verifier::ext_equal]
pub struct DownloadView {
    pub media_id: Seq<char>,
    pub start: Option<MediaStartView>,
    pub data: Seq<u8>,
}

impl View for Download {
    type V = DownloadView;

    open spec fn view(&self) -> DownloadView {
        DownloadView {
            media_id: self.media_id@,
            start: match self.start {
                Some(s) => Some(s@),
                None => None,
            },
            data: self.data@,
        }
    }
}

/// What a packet means to a download.
pub enum DownloadStep {
    /// More is awaited.
    Wait,
    /// The blob is complete and its digest matches.
    Done(DownloadedMedia),
    /// The download failed.
    Failed(MessengerError),
}

/// What a [`DownloadStep`] holds.
#[verifier::ext_equal]
pub enum DownloadStepView {
    Wait,
    Done(MediaStartView, Seq<u8>),
    Failed(Seq<char>),
}

/// Whether a step is the one that was described.
pub open spec fn is_download_step(s: DownloadStep, v: DownloadStepView) -> bool {
    match v {
        DownloadStepView::Wait => s is Wait,
        DownloadStepView::Done(m, data) => {
            &&& s matches DownloadStep::Done(d)
            &&& d.file_name@ == m.file_name
            &&& d.mime_type@ == m.mime_type
            &&& d.sha256@ == m.sha256
            &&& d.data@ == data
        },
        DownloadStepView::Failed(m) => s matches DownloadStep::Failed(MessengerError::Media(x))
            && x@ == m,
    }
}

/// What a packet does to a download: first the announcement, or an error, then
/// the chunks up to the last one, when the digest is compared.
pub open spec fn download_step(v: DownloadView, p: PacketView) -> (DownloadView, DownloadStepView) {
    match v.start {
        None => match p {
            PacketView::MediaStart(m) => if m.media_id == v.media_id {
                (DownloadView { start: Some(m), ..v }, DownloadStepView::Wait)
            } else {
                (v, DownloadStepView::Wait)
            },
            PacketView::Error(e) => (v, DownloadStepView::Failed(e.detail)),
            _ => (v, DownloadStepView::Wait),
        },
        Some(m) => match p {
            PacketView::MediaChunk(c) => if c.media_id != v.media_id {
                (v, DownloadStepView::Wait)
            } else {
                let w = DownloadView { data: v.data + c.data, ..v };
                if !c.last {
                    (w, DownloadStepView::Wait)
                } else if digest_matches(m.sha256, w.data) {
                    (w, DownloadStepView::Done(m, w.data))
                } else {
                    (w, DownloadStepView::Failed("downloaded blob failed sha256 check"@))
                }
            },
            _ => (v, DownloadStepView::Wait),
        },
    }
}

impl Download {
    /// Begins a download. The packet asks for the blob.
    pub fn start(media_id: &str) -> (r: (Self, Packet))
        ensures
            (r.0)@ == (DownloadView { media_id: media_id@, start: None, data: Seq::empty() }),
            (r.1)@ == PacketView::MediaFetch(
                MediaFetchView { media_id: media_id@, from_offset: 0 },
            ),
    {
        let p = Packet::MediaFetch(MediaFetch { media_id: media_id.to_string(), from_offset: 0 });
        let d = Download { media_id: media_id.to_string(), start: None, data: Vec::new() };
        assert(d@ =~= (DownloadView { media_id: media_id@, start: None, data: Seq::empty() }));
        (d, p)
    }

    /// Takes a packet.
    pub fn on_packet(&mut self, pkt: &Packet) -> (r: DownloadStep)
        ensures
            final(self)@ == download_step(old(self)@, pkt@).0,
            is_download_step(r, download_step(old(self)@, pkt@).1),
    {
        let ghost was = self@;
        match &self.start {
            None => match pkt {
                Packet::MediaStart(m) => {
                    if same(m.media_id.as_str(), self.media_id.as_str()) {
                        self.start = Some(m.clone());
                        assert(self@ =~= (DownloadView { start: Some(m@), ..was }));
                    }
                    DownloadStep::Wait
                },
                Packet::Error(e) => DownloadStep::Failed(MessengerError::Media(e.detail.clone())),
                _ => DownloadStep::Wait,
            },
            Some(m) => match pkt {
                Packet::MediaChunk(c) => {
                    if !same(c.media_id.as_str(), self.media_id.as_str()) {
                        return DownloadStep::Wait;
                    }
                    self.data.extend_from_slice(c.data.as_slice());
                    assert(self@ =~= (DownloadView { data: was.data + c@.data, ..was }));
                    if !c.last {
                        return DownloadStep::Wait;
                    }
                    if !m.sha256.as_str().is_empty() {
                        let got = sha256_hex(self.data.as_slice());
                        if !same_ignoring_case(got.as_str(), m.sha256.as_str()) {
                            return DownloadStep::Failed(
                                MessengerError::Media(
                                    "downloaded blob failed sha256 check".to_string(),
                                ),
                            );
                        }
                    }
                    DownloadStep::Done(
                        DownloadedMedia {
                            file_name: m.file_name.clone(),
                            mime_type: m.mime_type.clone(),
                            sha256: m.sha256.clone(),
                            data: clone_bytes(&self.data),
                        },
                    )
                },
                _ => DownloadStep::Wait,
            },
        }
    }
}

/// A download after some packets, up to the first that ends it.
pub open spec fn downloaded(v: DownloadView, packets: Seq<PacketView>) -> DownloadStepView
    decreases packets.len(),
{
    if packets.len() == 0 {
        DownloadStepView::Wait
    } else {
        let (w, s) = download_step(v, packets[0]);
        if s is Wait {
            downloaded(w, packets.skip(1))
        } else {
            s
        }
    }
}

/// Collecting some chunks, of which the last one alone says that it is the
/// last.
proof fn lemma_collect(v: DownloadView, m: MediaStartView, chunks: Seq<MediaChunkView>)
    requires
        v.start == Some(m),
        chunks.len() > 0,
        forall|i: int|
            0 <= i < chunks.len() ==> (#[trigger] chunks[i]).media_id == v.media_id && (
            chunks[i].last <==> i == chunks.len() - 1),
        digest_matches(m.sha256, v.data + joined(chunks)),
    ensures
        downloaded(v, as_packets(chunks)) == DownloadStepView::Done(m, v.data + joined(chunks)),
    decreases chunks.len(),
{
    let ps = as_packets(chunks);
    let rest = chunks.skip(1);
    let c = chunks[0];
    let w = DownloadView { data: v.data + c.data, ..v };
    assert(ps[0] == PacketView::MediaChunk(c));
    assert(ps.skip(1) =~= as_packets(rest));
    assert(v.data + joined(chunks) =~= w.data + joined(rest));
    if chunks.len() == 1 {
        assert(joined(rest) =~= Seq::<u8>::empty());
        assert(w.data + joined(rest) =~= w.data);
        assert(download_step(v, ps[0]).0 == w);
    } else {
        assert forall|i: int| 0 <= i < rest.len() implies (#[trigger] rest[i]).media_id
            == w.media_id && (rest[i].last <==> i == rest.len() - 1) by {
            assert(rest[i] == chunks[i + 1]);
        }
        lemma_collect(w, m, rest);
        assert(download_step(v, ps[0]) == (w, DownloadStepView::Wait));
    }
}

/// What a server streams of a complete blob, a client downloads byte for byte.
pub proof fn law_download_gives_back_the_blob(media_id: Seq<char>, b: BlobView)
    requires
        digest_matches(b.sha256, b.data),
    ensures
        ({
            let v = DownloadView { media_id, start: None, data: Seq::empty() };
            let m = MediaStartView {
                media_id,
                file_name: b.file_name,
                mime_type: b.mime_type,
                total_size: b.total_size,
                sha256: b.sha256,
            };
            downloaded(v, media_stream(media_id, b, 0)) == DownloadStepView::Done(m, b.data)
        }),
{
    let v = DownloadView { media_id, start: None, data: Seq::empty() };
    let m = MediaStartView {
        media_id,
        file_name: b.file_name,
        mime_type: b.mime_type,
        total_size: b.total_size,
        sha256: b.sha256,
    };
    let s = media_stream(media_id, b, 0);
    let cs = fetched_chunks(media_id, b.data, 0);
    law_fetch_gives_the_bytes(media_id, b.data, 0);
    lemma_chunks_name_the_blob(media_id, b.data, 0);
    assert(b.data.skip(0) =~= b.data);
    assert(s[0] == PacketView::MediaStart(m));
    assert(s.skip(1) =~= as_packets(cs));
    let w = DownloadView { start: Some(m), ..v };
    assert(download_step(v, s[0]) == (w, DownloadStepView::Wait));
    assert(w.data + joined(cs) =~= b.data);
    lemma_collect(w, m, cs);
}

/// All chunks of a blob name it.
proof fn lemma_chunks_name_the_blob(media_id: Seq<char>, data: Seq<u8>, offset: nat)
    ensures
        forall|i: int|
            0 <= i < chunks_from(media_id, data, offset).len() ==> (#[trigger] chunks_from(
                media_id,
                data,
                offset,
            )[i]).media_id == media_id,
    decreases data.len() - offset,
{
    if offset < data.len() {
        let end = chunk_end(data, offset);
        lemma_chunks_name_the_blob(media_id, data, end);
        let rest = chunks_from(media_id, data, end);
        let all = chunks_from(media_id, data, offset);
        assert(all =~= seq![chunk_of(media_id, data, offset)] + rest);
        assert forall|i: int| 0 <= i < all.len() implies (#[trigger] all[i]).media_id
            == media_id by {
            if i > 0 {
                assert(all[i] == rest[i - 1]);
            }
        }
    }
}

/// An upload moves on with the acknowledgements of its own blob only. The first
/// one that refuses ends it with the reason that the server gave; it is done
/// when everything was sent and the server says that the blob is complete.
/// Until then each one is answered with the bytes that follow those sent so far.
pub proof fn law_upload_ends_as_the_server_says(v: UploadView, a: MediaAckView)
    requires
        v.sent matches Some(n) ==> n <= v.data.len(),
        v.data.len() <= u64::MAX,
    ensures
        ({
            let (w, s) = upload_step(v, a);
            let from = if v.sent is Some {
                v.sent->0
            } else {
                0
            };
            &&& w.media_id == v.media_id && w.data == v.data
            &&& a.media_id != v.media_id <==> s is Wait
            &&& s is Wait || s is Failed || s is Done ==> w == v
            &&& a.media_id == v.media_id && !a.ok ==> s is Failed && s->Failed_0 == a.error
            &&& s is Done <==> a.media_id == v.media_id && a.ok && a.complete && v.sent == Some(
                v.data.len(),
            )
            &&& s is Done ==> s->Done_0 == a.received_bytes
            &&& s is Send <==> a.media_id == v.media_id && a.ok && v.sent != Some(v.data.len())
            &&& s is Send ==> {
                let c = s->Send_0;
                &&& c.media_id == v.media_id
                &&& c.offset == from
                &&& c.offset + c.data.len() <= v.data.len()
                &&& c.data == v.data.subrange(from as int, from as int + c.data.len())
                &&& w.sent == Some((from + c.data.len()) as nat)
                &&& c.last <==> w.sent == Some(v.data.len())
                &&& from < v.data.len() ==> c.data.len() > 0
            }
        }),
{
}

/// A download is done with the last chunk of its own blob, and only if the
/// digest that was announced, where there is one, is that of all the bytes that
/// came; it then gives those bytes under the announced name. An error before the
/// start ends it with what the server said. Frames of other blobs change
/// nothing.
pub proof fn law_download_is_checked(v: DownloadView, p: PacketView)
    ensures
        ({
            let (w, s) = download_step(v, p);
            let ends = v.start is Some && p is MediaChunk && p->MediaChunk_0.media_id == v.media_id
                && p->MediaChunk_0.last;
            let all = v.data + p->MediaChunk_0.data;
            let sha256 = v.start->0.sha256;
            &&& w.media_id == v.media_id
            &&& s is Done <==> ends && (sha256.len() == 0 || same_but_case(
                hex_text(sha256_of(all)),
                sha256,
            ))
            &&& s is Done ==> s->Done_0 == v.start->0 && s->Done_1 == all
            &&& s is Failed <==> (ends && !(s is Done)) || (v.start is None && p is Error)
            &&& v.start is None && p is Error ==> s->Failed_0 == p->Error_0.detail
            &&& v.start is Some && p is MediaChunk && p->MediaChunk_0.media_id == v.media_id
                ==> w.data == all && w.start == v.start
            &&& v.start is None && p is MediaStart && p->MediaStart_0.media_id == v.media_id
                ==> w.start == Some(p->MediaStart_0) && w.data == v.data
            &&& p is MediaChunk && p->MediaChunk_0.media_id != v.media_id ==> w == v
            &&& p is MediaStart && p->MediaStart_0.media_id != v.media_id ==> w == v
        }),
{
}

} // verus!
