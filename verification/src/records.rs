//! Files of records: each record is written behind its length, eight bytes with the lowest
//! first. Jobs and their working directories outlive the worker in such files.

use vstd::bytes::spec_u32_from_le_bytes;
use vstd::bytes::spec_u32_to_le_bytes;
use vstd::bytes::spec_u64_from_le_bytes;
use vstd::bytes::spec_u64_to_le_bytes;
use vstd::bytes::u64_from_le_bytes;
use vstd::bytes::u64_to_le_bytes;
use vstd::prelude::*;
use vstd::slice::slice_subrange;
use vstd::utf8::decode_utf8;
use vstd::utf8::encode_utf8;
use vstd::utf8::valid_utf8;

use std::collections::HashMap;

use crate::recovery::PersistedJob;
use crate::recovery::PersistedJobView;

verus! {

/// A record behind its length.
pub open spec fn framed(payload: Seq<u8>) -> Seq<u8> {
    spec_u64_to_le_bytes(payload.len() as u64) + payload
}

/// Records one after the other.
pub open spec fn framed_all(payloads: Seq<Seq<u8>>) -> Seq<u8>
    decreases payloads.len(),
{
    if payloads.len() == 0 {
        Seq::empty()
    } else {
        framed(payloads[0]) + framed_all(payloads.skip(1))
    }
}

/// The bytes to put at the end of the file for a new record.
pub fn frame(payload: &Vec<u8>) -> (r: Vec<u8>)
    ensures
        r@ == framed(payload@),
{
    let mut r: Vec<u8> = u64_to_le_bytes(payload.len() as u64);
    let ghost head = r@;
    let mut i: usize = 0;
    assert(payload@.take(0) =~= Seq::<u8>::empty());
    while i < payload.len()
        invariant
            i <= payload@.len(),
            r@ == head + payload@.take(i as int),
        decreases payload@.len() - i,
    {
        r.push(payload[i]);
        i = i + 1;
        assert(r@ =~= head + payload@.take(i as int));
    }
    assert(payload@.take(payload@.len() as int) =~= payload@);
    r
}

/// What stands at a place of the file: nothing more, a record that is cut short, or a record
/// and the place after it.
pub enum Frame {
    End,
    Truncated,
    Record { payload: Vec<u8>, next: usize },
}

/// What a frame says.
pub enum FrameView {
    End,
    Truncated,
    Record(Seq<u8>, int),
}

impl View for Frame {
    type V = FrameView;

    open spec fn view(&self) -> FrameView {
        match *self {
            Frame::End => FrameView::End,
            Frame::Truncated => FrameView::Truncated,
            Frame::Record { payload, next } => FrameView::Record(payload@, next as int),
        }
    }
}

/// What stands at `pos`. A length that is cut short ends the file, and so does a length of
/// zero.
pub open spec fn frame_at(data: Seq<u8>, pos: int) -> FrameView {
    if data.len() - pos < 8 {
        FrameView::End
    } else {
        let len = spec_u64_from_le_bytes(data.subrange(pos, pos + 8));
        if len == 0 {
            FrameView::End
        } else if data.len() - pos - 8 < len {
            FrameView::Truncated
        } else {
            FrameView::Record(data.subrange(pos + 8, pos + 8 + len), pos + 8 + len)
        }
    }
}

fn copy_bytes(data: &Vec<u8>, from: usize, to: usize) -> (r: Vec<u8>)
    requires
        from <= to <= data@.len(),
    ensures
        r@ == data@.subrange(from as int, to as int),
{
    let mut r: Vec<u8> = Vec::new();
    let mut i: usize = from;
    while i < to
        invariant
            from <= i <= to <= data@.len(),
            r@ == data@.subrange(from as int, i as int),
        decreases to - i,
    {
        r.push(data[i]);
        i = i + 1;
    }
    r
}

pub fn next_frame(data: &Vec<u8>, pos: usize) -> (r: Frame)
    requires
        pos <= data@.len(),
    ensures
        r@ == frame_at(data@, pos as int),
{
    if data.len() - pos < 8 {
        return Frame::End;
    }
    let len: u64 = u64_from_le_bytes(slice_subrange(data.as_slice(), pos, pos + 8));
    if len == 0 {
        return Frame::End;
    }
    let left: usize = data.len() - pos - 8;
    if (left as u64) < len {
        return Frame::Truncated;
    }
    let next: usize = pos + 8 + len as usize;
    Frame::Record { payload: copy_bytes(data, pos + 8, next), next }
}

/// Why a file of records cannot be loaded: it ends within a record.
#[derive(Clone, Copy, PartialEq, Eq, Structural, Debug)]
pub enum LoadError {
    CutShort,
}

pub open spec fn byte_lists(v: Seq<Vec<u8>>) -> Seq<Seq<u8>> {
    Seq::new(v.len(), |i: int| v[i]@)
}

/// The records from `pos` on, and whether the file ends within one after them.
pub open spec fn records_from(data: Seq<u8>, pos: int) -> (Seq<Seq<u8>>, bool)
    decreases data.len() - pos,
{
    if pos < 0 {
        (Seq::empty(), false)
    } else {
        match frame_at(data, pos) {
            FrameView::End => (Seq::empty(), false),
            FrameView::Truncated => (Seq::empty(), true),
            FrameView::Record(payload, next) => {
                let rest = records_from(data, next);
                (seq![payload] + rest.0, rest.1)
            },
        }
    }
}

/// The records of a file, and whether it ends within one after them.
pub fn split_records(data: &Vec<u8>) -> (r: (Vec<Vec<u8>>, bool))
    ensures
        byte_lists(r.0@) == records_from(data@, 0).0,
        r.1 == records_from(data@, 0).1,
{
    let mut found: Vec<Vec<u8>> = Vec::new();
    let mut pos: usize = 0;
    let ghost goal = records_from(data@, 0);
    assert(byte_lists(found@) + goal.0 =~= goal.0);
    loop
        invariant
            pos <= data@.len(),
            goal == records_from(data@, 0),
            byte_lists(found@) + records_from(data@, pos as int).0 == goal.0,
            records_from(data@, pos as int).1 == goal.1,
        decreases data@.len() - pos,
    {
        match next_frame(data, pos) {
            Frame::End => {
                assert(byte_lists(found@) + Seq::<Seq<u8>>::empty() =~= byte_lists(found@));
                return (found, false);
            },
            Frame::Truncated => {
                assert(byte_lists(found@) + Seq::<Seq<u8>>::empty() =~= byte_lists(found@));
                return (found, true);
            },
            Frame::Record { payload, next } => {
                let ghost before = byte_lists(found@);
                let ghost bytes = payload@;
                let ghost rest = records_from(data@, next as int).0;
                found.push(payload);
                assert(byte_lists(found@) =~= before.push(bytes));
                assert(before + (seq![bytes] + rest) =~= before.push(bytes) + rest);
                pos = next;
            },
        }
    }
}

proof fn lemma_frame_at_start(data: Seq<u8>, pos: int, payload: Seq<u8>, rest: Seq<u8>)
    requires
        0 <= pos <= data.len(),
        data.skip(pos) == framed(payload) + rest,
        0 < payload.len() <= u64::MAX,
    ensures
        frame_at(data, pos) == FrameView::Record(payload, pos + 8 + payload.len()),
        data.skip(pos + 8 + payload.len()) == rest,
        pos + 8 + payload.len() <= data.len(),
{
    vstd::bytes::lemma_auto_spec_u64_to_from_le_bytes();
    let head = spec_u64_to_le_bytes(payload.len() as u64);
    let s = framed(payload) + rest;
    assert(s.len() == data.len() - pos);
    assert(data.subrange(pos, pos + 8) =~= head) by {
        assert forall|i: int| 0 <= i < 8 implies data.subrange(pos, pos + 8)[i] == head[i] by {
            assert(data.skip(pos)[i] == s[i]);
        }
    }
    assert(data.subrange(pos + 8, pos + 8 + payload.len()) =~= payload) by {
        assert forall|i: int| 0 <= i < payload.len() implies data.subrange(
            pos + 8,
            pos + 8 + payload.len(),
        )[i] == payload[i] by {
            assert(data.skip(pos)[8 + i] == s[8 + i]);
        }
    }
    assert(data.skip(pos + 8 + payload.len()) =~= rest) by {
        assert forall|i: int| 0 <= i < rest.len() implies data.skip(pos + 8 + payload.len())[i]
            == rest[i] by {
            assert(data.skip(pos)[8 + payload.len() + i] == s[8 + payload.len() + i]);
        }
    }
}

proof fn lemma_records_of_framed(data: Seq<u8>, pos: int, payloads: Seq<Seq<u8>>)
    requires
        0 <= pos <= data.len(),
        data.skip(pos) == framed_all(payloads),
        forall|i: int| 0 <= i < payloads.len() ==> 0 < (#[trigger] payloads[i]).len() <= u64::MAX,
    ensures
        records_from(data, pos) == (payloads, false),
    decreases payloads.len(),
{
    if payloads.len() == 0 {
        assert(data.skip(pos).len() == 0);
        assert(records_from(data, pos).0 =~= payloads);
    } else {
        let rest = payloads.skip(1);
        assert(0 < payloads[0].len() <= u64::MAX);
        lemma_frame_at_start(data, pos, payloads[0], framed_all(rest));
        let next = pos + 8 + payloads[0].len();
        assert forall|i: int| 0 <= i < rest.len() implies 0 < (#[trigger] rest[i]).len()
            <= u64::MAX by {
            assert(rest[i] == payloads[i + 1]);
        }
        lemma_records_of_framed(data, next, rest);
        assert(seq![payloads[0]] + rest =~= payloads);
    }
}

/// What is written record by record is read back record by record. Records are never empty.
pub proof fn law_records_read_back(payloads: Seq<Seq<u8>>)
    requires
        forall|i: int| 0 <= i < payloads.len() ==> 0 < (#[trigger] payloads[i]).len() <= u64::MAX,
    ensures
        records_from(framed_all(payloads), 0) == (payloads, false),
{
    assert(framed_all(payloads).skip(0) =~= framed_all(payloads));
    lemma_records_of_framed(framed_all(payloads), 0, payloads);
}

/// Writing one more record at the end of the file adds it to the list.
pub proof fn law_append_adds_a_record(payloads: Seq<Seq<u8>>, payload: Seq<u8>)
    ensures
        framed_all(payloads) + framed(payload) == framed_all(payloads.push(payload)),
    decreases payloads.len(),
{
    if payloads.len() == 0 {
        assert(payloads.push(payload).skip(1) =~= Seq::<Seq<u8>>::empty());
        assert(framed_all(payloads.push(payload).skip(1)) =~= Seq::<u8>::empty());
        assert(framed_all(payloads) + framed(payload) =~= framed_all(payloads.push(payload)));
    } else {
        law_append_adds_a_record(payloads.skip(1), payload);
        assert(payloads.push(payload).skip(1) =~= payloads.skip(1).push(payload));
        assert(framed_all(payloads) + framed(payload) =~= framed(payloads[0]) + (framed_all(
            payloads.skip(1),
        ) + framed(payload)));
    }
}

/// The bytes of a job's number and working directory.
pub open spec fn wd_bytes(job_id: u64, wd: Seq<char>) -> Seq<u8> {
    spec_u64_to_le_bytes(job_id) + spec_u64_to_le_bytes(encode_utf8(wd).len() as u64)
        + encode_utf8(wd)
}

/// The number and working directory that the bytes hold; bytes after them do not matter.
pub open spec fn wd_of_bytes(b: Seq<u8>) -> Option<(u64, Seq<char>)> {
    if b.len() < 16 {
        None
    } else {
        let n = spec_u64_from_le_bytes(b.subrange(8, 16));
        if b.len() - 16 < n || !valid_utf8(b.subrange(16, 16 + n)) {
            None
        } else {
            Some((spec_u64_from_le_bytes(b.subrange(0, 8)), decode_utf8(b.subrange(16, 16 + n))))
        }
    }
}

/// `bincode::serialize` on a pair of a number and a string: the number as eight bytes with the
/// lowest first, the length of the string's UTF-8 bytes in the same way, and those bytes. It
/// does not fail on such a pair.
#[verifier::external_body]
fn encode_wd(job_id: u64, wd: &str) -> (r: Option<Vec<u8>>)
    ensures
        r is Some && r->0@ == wd_bytes(job_id, wd@),
{
    bincode::serialize(&(job_id, wd.to_string())).ok()
}

pub open spec fn pair_view(p: Option<(u64, String)>) -> Option<(u64, Seq<char>)> {
    match p {
        Some(q) => Some((q.0, q.1@)),
        None => None,
    }
}

/// `bincode::deserialize` to a pair of a number and a string. It reads eight bytes, eight more
/// for a length, and as many bytes as that says, which must be UTF-8; it fails where bytes are
/// missing and takes no notice of bytes left over.
#[verifier::external_body]
fn decode_wd(bytes: &Vec<u8>) -> (r: Option<(u64, String)>)
    ensures
        pair_view(r) == wd_of_bytes(bytes@),
{
    bincode::deserialize::<(u64, String)>(bytes).ok()
}

/// What reading back gives of what was written: the number and the working directory.
pub proof fn law_wd_reads_back(job_id: u64, wd: Seq<char>)
    requires
        encode_utf8(wd).len() <= u64::MAX,
    ensures
        wd_of_bytes(wd_bytes(job_id, wd)) == Some((job_id, wd)),
{
    vstd::bytes::lemma_auto_spec_u64_to_from_le_bytes();
    let text = encode_utf8(wd);
    let b = wd_bytes(job_id, wd);
    assert(b.subrange(0, 8) =~= spec_u64_to_le_bytes(job_id));
    assert(b.subrange(8, 16) =~= spec_u64_to_le_bytes(text.len() as u64));
    assert(b.subrange(16, 16 + text.len() as int) =~= text);
    vstd::utf8::encode_utf8_valid_utf8(wd);
    vstd::utf8::encode_utf8_decode_utf8(wd);
}

/// The bytes to put at the end of the file of working directories for a job.
pub fn persist_job_wd(job_id: u64, wd: &str) -> (r: Option<Vec<u8>>)
    ensures
        r matches Some(b) && b@ == framed(wd_bytes(job_id, wd@)),
{
    match encode_wd(job_id, wd) {
        Some(encoded) => Some(frame(&encoded)),
        None => None,
    }
}

pub open spec fn wd_views(m: Map<u64, String>) -> Map<u64, Seq<char>> {
    Map::new(|k: u64| m.contains_key(k), |k: u64| m[k]@)
}

/// The working directories that a file records from `pos` on, on top of those known so far.
/// The last record of a job counts; a record that cannot be read ends the file.
pub open spec fn wds_from(data: Seq<u8>, pos: int, known: Map<u64, Seq<char>>) -> Result<
    Map<u64, Seq<char>>,
    LoadError,
>
    decreases data.len() - pos,
{
    if pos < 0 {
        Ok(known)
    } else {
        match frame_at(data, pos) {
            FrameView::End => Ok(known),
            FrameView::Truncated => Err(LoadError::CutShort),
            FrameView::Record(payload, next) => match wd_of_bytes(payload) {
                Some(p) => wds_from(data, next, known.insert(p.0, p.1)),
                None => Ok(known),
            },
        }
    }
}

/// The working directories of the jobs, from the contents of their file.
pub fn load_persisted_job_wds(data: &Vec<u8>) -> (r: Result<HashMap<u64, String>, LoadError>)
    ensures
        match wds_from(data@, 0, Map::empty()) {
            Ok(m) => r matches Ok(h) && wd_views(h@) == m,
            Err(e) => r matches Err(f) && f == e,
        },
{
    let mut wds: HashMap<u64, String> = HashMap::new();
    let mut pos: usize = 0;
    assert(wd_views(wds@) =~= Map::<u64, Seq<char>>::empty());
    loop
        invariant
            pos <= data@.len(),
            wds_from(data@, 0, Map::empty()) == wds_from(data@, pos as int, wd_views(wds@)),
        decreases data@.len() - pos,
    {
        match next_frame(data, pos) {
            Frame::End => {
                return Ok(wds);
            },
            Frame::Truncated => {
                return Err(LoadError::CutShort);
            },
            Frame::Record { payload, next } => {
                match decode_wd(&payload) {
                    Some(p) => {
                        let ghost before = wds@;
                        let ghost text = p.1@;
                        wds.insert(p.0, p.1);
                        assert(wd_views(wds@) =~= wd_views(before).insert(p.0, text));
                    },
                    None => {
                        return Ok(wds);
                    },
                }
                pos = next;
            },
        }
    }
}

/// The records of a list of jobs and working directories.
pub open spec fn wd_records(pairs: Seq<(u64, Seq<char>)>) -> Seq<Seq<u8>> {
    Seq::new(pairs.len(), |i: int| wd_bytes(pairs[i].0, pairs[i].1))
}

/// The working directories that a list of entries leaves in force, on top of those known.
pub open spec fn latest(pairs: Seq<(u64, Seq<char>)>, known: Map<u64, Seq<char>>) -> Map<
    u64,
    Seq<char>,
>
    decreases pairs.len(),
{
    if pairs.len() == 0 {
        known
    } else {
        latest(pairs.skip(1), known.insert(pairs[0].0, pairs[0].1))
    }
}

proof fn lemma_wds_of_records(
    data: Seq<u8>,
    pos: int,
    pairs: Seq<(u64, Seq<char>)>,
    known: Map<u64, Seq<char>>,
)
    requires
        0 <= pos <= data.len(),
        data.skip(pos) == framed_all(wd_records(pairs)),
        forall|i: int|
            0 <= i < pairs.len() ==> encode_utf8((#[trigger] pairs[i]).1).len() + 16 <= u64::MAX,
    ensures
        wds_from(data, pos, known) == Ok::<Map<u64, Seq<char>>, LoadError>(latest(pairs, known)),
    decreases pairs.len(),
{
    vstd::bytes::lemma_auto_spec_u64_to_from_le_bytes();
    if pairs.len() == 0 {
        assert(data.skip(pos).len() == 0);
    } else {
        let rest = pairs.skip(1);
        let all = wd_records(pairs);
        assert(all.skip(1) =~= wd_records(rest));
        let payload = wd_bytes(pairs[0].0, pairs[0].1);
        assert(all[0] == payload);
        assert(encode_utf8(pairs[0].1).len() + 16 <= u64::MAX);
        lemma_frame_at_start(data, pos, payload, framed_all(wd_records(rest)));
        law_wd_reads_back(pairs[0].0, pairs[0].1);
        let next = pos + 8 + payload.len();
        assert forall|i: int| 0 <= i < rest.len() implies encode_utf8((#[trigger] rest[i]).1).len()
            + 16 <= u64::MAX by {
            assert(rest[i] == pairs[i + 1]);
        }
        lemma_wds_of_records(data, next, rest, known.insert(pairs[0].0, pairs[0].1));
    }
}

/// A worker that comes back knows for each job the working directory that was recorded for it
/// last.
pub proof fn law_working_directories_survive(pairs: Seq<(u64, Seq<char>)>)
    requires
        forall|i: int|
            0 <= i < pairs.len() ==> encode_utf8((#[trigger] pairs[i]).1).len() + 16 <= u64::MAX,
    ensures
        wds_from(framed_all(wd_records(pairs)), 0, Map::empty()) == Ok::<
            Map<u64, Seq<char>>,
            LoadError,
        >(latest(pairs, Map::empty())),
{
    let data = framed_all(wd_records(pairs));
    assert(data.skip(0) =~= data);
    lemma_wds_of_records(data, 0, pairs, Map::empty());
}

/// A text as bytes: the length of its UTF-8 bytes, and those bytes.
pub open spec fn text_bytes(text: Seq<char>) -> Seq<u8> {
    framed(encode_utf8(text))
}

/// Texts one after the other.
pub open spec fn texts_bytes(list: Seq<Seq<char>>) -> Seq<u8>
    decreases list.len(),
{
    if list.len() == 0 {
        Seq::empty()
    } else {
        text_bytes(list[0]) + texts_bytes(list.skip(1))
    }
}

/// The bytes of a job: its fields in their order, numbers with the lowest byte first, texts and
/// lists behind their lengths.
pub open spec fn job_bytes(job: PersistedJobView) -> Seq<u8> {
    spec_u64_to_le_bytes(job.job_id) + (spec_u32_to_le_bytes(job.pid) + (spec_u32_to_le_bytes(
        job.pgid,
    ) + (text_bytes(job.binary) + (spec_u64_to_le_bytes(job.args.len() as u64) + (texts_bytes(
        job.args,
    ) + (spec_u64_to_le_bytes(job.walltime) + (spec_u64_to_le_bytes(job.submission_time) + framed(
        job.rest,
    ))))))))
}

/// The number that stands first in `b`, and what follows it.
pub open spec fn take_u64(b: Seq<u8>) -> Option<(u64, Seq<u8>)> {
    if b.len() < 8 {
        None
    } else {
        Some((spec_u64_from_le_bytes(b.take(8)), b.skip(8)))
    }
}

/// The short number that stands first in `b`, and what follows it.
pub open spec fn take_u32(b: Seq<u8>) -> Option<(u32, Seq<u8>)> {
    if b.len() < 4 {
        None
    } else {
        Some((spec_u32_from_le_bytes(b.take(4)), b.skip(4)))
    }
}

/// The bytes that stand first in `b` behind their length, and what follows them.
pub open spec fn take_bytes(b: Seq<u8>) -> Option<(Seq<u8>, Seq<u8>)> {
    match take_u64(b) {
        Some((n, b)) => if b.len() < n {
            None
        } else {
            Some((b.take(n as int), b.skip(n as int)))
        },
        None => None,
    }
}

/// The text that stands first in `b` behind its length, and what follows it.
pub open spec fn take_text(b: Seq<u8>) -> Option<(Seq<char>, Seq<u8>)> {
    match take_bytes(b) {
        Some((text, b)) => if valid_utf8(text) {
            Some((decode_utf8(text), b))
        } else {
            None
        },
        None => None,
    }
}

/// The `n` texts that stand first in `b`, and what follows them.
pub open spec fn take_texts(b: Seq<u8>, n: nat) -> Option<(Seq<Seq<char>>, Seq<u8>)>
    decreases n,
{
    if n == 0 {
        Some((Seq::empty(), b))
    } else {
        match take_text(b) {
            Some((text, b)) => match take_texts(b, (n - 1) as nat) {
                Some((list, b)) => Some((seq![text] + list, b)),
                None => None,
            },
            None => None,
        }
    }
}

/// The job that the bytes hold; bytes after it do not matter.
pub open spec fn job_of_bytes(b: Seq<u8>) -> Option<PersistedJobView> {
    match take_u64(b) {
        Some((job_id, b)) => match take_u32(b) {
            Some((pid, b)) => match take_u32(b) {
                Some((pgid, b)) => match take_text(b) {
                    Some((binary, b)) => match take_u64(b) {
                        Some((n, b)) => match take_texts(b, n as nat) {
                            Some((args, b)) => match take_u64(b) {
                                Some((walltime, b)) => match take_u64(b) {
                                    Some((submission_time, b)) => match take_bytes(b) {
                                        Some((rest, _)) => Some(
                                            PersistedJobView {
                                                job_id,
                                                pid,
                                                pgid,
                                                binary,
                                                args,
                                                walltime,
                                                submission_time,
                                                rest,
                                            },
                                        ),
                                        None => None,
                                    },
                                    None => None,
                                },
                                None => None,
                            },
                            None => None,
                        },
                        None => None,
                    },
                    None => None,
                },
                None => None,
            },
            None => None,
        },
        None => None,
    }
}

/// `bincode::serialize` on a tuple of numbers, a string, a list of strings and a list of bytes:
/// the fields in their order, each number with the lowest byte first, a string as the length of
/// its UTF-8 bytes and those bytes, a list as its length and its elements; lengths take eight
/// bytes. It does not fail on such a tuple.
#[verifier::external_body]
fn encode_job(job: &PersistedJob) -> (r: Option<Vec<u8>>)
    ensures
        r is Some && r->0@ == job_bytes(job@),
{
    bincode::serialize(
        &(
            job.job_id,
            job.pid,
            job.pgid,
            &job.binary,
            &job.args,
            job.walltime,
            job.submission_time,
            &job.rest,
        ),
    ).ok()
}

pub open spec fn job_view(job: Option<PersistedJob>) -> Option<PersistedJobView> {
    match job {
        Some(job) => Some(job@),
        None => None,
    }
}

/// `bincode::deserialize` to a tuple of numbers, a string, a list of strings and a list of bytes.
/// It reads the fields in their order; it fails where bytes are missing or a string is not UTF-8,
/// and takes no notice of bytes left over.
#[verifier::external_body]
fn decode_job(bytes: &Vec<u8>) -> (r: Option<PersistedJob>)
    ensures
        job_view(r) == job_of_bytes(bytes@),
{
    let (job_id, pid, pgid, binary, args, walltime, submission_time, rest) = bincode::deserialize::<
        (u64, u32, u32, String, Vec<String>, u64, u64, Vec<u8>),
    >(bytes).ok()?;
    Some(PersistedJob { job_id, pid, pgid, binary, args, walltime, submission_time, rest })
}

/// The lengths that a job is written with fit into their places.
pub open spec fn writable(job: PersistedJobView) -> bool {
    &&& job_bytes(job).len() <= u64::MAX
    &&& encode_utf8(job.binary).len() <= u64::MAX
    &&& job.args.len() <= u64::MAX
    &&& forall|i: int| 0 <= i < job.args.len() ==> encode_utf8(#[trigger] job.args[i]).len() <= u64::MAX
    &&& job.rest.len() <= u64::MAX
}

proof fn lemma_take_u64(n: u64, b: Seq<u8>)
    ensures
        take_u64(spec_u64_to_le_bytes(n) + b) == Some((n, b)),
{
    vstd::bytes::lemma_auto_spec_u64_to_from_le_bytes();
    let all = spec_u64_to_le_bytes(n) + b;
    assert(all.take(8) =~= spec_u64_to_le_bytes(n));
    assert(all.skip(8) =~= b);
}

proof fn lemma_take_u32(n: u32, b: Seq<u8>)
    ensures
        take_u32(spec_u32_to_le_bytes(n) + b) == Some((n, b)),
{
    vstd::bytes::lemma_auto_spec_u32_to_from_le_bytes();
    let all = spec_u32_to_le_bytes(n) + b;
    assert(all.take(4) =~= spec_u32_to_le_bytes(n));
    assert(all.skip(4) =~= b);
}

proof fn lemma_take_bytes(v: Seq<u8>, b: Seq<u8>)
    requires
        v.len() <= u64::MAX,
    ensures
        take_bytes(framed(v) + b) == Some((v, b)),
{
    assert(framed(v) + b =~= spec_u64_to_le_bytes(v.len() as u64) + (v + b));
    lemma_take_u64(v.len() as u64, v + b);
    assert((v + b).take(v.len() as int) =~= v);
    assert((v + b).skip(v.len() as int) =~= b);
}

proof fn lemma_take_text(text: Seq<char>, b: Seq<u8>)
    requires
        encode_utf8(text).len() <= u64::MAX,
    ensures
        take_text(text_bytes(text) + b) == Some((text, b)),
{
    lemma_take_bytes(encode_utf8(text), b);
    vstd::utf8::encode_utf8_valid_utf8(text);
    vstd::utf8::encode_utf8_decode_utf8(text);
}

proof fn lemma_take_texts(list: Seq<Seq<char>>, b: Seq<u8>)
    requires
        forall|i: int| 0 <= i < list.len() ==> encode_utf8(#[trigger] list[i]).len() <= u64::MAX,
    ensures
        take_texts(texts_bytes(list) + b, list.len()) == Some((list, b)),
    decreases list.len(),
{
    if list.len() == 0 {
        assert(texts_bytes(list) + b =~= b);
        assert(list =~= Seq::<Seq<char>>::empty());
    } else {
        let rest = list.skip(1);
        assert forall|i: int| 0 <= i < rest.len() implies encode_utf8(#[trigger] rest[i]).len()
            <= u64::MAX by {
            assert(rest[i] == list[i + 1]);
        }
        assert(encode_utf8(list[0]).len() <= u64::MAX);
        assert(texts_bytes(list) + b =~= text_bytes(list[0]) + (texts_bytes(rest) + b));
        lemma_take_text(list[0], texts_bytes(rest) + b);
        lemma_take_texts(rest, b);
        assert(seq![list[0]] + rest =~= list);
    }
}

/// What reading back gives of a job that was written: the job.
pub proof fn law_job_reads_back(job: PersistedJobView)
    requires
        writable(job),
    ensures
        job_of_bytes(job_bytes(job)) == Some(job),
{
    let b8 = framed(job.rest);
    let b7 = spec_u64_to_le_bytes(job.submission_time) + b8;
    let b6 = spec_u64_to_le_bytes(job.walltime) + b7;
    let b5 = texts_bytes(job.args) + b6;
    let b4 = spec_u64_to_le_bytes(job.args.len() as u64) + b5;
    let b3 = text_bytes(job.binary) + b4;
    let b2 = spec_u32_to_le_bytes(job.pgid) + b3;
    let b1 = spec_u32_to_le_bytes(job.pid) + b2;
    lemma_take_u64(job.job_id, b1);
    lemma_take_u32(job.pid, b2);
    lemma_take_u32(job.pgid, b3);
    lemma_take_text(job.binary, b4);
    lemma_take_u64(job.args.len() as u64, b5);
    lemma_take_texts(job.args, b6);
    lemma_take_u64(job.walltime, b7);
    lemma_take_u64(job.submission_time, b8);
    assert(b8 =~= framed(job.rest) + Seq::<u8>::empty());
    lemma_take_bytes(job.rest, Seq::empty());
}

pub open spec fn job_views(jobs: Seq<PersistedJob>) -> Seq<PersistedJobView> {
    Seq::new(jobs.len(), |i: int| jobs[i]@)
}

/// The jobs that a file holds from `pos` on, behind those known so far. A record that cannot be
/// decoded ends the file, also where the file ends within a later record.
pub open spec fn jobs_from(data: Seq<u8>, pos: int, known: Seq<PersistedJobView>) -> Result<
    Seq<PersistedJobView>,
    LoadError,
>
    decreases data.len() - pos,
{
    if pos < 0 {
        Ok(known)
    } else {
        match frame_at(data, pos) {
            FrameView::End => Ok(known),
            FrameView::Truncated => Err(LoadError::CutShort),
            FrameView::Record(payload, next) => match job_of_bytes(payload) {
                Some(job) => jobs_from(data, next, known.push(job)),
                None => Ok(known),
            },
        }
    }
}

/// The jobs that a file holds.
pub open spec fn jobs_in(data: Seq<u8>) -> Result<Seq<PersistedJobView>, LoadError> {
    jobs_from(data, 0, Seq::empty())
}

/// The jobs of a file, from its contents. A file that is not there has no contents.
pub fn load_persisted_job_states(data: &Vec<u8>) -> (r: Result<Vec<PersistedJob>, LoadError>)
    ensures
        match jobs_in(data@) {
            Ok(jobs) => r matches Ok(v) && job_views(v@) == jobs,
            Err(e) => r matches Err(f) && f == e,
        },
{
    let mut jobs: Vec<PersistedJob> = Vec::new();
    let mut pos: usize = 0;
    assert(job_views(jobs@) =~= Seq::<PersistedJobView>::empty());
    loop
        invariant
            pos <= data@.len(),
            jobs_in(data@) == jobs_from(data@, pos as int, job_views(jobs@)),
        decreases data@.len() - pos,
    {
        match next_frame(data, pos) {
            Frame::End => {
                return Ok(jobs);
            },
            Frame::Truncated => {
                return Err(LoadError::CutShort);
            },
            Frame::Record { payload, next } => {
                match decode_job(&payload) {
                    Some(job) => {
                        let ghost before = job_views(jobs@);
                        let ghost added = job@;
                        jobs.push(job);
                        assert(job_views(jobs@) =~= before.push(added));
                    },
                    None => {
                        return Ok(jobs);
                    },
                }
                pos = next;
            },
        }
    }
}

/// The bytes to put at the end of the file of jobs for a new one.
pub fn persist_job_state(job: &PersistedJob) -> (r: Option<Vec<u8>>)
    ensures
        r matches Some(b) && b@ == framed(job_bytes(job@)),
{
    match encode_job(job) {
        Some(encoded) => Some(frame(&encoded)),
        None => None,
    }
}

/// Whether a job has a number other than `job_id`.
pub open spec fn is_other(job_id: u64) -> spec_fn(PersistedJobView) -> bool {
    |job: PersistedJobView| job.job_id != job_id
}

/// The jobs of a list but for those with the number `job_id`.
pub open spec fn other_jobs(jobs: Seq<PersistedJobView>, job_id: u64) -> Seq<PersistedJobView> {
    jobs.filter(is_other(job_id))
}

/// Some job has the number `job_id`.
pub open spec fn has_job(jobs: Seq<PersistedJobView>, job_id: u64) -> bool {
    exists|i: int| 0 <= i < jobs.len() && (#[trigger] jobs[i]).job_id == job_id
}

/// A file of the jobs of a list.
pub open spec fn jobs_file(jobs: Seq<PersistedJobView>) -> Seq<u8>
    decreases jobs.len(),
{
    if jobs.len() == 0 {
        Seq::empty()
    } else {
        jobs_file(jobs.drop_last()) + framed(job_bytes(jobs.last()))
    }
}

/// The contents of a file of jobs after those with the number `job_id` have been taken out;
/// none, where there is none and the file stays as it is.
pub open spec fn file_without(data: Seq<u8>, job_id: u64) -> Result<Option<Seq<u8>>, LoadError> {
    match jobs_in(data) {
        Err(e) => Err(e),
        Ok(jobs) => if has_job(jobs, job_id) {
            Ok(Some(jobs_file(other_jobs(jobs, job_id))))
        } else {
            Ok(None)
        },
    }
}

fn holds_job(jobs: &Vec<PersistedJob>, job_id: u64) -> (r: bool)
    ensures
        r == has_job(job_views(jobs@), job_id),
{
    let ghost all = job_views(jobs@);
    let mut i: usize = 0;
    while i < jobs.len()
        invariant
            i <= jobs@.len(),
            all == job_views(jobs@),
            forall|k: int| 0 <= k < i ==> (#[trigger] all[k]).job_id != job_id,
        decreases jobs@.len() - i,
    {
        assert(all[i as int] == jobs@[i as int]@);
        if jobs[i].job_id == job_id {
            return true;
        }
        i = i + 1;
    }
    false
}

/// The contents of the file of jobs after a job has been taken out; none, where the job is not
/// in it and the file stays as it is.
pub fn remove_persisted_job_state(data: &Vec<u8>, job_id_to_remove: u64) -> (r: Result<
    Option<Vec<u8>>,
    LoadError,
>)
    ensures
        match file_without(data@, job_id_to_remove) {
            Ok(Some(left)) => r matches Ok(Some(b)) && b@ == left,
            Ok(None) => r matches Ok(None),
            Err(e) => r matches Err(f) && f == e,
        },
{
    let jobs: Vec<PersistedJob> = match load_persisted_job_states(data) {
        Ok(jobs) => jobs,
        Err(e) => {
            return Err(e);
        },
    };
    if !holds_job(&jobs, job_id_to_remove) {
        return Ok(None);
    }
    let ghost all = job_views(jobs@);
    let mut bytes: Vec<u8> = Vec::new();
    let mut i: usize = 0;
    proof {
        reveal(Seq::filter);
        assert(bytes@ =~= jobs_file(other_jobs(all.take(0), job_id_to_remove)));
    }
    while i < jobs.len()
        invariant
            i <= jobs@.len(),
            all == job_views(jobs@),
            bytes@ == jobs_file(other_jobs(all.take(i as int), job_id_to_remove)),
        decreases jobs@.len() - i,
    {
        let ghost kept = other_jobs(all.take(i as int), job_id_to_remove);
        let ghost before = bytes@;
        proof {
            reveal(Seq::filter);
            assert(all.take(i + 1).drop_last() =~= all.take(i as int));
            assert(all[i as int] == jobs@[i as int]@);
            assert(kept.push(all[i as int]).drop_last() =~= kept);
        }
        if jobs[i].job_id != job_id_to_remove {
            match persist_job_state(&jobs[i]) {
                Some(record) => {
                    let mut one: Vec<u8> = record;
                    bytes.append(&mut one);
                    assert(bytes@ =~= before + framed(job_bytes(all[i as int])));
                },
                None => {},
            }
        }
        i = i + 1;
    }
    assert(all.take(i as int) =~= all);
    Ok(Some(bytes))
}

/// From `pos` on the file holds records that can be decoded, and nothing after them.
pub open spec fn whole_from(data: Seq<u8>, pos: int) -> bool
    decreases data.len() - pos,
{
    if pos < 0 {
        false
    } else {
        match frame_at(data, pos) {
            FrameView::End => pos == data.len(),
            FrameView::Truncated => false,
            FrameView::Record(payload, next) => job_of_bytes(payload) is Some && whole_from(
                data,
                next,
            ),
        }
    }
}

proof fn lemma_one_more_job(
    data: Seq<u8>,
    pos: int,
    known: Seq<PersistedJobView>,
    job: PersistedJobView,
)
    requires
        0 <= pos <= data.len(),
        whole_from(data, pos),
        writable(job),
    ensures
        whole_from(data + framed(job_bytes(job)), pos),
        jobs_from(data, pos, known) matches Ok(jobs) && jobs_from(
            data + framed(job_bytes(job)),
            pos,
            known,
        ) == Ok::<Seq<PersistedJobView>, LoadError>(jobs.push(job)),
    decreases data.len() - pos,
{
    let bytes = job_bytes(job);
    let longer = data + framed(bytes);
    match frame_at(data, pos) {
        FrameView::Record(payload, next) => {
            let len = spec_u64_from_le_bytes(data.subrange(pos, pos + 8));
            assert(longer.subrange(pos, pos + 8) =~= data.subrange(pos, pos + 8));
            assert(longer.subrange(pos + 8, pos + 8 + len) =~= payload);
            lemma_one_more_job(data, next, known.push(job_of_bytes(payload)->0), job);
        },
        _ => {
            vstd::bytes::lemma_auto_spec_u64_to_from_le_bytes();
            law_job_reads_back(job);
            assert(longer.skip(pos) =~= framed(bytes) + Seq::<u8>::empty());
            lemma_frame_at_start(longer, pos, bytes, Seq::empty());
            let next = pos + 8 + bytes.len();
            assert(frame_at(longer, next) == FrameView::End);
            assert(whole_from(longer, next));
            assert(jobs_from(longer, next, known.push(job)) == Ok::<
                Seq<PersistedJobView>,
                LoadError,
            >(known.push(job)));
        },
    }
}

/// A file that is not there, or is empty, holds no jobs.
pub proof fn law_no_file_holds_no_jobs()
    ensures
        jobs_in(Seq::empty()) == Ok::<Seq<PersistedJobView>, LoadError>(Seq::empty()),
        whole_from(Seq::empty(), 0),
{
}

/// A job that is written at the end of a file whose records are whole is loaded behind those
/// that were loaded before, and the records are whole again.
pub proof fn law_persisted_job_is_loaded(data: Seq<u8>, job: PersistedJobView)
    requires
        whole_from(data, 0),
        writable(job),
    ensures
        jobs_in(data) matches Ok(jobs) && jobs_in(data + framed(job_bytes(job))) == Ok::<
            Seq<PersistedJobView>,
            LoadError,
        >(jobs.push(job)),
        whole_from(data + framed(job_bytes(job)), 0),
{
    lemma_one_more_job(data, 0, Seq::empty(), job);
}

/// Jobs are loaded from a file of them, in their order.
pub proof fn law_file_of_jobs_is_loaded(jobs: Seq<PersistedJobView>)
    requires
        forall|i: int| 0 <= i < jobs.len() ==> writable(#[trigger] jobs[i]),
    ensures
        jobs_in(jobs_file(jobs)) == Ok::<Seq<PersistedJobView>, LoadError>(jobs),
        whole_from(jobs_file(jobs), 0),
    decreases jobs.len(),
{
    if jobs.len() == 0 {
        law_no_file_holds_no_jobs();
        assert(jobs =~= Seq::<PersistedJobView>::empty());
    } else {
        let before = jobs.drop_last();
        assert forall|i: int| 0 <= i < before.len() implies writable(#[trigger] before[i]) by {
            assert(before[i] == jobs[i]);
        }
        law_file_of_jobs_is_loaded(before);
        assert(writable(jobs[jobs.len() - 1]));
        law_persisted_job_is_loaded(jobs_file(before), jobs.last());
        assert(before.push(jobs.last()) =~= jobs);
    }
}

proof fn lemma_all_kept<T>(s: Seq<T>, p: spec_fn(T) -> bool)
    requires
        forall|i: int| 0 <= i < s.len() ==> p(#[trigger] s[i]),
    ensures
        s.filter(p) == s,
    decreases s.len(),
{
    reveal(Seq::filter);
    if s.len() > 0 {
        let before = s.drop_last();
        assert forall|i: int| 0 <= i < before.len() implies p(#[trigger] before[i]) by {
            assert(before[i] == s[i]);
        }
        lemma_all_kept(before, p);
        assert(p(s[s.len() - 1]));
        assert(before.push(s.last()) =~= s);
    }
}

proof fn lemma_taken_u64(b: Seq<u8>)
    requires
        take_u64(b) is Some,
    ensures
        b == spec_u64_to_le_bytes((take_u64(b)->0).0) + (take_u64(b)->0).1,
{
    vstd::bytes::lemma_auto_spec_u64_to_from_le_bytes();
    assert(b.take(8).len() == 8);
    assert(b =~= b.take(8) + b.skip(8));
}

proof fn lemma_taken_u32(b: Seq<u8>)
    requires
        take_u32(b) is Some,
    ensures
        b == spec_u32_to_le_bytes((take_u32(b)->0).0) + (take_u32(b)->0).1,
{
    vstd::bytes::lemma_auto_spec_u32_to_from_le_bytes();
    assert(b.take(4).len() == 4);
    assert(b =~= b.take(4) + b.skip(4));
}

proof fn lemma_taken_bytes(b: Seq<u8>)
    requires
        take_bytes(b) is Some,
    ensures
        b == framed((take_bytes(b)->0).0) + (take_bytes(b)->0).1,
        (take_bytes(b)->0).0.len() <= u64::MAX,
{
    lemma_taken_u64(b);
    let (n, rest) = take_u64(b)->0;
    assert(rest =~= rest.take(n as int) + rest.skip(n as int));
    assert(b =~= framed(rest.take(n as int)) + rest.skip(n as int));
}

proof fn lemma_taken_text(b: Seq<u8>)
    requires
        take_text(b) is Some,
    ensures
        b == text_bytes((take_text(b)->0).0) + (take_text(b)->0).1,
        encode_utf8((take_text(b)->0).0).len() <= u64::MAX,
{
    lemma_taken_bytes(b);
    vstd::utf8::decode_utf8_encode_utf8((take_bytes(b)->0).0);
}

proof fn lemma_taken_texts(b: Seq<u8>, n: nat)
    requires
        take_texts(b, n) is Some,
    ensures
        b == texts_bytes((take_texts(b, n)->0).0) + (take_texts(b, n)->0).1,
        (take_texts(b, n)->0).0.len() == n,
        forall|i: int|
            0 <= i < n ==> encode_utf8(#[trigger] (take_texts(b, n)->0).0[i]).len() <= u64::MAX,
    decreases n,
{
    if n == 0 {
        assert(b =~= texts_bytes(Seq::empty()) + b);
    } else {
        lemma_taken_text(b);
        let (text, after) = take_text(b)->0;
        lemma_taken_texts(after, (n - 1) as nat);
        let (list, last) = take_texts(after, (n - 1) as nat)->0;
        let all = seq![text] + list;
        assert(all.skip(1) =~= list);
        assert(b =~= texts_bytes(all) + last);
        assert forall|i: int| 0 <= i < n implies encode_utf8(#[trigger] all[i]).len()
            <= u64::MAX by {
            if i > 0 {
                assert(all[i] == list[i - 1]);
            }
        }
    }
}

proof fn lemma_decoded_job_is_writable(b: Seq<u8>)
    requires
        job_of_bytes(b) is Some,
        b.len() <= u64::MAX,
    ensures
        writable(job_of_bytes(b)->0),
{
    let job = job_of_bytes(b)->0;
    lemma_taken_u64(b);
    let b1 = (take_u64(b)->0).1;
    lemma_taken_u32(b1);
    let b2 = (take_u32(b1)->0).1;
    lemma_taken_u32(b2);
    let b3 = (take_u32(b2)->0).1;
    lemma_taken_text(b3);
    let b4 = (take_text(b3)->0).1;
    lemma_taken_u64(b4);
    let (n, b5) = take_u64(b4)->0;
    lemma_taken_texts(b5, n as nat);
    let b6 = (take_texts(b5, n as nat)->0).1;
    lemma_taken_u64(b6);
    let b7 = (take_u64(b6)->0).1;
    lemma_taken_u64(b7);
    let b8 = (take_u64(b7)->0).1;
    lemma_taken_bytes(b8);
    assert(job_bytes(job).len() <= b.len());
}

proof fn lemma_loaded_jobs_are_writable(data: Seq<u8>, pos: int, known: Seq<PersistedJobView>)
    requires
        0 <= pos <= data.len() <= u64::MAX,
        jobs_from(data, pos, known) is Ok,
        forall|i: int| 0 <= i < known.len() ==> writable(#[trigger] known[i]),
    ensures
        forall|i: int|
            0 <= i < jobs_from(data, pos, known)->Ok_0.len() ==> writable(
                #[trigger] jobs_from(data, pos, known)->Ok_0[i],
            ),
    decreases data.len() - pos,
{
    if let FrameView::Record(payload, next) = frame_at(data, pos) {
        if let Some(job) = job_of_bytes(payload) {
            lemma_decoded_job_is_writable(payload);
            lemma_loaded_jobs_are_writable(data, next, known.push(job));
        }
    }
}

/// After a job has been taken out of a file, the other jobs are loaded as before, in their
/// order; the file stays as it is where it does not hold the job.
pub proof fn law_removed_job_is_gone(data: Seq<u8>, job_id: u64)
    requires
        jobs_in(data) is Ok,
        data.len() <= u64::MAX,
    ensures
        ({
            let jobs = jobs_in(data)->Ok_0;
            match file_without(data, job_id) {
                Ok(Some(left)) => has_job(jobs, job_id) && jobs_in(left) == Ok::<
                    Seq<PersistedJobView>,
                    LoadError,
                >(other_jobs(jobs, job_id)),
                Ok(None) => !has_job(jobs, job_id) && other_jobs(jobs, job_id) == jobs,
                Err(_) => false,
            }
        }),
{
    let jobs = jobs_in(data)->Ok_0;
    let kept = other_jobs(jobs, job_id);
    let other = is_other(job_id);
    if has_job(jobs, job_id) {
        lemma_loaded_jobs_are_writable(data, 0, Seq::empty());
        assert forall|i: int| 0 <= i < kept.len() implies writable(#[trigger] kept[i]) by {
            assert(kept.contains(kept[i]));
            jobs.lemma_filter_contains_rev(other, kept[i]);
            let k = choose|k: int| 0 <= k < jobs.len() && jobs[k] == kept[i];
            assert(writable(jobs[k]));
        }
        law_file_of_jobs_is_loaded(kept);
    } else {
        assert forall|i: int| 0 <= i < jobs.len() implies other(#[trigger] jobs[i]) by {}
        lemma_all_kept(jobs, other);
    }
}

} // verus!
