//! Reading a response body piece by piece, up to a limit.

use vstd::prelude::*;
use vstd::slice::slice_subrange;

verus! {

/// What is known of a body while it is read.
#[verifier::ext_equal]
pub struct BodyModel {
    /// The bytes that are kept.
    pub kept: Seq<u8>,
    /// Whether bytes were dropped.
    pub truncated: bool,
    /// The number of bytes that are kept at most.
    pub limit: nat,
    /// Whether the end of the body, or an error, was reported.
    pub finished: bool,
}

/// The smaller of two numbers.
pub open spec fn least(a: nat, b: nat) -> nat {
    if a <= b {
        a
    } else {
        b
    }
}

/// A body after one more chunk: what fits under the limit is kept, and a chunk that
/// does not fit marks the body as truncated.
pub open spec fn with_chunk(body: BodyModel, chunk: Seq<u8>) -> BodyModel {
    let all = body.kept + chunk;
    BodyModel {
        kept: all.take(least(body.limit, all.len()) as int),
        truncated: body.truncated || all.len() > body.limit,
        ..body
    }
}

/// A body of which nothing was read yet.
pub open spec fn empty_body(limit: nat) -> BodyModel {
    BodyModel { kept: Seq::empty(), truncated: false, limit, finished: false }
}

/// A body after some chunks.
pub open spec fn with_chunks(limit: nat, chunks: Seq<Seq<u8>>) -> BodyModel
    decreases chunks.len(),
{
    if chunks.len() == 0 {
        empty_body(limit)
    } else {
        with_chunk(with_chunks(limit, chunks.drop_last()), chunks.last())
    }
}

/// The text of bytes that should be UTF-8, with replacement characters where
/// they are not: what `String::from_utf8_lossy` gives.
pub uninterp spec fn lossy_text(bytes: Seq<u8>) -> Seq<char>;

/// Calls `String::from_utf8_lossy`. Bytes that are UTF-8 become the text that
/// they encode; what the text is otherwise is the name [`lossy_text`].
#[verifier::external_body]
fn text_from_utf8_lossy(bytes: &[u8]) -> (text: String)
    ensures
        text@ == lossy_text(bytes@),
        vstd::utf8::valid_utf8(bytes@) ==> text@ == vstd::utf8::decode_utf8(bytes@),
{
    String::from_utf8_lossy(bytes).into_owned()
}

/// The message for a body that could not be read.
pub open spec fn read_failure(error: Seq<char>) -> Seq<char> {
    "HTTP body read failed: "@ + error
}

/// Computes [`read_failure`].
pub fn body_read_error(error: &str) -> (message: String)
    ensures
        message@ == read_failure(error@),
{
    let mut message = "HTTP body read failed: ".to_owned();
    message.append(error);
    message
}

/// One step of reading a body.
#[derive(Debug)]
pub enum BodyReadStep {
    /// A chunk was read.
    Progress {
        /// The number of bytes that are kept so far; it never passes the limit.
        cumulative_bytes: usize,
    },
    /// The body is complete.
    Done {
        /// The kept bytes as text.
        body: String,
        /// Whether the body was cut at the limit.
        truncated: bool,
    },
}

/// What the connection delivers next.
pub enum BodyEvent {
    /// A chunk of the body.
    Chunk(Vec<u8>),
    /// An error, with its message.
    Failed(String),
    /// The end of the body.
    End,
}

/// A body that is being read.
pub struct BodyReader {
    buf: Vec<u8>,
    truncated: bool,
    limit: usize,
    finished: bool,
}

/// What [`BodyReader::next_step`] returns for an event, and the body after it.
pub open spec fn stepped(
    before: BodyModel,
    event: BodyEvent,
    step: Option<Result<BodyReadStep, String>>,
    after: BodyModel,
) -> bool {
    if before.finished {
        step is None && after == before
    } else {
        match event {
            BodyEvent::Chunk(chunk) => {
                &&& after == with_chunk(before, chunk@)
                &&& step matches Some(Ok(BodyReadStep::Progress { cumulative_bytes }))
                &&& cumulative_bytes == after.kept.len()
            },
            BodyEvent::Failed(error) => {
                &&& after == (BodyModel { finished: true, ..before })
                &&& step matches Some(Err(message))
                &&& message@ == read_failure(error@)
            },
            BodyEvent::End => {
                &&& after == (BodyModel { kept: Seq::empty(), finished: true, ..before })
                &&& step matches Some(Ok(BodyReadStep::Done { body, truncated }))
                &&& body@ == lossy_text(before.kept)
                &&& vstd::utf8::valid_utf8(before.kept) ==> body@ == vstd::utf8::decode_utf8(
                    before.kept,
                )
                &&& truncated == before.truncated
            },
        }
    }
}

impl View for BodyReader {
    type V = BodyModel;

    closed spec fn view(&self) -> BodyModel {
        BodyModel {
            kept: self.buf@,
            truncated: self.truncated,
            limit: self.limit as nat,
            finished: self.finished,
        }
    }
}

impl BodyReader {
    #[verifier::type_invariant]
    spec fn within_limit(self) -> bool {
        self.buf@.len() <= self.limit
    }

    /// A reader that keeps up to `limit` bytes.
    pub fn new(limit: usize) -> (reader: Self)
        ensures
            reader@ == empty_body(limit as nat),
    {
        let reader = BodyReader { buf: Vec::new(), truncated: false, limit, finished: false };
        assert(reader@ =~= empty_body(limit as nat));
        reader
    }

    /// Takes the next chunk of the body.
    pub fn append(&mut self, chunk: &[u8])
        ensures
            final(self)@ == with_chunk(old(self)@, chunk@),
            final(self)@.kept.len() <= final(self)@.limit,
    {
        proof {
            use_type_invariant(&*self);
        }
        let ghost before = self@;
        let ghost all = before.kept + chunk@;
        let mut buf: Vec<u8> = Vec::new();
        std::mem::swap(&mut buf, &mut self.buf);
        if buf.len() >= self.limit {
            if chunk.len() > 0 {
                self.truncated = true;
            }
            assert(all.take(self.limit as int) =~= buf@);
        } else {
            let remaining = self.limit - buf.len();
            if chunk.len() > remaining {
                let fitting = slice_subrange(chunk, 0, remaining);
                buf.extend_from_slice(fitting);
                self.truncated = true;
                assert(buf@ =~= all.take(self.limit as int));
            } else {
                buf.extend_from_slice(chunk);
                assert(buf@ =~= all);
                assert(all.take(all.len() as int) =~= all);
            }
        }
        std::mem::swap(&mut buf, &mut self.buf);
        assert(self@ =~= with_chunk(before, chunk@));
    }

    /// The kept bytes, and whether the body was cut at the limit.
    pub fn finish(self) -> (result: (Vec<u8>, bool))
        ensures
            result.0@ == self@.kept,
            result.1 == self@.truncated,
    {
        (self.buf, self.truncated)
    }

    /// The kept bytes as text, and whether the body was cut at the limit.
    pub fn finish_text(self) -> (result: (String, bool))
        ensures
            result.0@ == lossy_text(self@.kept),
            vstd::utf8::valid_utf8(self@.kept) ==> result.0@ == vstd::utf8::decode_utf8(self@.kept),
            result.1 == self@.truncated,
    {
        (text_from_utf8_lossy(self.buf.as_slice()), self.truncated)
    }

    /// Whether the end of the body, or an error, was reported: there are no more
    /// steps.
    pub fn finished(&self) -> (yes: bool)
        ensures
            yes == self@.finished,
    {
        self.finished
    }

    /// Turns what the connection delivers into the next step: one progress step
    /// for each chunk, then the complete body or an error, then nothing.
    pub fn next_step(&mut self, event: BodyEvent) -> (step: Option<Result<BodyReadStep, String>>)
        ensures
            stepped(old(self)@, event, step, final(self)@),
    {
        proof {
            use_type_invariant(&*self);
        }
        if self.finished {
            return None;
        }
        match event {
            BodyEvent::Chunk(chunk) => {
                self.append(chunk.as_slice());
                Some(Ok(BodyReadStep::Progress { cumulative_bytes: self.buf.len() }))
            },
            BodyEvent::Failed(error) => {
                self.finished = true;
                Some(Err(body_read_error(error.as_str())))
            },
            BodyEvent::End => {
                let ghost before = self@;
                let body = text_from_utf8_lossy(self.buf.as_slice());
                let truncated = self.truncated;
                let mut buf: Vec<u8> = Vec::new();
                std::mem::swap(&mut buf, &mut self.buf);
                self.finished = true;
                assert(self@ =~= (BodyModel { kept: Seq::empty(), finished: true, ..before }));
                Some(Ok(BodyReadStep::Done { body, truncated }))
            },
        }
    }
}

/// The chunks one after the other.
pub open spec fn concatenated(chunks: Seq<Seq<u8>>) -> Seq<u8>
    decreases chunks.len(),
{
    if chunks.len() == 0 {
        Seq::empty()
    } else {
        concatenated(chunks.drop_last()) + chunks.last()
    }
}

/// What is kept of a body is what it starts with, up to the limit, whatever the
/// chunks that it came in.
pub proof fn law_body_keeps_the_start(limit: nat, chunks: Seq<Seq<u8>>)
    ensures
        with_chunks(limit, chunks).kept == concatenated(chunks).take(
            least(limit, concatenated(chunks).len()) as int,
        ),
        with_chunks(limit, chunks).limit == limit,
        !with_chunks(limit, chunks).finished,
    decreases chunks.len(),
{
    let whole = concatenated(chunks);
    if chunks.len() > 0 {
        law_body_keeps_the_start(limit, chunks.drop_last());
        let before = concatenated(chunks.drop_last());
        let kept = with_chunks(limit, chunks.drop_last()).kept;
        if before.len() <= limit {
            assert(before.take(before.len() as int) =~= before);
        } else {
            let all = kept + chunks.last();
            assert(all.take(limit as int) =~= whole.take(limit as int));
        }
    } else {
        assert(with_chunks(limit, chunks).kept =~= whole.take(0));
    }
}

/// A body is marked as truncated exactly where it is longer than the limit,
/// whatever the chunks that it came in.
pub proof fn law_truncated_means_longer_than_the_limit(limit: nat, chunks: Seq<Seq<u8>>)
    ensures
        with_chunks(limit, chunks).truncated <==> concatenated(chunks).len() > limit,
    decreases chunks.len(),
{
    if chunks.len() > 0 {
        law_truncated_means_longer_than_the_limit(limit, chunks.drop_last());
        law_body_keeps_the_start(limit, chunks.drop_last());
    }
}

/// The bytes that a reader counts never exceed the limit, and never decrease
/// from one chunk to the next.
pub proof fn law_progress_is_monotone(body: BodyModel, chunk: Seq<u8>)
    requires
        body.kept.len() <= body.limit,
    ensures
        body.kept.len() <= with_chunk(body, chunk).kept.len() <= body.limit,
        body.kept.is_prefix_of(with_chunk(body, chunk).kept),
{
    assert(with_chunk(body, chunk).kept.take(body.kept.len() as int) =~= body.kept);
}

/// A body that is read step by step ends with the same text and the same mark as
/// one that is read as a whole: after some chunks the end gives the start of the
/// body up to the limit, marked where the body is longer.
pub proof fn law_stream_ends_with_the_whole(
    limit: nat,
    chunks: Seq<Seq<u8>>,
    step: Option<Result<BodyReadStep, String>>,
    after: BodyModel,
)
    requires
        stepped(with_chunks(limit, chunks), BodyEvent::End, step, after),
    ensures
        step matches Some(Ok(BodyReadStep::Done { body, truncated })) && body@ == lossy_text(
            concatenated(chunks).take(least(limit, concatenated(chunks).len()) as int),
        ) && (truncated <==> concatenated(chunks).len() > limit),
        after.finished,
{
    law_truncated_means_longer_than_the_limit(limit, chunks);
    law_body_keeps_the_start(limit, chunks);
}

/// After the complete body, or an error, there are no more steps.
pub proof fn law_finished_body_has_no_steps(
    before: BodyModel,
    event: BodyEvent,
    step: Option<Result<BodyReadStep, String>>,
    after: BodyModel,
    later: BodyEvent,
    next: Option<Result<BodyReadStep, String>>,
    last: BodyModel,
)
    requires
        stepped(before, event, step, after),
        event !is Chunk,
        stepped(after, later, next, last),
    ensures
        next is None,
        last == after,
{
}

/// What is kept of a body: all of it where it fits under the limit, and else as many of its
/// first bytes as the limit allows, whatever the chunks that it came in.
pub proof fn law_body_is_kept_up_to_the_limit(limit: nat, chunks: Seq<Seq<u8>>)
    ensures
        ({
            let (whole, kept) = (concatenated(chunks), with_chunks(limit, chunks).kept);
            &&& whole.len() <= limit ==> kept == whole
            &&& whole.len() > limit ==> kept.len() == limit && kept == whole.subrange(
                0,
                limit as int,
            )
        }),
{
    law_body_keeps_the_start(limit, chunks);
    let whole = concatenated(chunks);
    assert(whole.take(whole.len() as int) =~= whole);
    assert(whole.len() > limit ==> whole.take(limit as int) =~= whole.subrange(0, limit as int));
}

/// A chunk is appended as far as the limit allows, and the body is marked as cut exactly where
/// it was before or where the chunk did not fit. Nothing else changes.
pub proof fn law_chunk_is_appended(reader: &mut BodyReader, chunk: &[u8], n: int)
    requires
        call_ensures(BodyReader::append, (reader, chunk), ()),
        old(reader)@.kept.len() <= old(reader)@.limit,
    ensures
        ({
            let (before, after) = (old(reader)@, final(reader)@);
            let room = before.limit - before.kept.len();
            &&& after.kept.len() == before.kept.len() + (if chunk@.len() <= room {
                chunk@.len() as int
            } else {
                room
            })
            &&& 0 <= n < before.kept.len() ==> after.kept[n] == before.kept[n]
            &&& before.kept.len() <= n < after.kept.len() ==> after.kept[n] == chunk@[n
                - before.kept.len()]
            &&& after.truncated <==> before.truncated || chunk@.len() > room
            &&& after.limit == before.limit
            &&& after.finished == before.finished
        }),
{
}

/// The whole body is read chunk by chunk as one chunk of all bytes would be.
pub proof fn law_chunks_are_concatenated(chunks: Seq<Seq<u8>>, chunk: Seq<u8>)
    ensures
        concatenated(Seq::empty()).len() == 0,
        concatenated(chunks.push(chunk)) == concatenated(chunks) + chunk,
{
    assert(chunks.push(chunk).drop_last() =~= chunks);
}

/// A new reader has read nothing.
pub proof fn law_new_reader_is_empty(limit: usize, reader: BodyReader)
    requires
        call_ensures(BodyReader::new, (limit,), reader),
    ensures
        reader@.kept.len() == 0,
        !reader@.truncated,
        !reader@.finished,
        reader@.limit == limit,
{
}

/// A finished read gives the bytes that were kept, as they are or as text, and says whether
/// the body was cut.
pub proof fn law_finish_gives_what_was_kept(
    reader: BodyReader,
    bytes: (Vec<u8>, bool),
    text: (String, bool),
    finished: bool,
)
    requires
        call_ensures(BodyReader::finished, (&reader,), finished),
        call_ensures(BodyReader::finish, (reader,), bytes),
        call_ensures(BodyReader::finish_text, (reader,), text),
    ensures
        bytes.0@ == reader@.kept,
        bytes.1 == reader@.truncated,
        text.0@ == lossy_text(reader@.kept),
        vstd::utf8::valid_utf8(reader@.kept) ==> text.0@ == vstd::utf8::decode_utf8(reader@.kept),
        text.1 == reader@.truncated,
        finished == reader@.finished,
{
}

/// Every chunk is reported with the number of bytes that are kept so far, the end with the
/// kept bytes as text and the mark, and an error with its message; after the end or an error
/// there is nothing more to report.
pub proof fn law_steps_report_the_body(
    reader: &mut BodyReader,
    event: BodyEvent,
    step: Option<Result<BodyReadStep, String>>,
)
    requires
        call_ensures(BodyReader::next_step, (reader, event), step),
    ensures
        ({
            let (before, after) = (old(reader)@, final(reader)@);
            &&& step is None <==> before.finished
            &&& before.finished ==> after == before
            &&& !before.finished && event is Chunk ==> {
                &&& step matches Some(Ok(BodyReadStep::Progress { cumulative_bytes }))
                &&& cumulative_bytes == after.kept.len()
                &&& !after.finished
                &&& after.kept == with_chunk(before, event->Chunk_0@).kept
                &&& after.truncated == with_chunk(before, event->Chunk_0@).truncated
            }
            &&& !before.finished && event is Failed ==> {
                &&& step matches Some(Err(message))
                &&& message@ == "HTTP body read failed: "@ + event->Failed_0@
                &&& after.finished
            }
            &&& !before.finished && event is End ==> {
                &&& step matches Some(Ok(BodyReadStep::Done { body, truncated }))
                &&& body@ == lossy_text(before.kept)
                &&& vstd::utf8::valid_utf8(before.kept) ==> body@ == vstd::utf8::decode_utf8(
                    before.kept,
                )
                &&& truncated == before.truncated
                &&& after.finished
            }
        }),
{
}

/// The message for a body that could not be read tells what went wrong.
pub proof fn law_read_error_tells_the_cause(error: &str, message: String)
    requires
        call_ensures(body_read_error, (error,), message),
    ensures
        message@ == "HTTP body read failed: "@ + error@,
{
}

} // verus!
