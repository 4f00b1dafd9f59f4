//! Whole runs of the driver: what it has become, and what the sink has
//! taken, after a sequence of events.

use vstd::prelude::*;
use crate::codec::codec_of;
use crate::driver::{step, ContainerHeader, Event, FrameHeader, Model, State};
use crate::error::{Error, ReadError};
use crate::image::{planar_len, Image};

verus! {

/// The driver after `events`, taken one after the other.
pub open spec fn run(m: Model, events: Seq<Event>) -> Model
    decreases events.len(),
{
    if events.len() == 0 {
        m
    } else {
        run(step(m, events.first()), events.drop_first())
    }
}

/// What one event adds to the sink: the staged output, when the event says
/// that it was written.
pub open spec fn taken(m: Model, event: Event) -> Seq<u8> {
    match (m.state, event) {
        (State::Write, Event::Written(Ok(_))) => m.output,
        _ => Seq::empty(),
    }
}

/// All that the sink has taken in the course of `events`.
pub open spec fn written(m: Model, events: Seq<Event>) -> Seq<u8>
    decreases events.len(),
{
    if events.len() == 0 {
        Seq::empty()
    } else {
        taken(m, events.first()) + written(step(m, events.first()), events.drop_first())
    }
}

/// Two drivers that differ at most in what their frame buffers hold.
pub open spec fn same_course(a: Model, b: Model) -> bool {
    &&& a.width == b.width
    &&& a.height == b.height
    &&& a.state == b.state
    &&& a.output == b.output
}

/// One frame record and the pictures that the engine hands out for it.
pub struct Record<'a> {
    /// The record's header.
    pub header: FrameHeader,
    /// The pictures drained after the record's payload was decoded.
    pub pictures: Seq<Image<'a>>,
}

/// The events of draining `pictures`: each is taken and written, and the
/// engine has no more.
pub open spec fn drain_events<'a>(pictures: Seq<Image<'a>>) -> Seq<Event<'a>>
    decreases pictures.len(),
{
    if pictures.len() == 0 {
        seq![Event::Frame(None)]
    } else {
        seq![Event::Frame(Some(pictures.first())), Event::Written(Ok(()))] + drain_events(
            pictures.drop_first(),
        )
    }
}

/// The events of one record that is read, decoded and drained.
pub open spec fn record_events<'a>(record: Record<'a>) -> Seq<Event<'a>> {
    seq![
        Event::FrameHeader(Ok(record.header)),
        Event::Payload(Ok(())),
        Event::Decoded(Ok(())),
    ] + drain_events(record.pictures)
}

/// The events of `records`, one record after the other.
pub open spec fn records_events<'a>(records: Seq<Record<'a>>) -> Seq<Event<'a>>
    decreases records.len(),
{
    if records.len() == 0 {
        Seq::empty()
    } else {
        record_events(records.first()) + records_events(records.drop_first())
    }
}

/// The events of a run in which nothing fails: the header is parsed, the
/// engine starts, every record is read, decoded and drained, and the stream
/// ends at a record boundary.
pub open spec fn session_events<'a>(header: ContainerHeader, records: Seq<Record<'a>>) -> Seq<
    Event<'a>,
> {
    seq![Event::Container(Some(header)), Event::EngineStarted(true)] + records_events(records)
        + seq![Event::FrameHeader(Err(ReadError::EndOfStream))]
}

/// The serialisations of `pictures`, one after the other.
pub open spec fn pictures_bytes(pictures: Seq<Image>) -> Seq<u8>
    decreases pictures.len(),
{
    if pictures.len() == 0 {
        Seq::empty()
    } else {
        pictures.first()@.planar() + pictures_bytes(pictures.drop_first())
    }
}

/// The serialisations of the pictures of `records`, in the order of the
/// records.
pub open spec fn records_bytes(records: Seq<Record>) -> Seq<u8>
    decreases records.len(),
{
    if records.len() == 0 {
        Seq::empty()
    } else {
        pictures_bytes(records.first().pictures) + records_bytes(records.drop_first())
    }
}

/// Sum over `pictures` of the serialised length that their visible sizes
/// give.
pub open spec fn pictures_len(pictures: Seq<Image>) -> int
    decreases pictures.len(),
{
    if pictures.len() == 0 {
        0
    } else {
        planar_len(pictures.first()@.d_w, pictures.first()@.d_h) + pictures_len(
            pictures.drop_first(),
        )
    }
}

/// Sum over the pictures of `records` of their serialised lengths.
pub open spec fn records_len(records: Seq<Record>) -> int
    decreases records.len(),
{
    if records.len() == 0 {
        0
    } else {
        pictures_len(records.first().pictures) + records_len(records.drop_first())
    }
}

/// Every picture of every record has its visible rows inside its planes.
pub open spec fn records_wf(records: Seq<Record>) -> bool {
    forall|i: int, j: int|
        0 <= i < records.len() && 0 <= j < records[i].pictures.len() ==> (
        #[trigger] records[i].pictures[j])@.wf()
}

/// Running through `a + b` is running through `a` and going on with `b`.
pub proof fn lemma_run_concat(m: Model, a: Seq<Event>, b: Seq<Event>)
    ensures
        run(m, a + b) == run(run(m, a), b),
        written(m, a + b) == written(m, a) + written(run(m, a), b),
    decreases a.len(),
{
    if a.len() == 0 {
        assert(a + b =~= b);
        assert(written(m, a) + written(run(m, a), b) =~= written(m, b));
    } else {
        assert((a + b).first() == a.first());
        assert((a + b).drop_first() =~= a.drop_first() + b);
        lemma_run_concat(step(m, a.first()), a.drop_first(), b);
        assert(written(m, a + b) =~= written(m, a) + written(run(m, a), b));
    }
}

/// A run that is over stays as it is, whatever events follow, and nothing
/// more reaches the sink.
pub proof fn lemma_terminated_is_final(m: Model, events: Seq<Event>)
    requires
        m.state is Terminated,
    ensures
        run(m, events) == m,
        written(m, events) == Seq::<u8>::empty(),
    decreases events.len(),
{
    if events.len() > 0 {
        assert(step(m, events.first()) == m);
        lemma_terminated_is_final(m, events.drop_first());
        assert(written(m, events) =~= Seq::<u8>::empty());
    }
}

/// The same events give the same run: the state and the written bytes are
/// functions of the expected size and the events alone. What the frame
/// buffer holds, and so what the payloads are, has no part in them.
pub proof fn lemma_same_events_same_course(a: Model, b: Model, events: Seq<Event>)
    requires
        same_course(a, b),
    ensures
        same_course(run(a, events), run(b, events)),
        written(a, events) == written(b, events),
    decreases events.len(),
{
    if events.len() > 0 {
        lemma_same_events_same_course(
            step(a, events.first()),
            step(b, events.first()),
            events.drop_first(),
        );
    }
}

/// What the caller leaves in the payload slot changes nothing but the frame
/// buffer: the run takes the same course, and the sink takes the same
/// bytes, whatever the payloads hold.
pub proof fn lemma_payload_keeps_course(m: Model, payload: Seq<u8>, events: Seq<Event>)
    ensures
        same_course(run(m.with_payload(payload), events), run(m, events)),
        written(m.with_payload(payload), events) == written(m, events),
{
    lemma_same_events_same_course(m.with_payload(payload), m, events);
}

/// The payload that is submitted to the engine is the payload that was
/// read: what the caller left in the slot, of the size that the frame
/// record declared, is the payload of the frame in hand when the driver
/// asks for it to be decoded.
pub proof fn lemma_read_payload_is_decoded(m: Model, payload: Seq<u8>)
    requires
        m.state == State::ReadPayload,
        0 <= m.frame_size <= m.buffer.len(),
        payload.len() == m.frame_size,
    ensures
        step(m.with_payload(payload), Event::Payload(Ok(()))).state == State::Decode,
        step(m.with_payload(payload), Event::Payload(Ok(()))).payload() == payload,
{
    assert(m.with_payload(payload).payload() =~= payload);
}

/// A container of another size than expected ends the run at its header:
/// no frame record is asked for, the frame buffer is not touched, and
/// nothing is written, whatever events follow.
pub proof fn lemma_size_mismatch_stops(
    width: u32,
    height: u32,
    header: ContainerHeader,
    rest: Seq<Event>,
)
    requires
        header.width != width || header.height != height,
    ensures
        run(Model::initial(width, height), seq![Event::Container(Some(header))] + rest)
            == Model::initial(width, height).to(
            State::Terminated(Err(Error::DimensionMismatch)),
        ),
        written(Model::initial(width, height), seq![Event::Container(Some(header))] + rest)
            == Seq::<u8>::empty(),
{
    let m = Model::initial(width, height);
    let first = seq![Event::Container(Some(header))];
    let stopped = m.to(State::Terminated(Err(Error::DimensionMismatch)));
    lemma_run_one(m, first[0]);
    lemma_run_concat(m, first, rest);
    lemma_terminated_is_final(stopped, rest);
}

/// A container of the expected size with a tag that selects no engine ends
/// the run at its header: no engine is started, no payload is read, and
/// nothing is written, whatever events follow.
pub proof fn lemma_unknown_tag_stops(
    width: u32,
    height: u32,
    header: ContainerHeader,
    rest: Seq<Event>,
)
    requires
        header.width == width,
        header.height == height,
        codec_of(header.fourcc@) is None,
    ensures
        run(Model::initial(width, height), seq![Event::Container(Some(header))] + rest)
            == Model::initial(width, height).to(
            State::Terminated(Err(Error::UnsupportedCodec)),
        ),
        written(Model::initial(width, height), seq![Event::Container(Some(header))] + rest)
            == Seq::<u8>::empty(),
{
    let m = Model::initial(width, height);
    let first = seq![Event::Container(Some(header))];
    let stopped = m.to(State::Terminated(Err(Error::UnsupportedCodec)));
    lemma_run_one(m, first[0]);
    lemma_run_concat(m, first, rest);
    lemma_terminated_is_final(stopped, rest);
}

/// A payload that the end of the stream cuts short ends the run without an
/// error. The payload is not submitted to the engine, so no picture comes
/// of it, and nothing is written from that point on.
pub proof fn lemma_short_payload_stops(m: Model, rest: Seq<Event>)
    requires
        m.state == State::ReadPayload,
    ensures
        run(m, seq![Event::Payload(Err(ReadError::Truncated))] + rest) == m.to(
            State::Terminated(Ok(())),
        ),
        written(m, seq![Event::Payload(Err(ReadError::Truncated))] + rest) == Seq::<
            u8,
        >::empty(),
{
    let first = seq![Event::Payload(Err(ReadError::Truncated))];
    lemma_run_one(m, first[0]);
    lemma_run_concat(m, first, rest);
    lemma_terminated_is_final(m.to(State::Terminated(Ok(()))), rest);
}

/// A run of one event is one step.
proof fn lemma_run_one(m: Model, event: Event)
    ensures
        run(m, seq![event]) == step(m, event),
        written(m, seq![event]) == taken(m, event),
{
    let one = seq![event];
    assert(one.drop_first() =~= Seq::<Event>::empty());
    assert(run(step(m, event), one.drop_first()) == step(m, event));
    assert(written(step(m, event), one.drop_first()) =~= Seq::<u8>::empty());
    assert(written(m, one) =~= taken(m, event));
}

/// A run of two events is two steps.
proof fn lemma_run_two(m: Model, first: Event, second: Event)
    ensures
        run(m, seq![first, second]) == step(step(m, first), second),
        written(m, seq![first, second]) == taken(m, first) + taken(step(m, first), second),
{
    lemma_run_one(m, first);
    lemma_run_one(step(m, first), second);
    lemma_run_concat(m, seq![first], seq![second]);
    assert(seq![first] + seq![second] =~= seq![first, second]);
}

/// A run of three events is three steps.
proof fn lemma_run_three(m: Model, first: Event, second: Event, third: Event)
    ensures
        run(m, seq![first, second, third]) == step(step(step(m, first), second), third),
        written(m, seq![first, second, third]) == taken(m, first) + taken(
            step(m, first),
            second,
        ) + taken(step(step(m, first), second), third),
{
    lemma_run_two(m, first, second);
    lemma_run_one(step(step(m, first), second), third);
    lemma_run_concat(m, seq![first, second], seq![third]);
    assert(seq![first, second] + seq![third] =~= seq![first, second, third]);
}

/// Draining `pictures` writes each of them and leaves the driver ready for
/// the next frame record, with the last of them still staged.
proof fn lemma_drain(m: Model, pictures: Seq<Image>)
    requires
        m.state == State::Drain,
    ensures
        run(m, drain_events(pictures)) == (Model {
            state: State::ReadHeader,
            output: if pictures.len() == 0 {
                m.output
            } else {
                pictures.last()@.planar()
            },
            ..m
        }),
        written(m, drain_events(pictures)) == pictures_bytes(pictures),
    decreases pictures.len(),
{
    if pictures.len() == 0 {
        lemma_run_one(m, Event::Frame(None));
    } else {
        let take = Event::Frame(Some(pictures.first()));
        let write = Event::Written(Ok(()));
        let pair = seq![take, write];
        let next = step(step(m, take), write);
        lemma_run_two(m, take, write);
        assert(written(m, pair) =~= pictures.first()@.planar());
        lemma_run_concat(m, pair, drain_events(pictures.drop_first()));
        lemma_drain(next, pictures.drop_first());
        if pictures.drop_first().len() > 0 {
            assert(pictures.drop_first().last() == pictures.last());
        }
    }
}

/// Reading, decoding and draining the records writes the pictures of each
/// in turn and leaves the driver ready for the next frame record.
proof fn lemma_records(m: Model, records: Seq<Record>)
    requires
        m.state == State::ReadHeader,
    ensures
        run(m, records_events(records)).state == State::ReadHeader,
        run(m, records_events(records)).width == m.width,
        run(m, records_events(records)).height == m.height,
        written(m, records_events(records)) == records_bytes(records),
    decreases records.len(),
{
    if records.len() > 0 {
        let record = records.first();
        let head = seq![
            Event::FrameHeader(Ok(record.header)),
            Event::Payload(Ok(())),
            Event::Decoded(Ok(())),
        ];
        let m1 = step(m, head[0]);
        let m2 = step(m1, head[1]);
        let m3 = step(m2, head[2]);
        lemma_run_three(m, head[0], head[1], head[2]);
        assert(head =~= seq![head[0], head[1], head[2]]);
        assert(written(m, head) =~= Seq::<u8>::empty());
        lemma_run_concat(m, head, drain_events(record.pictures));
        lemma_drain(m3, record.pictures);
        let after = run(m, record_events(record));
        lemma_run_concat(m, record_events(record), records_events(records.drop_first()));
        lemma_records(after, records.drop_first());
        assert(written(m, records_events(records)) =~= records_bytes(records));
    }
}

/// A run in which nothing fails, on a container of the expected size whose
/// tag selects an engine, ends without an error, and the sink has taken
/// the serialisations of all pictures, in the order in which the engine
/// handed them out and record by record. Where every picture has its rows
/// inside its planes, that is as many bytes as the sum over all pictures
/// of `d_w * d_h + 2 * (d_w / 2) * (d_h / 2)`.
pub proof fn lemma_session_completes(
    width: u32,
    height: u32,
    header: ContainerHeader,
    records: Seq<Record>,
)
    requires
        header.width == width,
        header.height == height,
        codec_of(header.fourcc@) is Some,
    ensures
        run(Model::initial(width, height), session_events(header, records)).state
            == State::Terminated(Ok(())),
        written(Model::initial(width, height), session_events(header, records))
            == records_bytes(records),
        records_wf(records) ==> written(
            Model::initial(width, height),
            session_events(header, records),
        ).len() == records_len(records),
{
    if records_wf(records) {
        lemma_records_len(records);
    }
    let m = Model::initial(width, height);
    let open = seq![Event::Container(Some(header)), Event::EngineStarted(true)];
    let close = seq![Event::FrameHeader(Err(ReadError::EndOfStream))];
    let m1 = step(m, open[0]);
    let m2 = step(m1, open[1]);
    lemma_run_two(m, open[0], open[1]);
    assert(open =~= seq![open[0], open[1]]);
    assert(written(m, open) =~= Seq::<u8>::empty());
    lemma_records(m2, records);
    lemma_run_concat(m, open, records_events(records));
    let m3 = run(m, open + records_events(records));
    lemma_run_one(m3, close[0]);
    lemma_run_concat(m, open + records_events(records), close);
    assert(written(m, session_events(header, records)) =~= records_bytes(records));
}

/// The serialisations of pictures whose rows lie inside their planes add
/// up to the sum of `d_w * d_h + 2 * (d_w / 2) * (d_h / 2)` over them.
pub proof fn lemma_pictures_len(pictures: Seq<Image>)
    requires
        forall|j: int| 0 <= j < pictures.len() ==> (#[trigger] pictures[j])@.wf(),
    ensures
        pictures_bytes(pictures).len() == pictures_len(pictures),
    decreases pictures.len(),
{
    if pictures.len() > 0 {
        assert(pictures[0]@.wf());
        pictures.first()@.lemma_planar_len();
        assert forall|j: int| 0 <= j < pictures.drop_first().len() implies (
        #[trigger] pictures.drop_first()[j])@.wf() by {
            assert(pictures.drop_first()[j] == pictures[j + 1]);
        }
        lemma_pictures_len(pictures.drop_first());
    }
}

/// The output of a run in which nothing fails is as long as the sum over
/// all pictures of `d_w * d_h + 2 * (d_w / 2) * (d_h / 2)`.
pub proof fn lemma_records_len(records: Seq<Record>)
    requires
        records_wf(records),
    ensures
        records_bytes(records).len() == records_len(records),
    decreases records.len(),
{
    if records.len() > 0 {
        assert forall|j: int| 0 <= j < records.first().pictures.len() implies (
        #[trigger] records.first().pictures[j])@.wf() by {
            assert(records[0].pictures[j]@.wf());
        }
        lemma_pictures_len(records.first().pictures);
        assert forall|i: int, j: int|
            0 <= i < records.drop_first().len() && 0 <= j < records.drop_first()[i].pictures.len()
            implies (#[trigger] records.drop_first()[i].pictures[j])@.wf() by {
            assert(records.drop_first()[i] == records[i + 1]);
            assert(records[i + 1].pictures[j]@.wf());
        }
        lemma_records_len(records.drop_first());
    }
}

} // verus!
