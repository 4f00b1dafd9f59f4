//! The pipeline driver as a state machine. The caller does the outside work
//! that the state asks for (reading the container, running the engine,
//! writing to the sink) and reports what came of it as an event; the driver
//! decides what happens next.
//!
//! The policy on failures: a malformed header, a size mismatch, an unknown
//! tag, an engine that does not start or rejects a payload, a stream that
//! ends inside a frame record header, and a failed write all end the run
//! with an error. A stream that ends at a record boundary, a payload cut
//! short by the end of the stream, and a sink whose consumer has gone away
//! end the run without one.

use vstd::prelude::*;
use crate::codec::{codec_of, Codec};
use crate::error::{Error, ReadError, SinkError};
use crate::frame_buffer::{filled, grown, FrameBuffer};
use crate::image::Image;

verus! {

/// What the container declares of itself.
#[derive(Clone, Copy, Debug, PartialEq, Eq)]
pub struct ContainerHeader {
    /// Four-character code of the bit-stream format.
    pub fourcc: [u8; 4],
    /// Declared picture width.
    pub width: u32,
    /// Declared picture height.
    pub height: u32,
}

/// What a frame record declares of its payload.
#[derive(Clone, Copy, Debug, PartialEq, Eq, Structural)]
pub struct FrameHeader {
    /// Length of the payload in bytes.
    pub frame_size: u32,
}

/// Where the run stands, which is also what the caller has to do next.
#[derive(Clone, Copy, Debug, PartialEq, Eq)]
pub enum State {
    /// Parse the container header; answer with `Event::Container`.
    ValidatingHeader,
    /// Start the engine for this codec; answer with `Event::EngineStarted`.
    StartingEngine(Codec),
    /// Read the next frame record header; answer with `Event::FrameHeader`.
    ReadHeader,
    /// Read the payload into the payload slot; answer with `Event::Payload`.
    ReadPayload,
    /// Submit the payload to the engine; answer with `Event::Decoded`.
    Decode,
    /// Ask the engine for its next picture; answer with `Event::Frame`.
    Drain,
    /// Write the staged output to the sink; answer with `Event::Written`.
    Write,
    /// The run is over, with this result. Nothing changes it any more.
    Terminated(Result<(), Error>),
}

/// What came of the outside work that a state asked for.
pub enum Event<'a> {
    /// The container header, or `None` if it could not be parsed.
    Container(Option<ContainerHeader>),
    /// Whether the engine started.
    EngineStarted(bool),
    /// The next frame record header, or why there is none.
    FrameHeader(Result<FrameHeader, ReadError>),
    /// The payload slot was filled, or why it was not.
    Payload(Result<(), ReadError>),
    /// The engine took the payload, or rejected it with this code.
    Decoded(Result<(), i32>),
    /// The engine's next picture, or `None` if it has no more for now.
    Frame(Option<Image<'a>>),
    /// The staged output was written, or why it was not.
    Written(Result<(), SinkError>),
}

/// The driver as a value: the expected picture size, the state, the frame
/// buffer with the size of the frame in hand, and the staged output.
pub struct Model {
    /// Picture width the caller expects.
    pub width: u32,
    /// Picture height the caller expects.
    pub height: u32,
    /// Where the run stands.
    pub state: State,
    /// All the bytes of the frame buffer.
    pub buffer: Seq<u8>,
    /// Size of the frame in hand.
    pub frame_size: int,
    /// The serialised picture that waits to be written.
    pub output: Seq<u8>,
}

impl Model {
    /// The driver before the first event.
    pub open spec fn initial(width: u32, height: u32) -> Model {
        Model {
            width,
            height,
            state: State::ValidatingHeader,
            buffer: Seq::empty(),
            frame_size: 0,
            output: Seq::empty(),
        }
    }

    /// The same driver in another state.
    pub open spec fn to(self, state: State) -> Model {
        Model { state, ..self }
    }

    /// The payload of the frame in hand.
    pub open spec fn payload(self) -> Seq<u8> {
        self.buffer.take(self.frame_size)
    }

    /// The driver after the caller left `payload` in the payload slot.
    pub open spec fn with_payload(self, payload: Seq<u8>) -> Model {
        Model { buffer: filled(self.buffer, payload), ..self }
    }
}

/// The state that follows a parsed container header: the size is checked
/// first, and only a header of the expected size has its tag looked at.
pub open spec fn after_container(width: u32, height: u32, header: ContainerHeader) -> State {
    if header.width != width || header.height != height {
        State::Terminated(Err(Error::DimensionMismatch))
    } else {
        match codec_of(header.fourcc@) {
            Some(codec) => State::StartingEngine(codec),
            None => State::Terminated(Err(Error::UnsupportedCodec)),
        }
    }
}

/// The state that follows a failed read of a frame record header.
pub open spec fn after_header_failure(error: ReadError) -> State {
    match error {
        ReadError::EndOfStream => State::Terminated(Ok(())),
        ReadError::Truncated => State::Terminated(Err(Error::Truncated)),
        ReadError::Other => State::Terminated(Err(Error::ReadFailed)),
    }
}

/// The state that follows a failed read of a payload.
pub open spec fn after_payload_failure(error: ReadError) -> State {
    match error {
        ReadError::EndOfStream => State::Terminated(Ok(())),
        ReadError::Truncated => State::Terminated(Ok(())),
        ReadError::Other => State::Terminated(Err(Error::ReadFailed)),
    }
}

/// The state that follows a failed write.
pub open spec fn after_write_failure(error: SinkError) -> State {
    match error {
        SinkError::Closed => State::Terminated(Ok(())),
        SinkError::Other => State::Terminated(Err(Error::SinkWriteFailed)),
    }
}

/// The driver after one event. An event that does not answer what the
/// state asked for leaves the driver as it is.
pub open spec fn step(m: Model, event: Event) -> Model {
    match (m.state, event) {
        (State::ValidatingHeader, Event::Container(Some(header))) => m.to(
            after_container(m.width, m.height, header),
        ),
        (State::ValidatingHeader, Event::Container(None)) => m.to(
            State::Terminated(Err(Error::MalformedHeader)),
        ),
        (State::StartingEngine(_), Event::EngineStarted(started)) => if started {
            m.to(State::ReadHeader)
        } else {
            m.to(State::Terminated(Err(Error::EngineInitFailed)))
        },
        (State::ReadHeader, Event::FrameHeader(Ok(header))) => Model {
            state: State::ReadPayload,
            buffer: grown(m.buffer, header.frame_size as int),
            frame_size: header.frame_size as int,
            ..m
        },
        (State::ReadHeader, Event::FrameHeader(Err(error))) => m.to(after_header_failure(error)),
        (State::ReadPayload, Event::Payload(Ok(_))) => m.to(State::Decode),
        (State::ReadPayload, Event::Payload(Err(error))) => m.to(after_payload_failure(error)),
        (State::Decode, Event::Decoded(Ok(_))) => m.to(State::Drain),
        (State::Decode, Event::Decoded(Err(code))) => m.to(
            State::Terminated(Err(Error::DecodeFailed(code))),
        ),
        (State::Drain, Event::Frame(Some(image))) => Model {
            state: State::Write,
            output: image@.planar(),
            ..m
        },
        (State::Drain, Event::Frame(None)) => m.to(State::ReadHeader),
        (State::Write, Event::Written(Ok(_))) => m.to(State::Drain),
        (State::Write, Event::Written(Err(error))) => m.to(after_write_failure(error)),
        _ => m,
    }
}

/// The pipeline driver. It owns the frame buffer and the staged output,
/// both reused from one frame to the next.
pub struct Driver {
    width: u32,
    height: u32,
    state: State,
    buffer: FrameBuffer,
    output: Vec<u8>,
}

impl View for Driver {
    type V = Model;

    closed spec fn view(&self) -> Model {
        Model {
            width: self.width,
            height: self.height,
            state: self.state,
            buffer: self.buffer.bytes(),
            frame_size: self.buffer.frame_size(),
            output: self.output@,
        }
    }
}

impl Driver {
    /// The frame in hand lies inside the frame buffer.
    pub open spec fn wf(&self) -> bool {
        0 <= self@.frame_size <= self@.buffer.len()
    }

    /// A driver for a container whose pictures are expected to be `width`
    /// by `height`.
    pub fn new(width: u32, height: u32) -> (driver: Driver)
        ensures
            driver.wf(),
            driver@ == Model::initial(width, height),
    {
        Driver {
            width,
            height,
            state: State::ValidatingHeader,
            buffer: FrameBuffer::new(),
            output: Vec::new(),
        }
    }

    /// Where the run stands.
    pub fn state(&self) -> (state: State)
        ensures
            state == self@.state,
    {
        self.state
    }

    /// Takes one event and returns the state that follows.
    pub fn step(&mut self, event: Event<'_>) -> (state: State)
        requires
            old(self).wf(),
        ensures
            final(self).wf(),
            final(self)@ == step(old(self)@, event),
            state == final(self)@.state,
    {
        match self.state {
            State::ValidatingHeader => {
                if let Event::Container(container) = event {
                    self.state = match container {
                        Some(header) => validate(self.width, self.height, &header),
                        None => State::Terminated(Err(Error::MalformedHeader)),
                    };
                }
            },
            State::StartingEngine(_) => {
                if let Event::EngineStarted(started) = event {
                    self.state = if started {
                        State::ReadHeader
                    } else {
                        State::Terminated(Err(Error::EngineInitFailed))
                    };
                }
            },
            State::ReadHeader => {
                if let Event::FrameHeader(read) = event {
                    match read {
                        Ok(header) => {
                            self.buffer.reserve(header.frame_size as usize);
                            self.state = State::ReadPayload;
                        },
                        Err(ReadError::EndOfStream) => {
                            self.state = State::Terminated(Ok(()));
                        },
                        Err(ReadError::Truncated) => {
                            self.state = State::Terminated(Err(Error::Truncated));
                        },
                        Err(ReadError::Other) => {
                            self.state = State::Terminated(Err(Error::ReadFailed));
                        },
                    }
                }
            },
            State::ReadPayload => {
                if let Event::Payload(read) = event {
                    self.state = match read {
                        Ok(_) => State::Decode,
                        Err(ReadError::EndOfStream) => State::Terminated(Ok(())),
                        Err(ReadError::Truncated) => State::Terminated(Ok(())),
                        Err(ReadError::Other) => State::Terminated(Err(Error::ReadFailed)),
                    };
                }
            },
            State::Decode => {
                if let Event::Decoded(decoded) = event {
                    self.state = match decoded {
                        Ok(_) => State::Drain,
                        Err(code) => State::Terminated(Err(Error::DecodeFailed(code))),
                    };
                }
            },
            State::Drain => {
                if let Event::Frame(frame) = event {
                    match frame {
                        Some(image) => {
                            self.output.clear();
                            image.write_all(&mut self.output);
                            assert(self.output@ =~= image@.planar());
                            self.state = State::Write;
                        },
                        None => {
                            self.state = State::ReadHeader;
                        },
                    }
                }
            },
            State::Write => {
                if let Event::Written(written) = event {
                    self.state = match written {
                        Ok(_) => State::Drain,
                        Err(SinkError::Closed) => State::Terminated(Ok(())),
                        Err(SinkError::Other) => State::Terminated(Err(Error::SinkWriteFailed)),
                    };
                }
            },
            State::Terminated(_) => {},
        }
        self.state
    }

    /// The place for the payload of the frame in hand. It is handed out
    /// only while the state is `ReadPayload`. It holds exactly as many
    /// bytes as the frame record declared, and what the caller leaves
    /// there is the payload.
    pub fn payload_slot(&mut self) -> (slot: Option<&mut [u8]>)
        requires
            old(self).wf(),
        ensures
            final(self).wf(),
            slot is Some <==> old(self)@.state == State::ReadPayload,
            slot matches Some(bytes) ==> {
                &&& bytes@ == old(self)@.payload()
                &&& final(bytes)@.len() == old(self)@.frame_size
                &&& final(self)@ == old(self)@.with_payload(final(bytes)@)
                &&& final(self)@.payload() == final(bytes)@
            },
            slot is None ==> final(self)@ == old(self)@,
    {
        match self.state {
            State::ReadPayload => Some(self.buffer.slot()),
            _ => None,
        }
    }

    /// The payload of the frame in hand: what is to be submitted to the
    /// engine in state `Decode`.
    pub fn payload(&self) -> (payload: &[u8])
        requires
            self.wf(),
        ensures
            payload@ == self@.payload(),
    {
        self.buffer.payload()
    }

    /// The staged output: what is to be written to the sink in state
    /// `Write`, the serialisation of the picture that was taken last.
    pub fn output(&self) -> (output: &[u8])
        ensures
            output@ == self@.output,
    {
        self.output.as_slice()
    }
}

/// Checks a parsed container header against the expected picture size and
/// picks the engine.
pub fn validate(width: u32, height: u32, header: &ContainerHeader) -> (state: State)
    ensures
        state == after_container(width, height, *header),
{
    if header.width != width || header.height != height {
        State::Terminated(Err(Error::DimensionMismatch))
    } else {
        match Codec::from_fourcc(&header.fourcc) {
            Some(codec) => State::StartingEngine(codec),
            None => State::Terminated(Err(Error::UnsupportedCodec)),
        }
    }
}

} // verus!
