use vpxdec::codec::Codec;
use vpxdec::driver::{ContainerHeader, Driver, Event, FrameHeader, State};
use vpxdec::error::{Error, ReadError, SinkError};
use vpxdec::image::Image;

struct Picture {
    planes: [Vec<u8>; 3],
    stride: [usize; 3],
    d_w: usize,
    d_h: usize,
}

impl Picture {
    fn padded(d_w: usize, d_h: usize, padding: usize, seed: u8) -> Picture {
        let stride = [d_w + padding, d_w / 2 + padding, d_w / 2 + padding];
        let heights = [d_h, d_h / 2, d_h / 2];
        let mut planes = [Vec::new(), Vec::new(), Vec::new()];
        for plane in 0..3 {
            for at in 0..stride[plane] * heights[plane] {
                let column = at % stride[plane];
                let shade = seed.wrapping_add((plane * 60 + at / stride[plane] + column) as u8);
                let visible = column < stride[plane] - padding;
                planes[plane].push(if visible { shade } else { 0xEE });
            }
        }
        Picture { planes, stride, d_w, d_h }
    }

    fn image(&self) -> Image<'_> {
        let planes = [&self.planes[0][..], &self.planes[1][..], &self.planes[2][..]];
        Image::new(planes, self.stride, self.d_w, self.d_h).unwrap()
    }

    fn planar(&self) -> Vec<u8> {
        let widths = [self.d_w, self.d_w / 2, self.d_w / 2];
        let heights = [self.d_h, self.d_h / 2, self.d_h / 2];
        let mut bytes = Vec::new();
        for plane in 0..3 {
            for row in 0..heights[plane] {
                let from = row * self.stride[plane];
                bytes.extend_from_slice(&self.planes[plane][from..from + widths[plane]]);
            }
        }
        bytes
    }
}

struct Record {
    declared: u32,
    bytes: Vec<u8>,
    status: Result<(), i32>,
    pictures: Vec<Picture>,
}

impl Record {
    fn whole(size: u32, seed: u8, pictures: Vec<Picture>) -> Record {
        let bytes = (0..size).map(|i| seed.wrapping_add((i % 251) as u8)).collect();
        Record { declared: size, bytes, status: Ok(()), pictures }
    }
}

struct Script {
    container: Option<ContainerHeader>,
    engine_starts: bool,
    records: Vec<Record>,
    ending: ReadError,
    failing_write: Option<(usize, SinkError)>,
}

impl Script {
    fn of(fourcc: &[u8; 4], width: u32, height: u32, records: Vec<Record>) -> Script {
        Script {
            container: Some(ContainerHeader { fourcc: *fourcc, width, height }),
            engine_starts: true,
            records,
            ending: ReadError::EndOfStream,
            failing_write: None,
        }
    }
}

struct Played {
    end: Result<(), Error>,
    output: Vec<u8>,
    submitted: Vec<Vec<u8>>,
    engine: Option<Codec>,
    headers_asked: usize,
    payloads_asked: usize,
    longest_buffer: Vec<usize>,
}

fn play(width: u32, height: u32, script: &Script) -> Played {
    let mut driver = Driver::new(width, height);
    let mut played = Played {
        end: Ok(()),
        output: Vec::new(),
        submitted: Vec::new(),
        engine: None,
        headers_asked: 0,
        payloads_asked: 0,
        longest_buffer: Vec::new(),
    };
    let mut record = 0;
    let mut drained = 0;
    let mut writes = 0;
    let mut state = driver.state();
    loop {
        state = match state {
            State::ValidatingHeader => driver.step(Event::Container(script.container)),
            State::StartingEngine(codec) => {
                played.engine = Some(codec);
                driver.step(Event::EngineStarted(script.engine_starts))
            }
            State::ReadHeader => {
                played.headers_asked += 1;
                match script.records.get(record) {
                    Some(next) => {
                        let header = FrameHeader { frame_size: next.declared };
                        driver.step(Event::FrameHeader(Ok(header)))
                    }
                    None => driver.step(Event::FrameHeader(Err(script.ending))),
                }
            }
            State::ReadPayload => {
                played.payloads_asked += 1;
                let bytes = &script.records[record].bytes;
                let slot = driver.payload_slot().unwrap();
                assert_eq!(slot.len(), script.records[record].declared as usize);
                if bytes.len() < slot.len() {
                    slot[..bytes.len()].copy_from_slice(bytes);
                    driver.step(Event::Payload(Err(ReadError::Truncated)))
                } else {
                    slot.copy_from_slice(bytes);
                    driver.step(Event::Payload(Ok(())))
                }
            }
            State::Decode => {
                played.submitted.push(driver.payload().to_vec());
                drained = 0;
                driver.step(Event::Decoded(script.records[record].status))
            }
            State::Drain => match script.records[record].pictures.get(drained) {
                Some(picture) => {
                    drained += 1;
                    driver.step(Event::Frame(Some(picture.image())))
                }
                None => {
                    record += 1;
                    driver.step(Event::Frame(None))
                }
            },
            State::Write => match script.failing_write {
                Some((at, error)) if at == writes => driver.step(Event::Written(Err(error))),
                _ => {
                    writes += 1;
                    played.output.extend_from_slice(driver.output());
                    driver.step(Event::Written(Ok(())))
                }
            },
            State::Terminated(end) => {
                played.end = end;
                return played;
            }
        };
        let before = driver.state();
        if let Some(slot) = driver.payload_slot() {
            played.longest_buffer.push(slot.len());
        }
        assert_eq!(driver.state(), before);
    }
}

fn one_picture_each(sizes: &[u32], d_w: usize, d_h: usize) -> Vec<Record> {
    sizes
        .iter()
        .enumerate()
        .map(|(i, size)| {
            let seed = 40 * (i as u8 + 1);
            Record::whole(*size, seed, vec![Picture::padded(d_w, d_h, 32, seed)])
        })
        .collect()
}

fn all_pictures(records: &[Record]) -> Vec<u8> {
    let mut bytes = Vec::new();
    for record in records {
        for picture in &record.pictures {
            bytes.extend_from_slice(&picture.planar());
        }
    }
    bytes
}

#[test]
fn test_vp8() {
    let width: u32 = 160;
    let height: u32 = 120;
    let script = Script::of(b"VP80", width, height, one_picture_each(&[1200, 50, 1300], 160, 120));
    let played = play(width, height, &script);
    assert_eq!(played.end, Ok(()));
    assert_eq!(played.engine, Some(Codec::Vp8));
    assert_eq!(played.output.len(), 86400);
    assert_eq!(played.output.len(), 3 * (160 * 120 + 2 * 80 * 60));
    for (i, record) in script.records.iter().enumerate() {
        let picture = record.pictures[0].planar();
        assert_eq!(picture.len(), 28800);
        assert_eq!(&played.output[i * 28800..(i + 1) * 28800], &picture[..]);
    }
    assert_eq!(played.submitted.len(), 3);
    for (submitted, record) in played.submitted.iter().zip(&script.records) {
        assert_eq!(submitted, &record.bytes);
    }
}

#[test]
fn test_vp9() {
    let width: u32 = 160;
    let height: u32 = 120;
    let first = Script::of(b"VP80", width, height, one_picture_each(&[1200, 50, 1300], 160, 120));
    let second = Script::of(b"VP90", width, height, one_picture_each(&[1200, 50, 1300], 160, 120));
    let with_first = play(width, height, &first);
    let with_second = play(width, height, &second);
    assert_eq!(with_second.end, Ok(()));
    assert_eq!(with_second.engine, Some(Codec::Vp9));
    assert_ne!(with_first.engine, with_second.engine);
    assert_eq!(with_first.submitted, with_second.submitted);
    assert_eq!(with_second.output.len(), 86400);
    assert_eq!(with_second.output, all_pictures(&second.records));
}

#[test]
fn the_engine_is_chosen_by_the_tag_and_not_by_the_payload() {
    for payload in [b"VP80".to_vec(), b"VP90".to_vec(), vec![0; 64]] {
        for (tag, codec) in [(b"VP80", Codec::Vp8), (b"VP90", Codec::Vp9)] {
            let record = Record {
                declared: payload.len() as u32,
                bytes: payload.clone(),
                status: Ok(()),
                pictures: Vec::new(),
            };
            let played = play(8, 8, &Script::of(tag, 8, 8, vec![record]));
            assert_eq!(played.engine, Some(codec));
            assert_eq!(played.submitted, vec![payload.clone()]);
        }
    }
}

#[test]
fn a_run_without_failures_writes_every_picture() {
    let records = vec![
        Record::whole(10, 1, vec![Picture::padded(6, 4, 2, 10)]),
        Record::whole(0, 2, Vec::new()),
        Record::whole(
            7,
            3,
            vec![Picture::padded(6, 4, 0, 20), Picture::padded(5, 3, 1, 30), Picture::padded(6, 4, 9, 40)],
        ),
        Record::whole(300, 4, Vec::new()),
        Record::whole(1, 5, vec![Picture::padded(1, 1, 0, 50)]),
    ];
    let script = Script::of(b"VP90", 6, 4, records);
    let played = play(6, 4, &script);
    assert_eq!(played.end, Ok(()));
    assert_eq!(played.output, all_pictures(&script.records));
    let sizes = [(6, 4), (6, 4), (5, 3), (6, 4), (1, 1)];
    let sum: usize = sizes.iter().map(|(w, h)| w * h + 2 * ((w / 2) * (h / 2))).sum();
    assert_eq!(sum, 36 + 36 + 19 + 36 + 1);
    assert_eq!(played.output.len(), sum);
    assert_eq!(played.headers_asked, 6);
    assert_eq!(played.payloads_asked, 5);
}

#[test]
fn a_container_without_records_writes_nothing() {
    let played = play(160, 120, &Script::of(b"VP80", 160, 120, Vec::new()));
    assert_eq!(played.end, Ok(()));
    assert_eq!(played.output, Vec::<u8>::new());
    assert_eq!(played.headers_asked, 1);
    assert_eq!(played.payloads_asked, 0);
}

#[test]
fn a_size_mismatch_fails_before_any_frame_record() {
    for (width, height) in [(161, 120), (160, 121), (120, 160), (0, 0), (u32::MAX, 120)] {
        let script = Script::of(b"VP80", width, height, one_picture_each(&[9, 9], 160, 120));
        let played = play(160, 120, &script);
        assert_eq!(played.end, Err(Error::DimensionMismatch));
        assert_eq!(played.output.len(), 0);
        assert_eq!(played.engine, None);
        assert_eq!(played.headers_asked, 0);
        assert_eq!(played.payloads_asked, 0);
        assert_eq!(played.submitted.len(), 0);
    }
}

#[test]
fn an_unknown_tag_fails_before_any_payload() {
    for tag in [b"AV01", b"VP10", b"DKIF", b"\0\0\0\0"] {
        let script = Script::of(tag, 160, 120, one_picture_each(&[9, 9], 160, 120));
        let played = play(160, 120, &script);
        assert_eq!(played.end, Err(Error::UnsupportedCodec));
        assert_eq!(played.output.len(), 0);
        assert_eq!(played.engine, None);
        assert_eq!(played.headers_asked, 0);
        assert_eq!(played.payloads_asked, 0);
    }
}

#[test]
fn a_malformed_container_fails() {
    let mut script = Script::of(b"VP80", 160, 120, one_picture_each(&[9], 160, 120));
    script.container = None;
    let played = play(160, 120, &script);
    assert_eq!(played.end, Err(Error::MalformedHeader));
    assert_eq!(played.output.len(), 0);
    assert_eq!(played.headers_asked, 0);
}

#[test]
fn an_engine_that_does_not_start_fails_before_any_frame_record() {
    let mut script = Script::of(b"VP90", 160, 120, one_picture_each(&[9], 160, 120));
    script.engine_starts = false;
    let played = play(160, 120, &script);
    assert_eq!(played.end, Err(Error::EngineInitFailed));
    assert_eq!(played.engine, Some(Codec::Vp9));
    assert_eq!(played.output.len(), 0);
    assert_eq!(played.headers_asked, 0);
}

#[test]
fn the_same_run_twice_gives_the_same_output() {
    let script = Script::of(b"VP80", 16, 8, one_picture_each(&[100, 3, 250, 0, 17], 16, 8));
    let once = play(16, 8, &script);
    let twice = play(16, 8, &script);
    assert_eq!(once.end, twice.end);
    assert_eq!(once.output, twice.output);
    assert_eq!(once.submitted, twice.submitted);
    assert_eq!(once.output.len(), 5 * (16 * 8 + 2 * (8 * 4)));
}

#[test]
fn frames_that_grow_keep_their_payloads() {
    let sizes = [1, 2, 3, 50, 51, 1200, 1300, 70000];
    let script = Script::of(b"VP80", 4, 2, one_picture_each(&sizes, 4, 2));
    let played = play(4, 2, &script);
    assert_eq!(played.end, Ok(()));
    assert_eq!(played.submitted.len(), sizes.len());
    for (submitted, record) in played.submitted.iter().zip(&script.records) {
        assert_eq!(submitted, &record.bytes);
    }
    assert_eq!(played.longest_buffer, sizes.iter().map(|size| *size as usize).collect::<Vec<_>>());
}

#[test]
fn frames_that_shrink_keep_their_payloads() {
    let sizes = [1300, 50, 1200, 0, 1300, 1];
    let script = Script::of(b"VP80", 4, 2, one_picture_each(&sizes, 4, 2));
    let played = play(4, 2, &script);
    assert_eq!(played.end, Ok(()));
    for (submitted, record) in played.submitted.iter().zip(&script.records) {
        assert_eq!(submitted, &record.bytes);
    }
}

#[test]
fn a_short_last_payload_gives_no_picture() {
    let mut records = one_picture_each(&[1200, 50, 1300], 160, 120);
    records[2].bytes.truncate(700);
    let script = Script::of(b"VP80", 160, 120, records);
    let played = play(160, 120, &script);
    assert_eq!(played.end, Ok(()));
    assert_eq!(played.submitted.len(), 2);
    assert_eq!(played.submitted[0], script.records[0].bytes);
    assert_eq!(played.submitted[1], script.records[1].bytes);
    assert_eq!(played.output.len(), 2 * 28800);
    assert_eq!(played.output, all_pictures(&script.records[..2]));
    assert_eq!(played.payloads_asked, 3);
    assert_eq!(played.headers_asked, 3);
}

#[test]
fn a_short_first_payload_writes_nothing() {
    let mut records = one_picture_each(&[1200], 160, 120);
    records[0].bytes.clear();
    let played = play(160, 120, &Script::of(b"VP90", 160, 120, records));
    assert_eq!(played.end, Ok(()));
    assert_eq!(played.submitted.len(), 0);
    assert_eq!(played.output.len(), 0);
}

#[test]
fn a_cut_frame_header_fails_after_what_was_written() {
    let mut script = Script::of(b"VP80", 8, 4, one_picture_each(&[5, 6], 8, 4));
    script.ending = ReadError::Truncated;
    let played = play(8, 4, &script);
    assert_eq!(played.end, Err(Error::Truncated));
    assert_eq!(played.output, all_pictures(&script.records));
    assert_eq!(played.output.len(), 2 * (8 * 4 + 2 * (4 * 2)));
}

#[test]
fn a_failed_read_fails_after_what_was_written() {
    let mut script = Script::of(b"VP80", 8, 4, one_picture_each(&[5], 8, 4));
    script.ending = ReadError::Other;
    let played = play(8, 4, &script);
    assert_eq!(played.end, Err(Error::ReadFailed));
    assert_eq!(played.output, all_pictures(&script.records));
}

#[test]
fn a_rejected_payload_stops_the_run() {
    let mut records = one_picture_each(&[5, 6, 7], 8, 4);
    records[1].status = Err(5);
    let script = Script::of(b"VP80", 8, 4, records);
    let played = play(8, 4, &script);
    assert_eq!(played.end, Err(Error::DecodeFailed(5)));
    assert_eq!(played.submitted.len(), 2);
    assert_eq!(played.output, all_pictures(&script.records[..1]));
    assert_eq!(played.headers_asked, 2);
}

#[test]
fn a_consumer_that_goes_away_stops_the_run_without_an_error() {
    let mut script = Script::of(b"VP80", 8, 4, one_picture_each(&[5, 6, 7], 8, 4));
    script.failing_write = Some((1, SinkError::Closed));
    let played = play(8, 4, &script);
    assert_eq!(played.end, Ok(()));
    assert_eq!(played.output, all_pictures(&script.records[..1]));
    assert_eq!(played.submitted.len(), 2);
}

#[test]
fn a_write_that_fails_stops_the_run_with_an_error() {
    let mut script = Script::of(b"VP80", 8, 4, one_picture_each(&[5, 6, 7], 8, 4));
    script.failing_write = Some((2, SinkError::Other));
    let played = play(8, 4, &script);
    assert_eq!(played.end, Err(Error::SinkWriteFailed));
    assert_eq!(played.output, all_pictures(&script.records[..2]));
    assert_eq!(played.submitted.len(), 3);
}
