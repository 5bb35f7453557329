use bincode::Options;
use frame_stream::ByteSink;
use frame_stream::ByteSource;
use frame_stream::DeserializeAnyhow;
use frame_stream::FrameError;
use frame_stream::MemorySink;
use frame_stream::MemorySource;
use frame_stream::SerializeAnyhow;

fn encode<T: serde::Serialize>(value: &T) -> Vec<u8> {
    bincode::DefaultOptions::new().serialize(value).unwrap()
}

fn decode<T: serde::de::DeserializeOwned>(bytes: &[u8]) -> T {
    bincode::DefaultOptions::new().deserialize(bytes).unwrap()
}

fn stream_of(payloads: &[&[u8]]) -> Vec<u8> {
    let mut writer = SerializeAnyhow::new(MemorySink::new());
    for payload in payloads {
        writer.serialize_something(payload).unwrap();
    }
    writer.into_inner().into_bytes()
}

#[test]
fn seralize_and_deserialize_something() {
    let testa: (u32, i32) = (12, -12);
    let testb: (u32, i32) = (1, -3);
    let v = vec![
        "hallo ich".to_owned(),
        "This is end".to_owned(),
        "ICH WILL WEI?WOIOWOUWGFIUWGFIOEUGFEUIGFUILWEGFBLIEUOFLHILU".to_owned(),
    ];
    let testc: (Vec<String>,) = (v,);

    let mut helper = SerializeAnyhow::new(MemorySink::new());
    helper.serialize_something(&encode(&testa)).unwrap();
    helper.serialize_something(&encode(&testb)).unwrap();
    helper.serialize_something(&encode(&testc)).unwrap();
    let stream = helper.into_inner().into_bytes();

    let mut de_helper = DeserializeAnyhow::new(MemorySource::new(stream));
    let a: (u32, i32) = decode(de_helper.deserialize().unwrap());
    let b: (u32, i32) = decode(de_helper.deserialize().unwrap());
    let c: (Vec<String>,) = decode(de_helper.deserialize().unwrap());

    assert_eq!(a, testa);
    assert_eq!(b, testb);
    assert_eq!(c, testc)
}

#[test]
fn frame_is_little_endian_length_then_payload() {
    let stream = stream_of(&[&[0xAA, 0xBB, 0xCC]]);
    assert_eq!(stream, vec![3, 0, 0, 0, 0, 0, 0, 0, 0xAA, 0xBB, 0xCC]);
}

#[test]
fn prefix_spreads_a_long_length_over_its_bytes() {
    let payload = vec![7u8; 0x0102];
    let stream = stream_of(&[&payload]);
    assert_eq!(stream.len(), 8 + 0x0102);
    assert_eq!(&stream[..8], &[0x02, 0x01, 0, 0, 0, 0, 0, 0]);
    assert_eq!(&stream[8..], &payload[..]);
}

#[test]
fn reader_takes_the_length_from_all_prefix_bytes() {
    let mut stream = vec![0x02, 0x01, 0, 0, 0, 0, 0, 0];
    stream.extend(std::iter::repeat(9u8).take(0x0102));
    stream.push(0xEE);
    let mut reader = DeserializeAnyhow::new(MemorySource::new(stream));
    let payload = reader.deserialize().unwrap().to_vec();
    assert_eq!(payload, vec![9u8; 0x0102]);
    assert_eq!(reader.into_inner().remaining_len(), 1);
}

#[test]
fn frames_come_back_in_the_order_written() {
    let stream = stream_of(&[b"first", b"the second one", b"3"]);
    let mut reader = DeserializeAnyhow::new(MemorySource::new(stream));
    assert_eq!(reader.deserialize().unwrap(), b"first");
    assert_eq!(reader.deserialize().unwrap(), b"the second one");
    assert_eq!(reader.deserialize().unwrap(), b"3");
    assert!(matches!(reader.deserialize(), Err(FrameError::ReadLen(_))));
}

#[test]
fn small_frame_after_large_frame_holds_no_stale_bytes() {
    let large = vec![0x55u8; 4096];
    let stream = stream_of(&[&large, b"ab", &large, b""]);
    let mut reader = DeserializeAnyhow::new(MemorySource::new(stream));
    assert_eq!(reader.deserialize().unwrap(), &large[..]);
    assert_eq!(reader.deserialize().unwrap(), b"ab");
    assert_eq!(reader.deserialize().unwrap(), &large[..]);
    assert_eq!(reader.deserialize().unwrap(), b"");
}

#[test]
fn bulk_read_with_limit_two_leaves_the_third_frame() {
    let stream = stream_of(&[b"one", b"two", b"three"]);
    let mut reader = DeserializeAnyhow::new(MemorySource::new(stream));
    let items = reader.create_vec(Some(2));
    assert_eq!(items, vec![b"one".to_vec(), b"two".to_vec()]);
    assert_eq!(reader.deserialize().unwrap(), b"three");
    assert_eq!(reader.into_inner().remaining_len(), 0);
}

#[test]
fn bulk_read_with_limit_two_stands_behind_the_second_frame() {
    let stream = stream_of(&[b"one", b"two", b"three"]);
    let mut reader = DeserializeAnyhow::new(MemorySource::new(stream));
    let items = reader.create_vec(Some(2));
    assert_eq!(items.len(), 2);
    assert_eq!(reader.into_inner().remaining_len(), 8 + 5);
}

#[test]
fn bulk_read_with_limit_zero_reads_nothing() {
    let stream = stream_of(&[b"one"]);
    let whole = stream.len();
    let mut reader = DeserializeAnyhow::new(MemorySource::new(stream));
    assert!(reader.create_vec(Some(0)).is_empty());
    assert_eq!(reader.into_inner().remaining_len(), whole);
}

#[test]
fn bulk_read_without_limit_takes_every_frame() {
    let stream = stream_of(&[b"one", b"", b"three"]);
    let mut reader = DeserializeAnyhow::new(MemorySource::new(stream));
    let items = reader.create_vec(None);
    assert_eq!(items, vec![b"one".to_vec(), b"".to_vec(), b"three".to_vec()]);
    assert_eq!(reader.into_inner().remaining_len(), 0);
}

#[test]
fn bulk_read_with_generous_limit_takes_every_frame() {
    let stream = stream_of(&[b"one", b"two"]);
    let mut reader = DeserializeAnyhow::new(MemorySource::new(stream));
    let items = reader.create_vec(Some(10));
    assert_eq!(items, vec![b"one".to_vec(), b"two".to_vec()]);
}

#[test]
fn bulk_read_of_empty_stream_is_empty() {
    let mut reader = DeserializeAnyhow::new(MemorySource::new(Vec::new()));
    assert!(reader.create_vec(None).is_empty());
    let mut reader = DeserializeAnyhow::new(MemorySource::new(Vec::new()));
    assert!(reader.create_vec(Some(3)).is_empty());
}

#[test]
fn cut_payload_is_a_stream_failure() {
    let mut stream = stream_of(&[b"complete", b"cut short"]);
    stream.truncate(stream.len() - 4);
    let mut reader = DeserializeAnyhow::new(MemorySource::new(stream));
    assert_eq!(reader.deserialize().unwrap(), b"complete");
    let failure = reader.deserialize().unwrap_err();
    assert!(failure.is_io());
    assert_eq!(failure.context(), "during reading of T");
    match failure {
        FrameError::ReadPayload(end) => {
            assert_eq!(end.wanted, 9);
            assert_eq!(end.left, 5);
        }
        other => panic!("unexpected failure: {:?}", other),
    }
}

#[test]
fn bulk_read_yields_nothing_for_a_cut_frame() {
    let mut stream = stream_of(&[b"complete", b"cut short"]);
    stream.truncate(stream.len() - 4);
    let mut reader = DeserializeAnyhow::new(MemorySource::new(stream));
    assert_eq!(reader.create_vec(None), vec![b"complete".to_vec()]);
}

#[test]
fn empty_payload_round_trips() {
    let payload = encode(&());
    assert!(payload.is_empty());
    let stream = stream_of(&[&payload]);
    assert_eq!(stream, vec![0u8; 8]);
    let mut reader = DeserializeAnyhow::new(MemorySource::new(stream));
    let unit: () = decode(reader.deserialize().unwrap());
    assert_eq!(unit, ());
    assert_eq!(reader.into_inner().remaining_len(), 0);
}

#[test]
fn clean_end_and_cut_prefix_both_fail_at_the_length() {
    let mut reader = DeserializeAnyhow::new(MemorySource::new(Vec::new()));
    match reader.deserialize() {
        Err(FrameError::ReadLen(end)) => {
            assert_eq!(end.wanted, 8);
            assert_eq!(end.left, 0);
        }
        other => panic!("unexpected result: {:?}", other),
    }
    let mut reader = DeserializeAnyhow::new(MemorySource::new(vec![1, 0, 0]));
    match reader.deserialize() {
        Err(failure @ FrameError::ReadLen(_)) => {
            assert!(failure.is_io());
            assert_eq!(failure.context(), "during reading of len");
            if let FrameError::ReadLen(end) = failure {
                assert_eq!(end.left, 3);
            }
        }
        other => panic!("unexpected result: {:?}", other),
    }
}

#[test]
fn absurd_length_is_refused_before_any_payload_is_read() {
    let mut stream = vec![0xFFu8; 8];
    stream.extend_from_slice(b"whatever follows");
    let mut reader = DeserializeAnyhow::new(MemorySource::new(stream));
    match reader.deserialize() {
        Err(failure @ FrameError::TooLong(_)) => {
            assert!(!failure.is_io());
            assert_eq!(failure.context(), "length of T exceeds what memory can hold");
            if let FrameError::TooLong(declared) = failure {
                assert_eq!(declared, u64::MAX);
            }
        }
        other => panic!("unexpected result: {:?}", other),
    }
    assert_eq!(reader.into_inner().remaining_len(), 16);
}

#[test]
fn full_sink_fails_the_prefix_write() {
    let mut writer = SerializeAnyhow::new(MemorySink::with_room(5));
    let failure = writer.serialize_something(b"payload").unwrap_err();
    assert!(failure.is_io());
    assert_eq!(failure.context(), "error during writing of len");
    match failure {
        FrameError::WriteLen(full) => assert_eq!(full.taken, 5),
        other => panic!("unexpected failure: {:?}", other),
    }
    assert_eq!(writer.into_inner().into_bytes(), vec![7, 0, 0, 0, 0]);
}

#[test]
fn full_sink_fails_the_payload_write_and_keeps_the_cut_frame() {
    let mut writer = SerializeAnyhow::new(MemorySink::with_room(8 + 3));
    let failure = writer.serialize_something(b"payload").unwrap_err();
    assert!(failure.is_io());
    assert_eq!(failure.context(), "error during writing some T");
    match failure {
        FrameError::WritePayload(full) => assert_eq!(full.taken, 3),
        other => panic!("unexpected failure: {:?}", other),
    }
    assert_eq!(
        writer.into_inner().into_bytes(),
        vec![7, 0, 0, 0, 0, 0, 0, 0, b'p', b'a', b'y']
    );
}

#[test]
fn sink_with_exact_room_takes_the_frame() {
    let mut writer = SerializeAnyhow::new(MemorySink::with_room(8 + 7));
    writer.serialize_something(b"payload").unwrap();
    let failure = writer.serialize_something(b"").unwrap_err();
    assert!(matches!(failure, FrameError::WriteLen(_)));
    assert_eq!(writer.into_inner().as_slice().len(), 15);
}

#[test]
fn memory_source_reads_all_or_nothing() {
    let mut source = MemorySource::new(vec![1, 2, 3, 4, 5]);
    let mut buf = vec![0u8; 2];
    source.read_exact(&mut buf).unwrap();
    assert_eq!(buf, vec![1, 2]);
    let mut big = vec![0u8; 4];
    let end = source.read_exact(&mut big).unwrap_err();
    assert_eq!((end.wanted, end.left), (4, 3));
    assert_eq!(source.remaining_len(), 3);
    let mut rest = vec![0u8; 3];
    source.read_exact(&mut rest).unwrap();
    assert_eq!(rest, vec![3, 4, 5]);
    let mut none: Vec<u8> = Vec::new();
    source.read_exact(&mut none).unwrap();
    assert_eq!(source.remaining_len(), 0);
}

#[test]
fn memory_sink_keeps_what_fits() {
    let mut sink = MemorySink::with_room(4);
    sink.write_all(&[1, 2, 3]).unwrap();
    let full = sink.write_all(&[4, 5, 6]).unwrap_err();
    assert_eq!(full.taken, 1);
    assert_eq!(sink.as_slice(), &[1, 2, 3, 4]);
    let full = sink.write_all(&[7]).unwrap_err();
    assert_eq!(full.taken, 0);
    sink.write_all(&[]).unwrap();
    assert_eq!(sink.into_bytes(), vec![1, 2, 3, 4]);
}

struct Dribble {
    bytes: Vec<u8>,
    at: usize,
    breaks_at: usize,
}

impl ByteSource for Dribble {
    type Error = String;

    fn read_exact(&mut self, buf: &mut Vec<u8>) -> Result<(), String> {
        let end = self.at + buf.len();
        if end > self.breaks_at.min(self.bytes.len()) {
            self.at = self.bytes.len();
            return Err(format!("broke off at {}", self.breaks_at));
        }
        buf.copy_from_slice(&self.bytes[self.at..end]);
        self.at = end;
        Ok(())
    }
}

#[test]
fn failure_of_a_foreign_source_is_handed_on() {
    let bytes = stream_of(&[b"good", b"bad"]);
    let mut reader = DeserializeAnyhow::new(Dribble { bytes, at: 0, breaks_at: 14 });
    assert_eq!(reader.deserialize().unwrap(), b"good");
    match reader.deserialize() {
        Err(FrameError::ReadLen(text)) => assert_eq!(text, "broke off at 14"),
        other => panic!("unexpected result: {:?}", other),
    }
}

struct Shrinking;

impl ByteSource for Shrinking {
    type Error = String;

    fn read_exact(&mut self, buf: &mut Vec<u8>) -> Result<(), String> {
        buf.truncate(3);
        Ok(())
    }
}

#[test]
fn prefix_of_the_wrong_length_fails_at_decoding() {
    let mut reader = DeserializeAnyhow::new(Shrinking);
    let failure = reader.deserialize().unwrap_err();
    assert!(!failure.is_io());
    assert_eq!(failure.context(), "during deserializing len");
    assert!(matches!(failure, FrameError::DecodeLen(_)));
}

struct Zeros;

impl ByteSource for Zeros {
    type Error = String;

    fn read_exact(&mut self, buf: &mut Vec<u8>) -> Result<(), String> {
        for byte in buf.iter_mut() {
            *byte = 0;
        }
        Ok(())
    }
}

#[test]
fn limit_ends_a_bulk_read_of_an_endless_source() {
    let mut reader = DeserializeAnyhow::new(Zeros);
    let items = reader.create_vec(Some(5));
    assert_eq!(items, vec![Vec::<u8>::new(); 5]);
}

struct Closed {
    after: usize,
    seen: Vec<u8>,
}

impl ByteSink for Closed {
    type Error = String;

    fn write_all(&mut self, bytes: &[u8]) -> Result<(), String> {
        if self.after == 0 {
            return Err("closed".to_owned());
        }
        self.after -= 1;
        self.seen.extend_from_slice(bytes);
        Ok(())
    }
}

#[test]
fn failure_of_a_foreign_sink_is_handed_on() {
    let mut writer = SerializeAnyhow::new(Closed { after: 0, seen: Vec::new() });
    match writer.serialize_something(b"abc") {
        Err(FrameError::WriteLen(text)) => assert_eq!(text, "closed"),
        other => panic!("unexpected result: {:?}", other),
    }
    let mut writer = SerializeAnyhow::new(Closed { after: 1, seen: Vec::new() });
    match writer.serialize_something(b"abc") {
        Err(FrameError::WritePayload(text)) => assert_eq!(text, "closed"),
        other => panic!("unexpected result: {:?}", other),
    }
    assert_eq!(writer.into_inner().seen, vec![3, 0, 0, 0, 0, 0, 0, 0]);
}

#[test]
fn prefix_is_eight_bytes_wide() {
    assert_eq!(frame_stream::PREFIX_LEN, 8);
    let stream = stream_of(&[b""]);
    assert_eq!(stream.len(), frame_stream::PREFIX_LEN);
}

#[test]
fn writer_reuses_its_prefix_buffer_between_frames() {
    let mut writer = SerializeAnyhow::new(MemorySink::new());
    writer.serialize_something(&[1u8; 300]).unwrap();
    writer.serialize_something(&[2u8; 2]).unwrap();
    let stream = writer.into_inner().into_bytes();
    assert_eq!(&stream[..8], &[0x2C, 0x01, 0, 0, 0, 0, 0, 0]);
    assert_eq!(&stream[308..316], &[2, 0, 0, 0, 0, 0, 0, 0]);
    assert_eq!(&stream[316..], &[2, 2]);
}

#[test]
fn records_of_text_round_trip_through_a_bulk_read() {
    let first: Vec<String> = vec!["alpha".to_owned(), String::new(), "gamma delta".to_owned()];
    let second: Vec<String> = Vec::new();
    let stream = stream_of(&[&encode(&first), &encode(&second)]);
    let mut reader = DeserializeAnyhow::new(MemorySource::new(stream));
    let items = reader.create_vec(None);
    assert_eq!(items.len(), 2);
    assert_eq!(decode::<Vec<String>>(&items[0]), first);
    assert_eq!(decode::<Vec<String>>(&items[1]), second);
}
