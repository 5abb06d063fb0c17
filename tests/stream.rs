use weechat_relay::{
    get_compression, read_header, ErrorKind, Header, StreamDecoder, WeechatMessage,
    WeechatParseError,
};

const TEST_BODY: [u8; 140] = [
    120, 156, 251, 255, 255, 255, 255, 228, 140, 34, 199, 204, 188, 18, 6, 198, 71, 14, 64, 234,
    255, 63, 217, 3, 57, 249, 121, 92, 134, 70, 198, 38, 166, 102, 230, 22, 150, 6, 64, 30, 183,
    46, 130, 91, 92, 82, 196, 192, 192, 192, 145, 168, 0, 100, 100, 230, 165, 67, 184, 12, 64, 10,
    104, 212, 255, 164, 210, 52, 32, 135, 13, 72, 165, 165, 22, 1, 73, 144, 88, 65, 73, 17, 7, 72,
    123, 98, 82, 114, 10, 144, 205, 104, 80, 146, 153, 203, 101, 104, 108, 100, 104, 105, 9, 50,
    51, 177, 168, 8, 98, 6, 19, 16, 51, 3, 21, 129, 152, 41, 169, 64, 97, 144, 163, 128, 66, 64,
    92, 205, 192, 192, 120, 2, 200, 20, 5, 0, 59, 212, 56, 52,
];

fn frame(flag: u8, body: &[u8]) -> Vec<u8> {
    let mut out = ((body.len() + 1) as u32).to_be_bytes().to_vec();
    out.push(flag);
    out.extend_from_slice(body);
    out
}

fn sample_stream() -> Vec<u8> {
    let mut plain = vec![0, 0, 0, 2, b'i', b'd'];
    plain.extend_from_slice(b"int");
    plain.extend_from_slice(&42i32.to_be_bytes());
    let mut unknown = vec![255, 255, 255, 255];
    unknown.extend_from_slice(b"???");
    let mut all = frame(1, &TEST_BODY);
    all.extend(frame(0, &plain));
    all.extend(frame(0, &unknown));
    all.extend(frame(7, &plain));
    all
}

fn describe(r: Result<WeechatMessage, WeechatParseError>) -> String {
    match r {
        Ok(m) => format!("{} {:?}", m.id, m.data),
        Err(e) => format!("error {:?}", e.kind()),
    }
}

fn drain(decoder: &mut StreamDecoder) -> Vec<String> {
    let mut out = vec![];
    while let Some(r) = decoder.poll() {
        out.push(describe(r));
    }
    out
}

#[test]
fn header_round_trip() {
    let body = [9u8, 8, 7];
    for flag in [0u8, 1, 2] {
        let f = frame(flag, &body);
        assert_eq!(read_header(&f).unwrap(), Header { length: 4, compressed: flag == 1 });
        assert_eq!(get_compression(&f).unwrap(), flag == 1);
    }
    assert_eq!(weechat_relay::get_raw_data(&frame(0, &body)).unwrap(), body.to_vec());
    assert_eq!(read_header(&[0, 0, 0, 1]).unwrap_err().kind(), ErrorKind::MalformedBinaryParse);
}

#[test]
fn whole_stream_in_one_push() {
    let mut decoder = StreamDecoder::new();
    decoder.push(&sample_stream());
    let out = drain(&mut decoder);
    assert_eq!(out.len(), 4);
    assert!(out[0].starts_with("test [Char('A'), Int(123456)"));
    assert_eq!(out[1], "id [Int(42)]");
    assert_eq!(out[2], "error UnknownType");
    assert_eq!(out[3], "id [Int(42)]");
    assert!(decoder.poll().is_none());
}

#[test]
fn chunking_invariance() {
    let stream = sample_stream();
    let mut whole = StreamDecoder::new();
    whole.push(&stream);
    let expected = drain(&mut whole);

    let mut bytewise = StreamDecoder::new();
    for b in &stream {
        bytewise.push(&[*b]);
    }
    assert_eq!(drain(&mut bytewise), expected);

    let mut uneven = StreamDecoder::new();
    let mut collected = vec![];
    for (i, piece) in stream.chunks(7).enumerate() {
        uneven.push(piece);
        if i % 3 == 0 {
            uneven.push(&[]);
        }
        collected.extend(drain(&mut uneven));
    }
    assert_eq!(collected, expected);
}

#[test]
fn partial_frame_waits() {
    let stream = sample_stream();
    let mut decoder = StreamDecoder::new();
    decoder.push(&stream[..3]);
    assert!(decoder.poll().is_none());
    decoder.push(&stream[3..144]);
    assert!(decoder.poll().is_none());
    decoder.push(&stream[144..145]);
    assert!(decoder.poll().unwrap().unwrap().id == "test");
}

#[test]
fn empty_length_frame_fails_alone() {
    let mut bytes = vec![0, 0, 0, 0];
    bytes.extend(frame(0, &[0, 0, 0, 0]));
    let mut decoder = StreamDecoder::new();
    decoder.push(&bytes);
    assert_eq!(decoder.poll().unwrap().unwrap_err().kind(), ErrorKind::MalformedBinaryParse);
    let second = decoder.poll().unwrap().unwrap();
    assert_eq!(second.id, "");
    assert!(second.data.is_empty());
}
