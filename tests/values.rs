use weechat_relay::grammar::{
    read_array, read_long, read_pointer, read_scalar, read_string_32bit_length,
    read_string_8bit_length, read_time, TypeTag,
};
use weechat_relay::{decode_values, ErrorKind, WeechatData, WeechatMessage};

fn long_text(s: &[u8]) -> Vec<u8> {
    let mut out = (s.len() as i32).to_be_bytes().to_vec();
    out.extend_from_slice(s);
    out
}

fn short_text(s: &[u8]) -> Vec<u8> {
    let mut out = vec![s.len() as u8];
    out.extend_from_slice(s);
    out
}

fn uncompressed_frame(payload: &[u8]) -> Vec<u8> {
    let mut out = ((payload.len() + 1) as u32).to_be_bytes().to_vec();
    out.push(0);
    out.extend_from_slice(payload);
    out
}

fn line_added_payload(highlight: u8) -> Vec<u8> {
    let mut p = long_text(b"_buffer_line_added");
    p.extend_from_slice(b"hda");
    p.extend(long_text(b"line_data"));
    p.extend(long_text(b"buffer:ptr,highlight:chr,tags_array:arr,message:str"));
    p.extend_from_slice(&1i32.to_be_bytes());
    p.extend(short_text(b"7fcab1593600"));
    p.extend(short_text(b"7fcab15936d0"));
    p.push(highlight);
    p.extend_from_slice(b"str");
    p.extend_from_slice(&2i32.to_be_bytes());
    p.extend(long_text(b"irc_privmsg"));
    p.extend(long_text(b"log1"));
    p.extend(long_text(b"Hey"));
    p
}

#[test]
fn nullable_string_law() {
    let (len, value) = read_string_32bit_length(&[255, 255, 255, 255]).unwrap();
    assert_eq!((len, value), (4, None));
    let (len, value) = read_string_32bit_length(&[0, 0, 0, 0]).unwrap();
    assert_eq!((len, value), (4, Some(String::new())));
    let (len, value) = read_string_32bit_length(&[0, 0, 0, 3, b'a', 0xff, b'c', 9]).unwrap();
    assert_eq!((len, value), (7, Some("a\u{fffd}c".to_owned())));
    let (len, value) = read_scalar(TypeTag::Buf, &[255, 255, 255, 255]).unwrap();
    assert_eq!((len, value), (4, WeechatData::BufferNull));
    let (len, value) = read_scalar(TypeTag::Str, &[0, 0, 0, 0]).unwrap();
    assert_eq!((len, value), (4, WeechatData::String(String::new())));
}

#[test]
fn string_length_overrun_or_negative_is_malformed() {
    let err = read_string_32bit_length(&[0, 0, 0, 5, b'a']).unwrap_err();
    assert_eq!(err.kind(), ErrorKind::MalformedBinaryParse);
    let err = read_string_32bit_length(&[255, 255, 255, 254]).unwrap_err();
    assert_eq!(err.kind(), ErrorKind::MalformedBinaryParse);
    let err = read_string_32bit_length(&[0, 0]).unwrap_err();
    assert_eq!(err.kind(), ErrorKind::MalformedBinaryParse);
}

#[test]
fn short_string_is_lossy_text() {
    let (len, value) = read_string_8bit_length(&[2, 0xc3, 0xa9, 7]).unwrap();
    assert_eq!((len, value.as_str()), (3, "\u{e9}"));
    let err = read_string_8bit_length(&[4, b'a']).unwrap_err();
    assert_eq!(err.kind(), ErrorKind::MalformedBinaryParse);
}

#[test]
fn pointer_rendering() {
    let (len, value) = read_pointer(&[0]).unwrap();
    assert_eq!((len, value.as_str()), (1, "0x0"));
    let (len, value) = read_pointer(&short_text(b"1234abcd")).unwrap();
    assert_eq!((len, value.as_str()), (9, "0x1234abcd"));
    let err = read_pointer(&short_text(b"12g4")).unwrap_err();
    assert_eq!(err.kind(), ErrorKind::MalformedBinaryParse);
}

#[test]
fn long_values_and_limits() {
    assert_eq!(read_long(&short_text(b"1234567890")).unwrap(), (11, 1234567890));
    assert_eq!(read_long(&short_text(b"-1234567890")).unwrap(), (12, -1234567890));
    assert_eq!(read_long(&short_text(b"9223372036854775807")).unwrap(), (20, i64::MAX));
    assert_eq!(read_long(&short_text(b"-9223372036854775808")).unwrap(), (21, i64::MIN));
    for bad in [&b"9223372036854775808"[..], b"", b"-", b"12a", b"+5", b"99999999999999999999999"] {
        let err = read_long(&short_text(bad)).unwrap_err();
        assert_eq!(err.kind(), ErrorKind::MalformedBinaryParse);
    }
}

#[test]
fn time_is_decimal_text() {
    let (len, value) = read_time(&short_text(b"1321993456")).unwrap();
    assert_eq!((len, value.as_str()), (11, "1321993456"));
    let err = read_time(&short_text(b"13x")).unwrap_err();
    assert_eq!(err.kind(), ErrorKind::MalformedBinaryParse);
}

#[test]
fn array_homogeneity() {
    let mut ints = b"int".to_vec();
    ints.extend_from_slice(&3i32.to_be_bytes());
    for v in [123i32, 456, 789] {
        ints.extend_from_slice(&v.to_be_bytes());
    }
    let (len, values) = read_array(&ints).unwrap();
    assert_eq!(len, 19);
    assert_eq!(values, vec![WeechatData::Int(123), WeechatData::Int(456), WeechatData::Int(789)]);

    let mut strs = b"str".to_vec();
    strs.extend_from_slice(&2i32.to_be_bytes());
    strs.extend(long_text(b"abc"));
    strs.extend(long_text(b"de"));
    let (len, values) = read_array(&strs).unwrap();
    assert_eq!(len, 20);
    assert_eq!(
        values,
        vec![WeechatData::String("abc".to_owned()), WeechatData::String("de".to_owned())]
    );
}

#[test]
fn array_errors() {
    let mut chr = b"chr".to_vec();
    chr.extend_from_slice(&1i32.to_be_bytes());
    chr.push(65);
    assert_eq!(read_array(&chr).unwrap_err().kind(), ErrorKind::UnknownType);
    let mut negative = b"int".to_vec();
    negative.extend_from_slice(&(-1i32).to_be_bytes());
    assert_eq!(read_array(&negative).unwrap_err().kind(), ErrorKind::MalformedBinaryParse);
    let mut huge = b"int".to_vec();
    huge.extend_from_slice(&i32::MAX.to_be_bytes());
    huge.extend_from_slice(&7i32.to_be_bytes());
    assert_eq!(read_array(&huge).unwrap_err().kind(), ErrorKind::MalformedBinaryParse);
}

#[test]
fn unknown_type_failure() {
    let mut body = b"xyz".to_vec();
    body.extend_from_slice(&[0, 0, 0, 1]);
    let err = decode_values(&body).unwrap_err();
    assert_eq!(err.kind(), ErrorKind::UnknownType);
    assert_eq!(err.detail().map(|d| d.as_str()), Some("xyz"));

    let mut later = b"int".to_vec();
    later.extend_from_slice(&[0, 0, 0, 1]);
    later.extend_from_slice(b"zzz");
    assert_eq!(decode_values(&later).unwrap_err().kind(), ErrorKind::UnknownType);
}

#[test]
fn unsupported_tags_are_not_implemented() {
    for tag in [&b"htb"[..], b"inf", b"inl"] {
        let err = decode_values(tag).unwrap_err();
        assert_eq!(err.kind(), ErrorKind::NotImplemented);
    }
}

#[test]
fn truncated_values_are_malformed() {
    assert_eq!(decode_values(b"in").unwrap_err().kind(), ErrorKind::MalformedBinaryParse);
    assert_eq!(decode_values(b"int\x00\x01").unwrap_err().kind(), ErrorKind::MalformedBinaryParse);
    assert_eq!(decode_values(b"chr").unwrap_err().kind(), ErrorKind::MalformedBinaryParse);
    assert_eq!(decode_values(b"").unwrap(), vec![]);
}

#[test]
fn hdata_shape() {
    let frame = uncompressed_frame(&line_added_payload(1));
    let message = WeechatMessage::from_raw_message(&frame).unwrap();
    assert_eq!(message.id, "_buffer_line_added");
    assert_eq!(message.data.len(), 1);
    if let WeechatData::Hdata(path, keys, objects) = &message.data[0] {
        assert_eq!(path, "line_data");
        assert_eq!(keys.len(), 4);
        assert_eq!(keys[1].name, "highlight");
        assert_eq!(keys[1].kind, "chr");
        assert_eq!(objects.len(), 1);
        let object = &objects[0];
        assert_eq!(object.pointers, vec!["0x7fcab1593600".to_owned()]);
        assert_eq!(object.get("highlight"), Some(&WeechatData::Char('\u{1}')));
        assert_eq!(object.get("buffer"), Some(&WeechatData::Pointer("0x7fcab15936d0".to_owned())));
        assert_eq!(object.get("message"), Some(&WeechatData::String("Hey".to_owned())));
        assert_eq!(
            object.get("tags_array"),
            Some(&WeechatData::Array(vec![
                WeechatData::String("irc_privmsg".to_owned()),
                WeechatData::String("log1".to_owned()),
            ]))
        );
        assert_eq!(object.get("nick"), None);
    } else {
        panic!("expected hdata");
    }
}

#[test]
fn hdata_depth_follows_path() {
    let mut p = long_text(b"");
    p.extend_from_slice(b"hda");
    p.extend(long_text(b"buffer/lines"));
    p.extend(long_text(b"number:int"));
    p.extend_from_slice(&2i32.to_be_bytes());
    for (a, b, n) in [(b"a1", b"b1", 7i32), (b"a2", b"b2", 8)] {
        p.extend(short_text(a));
        p.extend(short_text(b));
        p.extend_from_slice(&n.to_be_bytes());
    }
    let message = WeechatMessage::from_raw_message(&uncompressed_frame(&p)).unwrap();
    assert_eq!(message.id, "");
    if let WeechatData::Hdata(path, _, objects) = &message.data[0] {
        assert_eq!(path, "buffer/lines");
        assert_eq!(objects.len(), 2);
        assert_eq!(objects[1].pointers, vec!["0xa2".to_owned(), "0xb2".to_owned()]);
        assert_eq!(objects[1].get("number"), Some(&WeechatData::Int(8)));
    } else {
        panic!("expected hdata");
    }
}

#[test]
fn hdata_errors() {
    let mut bad_type = b"hda".to_vec();
    bad_type.extend(long_text(b"line_data"));
    bad_type.extend(long_text(b"x:hda"));
    bad_type.extend_from_slice(&0i32.to_be_bytes());
    assert_eq!(decode_values(&bad_type).unwrap_err().kind(), ErrorKind::MalformedBinaryParse);

    let mut no_colon = b"hda".to_vec();
    no_colon.extend(long_text(b"line_data"));
    no_colon.extend(long_text(b"x"));
    no_colon.extend_from_slice(&0i32.to_be_bytes());
    assert_eq!(decode_values(&no_colon).unwrap_err().kind(), ErrorKind::MalformedBinaryParse);

    let mut overrun = b"hda".to_vec();
    overrun.extend(long_text(b"line_data"));
    overrun.extend(long_text(b"x:int"));
    overrun.extend_from_slice(&5i32.to_be_bytes());
    overrun.extend(short_text(b"1"));
    overrun.extend_from_slice(&1i32.to_be_bytes());
    assert_eq!(decode_values(&overrun).unwrap_err().kind(), ErrorKind::MalformedBinaryParse);

    let mut empty = b"hda".to_vec();
    empty.extend(long_text(b"line_data"));
    empty.extend(long_text(b""));
    empty.extend_from_slice(&0i32.to_be_bytes());
    let values = decode_values(&empty).unwrap();
    assert_eq!(values, vec![WeechatData::Hdata("line_data".to_owned(), vec![], vec![])]);
}

#[test]
fn highlighted_lines_are_found() {
    let loud = WeechatMessage::from_raw_message(&uncompressed_frame(&line_added_payload(1))).unwrap();
    let records = loud.line_records().unwrap();
    assert_eq!(records.len(), 1);
    assert!(records[0].is_highlighted());

    let quiet = WeechatMessage::from_raw_message(&uncompressed_frame(&line_added_payload(0))).unwrap();
    assert!(!quiet.line_records().unwrap()[0].is_highlighted());

    let mut other = long_text(b"_nicklist");
    other.extend_from_slice(&line_added_payload(1)[22..]);
    let other = WeechatMessage::from_raw_message(&uncompressed_frame(&other)).unwrap();
    assert_eq!(other.id, "_nicklist");
    assert!(other.line_records().is_none());
}
