use weechat_relay::{
    get_compression, get_element_type, get_length, get_message_type, get_raw_data, WeechatData,
    WeechatMessage,
};

// Data as returned by the test command in weechat.
const TEST_FRAME: [u8; 145] = [
    0, 0, 0, 145, 1, 120, 156, 251, 255, 255, 255, 255, 228, 140, 34, 199, 204, 188, 18, 6, 198,
    71, 14, 64, 234, 255, 63, 217, 3, 57, 249, 121, 92, 134, 70, 198, 38, 166, 102, 230, 22, 150,
    6, 64, 30, 183, 46, 130, 91, 92, 82, 196, 192, 192, 192, 145, 168, 0, 100, 100, 230, 165, 67,
    184, 12, 64, 10, 104, 212, 255, 164, 210, 52, 32, 135, 13, 72, 165, 165, 22, 1, 73, 144, 88,
    65, 73, 17, 7, 72, 123, 98, 82, 114, 10, 144, 205, 104, 80, 146, 153, 203, 101, 104, 108,
    100, 104, 105, 9, 50, 51, 177, 168, 8, 98, 6, 19, 16, 51, 3, 21, 129, 152, 41, 169, 64, 97,
    144, 163, 128, 66, 64, 92, 205, 192, 192, 120, 2, 200, 20, 5, 0, 59, 212, 56, 52,
];

#[test]
fn parse_test_data() {
    let data = TEST_FRAME;
    assert!(get_length(&data).unwrap() == 145);
    assert!(get_compression(&data).unwrap() == true);
    println!("got data: {:?}", get_raw_data(&data).unwrap());
}

#[test]
fn test_parse_test_data() {
    let data = TEST_FRAME;

    let message = WeechatMessage::from_raw_message(&data).unwrap();
    assert_eq!(message.id, "test".to_owned());
    assert_eq!(message.data.get(0), Some(&WeechatData::Char('A')));
    assert_eq!(message.data.get(1), Some(&WeechatData::Int(123456)));
    assert_eq!(message.data.get(2), Some(&WeechatData::Int(-123456)));
    assert_eq!(message.data.get(3), Some(&WeechatData::Long(1234567890)));
    assert_eq!(message.data.get(4), Some(&WeechatData::Long(-1234567890)));
    assert_eq!(message.data.get(5), Some(&WeechatData::String("a string".to_owned())));
    assert_eq!(message.data.get(6), Some(&WeechatData::String("".to_owned())));
    assert_eq!(message.data.get(7), Some(&WeechatData::StringNull));
    assert_eq!(message.data.get(8), Some(&WeechatData::Buffer("buffer".to_owned())));
    assert_eq!(message.data.get(9), Some(&WeechatData::BufferNull));
    assert_eq!(message.data.get(10), Some(&WeechatData::Pointer("0x1234abcd".to_owned())));
    assert_eq!(message.data.get(11), Some(&WeechatData::Pointer("0x0".to_owned())));
    assert_eq!(message.data.get(12), Some(&WeechatData::Time("1321993456".to_owned())));
    if let &WeechatData::Array(ref test_string_array) = message.data.get(13).unwrap() {
        assert_eq!(test_string_array.len(), 2);
        assert_eq!(test_string_array.get(0), Some(&WeechatData::String("abc".to_owned())));
        assert_eq!(test_string_array.get(1), Some(&WeechatData::String("de".to_owned())));
    } else {
        panic!("got wrong type in test element 13 (expected Array)");
    }
    if let &WeechatData::Array(ref test_string_array) = message.data.get(14).unwrap() {
        assert_eq!(test_string_array.len(), 3);
        assert_eq!(test_string_array.get(0), Some(&WeechatData::Int(123)));
        assert_eq!(test_string_array.get(1), Some(&WeechatData::Int(456)));
        assert_eq!(test_string_array.get(2), Some(&WeechatData::Int(789)));
    } else {
        panic!("got wrong type in test element 14 (expected Array)");
    }
    assert_eq!(message.data.len(), 15);
    assert_eq!(get_length(&data).unwrap(), 145);
    assert_eq!(get_compression(&data).unwrap(), true);
    let raw_data = get_raw_data(&data).unwrap();
    let (type_jump, message_type) = get_message_type(&raw_data).unwrap();
    assert_eq!(type_jump, 4);
    assert_eq!(message_type, None);
    assert_eq!(get_element_type(&raw_data[type_jump..]), "chr".to_owned());
}

#[test]
fn sample_payload_inflates_to_known_bytes() {
    let raw = get_raw_data(&TEST_FRAME).unwrap();
    assert_eq!(raw.len(), 176);
    assert_eq!(&raw[..7], &[255, 255, 255, 255, 99, 104, 114]);
    assert_eq!(&raw[raw.len() - 4..], &[0, 0, 3, 21]);
}

#[test]
fn corrupt_compressed_body_is_malformed() {
    let mut data = TEST_FRAME;
    data[5] = 0;
    data[6] = 0;
    let err = WeechatMessage::from_raw_message(&data).unwrap_err();
    assert_eq!(err.kind(), weechat_relay::ErrorKind::MalformedBinaryParse);
    assert!(err.detail().is_some());
}

#[test]
fn truncated_compressed_body_is_malformed() {
    let data: Vec<u8> = TEST_FRAME[..60].to_vec();
    let err = WeechatMessage::from_raw_message(&data).unwrap_err();
    assert_eq!(err.kind(), weechat_relay::ErrorKind::MalformedBinaryParse);
}
