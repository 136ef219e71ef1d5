use test_runner::record_collection::{
    bin_convert, decode_frame, order_of, ByteOrder, LogType, ProgramData, ProgramInfoType,
    StatusType, FRAME_SIZE, FUNCTION_MAX_CHAR_SIZE, MESSAGE_BUFFER, PROGRAM_NAME_MAX_CHAR_SIZE,
};
use test_runner::util::bytes_to_trimmed_string;

fn filled() -> [u8; FRAME_SIZE] {
    let mut frame = [0u8; FRAME_SIZE];
    for (i, byte) in frame.iter_mut().enumerate().take(164) {
        *byte = (i % 251) as u8 + 1;
    }
    frame
}

fn with_words(order: ByteOrder, tag: u32, at: usize, value: u32) -> [u8; FRAME_SIZE] {
    let mut frame = filled();
    let bytes = |v: u32| match order {
        ByteOrder::Little => v.to_le_bytes(),
        ByteOrder::Big => v.to_be_bytes(),
    };
    frame[at..at + 4].copy_from_slice(&bytes(value));
    frame[164..168].copy_from_slice(&bytes(tag));
    frame
}

#[test]
fn frame_layout() {
    assert_eq!(PROGRAM_NAME_MAX_CHAR_SIZE, 64);
    assert_eq!(FUNCTION_MAX_CHAR_SIZE, 32);
    assert_eq!(MESSAGE_BUFFER, 64);
    assert_eq!(
        FRAME_SIZE,
        PROGRAM_NAME_MAX_CHAR_SIZE + FUNCTION_MAX_CHAR_SIZE + MESSAGE_BUFFER + 4 + 4
    );
}

#[test]
fn decode_register() {
    let frame = with_words(ByteOrder::Little, 0, 160, 0x2a2a2a2a);
    let info = decode_frame(&frame, ByteOrder::Little).unwrap();
    assert_eq!(info.info_type(), ProgramInfoType::Register);
    match info.data {
        ProgramData::Reg(reg) => {
            assert_eq!(&reg.program_name[..], &frame[0..64]);
            assert_eq!(&reg.function_name[..], &frame[64..96]);
        }
        _ => panic!("a register event was expected"),
    }
}

#[test]
fn decode_status() {
    for (value, expected) in [(0, StatusType::Success), (1, StatusType::Fail)] {
        for order in [ByteOrder::Little, ByteOrder::Big] {
            let frame = with_words(order, 1, 96, value);
            let info = decode_frame(&frame, order).unwrap();
            assert_eq!(info.info_type(), ProgramInfoType::Status);
            match info.data {
                ProgramData::Stat(stat) => {
                    assert_eq!(&stat.program_name[..], &frame[0..64]);
                    assert_eq!(&stat.function_name[..], &frame[64..96]);
                    assert_eq!(stat.t, expected);
                }
                _ => panic!("a status event was expected"),
            }
        }
    }
}

#[test]
fn decode_log() {
    for (value, expected) in [
        (0, LogType::Debug),
        (1, LogType::Info),
        (2, LogType::Warning),
    ] {
        for order in [ByteOrder::Little, ByteOrder::Big] {
            let frame = with_words(order, 2, 160, value);
            let info = decode_frame(&frame, order).unwrap();
            assert_eq!(info.info_type(), ProgramInfoType::Log);
            match info.data {
                ProgramData::Log(log) => {
                    assert_eq!(&log.program_name[..], &frame[0..64]);
                    assert_eq!(&log.function_name[..], &frame[64..96]);
                    assert_eq!(&log.msg[..], &frame[96..160]);
                    assert_eq!(log.t, expected);
                }
                _ => panic!("a log event was expected"),
            }
        }
    }
}

#[test]
fn decode_turns_down_unknown_words() {
    let order = ByteOrder::Little;
    assert!(decode_frame(&with_words(order, 3, 96, 0), order).is_none());
    assert!(decode_frame(&with_words(order, u32::MAX, 96, 0), order).is_none());
    assert!(decode_frame(&with_words(order, 256, 96, 0), order).is_none());
    assert!(decode_frame(&with_words(order, 1, 96, 2), order).is_none());
    assert!(decode_frame(&with_words(order, 1, 96, 0x0100_0000), order).is_none());
    assert!(decode_frame(&with_words(order, 2, 160, 3), order).is_none());
    assert!(decode_frame(&with_words(order, 2, 160, 0x0001_0000), order).is_none());
}

#[test]
fn decode_reads_words_in_the_given_order() {
    let frame = with_words(ByteOrder::Big, 1, 96, 1);
    assert!(decode_frame(&frame, ByteOrder::Little).is_none());
    let info = decode_frame(&frame, ByteOrder::Big).unwrap();
    assert_eq!(info.info_type(), ProgramInfoType::Status);
    let frame = with_words(ByteOrder::Little, 2, 160, 1);
    assert!(decode_frame(&frame, ByteOrder::Big).is_none());
    let info = decode_frame(&frame, ByteOrder::Little).unwrap();
    assert_eq!(info.info_type(), ProgramInfoType::Log);
}

#[test]
fn bin_convert_reads_native_words() {
    let mut frame = filled();
    frame[96..100].copy_from_slice(&1u32.to_ne_bytes());
    frame[164..168].copy_from_slice(&1u32.to_ne_bytes());
    let info = bin_convert(&frame).unwrap();
    match info.data {
        ProgramData::Stat(stat) => assert_eq!(stat.t, StatusType::Fail),
        _ => panic!("a status event was expected"),
    }
    frame[160..164].copy_from_slice(&2u32.to_ne_bytes());
    frame[164..168].copy_from_slice(&2u32.to_ne_bytes());
    let info = bin_convert(&frame).unwrap();
    match info.data {
        ProgramData::Log(log) => assert_eq!(log.t, LogType::Warning),
        _ => panic!("a log event was expected"),
    }
    frame[164..168].copy_from_slice(&0x0200_0000u32.swap_bytes().swap_bytes().to_ne_bytes());
    assert!(bin_convert(&frame).is_none());
    frame[164..168].copy_from_slice(&7u32.to_ne_bytes());
    assert!(bin_convert(&frame).is_none());
}

#[test]
fn trimmed_string_stops_at_nul() {
    assert_eq!(bytes_to_trimmed_string(b"abc\0def"), Ok("abc".to_string()));
    assert_eq!(bytes_to_trimmed_string(b"abc"), Ok("abc".to_string()));
    assert_eq!(bytes_to_trimmed_string(b"\0abc"), Ok(String::new()));
    assert_eq!(bytes_to_trimmed_string(b""), Ok(String::new()));
    assert_eq!(bytes_to_trimmed_string(b"\0\0\0"), Ok(String::new()));
    assert_eq!(
        bytes_to_trimmed_string("h\u{e9}llo \u{1f600}\0".as_bytes()),
        Ok("h\u{e9}llo \u{1f600}".to_string())
    );
}

#[test]
fn trimmed_string_checks_utf8_before_the_nul_only() {
    assert_eq!(bytes_to_trimmed_string(b"ok\0\xff\xfe"), Ok("ok".to_string()));
    assert_eq!(bytes_to_trimmed_string(b"\xff\0ok"), Err(()));
    assert_eq!(bytes_to_trimmed_string(b"a\xc3"), Err(()));
    assert_eq!(bytes_to_trimmed_string(b"\xed\xa0\x80"), Err(()));
    assert_eq!(bytes_to_trimmed_string(b"\xc0\x80"), Err(()));
    assert_eq!(bytes_to_trimmed_string(b"\xc3\0\xa9"), Err(()));
}

#[test]
fn order_is_told_from_the_probe_word() {
    assert_eq!(order_of(1), ByteOrder::Little);
    assert_eq!(order_of(0x0100_0000), ByteOrder::Big);
    assert_eq!(order_of(u32::from_le_bytes([1, 0, 0, 0])), ByteOrder::Little);
    assert_eq!(order_of(u32::from_be_bytes([1, 0, 0, 0])), ByteOrder::Big);
    assert_eq!(order_of(0), ByteOrder::Big);
    assert_eq!(order_of(u32::MAX), ByteOrder::Big);
    let native = order_of(u32::from_ne_bytes([1, 0, 0, 0]));
    let frame = {
        let mut frame = filled();
        frame[96..100].copy_from_slice(&1u32.to_ne_bytes());
        frame[164..168].copy_from_slice(&1u32.to_ne_bytes());
        frame
    };
    let by_order = decode_frame(&frame, native).unwrap();
    let by_machine = bin_convert(&frame).unwrap();
    assert_eq!(by_order.info_type(), by_machine.info_type());
    assert_eq!(by_order.info_type(), ProgramInfoType::Status);
}
