use ground_station::codec::DecodeFailure;
use ground_station::streaming::{classify, failure_from, ErrorCategory};
use std::io::{Error, ErrorKind, Read};

struct BrokenPipe;

impl Read for BrokenPipe {
    fn read(&mut self, _buffer: &mut [u8]) -> std::io::Result<usize> {
        Err(Error::new(ErrorKind::BrokenPipe, "broken pipe"))
    }
}

#[test]
fn an_input_that_ends_early_is_the_end_of_the_stream() {
    let error = serde_cbor::from_slice::<u64>(&[]).unwrap_err();
    assert_eq!(classify(&error), DecodeFailure::Eof);
    let error = serde_cbor::from_slice::<u64>(&[0x1b, 0x00, 0x00]).unwrap_err();
    assert_eq!(classify(&error), DecodeFailure::Eof);
}

#[test]
fn an_unexpected_code_is_a_syntax_failure_with_its_offset() {
    let error = serde_cbor::from_slice::<u64>(&[0xff]).unwrap_err();
    assert_eq!(classify(&error), DecodeFailure::Syntax { offset: error.offset() });
    assert_eq!(error.offset(), 1);
    let error = serde_cbor::from_slice::<(u64, u64)>(&[0x82, 0x01, 0xff]).unwrap_err();
    assert_eq!(classify(&error), DecodeFailure::Syntax { offset: 3 });
}

#[test]
fn a_value_of_the_wrong_type_is_a_data_failure() {
    let error = serde_cbor::from_slice::<u64>(&[0x61, b'a']).unwrap_err();
    assert_eq!(classify(&error), DecodeFailure::Data { offset: error.offset() });
}

#[test]
fn a_failing_transport_is_an_io_failure() {
    let error = serde_cbor::from_reader::<u64, BrokenPipe>(BrokenPipe).unwrap_err();
    assert_eq!(classify(&error), DecodeFailure::Io);
}

#[test]
fn an_undersized_scratch_buffer_is_told_apart_from_io() {
    let mut scratch = [0u8; 1];
    let input = [0x7f, 0x62, b'a', b'b', 0xff];
    let error = serde_cbor::de::from_slice_with_scratch::<String>(&input, &mut scratch).unwrap_err();
    assert!(error.is_scratch_too_small());
    assert!(error.is_io());
    assert_eq!(classify(&error), DecodeFailure::ScratchTooSmall);
}

#[test]
fn failure_from_sorts_by_what_the_decoder_says() {
    assert_eq!(failure_from(false, ErrorCategory::Io, 5), DecodeFailure::Io);
    assert_eq!(failure_from(false, ErrorCategory::Eof, 5), DecodeFailure::Eof);
    assert_eq!(
        failure_from(false, ErrorCategory::Syntax, 5),
        DecodeFailure::Syntax { offset: 5 }
    );
    assert_eq!(failure_from(false, ErrorCategory::Data, 6), DecodeFailure::Data { offset: 6 });
    for category in
        [ErrorCategory::Io, ErrorCategory::Eof, ErrorCategory::Syntax, ErrorCategory::Data]
    {
        assert_eq!(failure_from(true, category, 7), DecodeFailure::ScratchTooSmall);
    }
}
