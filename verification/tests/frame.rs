use redefmt::encoding::{BufferDispatcher, WriteValue};
use redefmt::errors::{DecodeError, StatementKind};
use redefmt::frame::{FrameDecoderWants, RedefmtDecoder, RedefmtFrame};
use redefmt::header::{Header, Level};
use redefmt::identifiers::{CrateId, PrintStatementId};
use redefmt::logger::frame_start_bytes;
use redefmt::statements::{CrateRecord, Location, PrintStatement, StoredFormatExpression, Stores};
use redefmt::values::{DecodedValues, Value};
use tokio_util::bytes::{BufMut, BytesMut};

fn mock_print_statement() -> PrintStatement {
    // Two format arguments that refer to one value, which is written once.
    PrintStatement {
        location: Location { file: "file.rs".to_string(), line: 1 },
        format_expression: StoredFormatExpression {
            expression: "{0} {0}".to_string(),
            append_newline: false,
            expected_positional_arg_count: 1,
            expected_named_args: vec![],
        },
    }
}

fn seed_crate(stores: &mut Stores) -> CrateId {
    let crate_id = CrateId::new(1);
    stores.save_crate(crate_id.value(), CrateRecord { name: "x".to_string() });
    crate_id
}

fn seed_print_statement(stores: &mut Stores, crate_id: CrateId) -> (PrintStatementId, PrintStatement) {
    let id = PrintStatementId::new(1);
    let statement = mock_print_statement();
    stores.save_print_statement(crate_id.value(), id.value(), statement.clone());
    (id, statement)
}

/// Brings the decoder to the stage that wants a print crate id, with a
/// header that has no stamp and no level.
fn put_and_decode_header(decoder: &mut RedefmtDecoder) {
    let mut bytes = BytesMut::from(&[Header::new(false, None).bits()][..]);
    assert!(decoder.decode(&mut bytes).unwrap().is_none());
}

fn put_and_decode_print_crate_id(decoder: &mut RedefmtDecoder, crate_id: CrateId) {
    let mut bytes = BytesMut::new();
    bytes.put_u16(crate_id.value());
    decoder.decode(&mut bytes).unwrap();
}

fn put_and_decode_print_statement_id(decoder: &mut RedefmtDecoder, print_statement_id: PrintStatementId) {
    let mut bytes = BytesMut::new();
    bytes.put_u16(print_statement_id.value());
    decoder.decode(&mut bytes).unwrap();
}

fn put_and_decode_bool_arg(decoder: &mut RedefmtDecoder, value: bool) -> Option<RedefmtFrame> {
    let mut dispatcher = BufferDispatcher::new();
    value.write_value(&mut dispatcher);
    let mut bytes = BytesMut::from(dispatcher.bytes.as_slice());
    decoder.decode(&mut bytes).unwrap()
}

fn check_header(expected_header: Header) {
    let stores = Stores::new();
    let mut decoder = RedefmtDecoder::new(&stores);

    assert!(matches!(decoder.stage(), FrameDecoderWants::Header));

    let mut bytes = BytesMut::from(&[expected_header.bits()][..]);
    decoder.decode(&mut bytes).unwrap();
    assert!(bytes.is_empty());

    match decoder.stage() {
        FrameDecoderWants::Stamp(stage) => {
            assert_eq!(expected_header, stage.header);
        }
        _ => panic!("unexpected stage"),
    }
}

fn check_stamp() {
    let stores = Stores::new();
    let mut decoder = RedefmtDecoder::new(&stores);

    let header = Header::new(true, None);
    let stamp: u64 = 123;

    let mut bytes = BytesMut::new();
    bytes.put_u8(header.bits());
    bytes.put_u64(stamp);

    decoder.decode(&mut bytes).unwrap();
    assert!(bytes.is_empty());

    match decoder.stage() {
        FrameDecoderWants::PrintCrateId(stage) => {
            assert_eq!(stamp, stage.stamp.unwrap());
        }
        _ => panic!("unexpected stage"),
    }
}

fn check_print_crate_id() {
    let mut stores = Stores::new();
    let crate_id = seed_crate(&mut stores);
    let mut decoder = RedefmtDecoder::new(&stores);
    put_and_decode_header(&mut decoder);

    put_and_decode_print_crate_id(&mut decoder, crate_id);

    match decoder.stage() {
        FrameDecoderWants::PrintStatementId(stage) => {
            assert_eq!(crate_id.value(), stage.print_crate);
            assert_eq!(Some(&CrateRecord { name: "x".to_string() }), stores.get_crate(stage.print_crate));
        }
        _ => panic!("unexpected stage"),
    }
}

fn check_print_crate_id_not_found_error() {
    let stores = Stores::new();
    let mut decoder = RedefmtDecoder::new(&stores);
    put_and_decode_header(&mut decoder);

    let crate_id = CrateId::new(123);
    let mut bytes = BytesMut::new();
    bytes.put_u16(crate_id.value());

    let error = decoder.decode(&mut bytes).unwrap_err();
    assert!(matches!(error, DecodeError::UnknownCrate(_)));
}

fn check_empty_after_print_crate_id() {
    let mut stores = Stores::new();
    let crate_id = seed_crate(&mut stores);
    let mut decoder = RedefmtDecoder::new(&stores);
    put_and_decode_header(&mut decoder);
    put_and_decode_print_crate_id(&mut decoder, crate_id);

    let item = decoder.decode(&mut BytesMut::new()).unwrap();
    assert!(item.is_none());
}

fn check_print_statement_id() {
    let mut stores = Stores::new();
    let crate_id = seed_crate(&mut stores);
    let (print_statement_id, print_statement) = seed_print_statement(&mut stores, crate_id);

    let mut decoder = RedefmtDecoder::new(&stores);
    put_and_decode_header(&mut decoder);
    put_and_decode_print_crate_id(&mut decoder, crate_id);

    assert!(!matches!(decoder.stage(), FrameDecoderWants::PrintStatement(_)));

    put_and_decode_print_statement_id(&mut decoder, print_statement_id);

    assert!(stores.get_print_statement(crate_id.value(), print_statement_id.value()).is_some());

    match decoder.stage() {
        FrameDecoderWants::PrintStatement(stage) => {
            assert_eq!(print_statement.format_expression, stage.print_statement.format_expression);
        }
        _ => panic!("unexpected stage"),
    }
}

fn check_print_statement_id_not_found_error() {
    let mut stores = Stores::new();
    let crate_id = seed_crate(&mut stores);
    let mut decoder = RedefmtDecoder::new(&stores);
    put_and_decode_header(&mut decoder);
    put_and_decode_print_crate_id(&mut decoder, crate_id);

    let print_statement_id = PrintStatementId::new(123);
    let mut bytes = BytesMut::new();
    bytes.put_u16(print_statement_id.value());

    let error = decoder.decode(&mut bytes).unwrap_err();
    assert!(matches!(error, DecodeError::UnknownStatement(_, _, _)));
}

fn check_full() {
    let mut stores = Stores::new();
    let crate_id = seed_crate(&mut stores);
    let (print_statement_id, print_statement) = seed_print_statement(&mut stores, crate_id);

    let mut decoder = RedefmtDecoder::new(&stores);
    put_and_decode_header(&mut decoder);
    put_and_decode_print_crate_id(&mut decoder, crate_id);
    put_and_decode_print_statement_id(&mut decoder, print_statement_id);

    let value = true;
    let actual_frame = put_and_decode_bool_arg(&mut decoder, value).unwrap();

    let expected_frame = RedefmtFrame::new(
        None,
        None,
        &print_statement,
        DecodedValues { positional: vec![Value::Boolean(value)], named: vec![] },
    );
    assert_eq!(expected_frame, actual_frame);

    // Clears per frame content
    assert!(matches!(decoder.stage(), FrameDecoderWants::Header));
    assert!(decoder.wants_header());
}

#[test]
fn decoder_header() {
    check_header(Header::new(true, None));
}

#[test]
fn decoder_stamp() {
    check_stamp();
}

#[test]
fn decoder_print_crate_id() {
    check_print_crate_id();
}

#[test]
fn decoder_print_crate_id_not_found_error() {
    check_print_crate_id_not_found_error();
}

#[test]
fn decoder_empty_after_print_crate_id() {
    check_empty_after_print_crate_id();
}

#[test]
fn decoder_print_statement_id() {
    check_print_statement_id();
}

#[test]
fn decoder_print_statement_id_not_found_error() {
    check_print_statement_id_not_found_error();
}

#[test]
fn decoder_full() {
    check_full();
}

#[test]
fn core_header() {
    check_header(Header::new(true, Some(Level::Error)));
}

#[test]
fn core_stamp() {
    check_stamp();
}

#[test]
fn core_print_crate_id() {
    check_print_crate_id();
}

#[test]
fn core_print_crate_id_not_found_error() {
    check_print_crate_id_not_found_error();
}

#[test]
fn core_empty_after_print_crate_id() {
    check_empty_after_print_crate_id();
}

#[test]
fn core_print_statement_id() {
    check_print_statement_id();
}

#[test]
fn core_print_statement_id_not_found_error() {
    check_print_statement_id_not_found_error();
}

#[test]
fn core_full() {
    check_full();
}

#[test]
fn frame_written_by_logger_reads_back() {
    let mut stores = Stores::new();
    let crate_id = seed_crate(&mut stores);
    let (print_statement_id, print_statement) = seed_print_statement(&mut stores, crate_id);

    let mut bytes = BytesMut::from(frame_start_bytes(Some(99), (crate_id, print_statement_id)).as_slice());
    let mut dispatcher = BufferDispatcher::new();
    7u8.write_value(&mut dispatcher);
    bytes.put_slice(&dispatcher.bytes);
    bytes.put_slice(&[0xAA]);

    let mut decoder = RedefmtDecoder::new(&stores);
    let frame = decoder.decode(&mut bytes).unwrap().unwrap();

    assert_eq!(Some(99), frame.stamp);
    assert_eq!(print_statement.location.file, frame.file_name);
    assert_eq!(print_statement.location.line, frame.file_line);
    assert_eq!(vec![Value::U8(7)], frame.decoded_values.positional);
    assert_eq!(&[0xAAu8][..], &bytes[..]);
    assert!(decoder.wants_header());
}

#[test]
fn unknown_header_bits_are_refused() {
    let stores = Stores::new();
    let mut decoder = RedefmtDecoder::new(&stores);
    let mut bytes = BytesMut::from(&[0xFFu8][..]);
    assert_eq!(DecodeError::UnknownHeader(0xFF), decoder.decode(&mut bytes).unwrap_err());
    assert!(decoder.wants_header());
}

#[test]
fn unknown_print_statement_names_its_table() {
    let mut stores = Stores::new();
    let crate_id = seed_crate(&mut stores);
    let mut decoder = RedefmtDecoder::new(&stores);
    put_and_decode_header(&mut decoder);
    put_and_decode_print_crate_id(&mut decoder, crate_id);
    let mut bytes = BytesMut::new();
    bytes.put_u16(9);
    assert_eq!(
        DecodeError::UnknownStatement(9, StatementKind::Print, "x".to_string()),
        decoder.decode(&mut bytes).unwrap_err(),
    );
}

#[test]
fn header_bits_read_back() {
    for stamp in [false, true] {
        for level in [None, Some(Level::Trace), Some(Level::Debug), Some(Level::Info), Some(Level::Warn), Some(Level::Error)] {
            let header = Header::new(stamp, level);
            assert_eq!(Some(header), Header::from_bits(header.bits()));
            assert_eq!(stamp, header.has_stamp());
        }
    }
    assert_eq!(None, Header::from_bits(0x40));
}

#[test]
fn frame_fed_one_byte_at_a_time() {
    let mut stores = Stores::new();
    let crate_id = seed_crate(&mut stores);
    let (print_statement_id, _) = seed_print_statement(&mut stores, crate_id);

    let mut bytes = BytesMut::from(frame_start_bytes(Some(7), (crate_id, print_statement_id)).as_slice());
    let mut dispatcher = BufferDispatcher::new();
    "ab".write_value(&mut dispatcher);
    bytes.put_slice(&dispatcher.bytes);

    let mut decoder = RedefmtDecoder::new(&stores);
    let mut buffer = BytesMut::new();
    let total = bytes.len();
    let mut frame = None;
    for index in 0..total {
        buffer.put_slice(&bytes.split_to(1));
        let decoded = decoder.decode(&mut buffer).unwrap();
        if index + 1 < total {
            assert!(decoded.is_none());
        } else {
            frame = decoded;
        }
    }

    let frame = frame.unwrap();
    assert_eq!(Some(7), frame.stamp);
    assert_eq!(vec![Value::String("ab".to_string())], frame.decoded_values.positional);
    assert!(buffer.is_empty());
}

#[test]
fn unknown_header_byte_is_taken_alone() {
    let stores = Stores::new();
    let mut decoder = RedefmtDecoder::new(&stores);
    let mut bytes = BytesMut::from(&[0xFFu8, 1, 2][..]);
    assert_eq!(DecodeError::UnknownHeader(0xFF), decoder.decode(&mut bytes).unwrap_err());
    assert_eq!(&[1u8, 2][..], &bytes[..]);
}

#[test]
fn argument_error_leaves_what_follows_the_failing_byte() {
    let mut stores = Stores::new();
    let crate_id = seed_crate(&mut stores);
    let (print_statement_id, _) = seed_print_statement(&mut stores, crate_id);

    let mut bytes = BytesMut::from(frame_start_bytes(None, (crate_id, print_statement_id)).as_slice());
    bytes.put_u8(redefmt::type_hint::TypeHint::Boolean.repr());
    bytes.put_u8(9);
    bytes.put_slice(&[0xAA, 0xBB]);

    let mut decoder = RedefmtDecoder::new(&stores);
    let error = decoder.decode(&mut bytes).unwrap_err();
    assert_eq!(DecodeError::InvalidValueBytes(redefmt::type_hint::TypeHint::Boolean, 9), error);
    assert_eq!(&[0xAAu8, 0xBB][..], &bytes[..]);
}
