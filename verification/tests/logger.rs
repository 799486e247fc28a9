use std::cell::{Cell, RefCell};
use std::rc::Rc;

use redefmt::encoding::Dispatcher;
use redefmt::frame::{RedefmtDecoder, RedefmtFrame};
use redefmt::header::Header;
use redefmt::identifiers::{CrateId, PrintStatementId};
use redefmt::logger::{
    frame_start_bytes, GlobalDispatcher, GlobalLogger, GlobalLoggerError, GlobalRegistry,
    GlobalStamper, GlobalStamperError, Stamper,
};
use redefmt::statements::{CrateRecord, Location, PrintStatement, StoredFormatExpression, Stores};
use redefmt::values::{DecodedValues, Value};
use tokio_util::bytes::BytesMut;

/// A dispatcher whose bytes stay readable by its clones.
#[derive(Clone)]
struct SharedTestDispatcher {
    bytes: Rc<RefCell<Vec<u8>>>,
}

impl SharedTestDispatcher {
    fn new() -> Self {
        SharedTestDispatcher { bytes: Rc::new(RefCell::new(Vec::new())) }
    }

    fn assert_bytes(&self, expected: &[u8]) {
        assert_eq!(expected, self.bytes.borrow().as_slice());
    }
}

impl Dispatcher for SharedTestDispatcher {
    fn write(&mut self, bytes: &[u8]) {
        self.bytes.borrow_mut().extend_from_slice(bytes);
    }
}

/// A stamper that counts up.
struct TestStamper(Cell<u64>);

impl TestStamper {
    fn starting_at(first: u64) -> Self {
        TestStamper(Cell::new(first))
    }
}

impl Stamper for TestStamper {
    fn stamp(&self) -> u64 {
        let stamp = self.0.get();
        self.0.set(stamp + 1);
        stamp
    }
}

#[test]
fn global_dispatcher_init_and_get() {
    let bytes = [1, 2, 3];
    let shared_dispatcher = SharedTestDispatcher::new();
    let mut global_dispatcher = GlobalDispatcher::new();

    global_dispatcher.init_alloc(shared_dispatcher.clone()).unwrap();

    shared_dispatcher.assert_bytes(&[]);

    global_dispatcher.write(&bytes);

    shared_dispatcher.assert_bytes(&bytes);

    assert!(global_dispatcher.init_alloc(shared_dispatcher).is_err());
}

#[test]
fn global_registry_init_and_get() {
    let bytes = [1, 2, 3];
    let shared_dispatcher = SharedTestDispatcher::new();
    let mut registry = GlobalRegistry::new();

    registry.init(shared_dispatcher.clone());

    shared_dispatcher.assert_bytes(&[]);

    registry.write(&bytes);

    shared_dispatcher.assert_bytes(&bytes);
}

#[test]
fn init_and_stamp() {
    let mut global_stamper = GlobalStamper::new();

    assert!(global_stamper.stamper().is_none());
    assert!(!global_stamper.has_stamper());
    assert_eq!(None, global_stamper.stamp());

    global_stamper.init(TestStamper::starting_at(0)).unwrap();

    assert!(global_stamper.stamper().is_some());

    let stamper = global_stamper.stamper().unwrap();

    let first_stamp = stamper.stamp();
    let second_stamp = stamper.stamp();

    assert_ne!(first_stamp, second_stamp);
    assert_eq!(Some(2), global_stamper.stamp());

    assert_eq!(Err(GlobalStamperError::AlreadyInitialized), global_stamper.init(TestStamper::starting_at(0)));
}

#[test]
fn writes_before_init_go_nowhere() {
    let shared_dispatcher = SharedTestDispatcher::new();
    let mut global_dispatcher = GlobalDispatcher::new();
    global_dispatcher.write(&[9]);
    global_dispatcher.init_static(shared_dispatcher.clone()).unwrap();
    shared_dispatcher.assert_bytes(&[]);
    assert_eq!(
        Err(GlobalLoggerError::LoggerAlreadyInitialized),
        global_dispatcher.init_static(SharedTestDispatcher::new()),
    );
}

#[test]
fn logger_refuses_second_stamper() {
    let mut logger: GlobalLogger<SharedTestDispatcher, TestStamper> = GlobalLogger::new();
    assert_eq!(Ok(()), logger.init_alloc_logger(SharedTestDispatcher::new(), Some(TestStamper::starting_at(0))));
    assert_eq!(
        Err(GlobalLoggerError::StamperAlreadyInitialized),
        logger.init_static_logger(SharedTestDispatcher::new(), Some(TestStamper::starting_at(0))),
    );
    assert_eq!(
        Err(GlobalLoggerError::LoggerAlreadyInitialized),
        logger.init_static_logger(SharedTestDispatcher::new(), None),
    );
    assert_eq!(
        GlobalLoggerError::StamperAlreadyInitialized,
        GlobalLoggerError::from_stamper_error(GlobalStamperError::AlreadyInitialized),
    );
}

#[test]
fn write_start_writes_header_stamp_and_ids() {
    let shared_dispatcher = SharedTestDispatcher::new();
    let mut logger: GlobalLogger<SharedTestDispatcher, TestStamper> = GlobalLogger::new();
    logger.init_alloc_logger(shared_dispatcher.clone(), Some(TestStamper::starting_at(5))).unwrap();

    let print_id = (CrateId::new(0x0102), PrintStatementId::new(0x0304));
    logger.write_start(print_id);

    let mut expected = vec![Header::new(true, None).bits()];
    expected.extend_from_slice(&5u64.to_be_bytes());
    expected.extend_from_slice(&[1, 2, 3, 4]);
    shared_dispatcher.assert_bytes(&expected);
    assert_eq!(expected, frame_start_bytes(Some(5), print_id));
}

#[test]
fn frame_start_without_stamp() {
    let bytes = frame_start_bytes(None, (CrateId::new(7), PrintStatementId::new(8)));
    assert_eq!(vec![Header::new(false, None).bits(), 0, 7, 0, 8], bytes);
}

#[test]
fn logged_frame_decodes() {
    let mut stores = Stores::new();
    stores.save_crate(1, CrateRecord { name: "x".to_string() });
    let statement = PrintStatement {
        location: Location { file: "main.rs".to_string(), line: 18 },
        format_expression: StoredFormatExpression {
            expression: "{} and {}".to_string(),
            append_newline: true,
            expected_positional_arg_count: 2,
            expected_named_args: vec![],
        },
    };
    stores.save_print_statement(1, 2, statement.clone());

    let shared_dispatcher = SharedTestDispatcher::new();
    let mut logger: GlobalLogger<SharedTestDispatcher, TestStamper> = GlobalLogger::new();
    logger.init_alloc_logger(shared_dispatcher.clone(), None).unwrap();
    logger.write_start((CrateId::new(1), PrintStatementId::new(2)));
    logger.write_format(&"x");
    logger.write_format(&-3i32);

    let mut bytes = BytesMut::from(shared_dispatcher.bytes.borrow().as_slice());
    let mut decoder = RedefmtDecoder::new(&stores);
    let frame = decoder.decode(&mut bytes).unwrap().unwrap();

    let expected_frame = RedefmtFrame::new(
        None,
        None,
        &statement,
        DecodedValues { positional: vec![Value::String("x".to_string()), Value::I32(-3)], named: vec![] },
    );
    assert_eq!(expected_frame, frame);
    assert!(bytes.is_empty());
}
