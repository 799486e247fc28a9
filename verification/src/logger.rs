use vstd::arithmetic::power2::{lemma2_to64, lemma2_to64_rest};
use vstd::prelude::*;

use crate::buffer::be_nat;
use crate::encoding::{
    be_bytes, items_bytes, items_decode, items_models, lemma_be_bytes, lemma_items_decode,
    push_bytes, push_unsigned, value_bytes, Dispatcher, ValueItem, WriteValue,
};
use crate::errors::DecodeError;
use crate::frame::{frame_step, model_of_frame, RedefmtDecoder, RedefmtFrame};
use crate::header::{header_bits, header_from_bits, lemma_header_bits_roundtrip, Header, Level};
use crate::identifiers::{CrateId, PrintStatementId};
use crate::parse::{parse_frame, split_args, FrameModel, Parsed};
use crate::pointer_width::PointerWidth;
use crate::statements::{expected_arg_count, statement_key, StoresView};

verus! {

/// Why a logger could not be set up.
#[derive(Debug, Clone, Copy, PartialEq, Eq, Structural)]
pub enum GlobalLoggerError {
    StamperAlreadyInitialized,
    LoggerAlreadyInitialized,
}

/// Why a stamper could not be set up.
#[derive(Debug, Clone, Copy, PartialEq, Eq, Structural)]
pub enum GlobalStamperError {
    AlreadyInitialized,
}

impl GlobalLoggerError {
    /// The logger error that a failed stamper set-up is reported as.
    pub fn from_stamper_error(error: GlobalStamperError) -> (e: GlobalLoggerError)
        ensures
            e == GlobalLoggerError::StamperAlreadyInitialized,
    {
        match error {
            GlobalStamperError::AlreadyInitialized => GlobalLoggerError::StamperAlreadyInitialized,
        }
    }
}

/// A source of stamps, such as a clock or a counter.
///
/// `can_give` is what the proofs of this library speak of: the stamps that
/// `stamp` may return. A verified implementation may narrow it (a counter to
/// the values from its current one on) and prove `stamp`'s `ensures`; an
/// implementation written outside verified code keeps the default, which
/// admits every stamp, so that `stamp`'s `ensures` holds of it as written.
pub trait Stamper {
    /// Whether `stamp` may return `stamp`.
    open spec fn can_give(&self, stamp: u64) -> bool {
        true
    }

    /// The stamp of the frame being written.
    fn stamp(&self) -> (stamp: u64)
        ensures
            self.can_give(stamp),
    ;
}

/// The stamper of a logger, set up at most once.
pub struct GlobalStamper<S> {
    stamper: Option<S>,
}

impl<S: Stamper> GlobalStamper<S> {
    /// The stamper that is set, if one is.
    pub closed spec fn current(&self) -> Option<S> {
        self.stamper
    }

    /// No stamper set.
    pub fn new() -> (g: GlobalStamper<S>)
        ensures
            g.current() is None,
    {
        GlobalStamper { stamper: None }
    }

    /// Sets the stamper, unless one is already set.
    pub fn init(&mut self, stamper: S) -> (r: Result<(), GlobalStamperError>)
        ensures
            old(self).current() is None ==> r is Ok && final(self).current() == Some(stamper),
            old(self).current() is Some ==> r == Err::<(), GlobalStamperError>(
                GlobalStamperError::AlreadyInitialized,
            ) && final(self).current() == old(self).current(),
    {
        if self.stamper.is_some() {
            return Err(GlobalStamperError::AlreadyInitialized);
        }
        self.stamper = Some(stamper);
        Ok(())
    }

    /// Whether a stamper is set.
    pub fn has_stamper(&self) -> (b: bool)
        ensures
            b == self.current() is Some,
    {
        self.stamper.is_some()
    }

    /// The set stamper, if one is set.
    pub fn stamper(&self) -> (stamper: Option<&S>)
        ensures
            match stamper {
                Some(s) => self.current() == Some(*s),
                None => self.current() is None,
            },
    {
        match &self.stamper {
            Some(stamper) => Some(stamper),
            None => None,
        }
    }

    /// The stamp of the set stamper, if one is set.
    pub fn stamp(&self) -> (stamp: Option<u64>)
        ensures
            stamp is Some <==> self.current() is Some,
            self.current() matches Some(stamper) ==> stamper.can_give(stamp->Some_0),
    {
        match &self.stamper {
            Some(stamper) => Some(stamper.stamp()),
            None => None,
        }
    }
}

/// The dispatcher of a logger, set up at most once; until then, writes go
/// nowhere.
pub struct GlobalDispatcher<D> {
    dispatcher: Option<D>,
}

impl<D: Dispatcher> GlobalDispatcher<D> {
    /// The dispatcher that is set, if one is.
    pub closed spec fn current(&self) -> Option<D> {
        self.dispatcher
    }

    /// No dispatcher set.
    pub fn new() -> (g: GlobalDispatcher<D>)
        ensures
            g.current() is None,
    {
        GlobalDispatcher { dispatcher: None }
    }

    fn init_impl(&mut self, dispatcher: D) -> (r: Result<(), GlobalLoggerError>)
        ensures
            old(self).current() is None ==> r is Ok && final(self).current() == Some(dispatcher),
            old(self).current() is Some ==> r == Err::<(), GlobalLoggerError>(
                GlobalLoggerError::LoggerAlreadyInitialized,
            ) && final(self).current() == old(self).current(),
    {
        if self.dispatcher.is_some() {
            return Err(GlobalLoggerError::LoggerAlreadyInitialized);
        }
        self.dispatcher = Some(dispatcher);
        Ok(())
    }

    /// Sets a dispatcher that lives as long as the program, unless one is
    /// already set.
    pub fn init_static(&mut self, dispatcher: D) -> (r: Result<(), GlobalLoggerError>)
        ensures
            old(self).current() is None ==> r is Ok && final(self).current() == Some(dispatcher),
            old(self).current() is Some ==> r == Err::<(), GlobalLoggerError>(
                GlobalLoggerError::LoggerAlreadyInitialized,
            ) && final(self).current() == old(self).current(),
    {
        self.init_impl(dispatcher)
    }

    /// Sets a dispatcher that the logger owns, unless one is already set.
    pub fn init_alloc(&mut self, dispatcher: D) -> (r: Result<(), GlobalLoggerError>)
        ensures
            old(self).current() is None ==> r is Ok && final(self).current() == Some(dispatcher),
            old(self).current() is Some ==> r == Err::<(), GlobalLoggerError>(
                GlobalLoggerError::LoggerAlreadyInitialized,
            ) && final(self).current() == old(self).current(),
    {
        self.init_impl(dispatcher)
    }

    /// Sends bytes to the dispatcher, if one is set.
    pub fn write(&mut self, bytes: &[u8])
        ensures
            final(self).current() is Some <==> old(self).current() is Some,
            old(self).current() matches Some(d) ==> final(self).current()->Some_0.written()
                == d.written() + bytes@,
    {
        match &mut self.dispatcher {
            Some(dispatcher) => dispatcher.write(bytes),
            None => {},
        }
    }
}

/// A registry that holds the dispatcher frames are written to.
pub struct GlobalRegistry<D> {
    dispatcher: Option<D>,
}

impl<D: Dispatcher> GlobalRegistry<D> {
    /// The dispatcher that is set, if one is.
    pub closed spec fn current(&self) -> Option<D> {
        self.dispatcher
    }

    /// No dispatcher set.
    pub fn new() -> (g: GlobalRegistry<D>)
        ensures
            g.current() is None,
    {
        GlobalRegistry { dispatcher: None }
    }

    /// Sets the dispatcher.
    pub fn init(&mut self, dispatcher: D)
        ensures
            final(self).current() == Some(dispatcher),
    {
        self.dispatcher = Some(dispatcher);
    }

    /// Sends bytes to the dispatcher, if one is set.
    pub fn write(&mut self, bytes: &[u8])
        ensures
            final(self).current() is Some <==> old(self).current() is Some,
            old(self).current() matches Some(d) ==> final(self).current()->Some_0.written()
                == d.written() + bytes@,
    {
        match &mut self.dispatcher {
            Some(dispatcher) => dispatcher.write(bytes),
            None => {},
        }
    }
}

/// The header a logger on this target writes for a frame.
pub open spec fn start_header(stamp: Option<u64>) -> Header {
    Header { stamp: stamp is Some, pointer_width: PointerWidth::spec_of_target(), level: None }
}

/// The bytes that start a frame: its header, its stamp where there is one,
/// then the ids of its print statement.
pub open spec fn frame_start(stamp: Option<u64>, crate_id: u16, statement_id: u16) -> Seq<u8> {
    seq![header_bits(start_header(stamp))] + match stamp {
        Some(s) => be_bytes(s as nat, 8),
        None => Seq::empty(),
    } + be_bytes(crate_id as nat, 2) + be_bytes(statement_id as nat, 2)
}

/// The bytes that start a frame of the given print statement.
pub fn frame_start_bytes(stamp: Option<u64>, print_id: (CrateId, PrintStatementId)) -> (bytes: Vec<u8>)
    ensures
        bytes@ == frame_start(stamp, print_id.0.0, print_id.1.0),
{
    proof {
        lemma2_to64();
        lemma2_to64_rest();
    }
    let mut bytes: Vec<u8> = Vec::new();
    let header = Header::new(stamp.is_some(), None);
    bytes.push(header.bits());
    if let Some(s) = stamp {
        push_unsigned(&mut bytes, s as u128, 8);
    }
    let (crate_id, statement_id) = print_id;
    push_unsigned(&mut bytes, crate_id.0 as u128, 2);
    push_unsigned(&mut bytes, statement_id.0 as u128, 2);
    proof {
        let b = bytes@;
        assert(b =~= frame_start(stamp, print_id.0.0, print_id.1.0));
    }
    bytes
}

/// A logger: a dispatcher and, where frames are stamped, a stamper.
pub struct GlobalLogger<D, S> {
    pub dispatcher: GlobalDispatcher<D>,
    pub stamper: GlobalStamper<S>,
}

impl<D: Dispatcher, S: Stamper> GlobalLogger<D, S> {
    /// A logger with neither set.
    pub fn new() -> (logger: GlobalLogger<D, S>)
        ensures
            logger.dispatcher.current() is None,
            logger.stamper.current() is None,
    {
        GlobalLogger { dispatcher: GlobalDispatcher::new(), stamper: GlobalStamper::new() }
    }

    /// Sets the stamper, where one is given, then the dispatcher; the first
    /// that is already set is reported.
    pub fn init_static_logger(&mut self, dispatcher: D, stamper: Option<S>) -> (r: Result<
        (),
        GlobalLoggerError,
    >)
        ensures
            stamper is Some && old(self).stamper.current() is Some ==> r == Err::<
                (),
                GlobalLoggerError,
            >(GlobalLoggerError::StamperAlreadyInitialized) && final(self).dispatcher.current()
                == old(self).dispatcher.current(),
            !(stamper is Some && old(self).stamper.current() is Some) ==> {
                &&& stamper matches Some(s) ==> final(self).stamper.current() == Some(s)
                &&& stamper is None ==> final(self).stamper.current() == old(
                    self,
                ).stamper.current()
                &&& old(self).dispatcher.current() is None ==> r is Ok
                    && final(self).dispatcher.current() == Some(dispatcher)
                &&& old(self).dispatcher.current() is Some ==> r == Err::<(), GlobalLoggerError>(
                    GlobalLoggerError::LoggerAlreadyInitialized,
                ) && final(self).dispatcher.current() == old(self).dispatcher.current()
            },
    {
        if let Some(stamper) = stamper {
            if let Err(e) = self.stamper.init(stamper) {
                return Err(GlobalLoggerError::from_stamper_error(e));
            }
        }
        self.dispatcher.init_static(dispatcher)
    }

    /// As `init_static_logger`, for a dispatcher the logger owns.
    pub fn init_alloc_logger(&mut self, dispatcher: D, stamper: Option<S>) -> (r: Result<
        (),
        GlobalLoggerError,
    >)
        ensures
            stamper is Some && old(self).stamper.current() is Some ==> r == Err::<
                (),
                GlobalLoggerError,
            >(GlobalLoggerError::StamperAlreadyInitialized) && final(self).dispatcher.current()
                == old(self).dispatcher.current(),
            !(stamper is Some && old(self).stamper.current() is Some) ==> {
                &&& stamper matches Some(s) ==> final(self).stamper.current() == Some(s)
                &&& stamper is None ==> final(self).stamper.current() == old(
                    self,
                ).stamper.current()
                &&& old(self).dispatcher.current() is None ==> r is Ok
                    && final(self).dispatcher.current() == Some(dispatcher)
                &&& old(self).dispatcher.current() is Some ==> r == Err::<(), GlobalLoggerError>(
                    GlobalLoggerError::LoggerAlreadyInitialized,
                ) && final(self).dispatcher.current() == old(self).dispatcher.current()
            },
    {
        if let Some(stamper) = stamper {
            if let Err(e) = self.stamper.init(stamper) {
                return Err(GlobalLoggerError::from_stamper_error(e));
            }
        }
        self.dispatcher.init_alloc(dispatcher)
    }

    /// Writes the start of a frame of the given print statement: its header,
    /// a stamp where a stamper is set, then the statement's ids.
    pub fn write_start(&mut self, print_id: (CrateId, PrintStatementId))
        ensures
            final(self).dispatcher.current() is Some <==> old(self).dispatcher.current() is Some,
            final(self).stamper == old(self).stamper,
            old(self).dispatcher.current() matches Some(d) ==> ({
                let after = final(self).dispatcher.current()->Some_0.written();
                match old(self).stamper.current() {
                    None => after == d.written() + frame_start(None, print_id.0.0, print_id.1.0),
                    Some(stamper) => exists|stamp: u64|
                        stamper.can_give(stamp) && after == d.written() + #[trigger] frame_start(
                            Some(stamp),
                            print_id.0.0,
                            print_id.1.0,
                        ),
                }
            }),
    {
        let stamp = self.stamper.stamp();
        let bytes = frame_start_bytes(stamp, print_id);
        self.dispatcher.write(bytes.as_slice());
    }
}

impl<D: Dispatcher, S: Stamper> GlobalLogger<D, S> {
    /// Writes one argument of the frame being written: its hint, then its
    /// raw bytes.
    pub fn write_format(&mut self, value: &dyn WriteValue)
        ensures
            final(self).dispatcher.current() is Some <==> old(self).dispatcher.current() is Some,
            final(self).stamper == old(self).stamper,
            old(self).dispatcher.current() matches Some(d) ==> final(self).dispatcher.current()->Some_0.written()
                == d.written() + value_bytes(value),
    {
        let mut bytes: Vec<u8> = Vec::new();
        value.encode_value(&mut bytes);
        assert(bytes@ =~= value_bytes(value));
        self.dispatcher.write(bytes.as_slice());
    }
}

/// A frame that a logger on this target writes, with the values of its
/// arguments written after its start, reads back as the print statement's
/// frame with those values: whatever follows it, with its stamp, and with
/// the arguments split as the statement's format expression expects.
pub proof fn lemma_frame_roundtrip(
    st: StoresView,
    stamp: Option<u64>,
    crate_id: u16,
    statement_id: u16,
    items: Seq<ValueItem>,
    rest: Seq<u8>,
)
    requires
        st.crates.contains_key(crate_id),
        st.prints.contains_key(statement_key(crate_id, statement_id)),
        expected_arg_count(st.prints[statement_key(crate_id, statement_id)].format_expression)
            == items.len(),
        items_decode(st, items),
    ensures
        ({
            let ps = st.prints[statement_key(crate_id, statement_id)];
            let fe = ps.format_expression;
            let start = frame_start(stamp, crate_id, statement_id);
            parse_frame(st, start + items_bytes(items) + rest) == Parsed::Done(
                FrameModel {
                    level: None,
                    stamp,
                    file_name: ps.location.file@,
                    file_line: ps.location.line,
                    format_expression: fe.expression@,
                    append_newline: fe.append_newline,
                    decoded_values: split_args(fe, items_models(items)),
                },
                start.len() + items_bytes(items).len(),
            )
        }),
{
    lemma2_to64();
    lemma2_to64_rest();
    let header = start_header(stamp);
    lemma_header_bits_roundtrip(header, header_bits(header));
    let start = frame_start(stamp, crate_id, statement_id);
    let body = items_bytes(items);
    let s = start + body + rest;
    let sl: int = if stamp is Some {
        8
    } else {
        0
    };
    let stamp_bytes = match stamp {
        Some(x) => be_bytes(x as nat, 8),
        None => Seq::<u8>::empty(),
    };
    if let Some(x) = stamp {
        lemma_be_bytes(x as nat, 8);
        assert(s.subrange(1, 9) =~= be_bytes(x as nat, 8));
    }
    lemma_be_bytes(crate_id as nat, 2);
    lemma_be_bytes(statement_id as nat, 2);
    assert(start =~= seq![header_bits(header)] + stamp_bytes + be_bytes(crate_id as nat, 2)
        + be_bytes(statement_id as nat, 2));
    assert(start.len() == 1 + sl + 4);
    assert(s[0] == header_bits(header));
    let r = s.skip(1 + sl);
    assert(r.take(2) =~= be_bytes(crate_id as nat, 2));
    assert(r.subrange(2, 4) =~= be_bytes(statement_id as nat, 2));
    assert(r.skip(4) =~= body + rest);
    lemma_items_decode(st, items, rest);
}

/// A frame decoder waiting for a header, fed a frame that a logger on this
/// target writes followed by anything, reports in one call the print
/// statement's frame with the values of its arguments, leaves exactly what
/// follows, and waits for the next header.
pub proof fn lemma_frame_decoder_reads_back<'a>(
    d0: RedefmtDecoder<'a>,
    d1: RedefmtDecoder<'a>,
    stamp: Option<u64>,
    crate_id: u16,
    statement_id: u16,
    items: Seq<ValueItem>,
    rest: Seq<u8>,
    src_after: Seq<u8>,
    r: Result<Option<RedefmtFrame>, DecodeError>,
)
    requires
        d0.consumed() == Seq::<u8>::empty(),
        d0.stores_view().crates.contains_key(crate_id),
        d0.stores_view().prints.contains_key(statement_key(crate_id, statement_id)),
        expected_arg_count(
            d0.stores_view().prints[statement_key(crate_id, statement_id)].format_expression,
        ) == items.len(),
        items_decode(d0.stores_view(), items),
        frame_step(
            d0,
            d1,
            frame_start(stamp, crate_id, statement_id) + items_bytes(items) + rest,
            src_after,
            r,
        ),
    ensures
        ({
            let ps = d0.stores_view().prints[statement_key(crate_id, statement_id)];
            let fe = ps.format_expression;
            r matches Ok(Some(f)) && model_of_frame(f) == FrameModel {
                level: None,
                stamp,
                file_name: ps.location.file@,
                file_line: ps.location.line,
                format_expression: fe.expression@,
                append_newline: fe.append_newline,
                decoded_values: split_args(fe, items_models(items)),
            }
        }),
        src_after == rest,
        d1.consumed() == Seq::<u8>::empty(),
{
    let st = d0.stores_view();
    lemma_frame_roundtrip(st, stamp, crate_id, statement_id, items, rest);
    let start = frame_start(stamp, crate_id, statement_id);
    let body = items_bytes(items);
    let input = d0.consumed() + (start + body + rest);
    assert(input =~= start + body + rest);
    assert(input.skip((start.len() + body.len()) as int) =~= rest);
}

} // verus!
