use tokio_util::bytes::BytesMut;
use vstd::prelude::*;

use crate::buffer::{
    be_nat, buffer_bytes, buffer_try_get_u16, buffer_try_get_u64, buffer_try_get_u8,
};
use crate::decoders::{dyn_error_taken, dyn_pause_taken, finished, SegmentsDecoder};
use crate::errors::{DecodeError, StatementKind};
use crate::header::{header_from_bits, Header, Level};
use crate::parse::{parse_dyn_elems, parse_frame, split_args, FrameModel, Parsed};
use crate::statements::{expected_arg_count, statement_key, PrintStatement, Stores, StoresView};
use crate::taken::lemma_dyn_taken_stated;
use crate::values::{model_of_decoded, DecodedValues};

verus! {

/// A decoded frame: what the print statement was, where it stands, and the
/// values of its arguments.
#[derive(Debug, PartialEq)]
pub struct RedefmtFrame {
    pub level: Option<Level>,
    pub stamp: Option<u64>,
    pub file_name: String,
    pub file_line: u32,
    pub format_expression: String,
    pub append_newline: bool,
    pub decoded_values: DecodedValues,
}

/// The model of a decoded frame.
pub open spec fn model_of_frame(frame: RedefmtFrame) -> FrameModel {
    FrameModel {
        level: frame.level,
        stamp: frame.stamp,
        file_name: frame.file_name@,
        file_line: frame.file_line,
        format_expression: frame.format_expression@,
        append_newline: frame.append_newline,
        decoded_values: model_of_decoded(frame.decoded_values),
    }
}

impl RedefmtFrame {
    /// A frame of the given print statement, with the statement's location
    /// and format expression taken from it.
    pub fn new(
        level: Option<Level>,
        stamp: Option<u64>,
        print_statement: &PrintStatement,
        decoded_values: DecodedValues,
    ) -> (frame: RedefmtFrame)
        ensures
            frame.level == level,
            frame.stamp == stamp,
            frame.file_name == print_statement.location.file,
            frame.file_line == print_statement.location.line,
            frame.format_expression == print_statement.format_expression.expression,
            frame.append_newline == print_statement.format_expression.append_newline,
            frame.decoded_values == decoded_values,
    {
        RedefmtFrame {
            level,
            stamp,
            file_name: print_statement.location.file.clone(),
            file_line: print_statement.location.line,
            format_expression: print_statement.format_expression.expression.clone(),
            append_newline: print_statement.format_expression.append_newline,
            decoded_values,
        }
    }
}

/// A frame whose header says a stamp follows.
pub struct WantsStampStage {
    pub header: Header,
}

/// A frame whose print statement's crate id is next.
pub struct WantsPrintCrateIdStage {
    pub header: Header,
    pub stamp: Option<u64>,
}

/// A frame whose print statement id is next.
pub struct WantsPrintStatementIdStage {
    pub header: Header,
    pub stamp: Option<u64>,
    pub print_crate: u16,
}

/// A frame whose arguments are next.
pub struct WantsPrintStatementStage<'a> {
    pub level: Option<Level>,
    pub stamp: Option<u64>,
    pub print_statement: &'a PrintStatement,
    pub segment_decoder: SegmentsDecoder<'a>,
}

/// What the frame decoder reads next.
pub enum FrameDecoderWants<'a> {
    Header,
    Stamp(WantsStampStage),
    PrintCrateId(WantsPrintCrateIdStage),
    PrintStatementId(WantsPrintStatementIdStage),
    PrintStatement(WantsPrintStatementStage<'a>),
}

impl WantsPrintCrateIdStage {
    /// The stage after the crate id.
    pub fn next<'a>(self, print_crate: u16) -> (wants: FrameDecoderWants<'a>)
        ensures
            wants == FrameDecoderWants::<'a>::PrintStatementId(
                WantsPrintStatementIdStage { header: self.header, stamp: self.stamp, print_crate },
            ),
    {
        let WantsPrintCrateIdStage { header, stamp } = self;
        FrameDecoderWants::PrintStatementId(WantsPrintStatementIdStage { header, stamp, print_crate })
    }
}

impl WantsPrintStatementIdStage {
    /// The stage after the print statement id: the statement's arguments.
    pub fn next<'a>(self, print_statement: &'a PrintStatement) -> (wants: FrameDecoderWants<'a>)
        ensures
            wants matches FrameDecoderWants::PrintStatement(stage) && stage.level == self.header.level
                && stage.stamp == self.stamp && *stage.print_statement == *print_statement
                && stage.segment_decoder.expression() == print_statement.format_expression
                && stage.segment_decoder.width() == self.header.pointer_width
                && stage.segment_decoder.consumed() == Seq::<u8>::empty() && forall|st: StoresView|
                #[trigger] stage.segment_decoder.wf(st),
    {
        let level = self.header.level;
        let segment_decoder = SegmentsDecoder::new(
            self.header.pointer_width,
            &print_statement.format_expression,
        );
        FrameDecoderWants::PrintStatement(
            WantsPrintStatementStage { level, stamp: self.stamp, print_statement, segment_decoder },
        )
    }
}

/// The number of bytes of a frame's header and stamp.
pub open spec fn head_len(header: Header) -> nat {
    if header.stamp {
        9
    } else {
        1
    }
}

/// `c` starts with the given header and, where it says so, the given stamp.
pub open spec fn head_of(c: Seq<u8>, header: Header, stamp: Option<u64>) -> bool {
    &&& c.len() >= head_len(header)
    &&& header_from_bits(c[0]) == Some(header)
    &&& stamp == if header.stamp {
        Some(be_nat(c.subrange(1, 9)) as u64)
    } else {
        None
    }
}

/// Decodes frames from a byte stream, over as many calls as their bytes
/// take to arrive.
pub struct RedefmtDecoder<'a> {
    stores: &'a Stores,
    stage: FrameDecoderWants<'a>,
    consumed: Ghost<Seq<u8>>,
}

/// What a call of `RedefmtDecoder::decode` reports, against the parse of all
/// the bytes of the frame it has been fed. After a frame, and after an
/// error, the decoder waits for the header of the next frame.
pub open spec fn frame_step<'a>(
    before: RedefmtDecoder<'a>,
    after: RedefmtDecoder<'a>,
    src_before: Seq<u8>,
    src_after: Seq<u8>,
    r: Result<Option<RedefmtFrame>, DecodeError>,
) -> bool {
    let input = before.consumed() + src_before;
    let parsed = parse_frame(before.stores_view(), input);
    &&& after.wf()
    &&& after.stores_view() == before.stores_view()
    &&& match r {
        Ok(Some(frame)) => {
            &&& finished(parsed, model_of_frame(frame), input, src_after)
            &&& after.consumed() == Seq::<u8>::empty()
        },
        Ok(None) => {
            &&& parsed is Incomplete
            &&& after.consumed() + src_after == input
            &&& input.len() < ids_end(input) ==> after.consumed().len() == head_taken(input)
            &&& input.len() >= ids_end(input) ==> after.consumed().len() >= ids_end(input)
            &&& input.len() >= ids_end(input) ==> (frame_args_pause_taken(before.stores_view(), input)
                matches Some(t) && after.consumed().len() == ids_end(input) + t)
        },
        Err(e) => {
            &&& parsed == Parsed::<FrameModel>::Failed(e)
            &&& after.consumed() == Seq::<u8>::empty()
            &&& frame_error_taken(before.stores_view(), input) matches Some(k) && k <= input.len()
                && src_after == input.skip(k as int)
        },
    }
}

/// Where the print statement's arguments begin in the frame `input`: after
/// the header byte, the stamp where the header says one follows, and the
/// crate and statement ids (1 where the first byte is no header).
pub open spec fn ids_end(input: Seq<u8>) -> nat {
    match header_from_bits(input[0]) {
        Some(header) => head_len(header) + 4,
        None => 1,
    }
}

/// How many bytes of `input` the frame decoder has taken when the frame is
/// unfinished before its arguments: the header byte at once, then the
/// stamp, the crate id and the statement id, each once all its bytes are
/// there.
pub open spec fn head_taken(input: Seq<u8>) -> nat {
    if input.len() == 0 {
        0
    } else {
        match header_from_bits(input[0]) {
            None => 1,
            Some(header) => {
                let h = head_len(header);
                if input.len() < h {
                    1
                } else if input.len() < h + 2 {
                    h
                } else if input.len() < h + 4 {
                    h + 2
                } else {
                    h + 4
                }
            },
        }
    }
}

/// How many bytes of the unfinished arguments of the frame `input` the
/// decoder has taken, as `dyn_pause_taken` says, once the ids are there.
pub open spec fn frame_args_pause_taken(st: StoresView, input: Seq<u8>) -> Option<nat> {
    if input.len() == 0 {
        None
    } else {
        match header_from_bits(input[0]) {
            None => None,
            Some(header) => {
                let h = head_len(header) as int;
                if input.len() < h + 4 {
                    None
                } else {
                    let c = be_nat(input.subrange(h, h + 2)) as u16;
                    let key = statement_key(c, be_nat(input.subrange(h + 2, h + 4)) as u16);
                    if st.crates.contains_key(c) && st.prints.contains_key(key) {
                        dyn_pause_taken(
                            st,
                            header.pointer_width,
                            expected_arg_count(st.prints[key].format_expression),
                            input.skip(h + 4),
                        )
                    } else {
                        None
                    }
                }
            },
        }
    }
}

/// Where a frame fails, how many of its bytes the decoder has taken: the
/// unknown header byte, everything up to the unknown crate id or up to the
/// unknown print statement id, or, in the arguments, what
/// `dyn_error_taken` says after the ids.
pub open spec fn frame_error_taken(st: StoresView, input: Seq<u8>) -> Option<nat> {
    if input.len() == 0 {
        None
    } else {
        match header_from_bits(input[0]) {
            None => Some(1),
            Some(header) => {
                let h = head_len(header) as int;
                if input.len() < h + 2 {
                    None
                } else {
                    let c = be_nat(input.subrange(h, h + 2)) as u16;
                    if !st.crates.contains_key(c) {
                        Some((h + 2) as nat)
                    } else if input.len() < h + 4 {
                        None
                    } else {
                        let id = be_nat(input.subrange(h + 2, h + 4)) as u16;
                        if !st.prints.contains_key(statement_key(c, id)) {
                            Some((h + 4) as nat)
                        } else {
                            match dyn_error_taken(
                                st,
                                header.pointer_width,
                                expected_arg_count(st.prints[statement_key(c, id)].format_expression),
                                input.skip(h + 4),
                            ) {
                                Some(t) => Some((h + 4 + t) as nat),
                                None => None,
                            }
                        }
                    }
                }
            },
        }
    }
}

/// Wherever a frame fails, `frame_error_taken` states how many of its bytes
/// the decoder has taken; wherever it is unfinished in its arguments,
/// `frame_args_pause_taken` does.
pub proof fn lemma_frame_taken_stated(st: StoresView, input: Seq<u8>)
    ensures
        parse_frame(st, input) is Failed ==> frame_error_taken(st, input) is Some,
        parse_frame(st, input) is Incomplete && input.len() >= ids_end(input)
            ==> frame_args_pause_taken(st, input) is Some,
{
    if input.len() >= 1 {
        if let Some(header) = header_from_bits(input[0]) {
            let h = head_len(header) as int;
            let r = input.skip(h);
            if input.len() >= h + 4 {
                assert(r.take(2) =~= input.subrange(h, h + 2));
                assert(r.subrange(2, 4) =~= input.subrange(h + 2, h + 4));
                assert(r.skip(4) =~= input.skip(h + 4));
                let c = be_nat(input.subrange(h, h + 2)) as u16;
                let key = statement_key(c, be_nat(input.subrange(h + 2, h + 4)) as u16);
                if st.crates.contains_key(c) && st.prints.contains_key(key) {
                    lemma_dyn_taken_stated(
                        st,
                        header.pointer_width,
                        expected_arg_count(st.prints[key].format_expression),
                        input.skip(h + 4),
                    );
                }
            } else if input.len() >= h + 2 {
                assert(r.take(2) =~= input.subrange(h, h + 2));
            }
        }
    }
}

impl<'a> RedefmtDecoder<'a> {
    /// What the registered crates and statements hold.
    pub closed spec fn stores_view(&self) -> StoresView {
        self.stores@
    }

    /// The bytes of the current frame taken from the buffer so far.
    pub closed spec fn consumed(&self) -> Seq<u8> {
        self.consumed@
    }

    /// The stage holds what the consumed bytes say.
    pub closed spec fn wf(&self) -> bool {
        let st = self.stores@;
        let c = self.consumed@;
        match self.stage {
            FrameDecoderWants::Header => c == Seq::<u8>::empty(),
            FrameDecoderWants::Stamp(stage) => {
                &&& c.len() == 1
                &&& header_from_bits(c[0]) == Some(stage.header)
                &&& stage.header.stamp
            },
            FrameDecoderWants::PrintCrateId(stage) => {
                &&& head_of(c, stage.header, stage.stamp)
                &&& c.len() == head_len(stage.header)
            },
            FrameDecoderWants::PrintStatementId(stage) => {
                let h = head_len(stage.header) as int;
                &&& head_of(c, stage.header, stage.stamp)
                &&& c.len() == h + 2
                &&& be_nat(c.subrange(h as int, h + 2)) == stage.print_crate
                &&& st.crates.contains_key(stage.print_crate)
            },
            FrameDecoderWants::PrintStatement(stage) => {
                let header = header_from_bits(c[0])->Some_0;
                let h = head_len(header) as int;
                let crate_id = be_nat(c.subrange(h as int, h + 2)) as u16;
                let id = be_nat(c.subrange(h + 2, h + 4)) as u16;
                let key = statement_key(crate_id, id);
                &&& header_from_bits(c[0]) is Some
                &&& head_of(c, header, stage.stamp)
                &&& c.len() == h + 4 + stage.segment_decoder.consumed().len()
                &&& c.skip(h + 4) == stage.segment_decoder.consumed()
                &&& st.crates.contains_key(crate_id)
                &&& st.prints.contains_key(key)
                &&& st.prints[key] == *stage.print_statement
                &&& stage.level == header.level
                &&& stage.segment_decoder.expression() == stage.print_statement.format_expression
                &&& stage.segment_decoder.width() == header.pointer_width
                &&& stage.segment_decoder.wf(st)
            },
        }
    }

    /// A decoder that waits for the header of a frame, looking statements
    /// up in `stores`.
    pub fn new(stores: &'a Stores) -> (decoder: RedefmtDecoder<'a>)
        ensures
            decoder.wf(),
            decoder.stores_view() == stores@,
            decoder.consumed() == Seq::<u8>::empty(),
    {
        RedefmtDecoder { stores, stage: FrameDecoderWants::Header, consumed: Ghost(Seq::empty()) }
    }

    /// What the decoder reads next.
    pub closed spec fn spec_stage(&self) -> FrameDecoderWants<'a> {
        self.stage
    }

    /// What the decoder reads next, with what it has read of the frame.
    pub fn stage(&self) -> (stage: &FrameDecoderWants<'a>)
        ensures
            *stage == self.spec_stage(),
    {
        &self.stage
    }

    /// Whether the decoder waits for the header of a frame.
    pub fn wants_header(&self) -> (b: bool)
        requires
            self.wf(),
        ensures
            b == (self.consumed() == Seq::<u8>::empty()),
    {
        match self.stage {
            FrameDecoderWants::Header => true,
            FrameDecoderWants::Stamp(_) => false,
            FrameDecoderWants::PrintCrateId(_) => false,
            FrameDecoderWants::PrintStatementId(_) => false,
            FrameDecoderWants::PrintStatement(_) => false,
        }
    }

    /// Feeds the decoder what the buffer holds. It gives the frame once its
    /// last byte has arrived, leaving what follows in the buffer; until then
    /// it takes what it can and gives nothing.
    #[verifier::rlimit(100)]
    pub fn decode(&mut self, src: &mut BytesMut) -> (r: Result<Option<RedefmtFrame>, DecodeError>)
        requires
            old(self).wf(),
        ensures
            frame_step(*old(self), *final(self), buffer_bytes(*old(src)), buffer_bytes(*final(src)), r),
            buffer_bytes(*final(src)).len() <= buffer_bytes(*old(src)).len(),
        decreases buffer_bytes(*old(src)).len(),
    {
        let ghost st = self.stores@;
        let ghost input = self.consumed@ + buffer_bytes(*src);
        proof {
            lemma_frame_taken_stated(st, input);
        }
        let mut current = FrameDecoderWants::Header;
        std::mem::swap(&mut current, &mut self.stage);
        match current {
            FrameDecoderWants::Header => {
                assert(input =~= buffer_bytes(*src));
                let header_byte = match buffer_try_get_u8(src) {
                    None => {
                        return Ok(None);
                    },
                    Some(byte) => byte,
                };
                let header = match Header::from_bits(header_byte) {
                    None => {
                        return Err(DecodeError::UnknownHeader(header_byte));
                    },
                    Some(header) => header,
                };
                let ghost c = seq![header_byte];
                self.consumed = Ghost(c);
                if header.has_stamp() {
                    self.stage = FrameDecoderWants::Stamp(WantsStampStage { header });
                } else {
                    self.stage = FrameDecoderWants::PrintCrateId(
                        WantsPrintCrateIdStage { header, stamp: None },
                    );
                }
                assert(input =~= self.consumed@ + buffer_bytes(*src));
                self.decode(src)
            },
            FrameDecoderWants::Stamp(stage) => {
                let ghost before = buffer_bytes(*src);
                match buffer_try_get_u64(src) {
                    None => {
                        self.stage = FrameDecoderWants::Stamp(stage);
                        Ok(None)
                    },
                    Some(stamp) => {
                        let ghost c = self.consumed@ + before.take(8);
                        self.consumed = Ghost(c);
                        self.stage = FrameDecoderWants::PrintCrateId(
                            WantsPrintCrateIdStage { header: stage.header, stamp: Some(stamp) },
                        );
                        proof {
                            assert(input =~= self.consumed@ + buffer_bytes(*src));
                            assert(c.subrange(1, 9) =~= before.take(8));
                        }
                        self.decode(src)
                    },
                }
            },
            FrameDecoderWants::PrintCrateId(stage) => {
                let ghost before = buffer_bytes(*src);
                let ghost self_consumed = self.consumed@;
                let ghost stage_header = stage.header;
                let ghost h: int = head_len(stage.header) as int;
                match buffer_try_get_u16(src) {
                    None => {
                        self.stage = FrameDecoderWants::PrintCrateId(stage);
                        proof {
                            assert(input.skip(h) =~= before);
                        }
                        Ok(None)
                    },
                    Some(print_crate) => {
                        proof {
                            assert(input.skip(h) =~= before);
                            assert(input.skip(h).take(2) =~= before.take(2));
                        }
                        if self.stores.get_crate(print_crate).is_none() {
                            self.consumed = Ghost(Seq::empty());
                            proof {
                                assert(input.subrange(h, h + 2) =~= before.take(2));
                                assert(input[0] == self_consumed[0]);
                                assert(input.skip(h + 2) =~= buffer_bytes(*src));
                            }
                            return Err(DecodeError::UnknownCrate(print_crate));
                        }
                        let ghost c = self.consumed@ + before.take(2);
                        self.consumed = Ghost(c);
                        self.stage = stage.next(print_crate);
                        proof {
                            assert(input =~= self.consumed@ + buffer_bytes(*src));
                            assert(c.subrange(h as int, h + 2) =~= before.take(2));
                            assert(c[0] == self_consumed[0]);
                            if stage_header.stamp {
                                assert(c.subrange(1, 9) =~= self_consumed.subrange(1, 9));
                            }
                        }
                        self.decode(src)
                    },
                }
            },
            FrameDecoderWants::PrintStatementId(stage) => {
                let ghost before = buffer_bytes(*src);
                let ghost self_consumed = self.consumed@;
                let ghost stage_header = stage.header;
                let ghost h: int = head_len(stage.header) as int;
                let ghost rest = input.skip(h);
                proof {
                    assert(rest.take(2) =~= self.consumed@.subrange(h as int, h + 2));
                    assert(rest.skip(2) =~= before);
                }
                match buffer_try_get_u16(src) {
                    None => {
                        self.stage = FrameDecoderWants::PrintStatementId(stage);
                        Ok(None)
                    },
                    Some(id) => {
                        proof {
                            assert(rest.subrange(2, 4) =~= before.take(2));
                        }
                        let print_statement = match self.stores.get_print_statement(
                            stage.print_crate,
                            id,
                        ) {
                            None => {
                                self.consumed = Ghost(Seq::empty());
                                let crate_name = match self.stores.get_crate(stage.print_crate) {
                                    Some(record) => record.name.clone(),
                                    None => {
                                        proof {
                                            assert(false);
                                        }
                                        String::new()
                                    },
                                };
                                proof {
                                    assert(input.subrange(h, h + 2) =~= self_consumed.subrange(h, h + 2));
                                    assert(input.subrange(h + 2, h + 4) =~= before.take(2));
                                    assert(input[0] == self_consumed[0]);
                                    assert(input.skip(h + 4) =~= buffer_bytes(*src));
                                }
                                return Err(
                                    DecodeError::UnknownStatement(
                                        id,
                                        StatementKind::Print,
                                        crate_name,
                                    ),
                                );
                            },
                            Some(print_statement) => print_statement,
                        };
                        let ghost c = self.consumed@ + before.take(2);
                        self.consumed = Ghost(c);
                        let ghost header = stage.header;
                        self.stage = stage.next(print_statement);
                        proof {
                            assert(input =~= self.consumed@ + buffer_bytes(*src));
                            assert(c.subrange(h as int, h + 2) =~= rest.take(2));
                            assert(c.subrange(h + 2, h + 4) =~= before.take(2));
                            assert(c[0] == self_consumed[0]);
                            if stage_header.stamp {
                                assert(c.subrange(1, 9) =~= self_consumed.subrange(1, 9));
                            }
                            assert(c.skip(h + 4) =~= Seq::<u8>::empty());
                        }
                        self.decode(src)
                    },
                }
            },
            FrameDecoderWants::PrintStatement(mut stage) => {
                let ghost c = self.consumed@;
                let ghost header = header_from_bits(c[0])->Some_0;
                let ghost h: int = head_len(header) as int;
                let ghost body = stage.segment_decoder.consumed() + buffer_bytes(*src);
                let ghost ps = *stage.print_statement;
                proof {
                    assert(input =~= c.take(h + 4) + body);
                    assert(input.skip(h).take(2) =~= c.subrange(h as int, h + 2));
                    assert(input.skip(h).subrange(2, 4) =~= c.subrange(h + 2, h + 4));
                    assert(input.skip(h).skip(4) =~= body);
                    if header.stamp {
                        assert(input.subrange(1, 9) =~= c.subrange(1, 9));
                    }
                }
                match stage.segment_decoder.decode(self.stores, src) {
                    Err(e) => {
                        self.consumed = Ghost(Seq::empty());
                        proof {
                            assert(input.subrange(h, h + 2) =~= c.subrange(h as int, h + 2));
                            assert(input.subrange(h + 2, h + 4) =~= c.subrange(h + 2, h + 4));
                            assert(input[0] == c[0]);
                            assert(input.skip(h + 4) =~= body);
                            if let Some(t) = dyn_error_taken(
                                st,
                                header.pointer_width,
                                expected_arg_count(ps.format_expression),
                                body,
                            ) {
                                assert(input.skip(h + 4 + t) =~= body.skip(t as int));
                            }
                        }
                        Err(e)
                    },
                    Ok(None) => {
                        let ghost sc = stage.segment_decoder.consumed();
                        proof {
                            assert(input.subrange(h, h + 2) =~= c.subrange(h as int, h + 2));
                            assert(input.subrange(h + 2, h + 4) =~= c.subrange(h + 2, h + 4));
                            assert(input[0] == c[0]);
                            assert(input.skip(h + 4) =~= body);
                        }
                        let ghost c2 = c.take(h + 4) + sc;
                        self.consumed = Ghost(c2);
                        self.stage = FrameDecoderWants::PrintStatement(stage);
                        proof {
                            assert(c2.take(h + 4) =~= c.take(h + 4));
                            assert(c2.skip(h + 4) =~= sc);
                            assert(c2[0] == c[0]);
                            if header.stamp {
                                assert(c2.subrange(1, 9) =~= c.subrange(1, 9));
                            }
                            assert(c2.subrange(h as int, h + 2) =~= c.subrange(h as int, h + 2));
                            assert(c2.subrange(h + 2, h + 4) =~= c.subrange(h + 2, h + 4));
                            assert(c2 + buffer_bytes(*src) =~= c.take(h + 4) + (sc + buffer_bytes(
                                *src,
                            )));
                        }
                        Ok(None)
                    },
                    Ok(Some(decoded_values)) => {
                        let frame = RedefmtFrame::new(
                            stage.level,
                            stage.stamp,
                            stage.print_statement,
                            decoded_values,
                        );
                        self.consumed = Ghost(Seq::empty());
                        proof {
                            let k = parse_dyn_elems(
                                st,
                                header.pointer_width,
                                expected_arg_count(ps.format_expression),
                                body,
                            )->Done_1;
                            assert(input.skip(h + 4 + k) =~= body.skip(k as int));
                        }
                        Ok(Some(frame))
                    },
                }
            },
        }
    }
}

/// Feeding the decoder a frame's bytes in two pieces reports what feeding
/// them at once reports: where the first call leaves the frame unfinished,
/// the second call, given what the first left in the buffer followed by the
/// next piece, reports the parse of all the bytes fed since the frame began.
pub proof fn lemma_frame_pieces<'a>(
    d0: RedefmtDecoder<'a>,
    d1: RedefmtDecoder<'a>,
    d2: RedefmtDecoder<'a>,
    first: Seq<u8>,
    left: Seq<u8>,
    second: Seq<u8>,
    rest: Seq<u8>,
    r: Result<Option<RedefmtFrame>, DecodeError>,
)
    requires
        frame_step(d0, d1, first, left, Ok(None)),
        frame_step(d1, d2, left + second, rest, r),
    ensures
        frame_step(d0, d2, first + second, rest, r),
{
    assert(d1.consumed() + left == d0.consumed() + first);
    assert(d1.consumed() + (left + second) =~= (d1.consumed() + left) + second);
    assert(d0.consumed() + (first + second) =~= (d0.consumed() + first) + second);
}

/// The bytes of the first `n` chunks, one after the other.
pub open spec fn chunks_fed(chunks: Seq<Seq<u8>>, n: nat) -> Seq<u8>
    decreases n,
{
    if n == 0 {
        Seq::empty()
    } else {
        chunks_fed(chunks, (n - 1) as nat) + chunks[n - 1]
    }
}

/// What the buffer holds before chunk `i` is appended: nothing before the
/// first chunk, and afterwards what the previous call left.
pub open spec fn left_before(lefts: Seq<Seq<u8>>, i: nat) -> Seq<u8> {
    if i == 0 {
        Seq::empty()
    } else {
        lefts[i - 1]
    }
}

/// Each of the first `n` calls, fed what the previous call left followed by
/// the next chunk, reported the frame unfinished and left `lefts[i]`.
pub open spec fn chunk_calls_pause<'a>(
    ds: Seq<RedefmtDecoder<'a>>,
    chunks: Seq<Seq<u8>>,
    lefts: Seq<Seq<u8>>,
    n: nat,
) -> bool {
    forall|i: int|
        0 <= i < n ==> #[trigger] frame_step(
            ds[i],
            ds[i + 1],
            left_before(lefts, i as nat) + chunks[i],
            lefts[i],
            Ok(None),
        )
}

proof fn lemma_frame_chunks_pause<'a>(
    ds: Seq<RedefmtDecoder<'a>>,
    chunks: Seq<Seq<u8>>,
    lefts: Seq<Seq<u8>>,
    n: nat,
)
    requires
        1 <= n,
        n < ds.len(),
        n <= chunks.len(),
        n <= lefts.len(),
        chunk_calls_pause(ds, chunks, lefts, n),
    ensures
        frame_step(ds[0], ds[n as int], chunks_fed(chunks, n), lefts[n - 1], Ok(None)),
    decreases n,
{
    if n == 1 {
        reveal_with_fuel(chunks_fed, 2);
        let i: int = 0;
        assert(frame_step(ds[i], ds[i + 1], left_before(lefts, i as nat) + chunks[i], lefts[i], Ok(None)));
        assert(left_before(lefts, 0) + chunks[0] =~= chunks_fed(chunks, 1));
    } else {
        let m = (n - 1) as nat;
        assert(chunk_calls_pause(ds, chunks, lefts, m));
        lemma_frame_chunks_pause(ds, chunks, lefts, m);
        let i: int = m as int;
        assert(frame_step(ds[i], ds[i + 1], left_before(lefts, i as nat) + chunks[i], lefts[i], Ok(None)));
        lemma_frame_pieces(
            ds[0],
            ds[m as int],
            ds[n as int],
            chunks_fed(chunks, m),
            lefts[m - 1],
            chunks[m as int],
            lefts[m as int],
            Ok(None),
        );
    }
}

/// Feeding the decoder a frame's bytes in any number of chunks reports what
/// feeding them in one buffer reports: where each call but the last, given
/// what the call before left in the buffer followed by the next chunk,
/// reports the frame unfinished, the last call reports the result and the
/// rest of a single call on all the chunks one after the other.
pub proof fn lemma_frame_chunks<'a>(
    ds: Seq<RedefmtDecoder<'a>>,
    chunks: Seq<Seq<u8>>,
    lefts: Seq<Seq<u8>>,
    rest: Seq<u8>,
    r: Result<Option<RedefmtFrame>, DecodeError>,
)
    requires
        chunks.len() >= 1,
        ds.len() == chunks.len() + 1,
        lefts.len() + 1 == chunks.len(),
        chunk_calls_pause(ds, chunks, lefts, lefts.len()),
        frame_step(
            ds[lefts.len() as int],
            ds[chunks.len() as int],
            left_before(lefts, lefts.len()) + chunks[lefts.len() as int],
            rest,
            r,
        ),
    ensures
        frame_step(ds[0], ds[chunks.len() as int], chunks_fed(chunks, chunks.len()), rest, r),
{
    let k = chunks.len();
    let m = lefts.len();
    if m == 0 {
        reveal_with_fuel(chunks_fed, 2);
        assert(left_before(lefts, 0) + chunks[0] =~= chunks_fed(chunks, 1));
    } else {
        lemma_frame_chunks_pause(ds, chunks, lefts, m);
        lemma_frame_pieces(
            ds[0],
            ds[m as int],
            ds[k as int],
            chunks_fed(chunks, m),
            lefts[m - 1],
            chunks[m as int],
            rest,
            r,
        );
        assert(chunks_fed(chunks, m) + chunks[m as int] =~= chunks_fed(chunks, k));
    }
}

} // verus!
