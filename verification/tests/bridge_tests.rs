use std::ops::Deref;

use pyroduct::bow::BowHolder;
use pyroduct::bridgeable::{
    Bridgeable, Decoder, Encoder, OptionDecoder, OptionEncoder, ResultDecoder, ResultEncoder,
    TypedView,
};
use pyroduct::error::{ErrorKind, PyroError, PyroResult};
use pyroduct::execution::{PyroFailure, PyroLogs, ResponseIndex};
use pyroduct::format::{
    write_result, MutWrapper, Parser, PyroFormat, PyroHeaderValues, ReadError, TypedWrapper,
    UserHeaderValues, Wrapper, Writer,
};
use pyroduct::header::{DataStatus, ParseError, PyroHeader, PyroHeaderMut};
use pyroduct::vec_buf::{PyroRef, PyroVec, PyroView};

// ─── A byte-copying encoding, for the tests ────────────────────────────────

#[derive(Debug, PartialEq)]
struct Msg(Vec<u8>);

#[derive(Default)]
struct BytesEncoder;

impl Encoder<Msg> for BytesEncoder {
    // Specification items are for the verifier; nothing runs them.
    fn spec_encode(&self, _val: Msg) -> Result<vstd::seq::Seq<u8>, PyroError> {
        unreachable!("a specification item is never run")
    }

    fn encode(&mut self, val: &Msg) -> Result<PyroVec, PyroError> {
        let mut v = PyroVec::with_capacity(val.0.len());
        v.extend_from_slice(&val.0);
        Ok(v)
    }
}

#[derive(Default)]
struct BytesDecoder;

impl<'a> Decoder<'a, Msg> for BytesDecoder {
    fn spec_decode(&self, _p: vstd::seq::Seq<u8>) -> Result<Msg, PyroError> {
        unreachable!("a specification item is never run")
    }

    fn decode(&mut self, vec: &'a PyroRef<'a>) -> Result<Msg, PyroError> {
        Ok(Msg(vec.as_slice().to_vec()))
    }
}

impl Bridgeable for Msg {
    type Encoder = BytesEncoder;
}

#[test]
fn result_ok_is_stamped_valid_and_err_error() {
    let mut enc: ResultEncoder<BytesEncoder, BytesEncoder> = Default::default();
    let ok = enc.encode(&Ok(Msg(b"fine".to_vec()))).unwrap();
    assert_eq!(ok.status(), Ok(DataStatus::Valid));
    assert_eq!(ok.as_slice(), b"fine");
    let err = enc.encode(&Err(Msg(b"bad".to_vec()))).unwrap();
    assert_eq!(err.status(), Ok(DataStatus::Error));
    assert_eq!(err.as_slice(), b"bad");
}

#[test]
fn result_decodes_to_the_side_it_was_encoded_from() {
    let mut enc: ResultEncoder<BytesEncoder, BytesEncoder> = Default::default();
    let mut dec: ResultDecoder<BytesDecoder, BytesDecoder> = Default::default();
    let ok = enc.encode(&Ok(Msg(b"yes".to_vec()))).unwrap();
    let r = PyroRef::try_from_slice(ok.as_raw_slice()).unwrap();
    assert_eq!(dec.decode(&r).unwrap(), Ok(Msg(b"yes".to_vec())));
    let err = enc.encode(&Err(Msg(b"no".to_vec()))).unwrap();
    let r = PyroRef::try_from_slice(err.as_raw_slice()).unwrap();
    assert_eq!(dec.decode(&r).unwrap(), Err(Msg(b"no".to_vec())));
}

#[test]
fn result_decoder_refuses_other_statuses() {
    let mut dec: ResultDecoder<BytesDecoder, BytesDecoder> = Default::default();
    let mut v = PyroVec::with_capacity(0);
    v.set_status(DataStatus::Json);
    let r = PyroRef::try_from_slice(v.as_raw_slice()).unwrap();
    assert_eq!(dec.decode(&r).unwrap_err(), PyroError::Header(ParseError::UnknownStatus(4)));
    let mut w = PyroVec::with_capacity(0);
    w.set_status_u8(77);
    let r = PyroRef::try_from_slice(w.as_raw_slice()).unwrap();
    assert_eq!(dec.decode(&r).unwrap_err(), PyroError::Header(ParseError::UnknownStatus(77)));
}

#[test]
fn option_roundtrip_and_none_is_empty() {
    let mut enc: OptionEncoder<BytesEncoder> = Default::default();
    let mut dec: OptionDecoder<BytesDecoder> = Default::default();
    let some = enc.encode(&Some(Msg(b"v".to_vec()))).unwrap();
    assert_eq!(some.status(), Ok(DataStatus::Valid));
    let r = PyroRef::try_from_slice(some.as_raw_slice()).unwrap();
    assert_eq!(dec.decode(&r).unwrap(), Some(Msg(b"v".to_vec())));
    let none = enc.encode(&None).unwrap();
    assert_eq!(none.status(), Ok(DataStatus::Empty));
    assert_eq!(none.len(), 0);
    let r = PyroRef::try_from_slice(none.as_raw_slice()).unwrap();
    assert_eq!(dec.decode(&r).unwrap(), None);
    let mut bad = PyroVec::with_capacity(0);
    bad.set_status(DataStatus::Error);
    let r = PyroRef::try_from_slice(bad.as_raw_slice()).unwrap();
    assert_eq!(dec.decode(&r).unwrap_err(), PyroError::Header(ParseError::UnknownStatus(2)));
}

#[test]
fn ship_uses_the_default_encoder() {
    let shipped = Ok::<Msg, Msg>(Msg(b"payload".to_vec())).ship().unwrap();
    assert_eq!(shipped.as_slice(), b"payload");
    assert_eq!(shipped.status(), Ok(DataStatus::Valid));
    let none = None::<Msg>.ship().unwrap();
    assert_eq!(none.status(), Ok(DataStatus::Empty));
}

#[test]
fn typed_view_converts_its_value() {
    let view = PyroVec::ok().view();
    let t = TypedView::new(view, Ok::<u8, u16>(7));
    assert_eq!(t.inner(), &Ok(7));
    assert_eq!(t.view().len(), 0);
    let c: Result<u8, u16> = t.clone_into();
    assert_eq!(c, Ok(7));
    let r: Result<u32, u64> = t.into_result();
    assert_eq!(r, Ok(7));

    let o = TypedView::new(PyroVec::ok().view(), Some(3u8));
    let s: String = TypedView::new(PyroVec::ok().view(), String::from("text")).into_owned();
    assert_eq!(s, "text");
    assert_eq!(o.into_option::<u64>(), Some(3));
}

// ─── A byte-copying format, for the format traits ──────────────────────────

struct Raw;

struct RawHeader;

impl PyroHeaderValues for RawHeader {
    const OK_CODE: DataStatus = DataStatus::Valid;
    const ERR_CODE: DataStatus = DataStatus::Error;
}

#[derive(Debug, PartialEq)]
struct Bytes(Vec<u8>);

impl UserHeaderValues for Bytes {}

struct RawBuf<B> {
    data: B,
    value: Bytes,
}

impl<B> Wrapper for RawBuf<B> {
    type Wrapping = B;
    fn wrapped(&self) -> B {
        unreachable!("a specification item is never run")
    }
    fn data(&self) -> &B {
        &self.data
    }
    fn into_data(self) -> B {
        self.data
    }
}

impl<B> Deref for RawBuf<B> {
    type Target = Bytes;
    fn deref(&self) -> &Bytes {
        &self.value
    }
}

impl<B> TypedWrapper<Bytes> for RawBuf<B> {}

struct RawParser<B> {
    data: B,
}

impl<B> Wrapper for RawParser<B> {
    type Wrapping = B;
    fn wrapped(&self) -> B {
        unreachable!("a specification item is never run")
    }
    fn data(&self) -> &B {
        &self.data
    }
    fn into_data(self) -> B {
        self.data
    }
}

impl Parser<PyroView, Bytes> for RawParser<PyroView> {
    type HeaderValues = RawHeader;
    type ParsedType = Bytes;
    type TypedWrapper = RawBuf<PyroView>;

    fn unchecked_parse(self) -> PyroResult<RawBuf<PyroView>> {
        let value = Bytes(self.data.as_slice().to_vec());
        Ok(RawBuf { data: self.data, value })
    }
}

impl<'a> Parser<PyroRef<'a>, Bytes> for RawParser<PyroRef<'a>> {
    type HeaderValues = RawHeader;
    type ParsedType = Bytes;
    type TypedWrapper = RawBuf<PyroRef<'a>>;

    fn unchecked_parse(self) -> PyroResult<RawBuf<PyroRef<'a>>> {
        let value = Bytes(self.data.as_slice().to_vec());
        Ok(RawBuf { data: self.data, value })
    }
}

struct RawWriter {
    data: PyroVec,
}

impl Wrapper for RawWriter {
    type Wrapping = PyroVec;
    fn wrapped(&self) -> PyroVec {
        unreachable!("a specification item is never run")
    }
    fn data(&self) -> &PyroVec {
        &self.data
    }
    fn into_data(self) -> PyroVec {
        self.data
    }
}

impl MutWrapper for RawWriter {
    fn data_mut(&mut self) -> &mut PyroVec {
        &mut self.data
    }
}

impl Writer<PyroVec, Bytes> for RawWriter {
    type HeaderValues = RawHeader;

    fn write_raw(&mut self, value: &Bytes) -> PyroResult<usize> {
        self.data.extend_from_slice(&value.0);
        Ok(value.0.len())
    }
}

impl PyroFormat<Bytes> for Raw {
    const WIRE_FORMAT: u8 = 1;
    type HeaderValues = RawHeader;
    type ParsedType = Bytes;
    type Parser = RawParser<PyroView>;
    type Writer = RawWriter;

    fn new() -> Self {
        Raw
    }
    fn parser(data: PyroView) -> RawParser<PyroView> {
        RawParser { data }
    }
    fn new_writer(data: PyroVec) -> RawWriter {
        RawWriter { data }
    }

    type RefParser<'a> = RawParser<PyroRef<'a>>;

    fn view_parser<'a>(data: PyroRef<'a>) -> RawParser<PyroRef<'a>> {
        RawParser { data }
    }
}

#[test]
fn ship_then_parse_gives_the_value_back() {
    let shipped = Raw::ship(&Bytes(b"abc".to_vec())).unwrap();
    assert_eq!(shipped.status(), Ok(DataStatus::Valid));
    assert_eq!(shipped.wire_format(), 1);
    let raw = shipped.as_raw_slice().to_vec();
    let parsed = Raw::parse(shipped.view()).unwrap();
    assert_eq!(*parsed, Bytes(b"abc".to_vec()));
    let r = PyroRef::try_from_slice(&raw).unwrap();
    let viewed = Raw::parse_view(r).unwrap();
    assert_eq!(viewed.0, b"abc".to_vec());
}

#[test]
fn parse_of_an_error_packet_gives_its_error() {
    let mut v = PyroVec::with_capacity(4);
    v.extend_from_slice(b"oops");
    v.set_status(DataStatus::RemoteIo);
    let err = Raw::parse(v.view()).err().unwrap();
    match err {
        PyroError::Remote(ErrorKind::Io(p)) => assert_eq!(p.bytes, b"oops".to_vec()),
        other => panic!("unexpected {:?}", other),
    }
    // A status that is not an error is an invalid header.
    let mut w = PyroVec::with_capacity(0);
    w.set_status(DataStatus::Empty);
    assert_eq!(
        Raw::parse(w.view()).err().unwrap(),
        PyroError::Local(ErrorKind::InvalidHeader)
    );
}

#[test]
fn parser_hands_back_packets_with_another_status() {
    let mut v = PyroVec::with_capacity(0);
    v.set_status(DataStatus::Error);
    let parser = Raw::parser(v.view());
    match parser.parse() {
        Err(ReadError::InvalidCode(data)) => assert_eq!(data.status(), Ok(DataStatus::Error)),
        _ => panic!("expected the packet back"),
    }
}

#[test]
fn write_result_stamps_each_side() {
    let ok = write_result::<PyroVec, Bytes, Bytes, RawWriter>(
        RawWriter { data: PyroVec::ok() },
        Ok(&Bytes(b"good".to_vec())),
    )
    .unwrap();
    assert_eq!(ok.status(), Ok(DataStatus::Valid));
    let err = write_result::<PyroVec, Bytes, Bytes, RawWriter>(
        RawWriter { data: PyroVec::ok() },
        Err(&Bytes(b"bad".to_vec())),
    )
    .unwrap();
    assert_eq!(err.status(), Ok(DataStatus::Error));
    assert_eq!(err.as_slice(), b"bad");
}

#[test]
fn update_header_sets_version_and_status() {
    let mut w = RawWriter { data: PyroVec::ok() };
    w.data.set_wire_format(9);
    Writer::<PyroVec, Bytes>::update_header(&mut w, 0, DataStatus::Json);
    assert_eq!(w.data.wire_format(), 1);
    assert_eq!(w.data.status(), Ok(DataStatus::Json));
}

// ─── Bow, logs and responses ───────────────────────────────────────────────

#[test]
fn bow_variants() {
    let owned: BowHolder<'_, String, str, str> = BowHolder::from_owned("x".to_string());
    assert!(owned.is_owned() && !owned.is_borrowed() && !owned.is_static());
    let s = String::from("y");
    let borrowed: BowHolder<'_, String, str, str> = BowHolder::from_borrowed(s.as_str());
    assert!(borrowed.is_borrowed());
    let stat: BowHolder<'_, String, str, str> = BowHolder::from_static("hi");
    assert!(stat.is_static());
    let boxed: BowHolder<'_, String, str, str> = BowHolder::from_box(Box::new("z".to_string()));
    assert!(boxed.is_owned());
    let copy = owned.clone();
    match copy {
        BowHolder::Owned(b) => assert_eq!(*b, "x"),
        _ => panic!("clone of an owned value is owned"),
    }
    assert!(matches!(stat.clone(), BowHolder::Static(_)));
}

#[test]
fn empty_logs_and_row_indexes() {
    let logs = PyroLogs::empty();
    assert!(logs.module_logs.is_empty());
    assert!(logs.capability_logs.is_empty());
    let failure = PyroFailure { row_index: 12, result: Err("boom".to_string()), logs };
    assert_eq!(failure.row_index(), 12);
    let r: Result<PyroFailure, PyroFailure> = Err(failure);
    assert_eq!(r.row_index(), 12);
}

#[test]
fn header_setters_on_views() {
    fn stamp<T: PyroHeaderMut>(t: &mut T) {
        t.set_status(DataStatus::Valid);
    }
    let mut v = PyroVec::ok();
    stamp(&mut v);
    assert!(v.is_user_err());
}
