//! Encoding values into packets and decoding them back, and how results and
//! options travel: the variant is carried by the packet's status.
//!
//! An `Ok` or `Some` value is encoded by the inner encoder and stamped
//! `Valid`; an `Err` value is stamped `Error`; `None` is the empty success
//! packet, whose status is `Empty`. Decoding reads the status to choose the
//! variant and refuses any other status.
use vstd::prelude::*;
use vstd::std_specs::convert::FromSpec;

use crate::error::PyroError;
use crate::header::{hdr_status, unit_header, DataStatus, ParseError, PyroHeader, PyroHeaderMut, OFFSET_STATUS};
use crate::vec_buf::{payload_of, PyroRef, PyroVec, PyroView};

verus! {

/// Turns a value into a packet.
pub trait Encoder<T> {
    /// The packet this encoder makes of `val`, or why it cannot.
    spec fn spec_encode(&self, val: T) -> Result<Seq<u8>, PyroError>;

    fn encode(&mut self, val: &T) -> (r: Result<PyroVec, PyroError>)
        ensures
            r matches Ok(v) ==> v.wf(),
            encoded(r) == old(self).spec_encode(*val),
    ;
}

/// What an encoder gave: the packet made, or the error.
pub open spec fn encoded(r: Result<PyroVec, PyroError>) -> Result<Seq<u8>, PyroError> {
    match r {
        Ok(v) => Ok(v.packet()),
        Err(e) => Err(e),
    }
}

/// Reads a value out of a packet.
pub trait Decoder<'a, T: 'a> {
    /// The value this decoder reads out of the packet `p`, or why it cannot.
    spec fn spec_decode(&self, p: Seq<u8>) -> Result<T, PyroError>;

    fn decode(&mut self, vec: &'a PyroRef<'a>) -> (r: Result<T, PyroError>)
        requires
            vec.wf(),
        ensures
            r == old(self).spec_decode(vec@),
    ;
}

/// A packet with its status byte replaced by `status`, or the error that
/// came instead.
pub open spec fn stamped(r: Result<Seq<u8>, PyroError>, status: u8) -> Result<Seq<u8>, PyroError> {
    match r {
        Ok(p) => Ok(p.update(OFFSET_STATUS as int, status)),
        Err(e) => Err(e),
    }
}

/// Builds a value out of its packed form.
pub trait Unpack<Packed>: Sized {
    fn unpack(packed: Packed) -> Result<Self, PyroError>;
}

/// A packet together with the value decoded from it.
pub struct TypedView<T> {
    view: PyroView,
    inner: T,
}

impl<T> TypedView<T> {
    pub closed spec fn spec_view(&self) -> PyroView {
        self.view
    }

    pub closed spec fn spec_inner(&self) -> T {
        self.inner
    }

    /// Pairs a packet with the value decoded from it.
    pub fn new(view: PyroView, inner: T) -> (r: Self)
        ensures
            r.spec_view() == view,
            r.spec_inner() == inner,
    {
        TypedView { view, inner }
    }

    /// The decoded value.
    pub fn inner(&self) -> (r: &T)
        ensures
            *r == self.spec_inner(),
    {
        &self.inner
    }

    /// The packet the value was decoded from.
    pub fn view(&self) -> (r: &PyroView)
        ensures
            *r == self.spec_view(),
    {
        &self.view
    }

    /// A clone of the value, converted.
    pub fn clone_into<S>(&self) -> (r: S) where S: From<T>, T: Clone
        ensures
            <S as FromSpec<T>>::obeys_from_spec() ==> exists|c: T| #[trigger] <S as FromSpec<T>>::from_spec(c) == r && cloned::<T>(self.spec_inner(), c),
    {
        let c = self.inner.clone();
        proof {
            assert(cloned::<T>(self.inner, c));
        }
        S::from(c)
    }

    /// The value, converted from a reference to it.
    pub fn into_owned<S>(&self) -> (r: S) where S: for <'b>From<&'b T>
        ensures
            <S as FromSpec<&T>>::obeys_from_spec() ==> r == <S as FromSpec<&T>>::from_spec(&self.spec_inner()),
    {
        S::from(&self.inner)
    }
}

impl<T, E> TypedView<Result<T, E>> {
    /// The decoded result, each side converted.
    pub fn into_result<S, U>(self) -> (r: Result<S, U>) where S: From<T>, U: From<E>
        ensures
            match self.spec_inner() {
                Ok(t) => r is Ok && (<S as FromSpec<T>>::obeys_from_spec() ==> r == Ok::<S, U>(<S as FromSpec<T>>::from_spec(t))),
                Err(e) => r is Err && (<U as FromSpec<E>>::obeys_from_spec() ==> r == Err::<S, U>(<U as FromSpec<E>>::from_spec(e))),
            },
    {
        match self.inner {
            Ok(ok) => Ok(S::from(ok)),
            Err(err) => Err(U::from(err)),
        }
    }
}

impl<T> TypedView<Option<T>> {
    /// The decoded option, converted.
    pub fn into_option<S>(self) -> (r: Option<S>) where S: From<T>
        ensures
            match self.spec_inner() {
                Some(t) => r is Some && (<S as FromSpec<T>>::obeys_from_spec() ==> r == Some(<S as FromSpec<T>>::from_spec(t))),
                None => r is None,
            },
    {
        match self.inner {
            Some(ok) => Some(S::from(ok)),
            None => None,
        }
    }
}

/// A type with an encoding of its own.
pub trait Bridgeable: Sized {
    type Encoder: Encoder<Self> + Default;

    /// Encodes the value with a default encoder and hands the packet over as
    /// a shared view: the packet, or the error, is what that encoder makes
    /// of the value.
    fn ship(&self) -> (r: Result<PyroView, PyroError>)
        ensures
            exists|enc: Self::Encoder| #[trigger] call_ensures(Self::Encoder::default, (), enc) && match r {
                Ok(v) => v.wf() && enc.spec_encode(*self) == Ok::<Seq<u8>, PyroError>(v@),
                Err(e) => enc.spec_encode(*self) == Err::<Seq<u8>, PyroError>(e),
            },
    {
        let mut encoder = Self::Encoder::default();
        let ghost start = encoder;
        let r = match encoder.encode(self) {
            Ok(e) => Ok(e.view()),
            Err(e) => Err(e),
        };
        assert(call_ensures(Self::Encoder::default, (), start));
        r
    }
}

// ---------------------------------------------------------------------------
// Results and options
// ---------------------------------------------------------------------------

/// The status stamped on an encoded result: `Valid` for `Ok`, `Error` for
/// `Err`.
pub open spec fn result_status(is_ok: bool) -> u8 {
    if is_ok {
        DataStatus::Valid.spec_code()
    } else {
        DataStatus::Error.spec_code()
    }
}

/// Which side of a result a packet with status `s` decodes to (`true` for
/// `Ok`), or the error that refuses it.
pub open spec fn result_side(s: u8) -> Result<bool, PyroError> {
    if s == DataStatus::Valid.spec_code() {
        Ok(true)
    } else if s == DataStatus::Error.spec_code() {
        Ok(false)
    } else {
        Err(PyroError::Header(ParseError::UnknownStatus(s)))
    }
}

/// The status stamped on an encoded option: `Valid` for `Some`, `Empty` for
/// `None`.
pub open spec fn option_status(is_some: bool) -> u8 {
    if is_some {
        DataStatus::Valid.spec_code()
    } else {
        DataStatus::Empty.spec_code()
    }
}

/// Which side of an option a packet with status `s` decodes to (`true` for
/// `Some`), or the error that refuses it.
pub open spec fn option_side(s: u8) -> Result<bool, PyroError> {
    if s == DataStatus::Valid.spec_code() {
        Ok(true)
    } else if s == DataStatus::Empty.spec_code() {
        Ok(false)
    } else {
        Err(PyroError::Header(ParseError::UnknownStatus(s)))
    }
}

/// A result decodes to the side it was encoded from, and an option likewise.
pub proof fn lemma_side_roundtrip(is_ok: bool)
    ensures
        result_side(result_status(is_ok)) == Ok::<bool, PyroError>(is_ok),
        option_side(option_status(is_ok)) == Ok::<bool, PyroError>(is_ok),
{
}

/// The status byte of a buffer's header.
pub open spec fn status_of(v: PyroVec) -> u8 {
    hdr_status(v.packet())
}

/// Encodes results: each side with its own encoder.
pub struct ResultEncoder<T, E> {
    ok_encoder: T,
    err_encoder: E,
}

impl<T, E> ResultEncoder<T, E> {
    pub closed spec fn spec_ok_encoder(&self) -> T {
        self.ok_encoder
    }

    pub closed spec fn spec_err_encoder(&self) -> E {
        self.err_encoder
    }
}

impl<T: Default, E: Default> Default for ResultEncoder<T, E> {
    /// Each side's default encoder.
    fn default() -> (r: Self)
        ensures
            call_ensures(T::default, (), r.spec_ok_encoder()),
            call_ensures(E::default, (), r.spec_err_encoder()),
    {
        ResultEncoder { ok_encoder: T::default(), err_encoder: E::default() }
    }
}

impl<T, TE: Encoder<T>, E, EE: Encoder<E>> Encoder<Result<T, E>> for ResultEncoder<TE, EE> {
    /// The packet of the side's encoder, stamped `Valid` for `Ok` and
    /// `Error` for `Err`.
    open spec fn spec_encode(&self, val: Result<T, E>) -> Result<Seq<u8>, PyroError> {
        match val {
            Ok(v) => stamped(self.spec_ok_encoder().spec_encode(v), result_status(true)),
            Err(x) => stamped(self.spec_err_encoder().spec_encode(x), result_status(false)),
        }
    }

    fn encode(&mut self, val: &Result<T, E>) -> (r: Result<PyroVec, PyroError>)
        ensures
            r matches Ok(v) ==> status_of(v) == result_status(val is Ok),
    {
        match val {
            Ok(value) => {
                let mut vec = match self.ok_encoder.encode(value) {
                    Ok(v) => v,
                    Err(e) => {
                        return Err(e);
                    },
                };
                vec.set_status(DataStatus::Valid);
                Ok(vec)
            },
            Err(error) => {
                let mut vec = match self.err_encoder.encode(error) {
                    Ok(v) => v,
                    Err(e) => {
                        return Err(e);
                    },
                };
                vec.set_status(DataStatus::Error);
                Ok(vec)
            },
        }
    }
}

/// Decodes results: the status chooses the side.
pub struct ResultDecoder<T, E> {
    ok_decoder: T,
    err_decoder: E,
}

impl<T, E> ResultDecoder<T, E> {
    pub closed spec fn spec_ok_decoder(&self) -> T {
        self.ok_decoder
    }

    pub closed spec fn spec_err_decoder(&self) -> E {
        self.err_decoder
    }
}

impl<T: Default, E: Default> Default for ResultDecoder<T, E> {
    /// Each side's default decoder.
    fn default() -> (r: Self)
        ensures
            call_ensures(T::default, (), r.spec_ok_decoder()),
            call_ensures(E::default, (), r.spec_err_decoder()),
    {
        ResultDecoder { ok_decoder: T::default(), err_decoder: E::default() }
    }
}

impl<'a, T: 'a, DT: Decoder<'a, T>, E: 'a, DE: Decoder<'a, E>> Decoder<'a, Result<T, E>> for ResultDecoder<
    DT,
    DE,
> {
    /// The status chooses the side; that side's decoder reads the value.
    open spec fn spec_decode(&self, p: Seq<u8>) -> Result<Result<T, E>, PyroError> {
        match result_side(hdr_status(p)) {
            Ok(true) => match self.spec_ok_decoder().spec_decode(p) {
                Ok(v) => Ok(Ok(v)),
                Err(e) => Err(e),
            },
            Ok(false) => match self.spec_err_decoder().spec_decode(p) {
                Ok(v) => Ok(Err(v)),
                Err(e) => Err(e),
            },
            Err(e) => Err(e),
        }
    }

    fn decode(&mut self, view: &'a PyroRef<'a>) -> (r: Result<Result<T, E>, PyroError>)
        ensures
            match result_side(hdr_status(view.header_view())) {
                Ok(true) => r matches Ok(x) ==> x is Ok,
                Ok(false) => r matches Ok(x) ==> x is Err,
                Err(e) => r == Err::<Result<T, E>, PyroError>(e),
            },
    {
        assert(hdr_status(view.header_view()) == hdr_status(view@));
        match view.status() {
            Ok(DataStatus::Valid) => {
                match self.ok_decoder.decode(view) {
                    Ok(v) => Ok(Ok(v)),
                    Err(e) => Err(e),
                }
            },
            Ok(DataStatus::Error) => {
                match self.err_decoder.decode(view) {
                    Ok(e) => Ok(Err(e)),
                    Err(e) => Err(e),
                }
            },
            Ok(other) => Err(PyroError::Header(ParseError::UnknownStatus(other.code()))),
            Err(other) => Err(PyroError::Header(ParseError::UnknownStatus(other))),
        }
    }
}

impl<T: Bridgeable, E: Bridgeable> Bridgeable for Result<T, E> {
    type Encoder = ResultEncoder<T::Encoder, E::Encoder>;
}

/// Encodes options: `Some` with the inner encoder, `None` as the empty
/// success packet.
pub struct OptionEncoder<T> {
    inner: T,
}

impl<T> OptionEncoder<T> {
    pub closed spec fn spec_inner(&self) -> T {
        self.inner
    }
}

impl<T: Default> Default for OptionEncoder<T> {
    /// The inner default encoder.
    fn default() -> (r: Self)
        ensures
            call_ensures(T::default, (), r.spec_inner()),
    {
        OptionEncoder { inner: T::default() }
    }
}

impl<T, TE: Encoder<T>> Encoder<Option<T>> for OptionEncoder<TE> {
    /// `Some` is the inner encoder's packet stamped `Valid`; `None` is the
    /// empty success packet.
    open spec fn spec_encode(&self, val: Option<T>) -> Result<Seq<u8>, PyroError> {
        match val {
            Some(v) => stamped(self.spec_inner().spec_encode(v), option_status(true)),
            None => Ok(unit_header()),
        }
    }

    fn encode(&mut self, val: &Option<T>) -> (r: Result<PyroVec, PyroError>)
        ensures
            r matches Ok(v) ==> status_of(v) == option_status(val is Some),
            val is None ==> (r matches Ok(v) && payload_of(v.packet()).len() == 0),
    {
        match val {
            Some(value) => {
                let mut vec = match self.inner.encode(value) {
                    Ok(v) => v,
                    Err(e) => {
                        return Err(e);
                    },
                };
                vec.set_status(DataStatus::Valid);
                Ok(vec)
            },
            None => {
                let v = PyroVec::ok();
                assert(payload_of(v.packet()).len() == 0);
                Ok(v)
            },
        }
    }
}

/// Decodes options: `Valid` holds a value, `Empty` is `None`.
pub struct OptionDecoder<T> {
    decoder: T,
}

impl<T> OptionDecoder<T> {
    pub closed spec fn spec_decoder(&self) -> T {
        self.decoder
    }
}

impl<T: Default> Default for OptionDecoder<T> {
    /// The inner default decoder.
    fn default() -> (r: Self)
        ensures
            call_ensures(T::default, (), r.spec_decoder()),
    {
        OptionDecoder { decoder: T::default() }
    }
}

impl<'a, T: 'a, DT: Decoder<'a, T>> Decoder<'a, Option<T>> for OptionDecoder<DT> {
    /// `Valid` is read by the inner decoder, `Empty` is `None`.
    open spec fn spec_decode(&self, p: Seq<u8>) -> Result<Option<T>, PyroError> {
        match option_side(hdr_status(p)) {
            Ok(true) => match self.spec_decoder().spec_decode(p) {
                Ok(v) => Ok(Some(v)),
                Err(e) => Err(e),
            },
            Ok(false) => Ok(None),
            Err(e) => Err(e),
        }
    }

    fn decode(&mut self, view: &'a PyroRef<'a>) -> (r: Result<Option<T>, PyroError>)
        ensures
            match option_side(hdr_status(view.header_view())) {
                Ok(true) => r matches Ok(x) ==> x is Some,
                Ok(false) => r == Ok::<Option<T>, PyroError>(None),
                Err(e) => r == Err::<Option<T>, PyroError>(e),
            },
    {
        assert(hdr_status(view.header_view()) == hdr_status(view@));
        match view.status() {
            Ok(DataStatus::Valid) => {
                match self.decoder.decode(view) {
                    Ok(v) => Ok(Some(v)),
                    Err(e) => Err(e),
                }
            },
            Ok(DataStatus::Empty) => Ok(None),
            Ok(other) => Err(PyroError::Header(ParseError::UnknownStatus(other.code()))),
            Err(other) => Err(PyroError::Header(ParseError::UnknownStatus(other))),
        }
    }
}

impl<T: Bridgeable> Bridgeable for Option<T> {
    type Encoder = OptionEncoder<T::Encoder>;
}

/// Encoding a result and decoding the packet gives the result back, when
/// each side's decoder reads back what that side's encoder made (once
/// stamped with the side's status).
pub proof fn lemma_result_roundtrip<'a, T: 'a, E: 'a, TE: Encoder<T>, EE: Encoder<E>, DT: Decoder<'a, T>, DE: Decoder<'a, E>>(
    enc: ResultEncoder<TE, EE>,
    dec: ResultDecoder<DT, DE>,
    val: Result<T, E>,
)
    requires
        match val {
            Ok(v) => enc.spec_ok_encoder().spec_encode(v) matches Ok(p) && p.len() > OFFSET_STATUS
                && dec.spec_ok_decoder().spec_decode(p.update(OFFSET_STATUS as int, result_status(true)))
                == Ok::<T, PyroError>(v),
            Err(x) => enc.spec_err_encoder().spec_encode(x) matches Ok(p) && p.len() > OFFSET_STATUS
                && dec.spec_err_decoder().spec_decode(p.update(OFFSET_STATUS as int, result_status(false)))
                == Ok::<E, PyroError>(x),
        },
    ensures
        enc.spec_encode(val) matches Ok(p) && dec.spec_decode(p) == Ok::<Result<T, E>, PyroError>(val),
{
}

/// Encoding an option and decoding the packet gives the option back, when
/// the inner decoder reads back what the inner encoder made (once stamped
/// `Valid`).
pub proof fn lemma_option_roundtrip<'a, T: 'a, TE: Encoder<T>, DT: Decoder<'a, T>>(
    enc: OptionEncoder<TE>,
    dec: OptionDecoder<DT>,
    val: Option<T>,
)
    requires
        val matches Some(v) ==> enc.spec_inner().spec_encode(v) matches Ok(p) && p.len() > OFFSET_STATUS
            && dec.spec_decoder().spec_decode(p.update(OFFSET_STATUS as int, option_status(true))) == Ok::<
            T,
            PyroError,
        >(v),
    ensures
        enc.spec_encode(val) matches Ok(p) && dec.spec_decode(p) == Ok::<Option<T>, PyroError>(val),
{
}

} // verus!
