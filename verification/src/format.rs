//! The interface between packets and serialization formats: wrappers around
//! a packet, parsers that check a packet's status before decoding it, and
//! writers that stamp the header after encoding.
use std::ops::Deref;

use vstd::prelude::*;

use crate::header::{
    hdr_status, hdr_wire, spec_status_error, DataStatus, MutPyroData, PyroHeader, PyroHeaderMut, OFFSET_STATUS, OFFSET_WIRE,
    PROTOCOL_VERSION,
};
pub use crate::header::ReadError;
use crate::error::{ErrorKind, PyroError, PyroResult};
use crate::vec_buf::{PyroRef, PyroVec, PyroView};

verus! {

/// A value that wraps some data.
pub trait Wrapper {
    type Wrapping;

    /// The wrapped data.
    spec fn wrapped(&self) -> Self::Wrapping;

    fn data(&self) -> (r: &Self::Wrapping)
        ensures
            *r == self.wrapped(),
    ;

    fn into_data(self) -> (r: Self::Wrapping)
        ensures
            r == self.wrapped(),
    ;
}

/// A wrapper whose data may be changed in place.
pub trait MutWrapper: Wrapper {
    fn data_mut(&mut self) -> (r: &mut Self::Wrapping)
        ensures
            *r == old(self).wrapped(),
            final(self).wrapped() == *final(r),
    ;
}

/// A wrapper that also dereferences to a decoded value.
pub trait TypedWrapper<T>: Wrapper + Deref<Target = T> {}

/// A typed wrapper that can hand out a receiver for its value.
pub trait HasReceiver<P, T>: TypedWrapper<P> {
    type Receiver;

    fn receiver(&self) -> Self::Receiver;
}

/// Turns a decoded representation `P` into the value `T`.
pub trait Receiver<P, T> {
    fn receive<D>(&mut self, data: &D) -> PyroResult<T> where D: Deref<Target = P>;
}

/// The statuses a format stamps on success and on a user error.
pub trait PyroHeaderValues {
    const OK_CODE: DataStatus;

    const ERR_CODE: DataStatus;
}

/// Per-type header values: the version of the type's encoding.
pub trait UserHeaderValues {
    const VERSION: u8 = 0;
}

/// Decodes the packet it wraps, once its status is the one expected.
pub trait Parser<BD: PyroHeader, T>: Wrapper<Wrapping = BD> + Sized where T: UserHeaderValues {
    type HeaderValues: PyroHeaderValues;

    type ParsedType;

    type TypedWrapper: TypedWrapper<Self::ParsedType>;

    /// Decodes without looking at the status.
    fn unchecked_parse(self) -> PyroResult<Self::TypedWrapper>
        requires
            self.wrapped().has_header(),
    ;

    /// Decodes when the status is the format's success status; otherwise
    /// hands the packet back, as `InvalidCode`.
    fn parse(self) -> (r: Result<Self::TypedWrapper, ReadError<BD>>)
        requires
            self.wrapped().has_header(),
        ensures
            hdr_status(self.wrapped().header_view())
                != <Self::HeaderValues as PyroHeaderValues>::OK_CODE.spec_code() ==> r
                == Err::<Self::TypedWrapper, ReadError<BD>>(ReadError::InvalidCode(self.wrapped())),
            hdr_status(self.wrapped().header_view())
                == <Self::HeaderValues as PyroHeaderValues>::OK_CODE.spec_code() ==> !(
            r matches Err(ReadError::InvalidCode(_))),
    {
        let status = Wrapper::data(&self).status_u8();
        let expected = <Self::HeaderValues as PyroHeaderValues>::OK_CODE.code();
        if status == expected {
            match self.unchecked_parse() {
                Ok(buf) => Ok(buf),
                Err(e) => Err(ReadError::Pyro(e)),
            }
        } else {
            Err(ReadError::InvalidCode(self.into_data()))
        }
    }
}

/// Encodes a value into the packet it wraps, then stamps the header.
pub trait Writer<BD: MutPyroData, T>: Wrapper<Wrapping = BD> + MutWrapper + Sized where
    T: UserHeaderValues,
 {
    type HeaderValues: PyroHeaderValues;

    /// Encodes `value` into the payload; gives the number of bytes written.
    fn write_raw(&mut self, value: &T) -> (r: PyroResult<usize>)
        requires
            old(self).wrapped().has_header(),
        ensures
            final(self).wrapped().has_header(),
    ;

    /// Stamps the protocol version and `status` on the header; the rest of
    /// the header and the payload are kept.
    fn update_header(&mut self, len: u32, status: DataStatus)
        requires
            old(self).wrapped().has_header(),
        ensures
            final(self).wrapped().has_header(),
            final(self).wrapped().header_view() == old(self).wrapped().header_view().update(
                OFFSET_WIRE as int,
                PROTOCOL_VERSION,
            ).update(OFFSET_STATUS as int, status.spec_code()),
            final(self).wrapped().payload_view() == old(self).wrapped().payload_view(),
    {
        let bd = self.data_mut();
        bd.set_wire_format(PROTOCOL_VERSION);
        bd.set_status(status);
    }

    /// Encodes `value` and stamps the format's success status.
    fn write(self, value: &T) -> (r: PyroResult<BD>)
        requires
            self.wrapped().has_header(),
        ensures
            r matches Ok(bd) ==> written_with(bd, <Self::HeaderValues as PyroHeaderValues>::OK_CODE),
    {
        let mut w = self;
        let len = w.write_raw(value)?;
        proof {
            w.wrapped().lemma_header_size();
        }
        w.update_header(#[verifier::truncate] (len as u32), <Self::HeaderValues as PyroHeaderValues>::OK_CODE);
        Ok(w.into_data())
    }
}

/// Encodes either side of a result with a writer that handles both: the
/// `Ok` side stamped with its format's success status, the `Err` side with
/// its format's error status.
pub fn write_result<BD, T, E, W>(writer: W, value: Result<&T, &E>) -> (r: PyroResult<BD>) where
    BD: MutPyroData,
    T: UserHeaderValues,
    E: UserHeaderValues,
    W: Writer<BD, T> + Writer<BD, E>,

    requires
        writer.wrapped().has_header(),
    ensures
        r matches Ok(bd) ==> written_with(
            bd,
            match value {
                Ok(_) => <<W as Writer<BD, T>>::HeaderValues as PyroHeaderValues>::OK_CODE,
                Err(_) => <<W as Writer<BD, E>>::HeaderValues as PyroHeaderValues>::ERR_CODE,
            },
        ),
{
    let mut w = writer;
    match value {
        Ok(val) => {
            let len = <W as Writer<BD, T>>::write_raw(&mut w, val)?;
            let status = <<W as Writer<BD, T>>::HeaderValues as PyroHeaderValues>::OK_CODE;
            proof {
                w.wrapped().lemma_header_size();
            }
            <W as Writer<BD, T>>::update_header(&mut w, #[verifier::truncate] (len as u32), status);
            Ok(w.into_data())
        },
        Err(err) => {
            let len = <W as Writer<BD, E>>::write_raw(&mut w, err)?;
            let status = <<W as Writer<BD, E>>::HeaderValues as PyroHeaderValues>::ERR_CODE;
            proof {
                w.wrapped().lemma_header_size();
            }
            <W as Writer<BD, E>>::update_header(&mut w, #[verifier::truncate] (len as u32), status);
            Ok(w.into_data())
        },
    }
}

/// Whether `bd` holds a packet stamped with the protocol version and
/// `status`.
pub open spec fn written_with<BD: PyroHeader>(bd: BD, status: DataStatus) -> bool {
    &&& bd.has_header()
    &&& hdr_wire(bd.header_view()) == PROTOCOL_VERSION
    &&& hdr_status(bd.header_view()) == status.spec_code()
}

/// The error a packet stands for when it does not carry the status a parser
/// expected: the error its status announces, or an invalid header when its
/// status is not an error status.
pub open spec fn mismatch_error(status: u8, payload: Seq<u8>, e: PyroError) -> bool {
    if spec_status_error(status, payload, Ok(())) {
        e == PyroError::Local(ErrorKind::InvalidHeader)
    } else {
        spec_status_error(status, payload, Err(e))
    }
}

/// Turns what `parse` refused into the error handed to the caller.
fn read_error_into<BD: PyroHeader>(e: ReadError<BD>) -> (r: PyroError)
    requires
        e matches ReadError::InvalidCode(d) ==> d.has_header(),
    ensures
        match e {
            ReadError::Pyro(be) => r == be,
            ReadError::InvalidCode(d) => mismatch_error(
                hdr_status(d.header_view()),
                d.payload_view(),
                r,
            ),
        },
{
    match e {
        ReadError::Pyro(be) => be,
        ReadError::InvalidCode(data) => match data.parse_as_error() {
            Ok(()) => PyroError::Local(ErrorKind::InvalidHeader),
            Err(be) => be,
        },
    }
}

/// A serialization format for values of `T`: a writer that encodes them
/// into packets, and parsers that decode owned and borrowed packets.
pub trait PyroFormat<T>: Sized where T: UserHeaderValues {
    /// The wire-format byte of the format.
    const WIRE_FORMAT: u8;

    type HeaderValues: PyroHeaderValues;

    /// What a parsed packet dereferences to.
    type ParsedType;

    type Parser: Parser<
        PyroView,
        T,
        HeaderValues = Self::HeaderValues,
        ParsedType = Self::ParsedType,
    >;

    type Writer: Writer<PyroVec, T, HeaderValues = Self::HeaderValues>;

    fn new() -> Self;

    fn parser(data: PyroView) -> (r: Self::Parser)
        ensures
            r.wrapped() == data,
    ;

    fn new_writer(data: PyroVec) -> (r: Self::Writer)
        ensures
            r.wrapped() == data,
    ;

    /// Encodes `input` into a new buffer stamped with the format's success
    /// status.
    fn ship(input: &T) -> (r: Result<PyroVec, PyroError>)
        ensures
            r matches Ok(v) ==> written_with(v, <Self::HeaderValues as PyroHeaderValues>::OK_CODE),
    {
        let vec = PyroVec::ok();
        let writer = Self::new_writer(vec);
        writer.write(input)
    }

    /// Decodes a shared packet. A packet without the format's success
    /// status gives the error its status stands for.
    fn parse(vec: PyroView) -> (r: Result<
        <Self::Parser as Parser<PyroView, T>>::TypedWrapper,
        PyroError,
    >)
        requires
            vec.wf(),
        ensures
            hdr_status(vec.header_view()) != <Self::HeaderValues as PyroHeaderValues>::OK_CODE.spec_code()
                ==> (r matches Err(e) && mismatch_error(
                hdr_status(vec.header_view()),
                vec.payload_view(),
                e,
            )),
    {
        match Self::parser(vec).parse() {
            Ok(typed) => Ok(typed),
            Err(e) => Err(read_error_into(e)),
        }
    }

    type RefParser<'a>: Parser<
        PyroRef<'a>,
        T,
        HeaderValues = <Self as PyroFormat<T>>::HeaderValues,
        ParsedType = <Self as PyroFormat<T>>::ParsedType,
    >;

    fn view_parser<'a>(data: PyroRef<'a>) -> (r: Self::RefParser<'a>)
        ensures
            r.wrapped() == data,
    ;

    /// Decodes a borrowed packet, as `parse` does a shared one.
    fn parse_view<'a>(vec: PyroRef<'a>) -> (r: Result<
        <Self::RefParser<'a> as Parser<PyroRef<'a>, T>>::TypedWrapper,
        PyroError,
    >)
        requires
            vec.wf(),
        ensures
            hdr_status(vec.header_view()) != <Self::HeaderValues as PyroHeaderValues>::OK_CODE.spec_code()
                ==> (r matches Err(e) && mismatch_error(
                hdr_status(vec.header_view()),
                vec.payload_view(),
                e,
            )),
    {
        match Self::view_parser(vec).parse() {
            Ok(typed) => Ok(typed),
            Err(e) => Err(read_error_into(e)),
        }
    }
}

/// A format whose parsed representation borrows from the packet, with a
/// receiver that turns it into an owned value.
pub trait PyroZeroCopyFormat<T>: PyroFormat<T> where T: UserHeaderValues {
    type Receiver: Receiver<<Self::Parser as Parser<PyroView, T>>::ParsedType, T>;

    fn receiver() -> Self::Receiver;
}

/// A value that travels as a specification on the wire.
pub trait SpecWire: Sized {
    fn to_wire(&self) -> PyroResult<PyroView>;

    fn parse_wire(view: PyroRef) -> PyroResult<Self>
        requires
            view.wf(),
    ;
}

} // verus!
