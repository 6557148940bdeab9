//! The failures of the gateway and the replies they are answered with.

use vstd::prelude::*;
use vstd::string::*;

verus! {

/// Every failure a control operation can end in. A payload names the device,
/// point or value the failure is about.
#[derive(Debug, PartialEq, Eq)]
pub enum ErrorRuntime {
    ClientNotFound(Option<String>),
    ClientNotAbleToConnect(Option<String>),
    ClientProtocolNotSupported,
    ClientRegisterDatatypeNotSupported,
    ClientRegisterObjecttypeNotSupported,
    ClientCoilObjecttypeNotSupported,
    ClientExists,
    ClientJsonParseError,
    ClientRegisterNotFound(Option<String>),
    ClientRegisterNotWritable(Option<String>),
    ClientRegisterWriteGenericError,
    ClientCoilNotFound(Option<String>),
    ClientCoilNotInput(Option<String>),
    ClientCoilWriteGenericError,
    FSReadToStringError,
    FSReadDirError,
    FSDirEntryError,
    FSFileDeleteError,
    FSFileCreateError,
    PrometheusErrorRegistry,
    PrometheusErrorGaugeNew,
    PrometheusErrorRegistryRegister,
    PrometheusErrorEncoder,
    PrometheusErrorGaugeRemove,
    PrometheusErrorRegistryUnregister,
    RegexError,
    JSONSerializeError,
    ValueNotParsableToU16(Option<String>),
    ValueNotParsableToBool(Option<String>),
    ClientRegisterWriteError(Option<String>),
    NoParametersProvided,
}

/// The mathematical form of an [`ErrorRuntime`].
pub enum ErrorView {
    ClientNotFound(Option<Seq<char>>),
    ClientNotAbleToConnect(Option<Seq<char>>),
    ClientProtocolNotSupported,
    ClientRegisterDatatypeNotSupported,
    ClientRegisterObjecttypeNotSupported,
    ClientCoilObjecttypeNotSupported,
    ClientExists,
    ClientJsonParseError,
    ClientRegisterNotFound(Option<Seq<char>>),
    ClientRegisterNotWritable(Option<Seq<char>>),
    ClientRegisterWriteGenericError,
    ClientCoilNotFound(Option<Seq<char>>),
    ClientCoilNotInput(Option<Seq<char>>),
    ClientCoilWriteGenericError,
    FSReadToStringError,
    FSReadDirError,
    FSDirEntryError,
    FSFileDeleteError,
    FSFileCreateError,
    PrometheusErrorRegistry,
    PrometheusErrorGaugeNew,
    PrometheusErrorRegistryRegister,
    PrometheusErrorEncoder,
    PrometheusErrorGaugeRemove,
    PrometheusErrorRegistryUnregister,
    RegexError,
    JSONSerializeError,
    ValueNotParsableToU16(Option<Seq<char>>),
    ValueNotParsableToBool(Option<Seq<char>>),
    ClientRegisterWriteError(Option<Seq<char>>),
    NoParametersProvided,
}

/// The mathematical form of a payload.
pub open spec fn detail_view(detail: Option<String>) -> Option<Seq<char>> {
    match detail {
        Some(s) => Some(s@),
        None => None,
    }
}

impl View for ErrorRuntime {
    type V = ErrorView;

    open spec fn view(&self) -> ErrorView {
        match self {
            ErrorRuntime::ClientNotFound(d) => ErrorView::ClientNotFound(detail_view(*d)),
            ErrorRuntime::ClientNotAbleToConnect(d) => ErrorView::ClientNotAbleToConnect(detail_view(*d)),
            ErrorRuntime::ClientProtocolNotSupported => ErrorView::ClientProtocolNotSupported,
            ErrorRuntime::ClientRegisterDatatypeNotSupported => ErrorView::ClientRegisterDatatypeNotSupported,
            ErrorRuntime::ClientRegisterObjecttypeNotSupported => ErrorView::ClientRegisterObjecttypeNotSupported,
            ErrorRuntime::ClientCoilObjecttypeNotSupported => ErrorView::ClientCoilObjecttypeNotSupported,
            ErrorRuntime::ClientExists => ErrorView::ClientExists,
            ErrorRuntime::ClientJsonParseError => ErrorView::ClientJsonParseError,
            ErrorRuntime::ClientRegisterNotFound(d) => ErrorView::ClientRegisterNotFound(detail_view(*d)),
            ErrorRuntime::ClientRegisterNotWritable(d) => ErrorView::ClientRegisterNotWritable(detail_view(*d)),
            ErrorRuntime::ClientRegisterWriteGenericError => ErrorView::ClientRegisterWriteGenericError,
            ErrorRuntime::ClientCoilNotFound(d) => ErrorView::ClientCoilNotFound(detail_view(*d)),
            ErrorRuntime::ClientCoilNotInput(d) => ErrorView::ClientCoilNotInput(detail_view(*d)),
            ErrorRuntime::ClientCoilWriteGenericError => ErrorView::ClientCoilWriteGenericError,
            ErrorRuntime::FSReadToStringError => ErrorView::FSReadToStringError,
            ErrorRuntime::FSReadDirError => ErrorView::FSReadDirError,
            ErrorRuntime::FSDirEntryError => ErrorView::FSDirEntryError,
            ErrorRuntime::FSFileDeleteError => ErrorView::FSFileDeleteError,
            ErrorRuntime::FSFileCreateError => ErrorView::FSFileCreateError,
            ErrorRuntime::PrometheusErrorRegistry => ErrorView::PrometheusErrorRegistry,
            ErrorRuntime::PrometheusErrorGaugeNew => ErrorView::PrometheusErrorGaugeNew,
            ErrorRuntime::PrometheusErrorRegistryRegister => ErrorView::PrometheusErrorRegistryRegister,
            ErrorRuntime::PrometheusErrorEncoder => ErrorView::PrometheusErrorEncoder,
            ErrorRuntime::PrometheusErrorGaugeRemove => ErrorView::PrometheusErrorGaugeRemove,
            ErrorRuntime::PrometheusErrorRegistryUnregister => ErrorView::PrometheusErrorRegistryUnregister,
            ErrorRuntime::RegexError => ErrorView::RegexError,
            ErrorRuntime::JSONSerializeError => ErrorView::JSONSerializeError,
            ErrorRuntime::ValueNotParsableToU16(d) => ErrorView::ValueNotParsableToU16(detail_view(*d)),
            ErrorRuntime::ValueNotParsableToBool(d) => ErrorView::ValueNotParsableToBool(detail_view(*d)),
            ErrorRuntime::ClientRegisterWriteError(d) => ErrorView::ClientRegisterWriteError(detail_view(*d)),
            ErrorRuntime::NoParametersProvided => ErrorView::NoParametersProvided,
        }
    }
}

/// Why no session to a device could be opened. Neither is fatal: the device
/// is skipped for the cycle.
#[derive(Debug, Clone, Copy, PartialEq, Eq, Structural)]
pub enum ErrorRuntimeNoRejection {
    InvalidIpAddress,
    CouldNotConnect,
}

/// What a refused request carries, as far as the reply depends on it: the
/// text of a cross-origin or body-decoding refusal, a failure of the
/// gateway's own, or anything else.
#[derive(Debug, PartialEq, Eq)]
pub enum Rejection {
    CorsForbidden(String),
    BodyDeserializeError(String),
    Runtime(ErrorRuntime),
    Unknown,
}

/// The answer to a refused request: a status code and a text for the caller.
#[derive(Debug, PartialEq, Eq)]
pub struct ErrorReply {
    pub message: String,
    pub status: u16,
}

pub const STATUS_FORBIDDEN: u16 = 403;

pub const STATUS_NOT_FOUND: u16 = 404;

pub const STATUS_UNPROCESSABLE_ENTITY: u16 = 422;

/// The text a payload contributes to a message: its content, or nothing
/// where it is absent.
pub open spec fn detail_text(detail: Option<String>) -> Seq<char> {
    match detail {
        Some(s) => s@,
        None => Seq::empty(),
    }
}

/// The text that explains a failure to the caller.
pub open spec fn runtime_message(e: ErrorRuntime) -> Seq<char> {
    match e {
        ErrorRuntime::ClientNotFound(c) => "Client "@ + detail_text(c)
            + " not found. Please check the client name."@,
        ErrorRuntime::ClientNotAbleToConnect(c) => "Client "@ + detail_text(c)
            + " could not be connected via modbus. Please check the connection."@,
        ErrorRuntime::ClientProtocolNotSupported =>
            "The current client protocol is not supported. Supported protocols are: tcp"@,
        ErrorRuntime::ClientRegisterDatatypeNotSupported =>
            "One of the registers does not have a supported datatype. Supported datatypes are: uint16, int16"@,
        ErrorRuntime::ClientRegisterObjecttypeNotSupported =>
            "One of the registers does not have a supported objecttype. Supported objecttypes are: input, holding"@,
        ErrorRuntime::ClientCoilObjecttypeNotSupported =>
            "One of the coils does not have a supported objecttype. Supported objecttypes are: coil, discrete"@,
        ErrorRuntime::ClientExists =>
            "Trying to create client, but a valid config for this client already exists. Please delete the client first."@,
        ErrorRuntime::ClientJsonParseError =>
            "Trying to create client, but the local config is corrupted. Can not create the client"@,
        ErrorRuntime::ClientRegisterNotFound(r) => "Register "@ + detail_text(r)
            + " not found in client."@,
        ErrorRuntime::ClientRegisterNotWritable(r) => "Register "@ + detail_text(r)
            + " is not writable. It is an input register."@,
        ErrorRuntime::ClientRegisterWriteGenericError => "Generic Error while writing register"@,
        ErrorRuntime::ClientCoilNotFound(c) => "Coil "@ + detail_text(c) + " not found in client."@,
        ErrorRuntime::ClientCoilNotInput(c) => "Coil "@ + detail_text(c)
            + " is not writable. It is an discrete coil."@,
        ErrorRuntime::ClientCoilWriteGenericError => "Generic Error while writing coil"@,
        ErrorRuntime::FSReadToStringError => "Cannot process local config file to string"@,
        ErrorRuntime::FSReadDirError =>
            "Cannot read configs from local FS. Please contact developer, this is a major issue!"@,
        ErrorRuntime::FSDirEntryError =>
            "Cannot process dir entry. Please contact developer, this is a major issue!"@,
        ErrorRuntime::FSFileDeleteError => "Cannot delete local config file."@,
        ErrorRuntime::FSFileCreateError => "Cannot create local config file"@,
        ErrorRuntime::PrometheusErrorRegistry => "The Prometheus Registry couldnt be processed"@,
        ErrorRuntime::PrometheusErrorGaugeNew => "Could not create a new Gauge value"@,
        ErrorRuntime::PrometheusErrorRegistryRegister =>
            "Could not register the new Gauge value to the registry"@,
        ErrorRuntime::PrometheusErrorEncoder => "The Prometheus Encoder couldnt be processed"@,
        ErrorRuntime::PrometheusErrorGaugeRemove =>
            "Could not get the target Gauge value to be removed"@,
        ErrorRuntime::PrometheusErrorRegistryUnregister =>
            "Cannot unregister the Gauge value from registry"@,
        ErrorRuntime::RegexError =>
            "No valid String is provided. Please check the fields name, register.name if you just have: lowercase, number or underscores"@,
        ErrorRuntime::JSONSerializeError =>
            "Cannot serialize the provided JSON for creating local config file"@,
        ErrorRuntime::ValueNotParsableToU16(v) => "Value "@ + detail_text(v)
            + " is not parsable. Please provide a number between 0 and 65535"@,
        ErrorRuntime::ValueNotParsableToBool(v) => "Value "@ + detail_text(v)
            + " is not parsable. Please provide either: true or false"@,
        ErrorRuntime::ClientRegisterWriteError(v) => "Register "@ + detail_text(v)
            + " is not writable. Please check the error logs for more information"@,
        ErrorRuntime::NoParametersProvided =>
            "No parameter is provided. Please provide the name of the point and the value to write"@,
    }
}

/// The text of the reply to a refused request.
pub open spec fn reply_message(r: Rejection) -> Seq<char> {
    match r {
        Rejection::CorsForbidden(text) => text@,
        Rejection::BodyDeserializeError(text) => text@,
        Rejection::Runtime(e) => runtime_message(e),
        Rejection::Unknown => "Route not found"@,
    }
}

/// The status code of the reply to a refused request.
pub open spec fn reply_status(r: Rejection) -> u16 {
    match r {
        Rejection::CorsForbidden(_) => STATUS_FORBIDDEN,
        Rejection::BodyDeserializeError(_) => STATUS_UNPROCESSABLE_ENTITY,
        Rejection::Runtime(_) => STATUS_UNPROCESSABLE_ENTITY,
        Rejection::Unknown => STATUS_NOT_FOUND,
    }
}

/// Puts a payload between two fixed parts of a message.
fn framed(prefix: &str, detail: &Option<String>, suffix: &str) -> (r: String)
    ensures
        r@ == prefix@ + detail_text(*detail) + suffix@,
{
    let mut text = String::from_str(prefix);
    match detail {
        Some(s) => {
            text.append(s.as_str());
        },
        None => {
            assert(text@ + Seq::<char>::empty() =~= text@);
        },
    }
    text.append(suffix);
    text
}

impl ErrorRuntime {
    /// Writes out the text that explains this failure to the caller.
    pub fn message(&self) -> (r: String)
        ensures
            r@ == runtime_message(*self),
    {
        match self {
            ErrorRuntime::ClientNotFound(c) => framed(
                "Client ",
                c,
                " not found. Please check the client name.",
            ),
            ErrorRuntime::ClientNotAbleToConnect(c) => framed(
                "Client ",
                c,
                " could not be connected via modbus. Please check the connection.",
            ),
            ErrorRuntime::ClientProtocolNotSupported => String::from_str(
                "The current client protocol is not supported. Supported protocols are: tcp",
            ),
            ErrorRuntime::ClientRegisterDatatypeNotSupported => String::from_str(
                "One of the registers does not have a supported datatype. Supported datatypes are: uint16, int16",
            ),
            ErrorRuntime::ClientRegisterObjecttypeNotSupported => String::from_str(
                "One of the registers does not have a supported objecttype. Supported objecttypes are: input, holding",
            ),
            ErrorRuntime::ClientCoilObjecttypeNotSupported => String::from_str(
                "One of the coils does not have a supported objecttype. Supported objecttypes are: coil, discrete",
            ),
            ErrorRuntime::ClientExists => String::from_str(
                "Trying to create client, but a valid config for this client already exists. Please delete the client first.",
            ),
            ErrorRuntime::ClientJsonParseError => String::from_str(
                "Trying to create client, but the local config is corrupted. Can not create the client",
            ),
            ErrorRuntime::ClientRegisterNotFound(r) => framed(
                "Register ",
                r,
                " not found in client.",
            ),
            ErrorRuntime::ClientRegisterNotWritable(r) => framed(
                "Register ",
                r,
                " is not writable. It is an input register.",
            ),
            ErrorRuntime::ClientRegisterWriteGenericError => String::from_str(
                "Generic Error while writing register",
            ),
            ErrorRuntime::ClientCoilNotFound(c) => framed("Coil ", c, " not found in client."),
            ErrorRuntime::ClientCoilNotInput(c) => framed(
                "Coil ",
                c,
                " is not writable. It is an discrete coil.",
            ),
            ErrorRuntime::ClientCoilWriteGenericError => String::from_str(
                "Generic Error while writing coil",
            ),
            ErrorRuntime::FSReadToStringError => String::from_str(
                "Cannot process local config file to string",
            ),
            ErrorRuntime::FSReadDirError => String::from_str(
                "Cannot read configs from local FS. Please contact developer, this is a major issue!",
            ),
            ErrorRuntime::FSDirEntryError => String::from_str(
                "Cannot process dir entry. Please contact developer, this is a major issue!",
            ),
            ErrorRuntime::FSFileDeleteError => String::from_str("Cannot delete local config file."),
            ErrorRuntime::FSFileCreateError => String::from_str("Cannot create local config file"),
            ErrorRuntime::PrometheusErrorRegistry => String::from_str(
                "The Prometheus Registry couldnt be processed",
            ),
            ErrorRuntime::PrometheusErrorGaugeNew => String::from_str(
                "Could not create a new Gauge value",
            ),
            ErrorRuntime::PrometheusErrorRegistryRegister => String::from_str(
                "Could not register the new Gauge value to the registry",
            ),
            ErrorRuntime::PrometheusErrorEncoder => String::from_str(
                "The Prometheus Encoder couldnt be processed",
            ),
            ErrorRuntime::PrometheusErrorGaugeRemove => String::from_str(
                "Could not get the target Gauge value to be removed",
            ),
            ErrorRuntime::PrometheusErrorRegistryUnregister => String::from_str(
                "Cannot unregister the Gauge value from registry",
            ),
            ErrorRuntime::RegexError => String::from_str(
                "No valid String is provided. Please check the fields name, register.name if you just have: lowercase, number or underscores",
            ),
            ErrorRuntime::JSONSerializeError => String::from_str(
                "Cannot serialize the provided JSON for creating local config file",
            ),
            ErrorRuntime::ValueNotParsableToU16(v) => framed(
                "Value ",
                v,
                " is not parsable. Please provide a number between 0 and 65535",
            ),
            ErrorRuntime::ValueNotParsableToBool(v) => framed(
                "Value ",
                v,
                " is not parsable. Please provide either: true or false",
            ),
            ErrorRuntime::ClientRegisterWriteError(v) => framed(
                "Register ",
                v,
                " is not writable. Please check the error logs for more information",
            ),
            ErrorRuntime::NoParametersProvided => String::from_str(
                "No parameter is provided. Please provide the name of the point and the value to write",
            ),
        }
    }
}

/// Answers a request that was refused for a failure of the gateway: with
/// the failure's explanation and "unprocessable entity".
pub fn runtime_reply(e: &ErrorRuntime) -> (reply: ErrorReply)
    ensures
        reply.message@ == runtime_message(*e),
        reply.status == STATUS_UNPROCESSABLE_ENTITY,
{
    ErrorReply { message: e.message(), status: STATUS_UNPROCESSABLE_ENTITY }
}

/// Answers a refused request. A cross-origin refusal is answered with its
/// own text and "forbidden", a body that could not be decoded with its own
/// text and "unprocessable entity", a failure of the gateway with its
/// explanation and "unprocessable entity", and everything else as an unknown
/// route.
pub fn return_error(r: &Rejection) -> (reply: ErrorReply)
    ensures
        reply.message@ == reply_message(*r),
        reply.status == reply_status(*r),
{
    match r {
        Rejection::CorsForbidden(text) => ErrorReply {
            message: text.clone(),
            status: STATUS_FORBIDDEN,
        },
        Rejection::BodyDeserializeError(text) => ErrorReply {
            message: text.clone(),
            status: STATUS_UNPROCESSABLE_ENTITY,
        },
        Rejection::Runtime(e) => runtime_reply(e),
        Rejection::Unknown => ErrorReply {
            message: String::from_str("Route not found"),
            status: STATUS_NOT_FOUND,
        },
    }
}

} // verus!
