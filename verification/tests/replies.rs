use modbus_prometheus_api_server::errors::{
    return_error, ErrorReply, ErrorRuntime, ErrorRuntimeNoRejection, Rejection,
};

fn reply(e: ErrorRuntime) -> ErrorReply {
    return_error(&Rejection::Runtime(e))
}

fn unprocessable(message: &str) -> ErrorReply {
    ErrorReply { message: message.to_string(), status: 422 }
}

fn some(text: &str) -> Option<String> {
    Some(text.to_string())
}

#[test]
fn refusals_of_the_framework_keep_their_own_text() {
    assert_eq!(
        return_error(&Rejection::CorsForbidden("CORS request forbidden: origin not allowed".to_string())),
        ErrorReply { message: "CORS request forbidden: origin not allowed".to_string(), status: 403 }
    );
    assert_eq!(
        return_error(&Rejection::BodyDeserializeError("Request body deserialize error: EOF".to_string())),
        unprocessable("Request body deserialize error: EOF")
    );
}

#[test]
fn unknown_refusal_is_an_unknown_route() {
    let expected = ErrorReply { message: "Route not found".to_string(), status: 404 };
    assert_eq!(return_error(&Rejection::Unknown), expected);
    assert_eq!(
        reply(ErrorRuntime::NoParametersProvided),
        unprocessable(
            "No parameter is provided. Please provide the name of the point and the value to write"
        )
    );
}

#[test]
fn failures_that_name_something_say_what() {
    assert_eq!(
        reply(ErrorRuntime::ClientNotFound(some("plant"))),
        unprocessable("Client plant not found. Please check the client name.")
    );
    assert_eq!(
        reply(ErrorRuntime::ClientNotAbleToConnect(some("10.0.0.1"))),
        unprocessable("Client 10.0.0.1 could not be connected via modbus. Please check the connection.")
    );
    assert_eq!(
        reply(ErrorRuntime::ClientRegisterNotFound(some("flow"))),
        unprocessable("Register flow not found in client.")
    );
    assert_eq!(
        reply(ErrorRuntime::ClientRegisterNotWritable(some("flow"))),
        unprocessable("Register flow is not writable. It is an input register.")
    );
    assert_eq!(
        reply(ErrorRuntime::ClientCoilNotFound(some("pump"))),
        unprocessable("Coil pump not found in client.")
    );
    assert_eq!(
        reply(ErrorRuntime::ClientCoilNotInput(some("pump"))),
        unprocessable("Coil pump is not writable. It is an discrete coil.")
    );
    assert_eq!(
        reply(ErrorRuntime::ValueNotParsableToU16(some("70000"))),
        unprocessable("Value 70000 is not parsable. Please provide a number between 0 and 65535")
    );
    assert_eq!(
        reply(ErrorRuntime::ValueNotParsableToBool(some("yes"))),
        unprocessable("Value yes is not parsable. Please provide either: true or false")
    );
    assert_eq!(
        reply(ErrorRuntime::ClientRegisterWriteError(some("flow"))),
        unprocessable("Register flow is not writable. Please check the error logs for more information")
    );
}

#[test]
fn failure_without_a_name_leaves_the_place_empty() {
    assert_eq!(
        reply(ErrorRuntime::ClientNotFound(None)),
        unprocessable("Client  not found. Please check the client name.")
    );
    assert_eq!(
        reply(ErrorRuntime::ValueNotParsableToU16(some(""))),
        unprocessable("Value  is not parsable. Please provide a number between 0 and 65535")
    );
}

#[test]
fn failures_of_validation_have_fixed_texts() {
    assert_eq!(
        reply(ErrorRuntime::ClientProtocolNotSupported),
        unprocessable("The current client protocol is not supported. Supported protocols are: tcp")
    );
    assert_eq!(
        reply(ErrorRuntime::ClientRegisterDatatypeNotSupported),
        unprocessable("One of the registers does not have a supported datatype. Supported datatypes are: uint16, int16")
    );
    assert_eq!(
        reply(ErrorRuntime::ClientRegisterObjecttypeNotSupported),
        unprocessable("One of the registers does not have a supported objecttype. Supported objecttypes are: input, holding")
    );
    assert_eq!(
        reply(ErrorRuntime::ClientCoilObjecttypeNotSupported),
        unprocessable("One of the coils does not have a supported objecttype. Supported objecttypes are: coil, discrete")
    );
    assert_eq!(
        reply(ErrorRuntime::ClientExists),
        unprocessable("Trying to create client, but a valid config for this client already exists. Please delete the client first.")
    );
    assert_eq!(
        reply(ErrorRuntime::ClientJsonParseError),
        unprocessable("Trying to create client, but the local config is corrupted. Can not create the client")
    );
    assert_eq!(
        reply(ErrorRuntime::RegexError),
        unprocessable("No valid String is provided. Please check the fields name, register.name if you just have: lowercase, number or underscores")
    );
    assert_eq!(
        reply(ErrorRuntime::JSONSerializeError),
        unprocessable("Cannot serialize the provided JSON for creating local config file")
    );
}

#[test]
fn failures_of_writing_have_fixed_texts() {
    assert_eq!(
        reply(ErrorRuntime::ClientRegisterWriteGenericError),
        unprocessable("Generic Error while writing register")
    );
    assert_eq!(
        reply(ErrorRuntime::ClientCoilWriteGenericError),
        unprocessable("Generic Error while writing coil")
    );
}

#[test]
fn failures_of_the_file_system_have_fixed_texts() {
    assert_eq!(
        reply(ErrorRuntime::FSReadToStringError),
        unprocessable("Cannot process local config file to string")
    );
    assert_eq!(
        reply(ErrorRuntime::FSReadDirError),
        unprocessable("Cannot read configs from local FS. Please contact developer, this is a major issue!")
    );
    assert_eq!(
        reply(ErrorRuntime::FSDirEntryError),
        unprocessable("Cannot process dir entry. Please contact developer, this is a major issue!")
    );
    assert_eq!(reply(ErrorRuntime::FSFileDeleteError), unprocessable("Cannot delete local config file."));
    assert_eq!(reply(ErrorRuntime::FSFileCreateError), unprocessable("Cannot create local config file"));
}

#[test]
fn failures_of_the_exporter_have_fixed_texts() {
    assert_eq!(
        reply(ErrorRuntime::PrometheusErrorRegistry),
        unprocessable("The Prometheus Registry couldnt be processed")
    );
    assert_eq!(
        reply(ErrorRuntime::PrometheusErrorGaugeNew),
        unprocessable("Could not create a new Gauge value")
    );
    assert_eq!(
        reply(ErrorRuntime::PrometheusErrorRegistryRegister),
        unprocessable("Could not register the new Gauge value to the registry")
    );
    assert_eq!(
        reply(ErrorRuntime::PrometheusErrorEncoder),
        unprocessable("The Prometheus Encoder couldnt be processed")
    );
    assert_eq!(
        reply(ErrorRuntime::PrometheusErrorGaugeRemove),
        unprocessable("Could not get the target Gauge value to be removed")
    );
    assert_eq!(
        reply(ErrorRuntime::PrometheusErrorRegistryUnregister),
        unprocessable("Cannot unregister the Gauge value from registry")
    );
}

#[test]
fn message_of_a_failure_is_the_text_of_its_reply() {
    let failure = ErrorRuntime::ClientCoilNotFound(some("door"));
    assert_eq!(failure.message(), "Coil door not found in client.");
    assert_eq!(
        ErrorRuntime::NoParametersProvided.message(),
        "No parameter is provided. Please provide the name of the point and the value to write"
    );
}

#[test]
fn session_failures_are_told_apart() {
    assert_ne!(ErrorRuntimeNoRejection::InvalidIpAddress, ErrorRuntimeNoRejection::CouldNotConnect);
}

#[test]
fn every_failure_of_the_gateway_is_unprocessable() {
    for failure in [
        ErrorRuntime::ClientNotFound(None),
        ErrorRuntime::ClientProtocolNotSupported,
        ErrorRuntime::ClientRegisterNotWritable(some("r1")),
        ErrorRuntime::ClientCoilWriteGenericError,
        ErrorRuntime::FSReadDirError,
        ErrorRuntime::PrometheusErrorRegistryUnregister,
        ErrorRuntime::NoParametersProvided,
    ] {
        let answer = reply(failure);
        assert_eq!(answer.status, 422);
        assert!(!answer.message.is_empty());
        assert_ne!(answer.message, "Route not found");
    }
    assert_eq!(
        reply(ErrorRuntime::ClientRegisterNotWritable(some("r1"))).message,
        "Register r1 is not writable. It is an input register."
    );
}
