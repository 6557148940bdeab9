//! The control operations: what each of them decides before and after the
//! work that is done outside.

use vstd::prelude::*;
use vstd::string::*;
use crate::clients::table::lemma_index_of;
use crate::clients::{
    creation_view, decode_client, gauge_specs, point_keys, violation, Client, ClientView, Clients,
    CoilView, RegisterView,
};
use crate::errors::{ErrorRuntime, ErrorView};
use crate::json::{json_document, parse_document, JsonTree, JsonValue};
use crate::prometheus::{
    attach_outcome, detach_outcome, detachable, gauge_accepted, in_step, lemma_register_in_step,
    lemma_unregister_in_step, snapshot, snapshot_view, stopped_at_first, PrometheusMetrics,
};
use crate::utils::{
    bool_text, check_if_client_exist, config_file_name, file_name, listed, parse_bool, parse_u16,
    u16_text,
};

verus! {

/// A write of a 16-bit value to a register of a device.
#[derive(Debug, PartialEq, Eq)]
pub struct RegisterWrite {
    pub ip_address: String,
    pub port: u16,
    pub address: u16,
    pub value: u16,
}

/// A write of a truth value to a coil of a device.
#[derive(Debug, PartialEq, Eq)]
pub struct CoilWrite {
    pub ip_address: String,
    pub port: u16,
    pub address: u16,
    pub value: bool,
}

/// The mathematical form of a [`RegisterWrite`].
pub struct RegisterWriteView {
    pub ip_address: Seq<char>,
    pub port: u16,
    pub address: u16,
    pub value: u16,
}

/// The mathematical form of a [`CoilWrite`].
pub struct CoilWriteView {
    pub ip_address: Seq<char>,
    pub port: u16,
    pub address: u16,
    pub value: bool,
}

impl View for RegisterWrite {
    type V = RegisterWriteView;

    open spec fn view(&self) -> RegisterWriteView {
        RegisterWriteView {
            ip_address: self.ip_address@,
            port: self.port,
            address: self.address,
            value: self.value,
        }
    }
}

impl View for CoilWrite {
    type V = CoilWriteView;

    open spec fn view(&self) -> CoilWriteView {
        CoilWriteView {
            ip_address: self.ip_address@,
            port: self.port,
            address: self.address,
            value: self.value,
        }
    }
}

/// How a write to a device ended.
#[derive(Debug, Clone, Copy, PartialEq, Eq, Structural)]
pub enum WriteOutcome {
    NotConnected,
    WriteFailed,
    Written,
}

/// The first register of a list that goes by a name.
pub open spec fn register_named(registers: Seq<RegisterView>, name: Seq<char>) -> Option<RegisterView>
    decreases registers.len(),
{
    if registers.len() == 0 {
        None
    } else if registers[0].name == name {
        Some(registers[0])
    } else {
        register_named(registers.drop_first(), name)
    }
}

/// The first coil of a list that goes by a name.
pub open spec fn coil_named(coils: Seq<CoilView>, name: Seq<char>) -> Option<CoilView>
    decreases coils.len(),
{
    if coils.len() == 0 {
        None
    } else if coils[0].name == name {
        Some(coils[0])
    } else {
        coil_named(coils.drop_first(), name)
    }
}

proof fn lemma_register_named(registers: Seq<RegisterView>, name: Seq<char>, i: int)
    requires
        0 <= i <= registers.len(),
        forall|j: int| 0 <= j < i ==> (#[trigger] registers[j]).name != name,
        i < registers.len() ==> registers[i].name == name,
    ensures
        register_named(registers, name) == if i < registers.len() {
            Some(registers[i])
        } else {
            None
        },
    decreases registers.len(),
{
    if registers.len() > 0 && i > 0 {
        let rest = registers.drop_first();
        assert forall|j: int| 0 <= j < i - 1 implies (#[trigger] rest[j]).name != name by {
            assert(rest[j] == registers[j + 1]);
        }
        assert(registers[0].name != name);
        lemma_register_named(rest, name, i - 1);
    }
}

proof fn lemma_coil_named(coils: Seq<CoilView>, name: Seq<char>, i: int)
    requires
        0 <= i <= coils.len(),
        forall|j: int| 0 <= j < i ==> (#[trigger] coils[j]).name != name,
        i < coils.len() ==> coils[i].name == name,
    ensures
        coil_named(coils, name) == if i < coils.len() {
            Some(coils[i])
        } else {
            None
        },
    decreases coils.len(),
{
    if coils.len() > 0 && i > 0 {
        let rest = coils.drop_first();
        assert forall|j: int| 0 <= j < i - 1 implies (#[trigger] rest[j]).name != name by {
            assert(rest[j] == coils[j + 1]);
        }
        assert(coils[0].name != name);
        lemma_coil_named(rest, name, i - 1);
    }
}

/// The parameters of a request in mathematical form.
pub open spec fn params_view(params: Seq<(String, String)>) -> Seq<(Seq<char>, Seq<char>)> {
    Seq::new(params.len(), |i: int| (params[i].0@, params[i].1@))
}

/// What a request to write a register comes to. The first parameter names
/// the register and gives the value. The request is refused, in this
/// order, where there is no parameter, where the value is no 16-bit
/// number, where the device or the register is not known, and where the
/// register is not a holding register. Otherwise the value goes to the
/// address of the first register of that name.
pub open spec fn register_write(
    clients: Map<Seq<char>, ClientView>,
    client: Seq<char>,
    params: Seq<(Seq<char>, Seq<char>)>,
) -> Result<RegisterWriteView, ErrorView> {
    if params.len() == 0 {
        Err(ErrorView::NoParametersProvided)
    } else if u16_text(params[0].1) is None {
        Err(ErrorView::ValueNotParsableToU16(Some(params[0].1)))
    } else if !clients.contains_key(client) {
        Err(ErrorView::ClientNotFound(Some(client)))
    } else {
        match register_named(clients[client].registers, params[0].0) {
            None => Err(ErrorView::ClientRegisterNotFound(Some(params[0].0))),
            Some(register) => if register.objecttype != "holding"@ {
                Err(ErrorView::ClientRegisterNotWritable(Some(params[0].0)))
            } else {
                Ok(
                    RegisterWriteView {
                        ip_address: clients[client].ip_address,
                        port: clients[client].port,
                        address: register.address,
                        value: u16_text(params[0].1).unwrap(),
                    },
                )
            },
        }
    }
}

/// What a request to write a coil comes to. The first parameter names the
/// coil and gives the value. The request is refused, in this order, where
/// there is no parameter, where the value is neither `true` nor `false`,
/// where the device or the coil is not known, and where the coil is a
/// discrete input. Otherwise the value goes to the address of the first
/// coil of that name.
pub open spec fn coil_write(
    clients: Map<Seq<char>, ClientView>,
    client: Seq<char>,
    params: Seq<(Seq<char>, Seq<char>)>,
) -> Result<CoilWriteView, ErrorView> {
    if params.len() == 0 {
        Err(ErrorView::NoParametersProvided)
    } else if bool_text(params[0].1) is None {
        Err(ErrorView::ValueNotParsableToBool(Some(params[0].1)))
    } else if !clients.contains_key(client) {
        Err(ErrorView::ClientNotFound(Some(client)))
    } else {
        match coil_named(clients[client].coils, params[0].0) {
            None => Err(ErrorView::ClientCoilNotFound(Some(params[0].0))),
            Some(coil) => if coil.objecttype != "coil"@ {
                Err(ErrorView::ClientCoilNotInput(Some(params[0].0)))
            } else {
                Ok(
                    CoilWriteView {
                        ip_address: clients[client].ip_address,
                        port: clients[client].port,
                        address: coil.address,
                        value: bool_text(params[0].1).unwrap(),
                    },
                )
            },
        }
    }
}

/// The outcome of a decision on a register write in mathematical form.
pub open spec fn register_write_view(r: Result<RegisterWrite, ErrorRuntime>) -> Result<
    RegisterWriteView,
    ErrorView,
> {
    match r {
        Ok(w) => Ok(w@),
        Err(e) => Err(e@),
    }
}

/// The outcome of a decision on a coil write in mathematical form.
pub open spec fn coil_write_view(r: Result<CoilWrite, ErrorRuntime>) -> Result<CoilWriteView, ErrorView> {
    match r {
        Ok(w) => Ok(w@),
        Err(e) => Err(e@),
    }
}

/// Decides on a request to write a register: which value goes to which
/// address of which device, or why the request is refused.
pub fn write_register(client: &str, params: &Vec<(String, String)>, clients: &Clients) -> (r: Result<
    RegisterWrite,
    ErrorRuntime,
>)
    requires
        clients.wf(),
    ensures
        register_write_view(r) == register_write(clients@, client@, params_view(params@)),
{
    if params.len() == 0 {
        return Err(ErrorRuntime::NoParametersProvided);
    }
    let point = params[0].0.as_str();
    let raw = params[0].1.as_str();
    let value = match parse_u16(raw) {
        Some(value) => value,
        None => {
            return Err(ErrorRuntime::ValueNotParsableToU16(Some(params[0].1.clone())));
        },
    };
    let device = match clients.get(client) {
        Some(device) => device,
        None => {
            return Err(ErrorRuntime::ClientNotFound(Some(String::from_str(client))));
        },
    };
    let register = match device.get_register_by_name(point) {
        Some(register) => register,
        None => {
            proof {
                lemma_register_named(device@.registers, point@, device@.registers.len() as int);
            }
            return Err(ErrorRuntime::ClientRegisterNotFound(Some(params[0].0.clone())));
        },
    };
    proof {
        let i = choose|i: int|
            0 <= i < device.registers@.len() && device.registers@[i] == *register && register.name@
                == point@ && forall|j: int| 0 <= j < i ==> device.registers@[j].name@ != point@;
        assert forall|j: int| 0 <= j < i implies (#[trigger] device@.registers[j]).name != point@ by {
            assert(device@.registers[j] == device.registers@[j]@);
        }
        assert(device@.registers[i] == register@);
        lemma_register_named(device@.registers, point@, i);
    }
    if !register.is_writable() {
        return Err(ErrorRuntime::ClientRegisterNotWritable(Some(params[0].0.clone())));
    }
    Ok(
        RegisterWrite {
            ip_address: device.get_ip_address(),
            port: device.port,
            address: register.address,
            value,
        },
    )
}

/// Decides on a request to write a coil: which value goes to which address
/// of which device, or why the request is refused.
pub fn write_coil(client: &str, params: &Vec<(String, String)>, clients: &Clients) -> (r: Result<
    CoilWrite,
    ErrorRuntime,
>)
    requires
        clients.wf(),
    ensures
        coil_write_view(r) == coil_write(clients@, client@, params_view(params@)),
{
    if params.len() == 0 {
        return Err(ErrorRuntime::NoParametersProvided);
    }
    let point = params[0].0.as_str();
    let raw = params[0].1.as_str();
    let value = match parse_bool(raw) {
        Some(value) => value,
        None => {
            return Err(ErrorRuntime::ValueNotParsableToBool(Some(params[0].1.clone())));
        },
    };
    let device = match clients.get(client) {
        Some(device) => device,
        None => {
            return Err(ErrorRuntime::ClientNotFound(Some(String::from_str(client))));
        },
    };
    let coil = match device.get_coil_by_name(point) {
        Some(coil) => coil,
        None => {
            proof {
                lemma_coil_named(device@.coils, point@, device@.coils.len() as int);
            }
            return Err(ErrorRuntime::ClientCoilNotFound(Some(params[0].0.clone())));
        },
    };
    proof {
        let i = choose|i: int|
            0 <= i < device.coils@.len() && device.coils@[i] == *coil && coil.name@ == point@
                && forall|j: int| 0 <= j < i ==> device.coils@[j].name@ != point@;
        assert forall|j: int| 0 <= j < i implies (#[trigger] device@.coils[j]).name != point@ by {
            assert(device@.coils[j] == device.coils@[j]@);
        }
        assert(device@.coils[i] == coil@);
        lemma_coil_named(device@.coils, point@, i);
    }
    if !coil.is_writable() {
        return Err(ErrorRuntime::ClientCoilNotInput(Some(params[0].0.clone())));
    }
    Ok(CoilWrite { ip_address: device.get_ip_address(), port: device.port, address: coil.address, value })
}

/// The reply to a write, once it is known how it ended: the confirmation
/// `done`, the device that could not be reached, or the failure `failed`
/// of the write.
pub open spec fn write_reply(
    ip_address: Seq<char>,
    outcome: WriteOutcome,
    done: Seq<char>,
    failed: ErrorView,
) -> Result<Seq<char>, ErrorView> {
    match outcome {
        WriteOutcome::Written => Ok(done),
        WriteOutcome::NotConnected => Err(ErrorView::ClientNotAbleToConnect(Some(ip_address))),
        WriteOutcome::WriteFailed => Err(failed),
    }
}

/// The outcome of a reply in mathematical form.
pub open spec fn reply_view(r: Result<String, ErrorRuntime>) -> Result<Seq<char>, ErrorView> {
    match r {
        Ok(s) => Ok(s@),
        Err(e) => Err(e@),
    }
}

/// Answers a register write once it is known how it ended.
pub fn register_write_reply(request: &RegisterWrite, outcome: WriteOutcome) -> (r: Result<
    String,
    ErrorRuntime,
>)
    ensures
        reply_view(r) == write_reply(
            request.ip_address@,
            outcome,
            "Wrote register!"@,
            ErrorView::ClientRegisterWriteGenericError,
        ),
{
    match outcome {
        WriteOutcome::Written => Ok(String::from_str("Wrote register!")),
        WriteOutcome::NotConnected => Err(
            ErrorRuntime::ClientNotAbleToConnect(Some(request.ip_address.clone())),
        ),
        WriteOutcome::WriteFailed => Err(ErrorRuntime::ClientRegisterWriteGenericError),
    }
}

/// Answers a coil write once it is known how it ended.
pub fn coil_write_reply(request: &CoilWrite, outcome: WriteOutcome) -> (r: Result<String, ErrorRuntime>)
    ensures
        reply_view(r) == write_reply(
            request.ip_address@,
            outcome,
            "Wrote coil!"@,
            ErrorView::ClientCoilWriteGenericError,
        ),
{
    match outcome {
        WriteOutcome::Written => Ok(String::from_str("Wrote coil!")),
        WriteOutcome::NotConnected => Err(
            ErrorRuntime::ClientNotAbleToConnect(Some(request.ip_address.clone())),
        ),
        WriteOutcome::WriteFailed => Err(ErrorRuntime::ClientCoilWriteGenericError),
    }
}

/// Refuses a description whose file is among those already kept. Where
/// the files could not be listed, nothing is refused.
pub fn check_fs_config(client_file_name: &str, local_files: &Result<Vec<String>, ErrorRuntime>) -> (r:
    Result<(), ErrorRuntime>)
    ensures
        match *local_files {
            Ok(files) => if listed(files@, client_file_name@) {
                r == Err::<(), ErrorRuntime>(ErrorRuntime::ClientExists)
            } else {
                r is Ok
            },
            Err(_) => r is Ok,
        },
{
    check_if_client_exist(client_file_name, local_files)
}

/// Whether the file of a device is among the files kept.
pub open spec fn on_file(local_files: Result<Vec<String>, ErrorRuntime>, device: Seq<char>) -> bool {
    match local_files {
        Ok(files) => listed(files@, file_name(device)),
        Err(_) => false,
    }
}

/// What becomes of the description of a new device: a description that is
/// no device is malformed, a device whose file is already kept exists, a
/// device that breaks a rule is refused with that rule, and every other
/// device is admitted.
pub open spec fn admission(t: JsonTree, local_files: Result<Vec<String>, ErrorRuntime>) -> Result<
    ClientView,
    ErrorRuntime,
> {
    match decode_client(t) {
        None => Err(ErrorRuntime::ClientJsonParseError),
        Some(c) => if on_file(local_files, c.name) {
            Err(ErrorRuntime::ClientExists)
        } else {
            match violation(c) {
                Some(e) => Err(e),
                None => Ok(c),
            }
        },
    }
}

/// Decides whether the described device may be taken in, before anything
/// is written or registered.
pub fn check_new_client(body: &JsonValue, local_files: &Result<Vec<String>, ErrorRuntime>) -> (r: Result<
    Client,
    ErrorRuntime,
>)
    ensures
        creation_view(r) == admission(body@, *local_files),
{
    let client = match Client::decode(body) {
        Some(client) => client,
        None => {
            return Err(ErrorRuntime::ClientJsonParseError);
        },
    };
    let file = config_file_name(client.name.as_str());
    match check_fs_config(file.as_str(), local_files) {
        Err(e) => {
            return Err(e);
        },
        Ok(()) => {},
    }
    match client.verify() {
        Err(e) => Err(e),
        Ok(()) => Ok(client),
    }
}

/// Decides whether the device that a text describes may be taken in. A
/// text that is no JSON document is malformed.
pub fn check_new_client_text(body: &str, local_files: &Result<Vec<String>, ErrorRuntime>) -> (r: Result<
    Client,
    ErrorRuntime,
>)
    ensures
        creation_view(r) == match json_document(body@) {
            None => Err::<ClientView, ErrorRuntime>(ErrorRuntime::ClientJsonParseError),
            Some(t) => admission(t, *local_files),
        },
{
    match parse_document(body) {
        None => Err(ErrorRuntime::ClientJsonParseError),
        Some(value) => check_new_client(&value, local_files),
    }
}

/// The names of a table as one text: each name on a line of its own.
pub open spec fn listing(names: Seq<Seq<char>>) -> Seq<char>
    decreases names.len(),
{
    if names.len() == 0 {
        Seq::empty()
    } else {
        listing(names.drop_last()) + names.last() + "\n"@
    }
}

/// Lists the names of all devices, in the order of the table, each on a
/// line of its own.
pub fn get_clients(clients: &Clients) -> (r: String)
    ensures
        r@ == listing(clients.keys()),
{
    let mut text = String::new();
    let count = clients.len();
    let ghost keys = clients.keys();
    assert(keys.take(0) =~= Seq::<Seq<char>>::empty());
    let mut i: usize = 0;
    while i < count
        invariant
            i <= count,
            count == keys.len(),
            keys == clients.keys(),
            text@ == listing(keys.take(i as int)),
        decreases count - i,
    {
        assert(keys.take(i + 1).drop_last() =~= keys.take(i as int));
        assert(keys.take(i + 1).last() == keys[i as int]);
        text.append(clients.name_at(i));
        text.append("\n");
        i += 1;
    }
    assert(keys.take(count as int) =~= keys);
    text
}

/// The device that is filed under a name, or the failure that says it is
/// not known.
pub fn get_client<'a>(client: &str, clients: &'a Clients) -> (r: Result<&'a Client, ErrorRuntime>)
    requires
        clients.wf(),
    ensures
        match r {
            Ok(device) => clients@.contains_key(client@) && device@ == clients@[client@],
            Err(e) => !clients@.contains_key(client@) && e@ == ErrorView::ClientNotFound(
                Some(client@),
            ),
        },
{
    match clients.get(client) {
        Some(device) => Ok(device),
        None => Err(ErrorRuntime::ClientNotFound(Some(String::from_str(client)))),
    }
}

/// Takes a new device in. A device that breaks a rule is refused with that
/// rule, and nothing changes. Every other device gets a gauge for each of
/// its points and is filed under its name; where a gauge cannot be made or
/// the exporter refuses it, the device is not filed, and the gauges made
/// before stay. Taking in a device under a name that is new to the table
/// keeps the gauges in step with the table.
pub fn create_client(registry: &mut PrometheusMetrics, clients: &mut Clients, client_input: Client) -> (r:
    Result<(), ErrorRuntime>)
    requires
        old(registry).wf(),
        old(clients).wf(),
    ensures
        final(registry).wf(),
        final(clients).wf(),
        match violation(client_input@) {
            Some(e) => {
                &&& r == Err::<(), ErrorRuntime>(e)
                &&& final(registry).keys() == old(registry).keys()
                &&& final(registry).exporter() == old(registry).exporter()
                &&& final(clients)@ == old(clients)@
                &&& final(clients).keys() == old(clients).keys()
                &&& final(clients).devices() == old(clients).devices()
            },
            None => {
                &&& attach_outcome(
                    old(registry).keys(),
                    gauge_specs(client_input@),
                    r,
                    final(registry).keys(),
                    final(registry).refused(),
                )
                &&& gauge_specs(client_input@).len() > 0 ==> (stopped_at_first(
                    old(registry).keys(),
                    r,
                    final(registry).keys(),
                ) <==> !gauge_accepted(gauge_specs(client_input@)[0]) || old(
                    registry,
                ).refused().contains(gauge_specs(client_input@)[0]))
                &&& final(clients)@ == if r is Ok {
                    old(clients)@.insert(client_input@.name, client_input@)
                } else {
                    old(clients)@
                }
            },
        },
        final(clients).config_path() == old(clients).config_path(),
        r is Ok && in_step(old(clients).devices(), old(registry).keys()) && !old(
            clients,
        )@.contains_key(client_input@.name) ==> in_step(
            final(clients).devices(),
            final(registry).keys(),
        ),
{
    let ghost devices = clients.devices();
    let ghost before = registry.keys();
    match client_input.verify() {
        Err(e) => {
            return Err(e);
        },
        Ok(()) => {},
    }
    match registry.register_client(&client_input) {
        Err(e) => Err(e),
        Ok(()) => {
            proof {
                if in_step(devices, before) {
                    lemma_register_in_step(devices, before, client_input@, registry.keys());
                }
            }
            let name = client_input.name.clone();
            clients.add_client(name, client_input);
            Ok(())
        },
    }
}

/// What taking a device out comes to, given what became of its gauges: a
/// device that is not known is reported as such, and a device whose gauges
/// could not all be taken away stays on file.
pub open spec fn deletion(
    clients: Map<Seq<char>, ClientView>,
    client: Seq<char>,
    r: Result<(), ErrorRuntime>,
    before: Set<Seq<char>>,
    after: Set<Seq<char>>,
    left: Map<Seq<char>, ClientView>,
) -> bool {
    if !clients.contains_key(client) {
        &&& r matches Err(e) && e@ == ErrorView::ClientNotFound(Some(client))
        &&& after == before
        &&& left == clients
    } else {
        &&& detach_outcome(before, point_keys(clients[client]), r, after)
        &&& left == if r is Ok {
            clients.remove(client)
        } else {
            clients
        }
    }
}

/// Takes a device out: takes the gauges of its points away and removes the
/// device from the table. It succeeds exactly if the device is known and a
/// gauge is on file under each of its keys, none of which occurs twice. A
/// name that no device is filed under changes nothing and is reported as a
/// device that is not known. Taking a device out keeps the gauges in step
/// with the table.
pub fn delete_client(client: &str, clients: &mut Clients, registry: &mut PrometheusMetrics) -> (r:
    Result<(), ErrorRuntime>)
    requires
        old(registry).wf(),
        old(clients).wf(),
    ensures
        final(registry).wf(),
        final(clients).wf(),
        deletion(
            old(clients)@,
            client@,
            r,
            old(registry).keys(),
            final(registry).keys(),
            final(clients)@,
        ),
        final(clients).config_path() == old(clients).config_path(),
        r is Ok <==> old(clients)@.contains_key(client@) && detachable(
            old(registry).keys(),
            point_keys(old(clients)@[client@]),
        ),
        r is Ok && in_step(old(clients).devices(), old(registry).keys()) ==> in_step(
            final(clients).devices(),
            final(registry).keys(),
        ),
{
    let ghost devices = clients.devices();
    let ghost before = registry.keys();
    let outcome = match clients.get(client) {
        None => {
            return Err(ErrorRuntime::ClientNotFound(Some(String::from_str(client))));
        },
        Some(device) => registry.unregister_client(device),
    };
    match outcome {
        Err(e) => Err(e),
        Ok(()) => {
            proof {
                let p = clients.keys().index_of(client@);
                lemma_index_of(clients.keys(), p);
                if in_step(devices, before) {
                    lemma_unregister_in_step(devices, before, p, registry.keys());
                }
            }
            clients.delete_client(client);
            Ok(())
        },
    }
}

/// Deleting a device that is not known changes nothing and is answered
/// with the failure that names it.
pub proof fn lemma_delete_unknown(
    clients: Map<Seq<char>, ClientView>,
    client: Seq<char>,
    r: Result<(), ErrorRuntime>,
    before: Set<Seq<char>>,
    after: Set<Seq<char>>,
    left: Map<Seq<char>, ClientView>,
)
    requires
        !clients.contains_key(client),
        deletion(clients, client, r, before, after, left),
    ensures
        r matches Err(e) && e@ == ErrorView::ClientNotFound(Some(client)),
        after == before,
        left == clients,
{
}

/// The snapshot of all gauges in the exporter's text format: the text that
/// the exporter's encoding gives for the records it gathers, one for each
/// gauge on file, and the empty text where there is no gauge.
pub fn metrics_handler(registry: &PrometheusMetrics) -> (r: Result<String, ErrorRuntime>)
    ensures
        snapshot(registry.keys(), registry.wf(), r),
        registry.wf() && registry.keys() == Set::<Seq<char>>::empty() ==> snapshot_view(r) == Ok::<
            Seq<char>,
            ErrorRuntime,
        >(Seq::empty()),
        r matches Err(e) ==> e == ErrorRuntime::PrometheusErrorRegistry || e
            == ErrorRuntime::PrometheusErrorEncoder,
{
    registry.render()
}

} // verus!
