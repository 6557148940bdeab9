//! The device model: devices with their registers and coils, the rules a
//! device description must meet, and the table of all known devices.

use vstd::prelude::*;
use vstd::string::*;
use crate::errors::ErrorRuntime;
use crate::json::{
    find_member, items_view, json_document, lemma_array_view, lemma_object_view, member,
    members_view, parse_document, JsonNumber, JsonTree, JsonValue,
};
use crate::text::{is_valid_name, str_eq, valid_name};

pub mod read_data;
pub mod table;

pub use table::Clients;

verus! {

/// A 16-bit measurement point.
#[derive(Debug, PartialEq, Eq)]
pub struct Register {
    pub name: String,
    pub objecttype: String,
    pub address: u16,
    pub length: u16,
    pub datatype: String,
    pub factor: i8,
    pub value: u16,
}

/// A boolean measurement point.
#[derive(Debug, PartialEq, Eq)]
pub struct Coil {
    pub name: String,
    pub objecttype: String,
    pub address: u16,
    pub value: bool,
}

/// A device: its name, its endpoint, its transport and its points.
#[derive(Debug, PartialEq, Eq)]
pub struct Client {
    pub name: String,
    pub ip_address: String,
    pub port: u16,
    pub protocol: String,
    pub registers: Vec<Register>,
    pub coils: Vec<Coil>,
}

/// The mathematical form of a [`Register`].
pub struct RegisterView {
    pub name: Seq<char>,
    pub objecttype: Seq<char>,
    pub address: u16,
    pub length: u16,
    pub datatype: Seq<char>,
    pub factor: i8,
    pub value: u16,
}

/// The mathematical form of a [`Coil`].
pub struct CoilView {
    pub name: Seq<char>,
    pub objecttype: Seq<char>,
    pub address: u16,
    pub value: bool,
}

/// The mathematical form of a [`Client`].
pub struct ClientView {
    pub name: Seq<char>,
    pub ip_address: Seq<char>,
    pub port: u16,
    pub protocol: Seq<char>,
    pub registers: Seq<RegisterView>,
    pub coils: Seq<CoilView>,
}

impl View for Register {
    type V = RegisterView;

    open spec fn view(&self) -> RegisterView {
        RegisterView {
            name: self.name@,
            objecttype: self.objecttype@,
            address: self.address,
            length: self.length,
            datatype: self.datatype@,
            factor: self.factor,
            value: self.value,
        }
    }
}

impl View for Coil {
    type V = CoilView;

    open spec fn view(&self) -> CoilView {
        CoilView {
            name: self.name@,
            objecttype: self.objecttype@,
            address: self.address,
            value: self.value,
        }
    }
}

/// The registers of a list in mathematical form.
pub open spec fn registers_view(registers: Seq<Register>) -> Seq<RegisterView> {
    Seq::new(registers.len(), |i: int| registers[i]@)
}

/// The coils of a list in mathematical form.
pub open spec fn coils_view(coils: Seq<Coil>) -> Seq<CoilView> {
    Seq::new(coils.len(), |i: int| coils[i]@)
}

impl View for Client {
    type V = ClientView;

    open spec fn view(&self) -> ClientView {
        ClientView {
            name: self.name@,
            ip_address: self.ip_address@,
            port: self.port,
            protocol: self.protocol@,
            registers: registers_view(self.registers@),
            coils: coils_view(self.coils@),
        }
    }
}

/// A reading in exact decimal form: it stands for `mantissa * 10^exponent`.
#[derive(Debug, Clone, Copy, PartialEq, Eq, Structural)]
pub struct ScaledValue {
    pub mantissa: i32,
    pub exponent: i8,
}

/// What a gauge is made from: its name and its help text.
pub struct GaugeSpec {
    pub name: Seq<char>,
    pub help: Seq<char>,
}

/// The key a point is exported under: the device's name, an underscore and
/// the point's name.
pub open spec fn point_key(device: Seq<char>, point: Seq<char>) -> Seq<char> {
    device + "_"@ + point
}

/// The gauge of a register: its key, and its datatype and kind as help.
pub open spec fn register_gauge(device: Seq<char>, r: RegisterView) -> GaugeSpec {
    GaugeSpec { name: point_key(device, r.name), help: r.datatype + " "@ + r.objecttype }
}

/// The gauge of a coil: its key, and its kind as help.
pub open spec fn coil_gauge(device: Seq<char>, c: CoilView) -> GaugeSpec {
    GaugeSpec { name: point_key(device, c.name), help: c.objecttype }
}

/// The gauges of a device: those of its registers, then those of its
/// coils, each list in its own order.
pub open spec fn gauge_specs(c: ClientView) -> Seq<GaugeSpec> {
    Seq::new(c.registers.len(), |i: int| register_gauge(c.name, c.registers[i])) + Seq::new(
        c.coils.len(),
        |i: int| coil_gauge(c.name, c.coils[i]),
    )
}

/// The keys of a device's points, in the order of its gauges.
pub open spec fn point_keys(c: ClientView) -> Seq<Seq<char>> {
    Seq::new(gauge_specs(c).len(), |i: int| gauge_specs(c)[i].name)
}

/// Writes out the key a point is exported under.
pub fn make_point_key(device: &str, point: &str) -> (r: String)
    ensures
        r@ == point_key(device@, point@),
{
    let mut key = String::from_str(device);
    key.append("_");
    key.append(point);
    key
}

/// The only transport a device may name.
pub open spec fn supported_protocol(protocol: Seq<char>) -> bool {
    protocol == "tcp"@
}

/// The datatypes a register may have.
pub open spec fn supported_datatype(datatype: Seq<char>) -> bool {
    datatype == "int16"@ || datatype == "uint16"@
}

/// The kinds a register may be of.
pub open spec fn register_kind(objecttype: Seq<char>) -> bool {
    objecttype == "holding"@ || objecttype == "input"@
}

/// The kinds a coil may be of.
pub open spec fn coil_kind(objecttype: Seq<char>) -> bool {
    objecttype == "coil"@ || objecttype == "discrete"@
}

/// The rule a register breaks first: its name, then its datatype, then its
/// kind.
pub open spec fn register_violation(r: RegisterView) -> Option<ErrorRuntime> {
    if !valid_name(r.name) {
        Some(ErrorRuntime::RegexError)
    } else if !supported_datatype(r.datatype) {
        Some(ErrorRuntime::ClientRegisterDatatypeNotSupported)
    } else if !register_kind(r.objecttype) {
        Some(ErrorRuntime::ClientRegisterObjecttypeNotSupported)
    } else {
        None
    }
}

/// The rule a coil breaks first: its name, then its kind.
pub open spec fn coil_violation(c: CoilView) -> Option<ErrorRuntime> {
    if !valid_name(c.name) {
        Some(ErrorRuntime::RegexError)
    } else if !coil_kind(c.objecttype) {
        Some(ErrorRuntime::ClientRegisterObjecttypeNotSupported)
    } else {
        None
    }
}

/// The names of a list of registers, in the order of the list.
pub open spec fn register_names(registers: Seq<RegisterView>) -> Seq<Seq<char>> {
    Seq::new(registers.len(), |i: int| registers[i].name)
}

/// The names of a list of coils, in the order of the list.
pub open spec fn coil_names(coils: Seq<CoilView>) -> Seq<Seq<char>> {
    Seq::new(coils.len(), |i: int| coils[i].name)
}

/// Whether the name at place `i` of a list stands at an earlier place too.
pub open spec fn repeated(names: Seq<Seq<char>>, i: int) -> bool {
    exists|j: int| 0 <= j < i && #[trigger] names[j] == names[i]
}

/// The rule the register at place `i` of a list breaks first: its name,
/// which must also be new to the list, then its datatype, then its kind.
pub open spec fn register_violation_at(registers: Seq<RegisterView>, i: int) -> Option<ErrorRuntime> {
    if repeated(register_names(registers), i) {
        Some(ErrorRuntime::RegexError)
    } else {
        register_violation(registers[i])
    }
}

/// The rule the coil at place `i` of a list breaks first: its name, which
/// must also be new to the list, then its kind.
pub open spec fn coil_violation_at(coils: Seq<CoilView>, i: int) -> Option<ErrorRuntime> {
    if repeated(coil_names(coils), i) {
        Some(ErrorRuntime::RegexError)
    } else {
        coil_violation(coils[i])
    }
}

/// The violation of the first register from place `i` on that has one.
pub open spec fn registers_violation_from(registers: Seq<RegisterView>, i: int) -> Option<ErrorRuntime>
    decreases registers.len() - i,
{
    if i < 0 || i >= registers.len() {
        None
    } else if register_violation_at(registers, i) is Some {
        register_violation_at(registers, i)
    } else {
        registers_violation_from(registers, i + 1)
    }
}

/// The violation of the first coil from place `i` on that has one.
pub open spec fn coils_violation_from(coils: Seq<CoilView>, i: int) -> Option<ErrorRuntime>
    decreases coils.len() - i,
{
    if i < 0 || i >= coils.len() {
        None
    } else if coil_violation_at(coils, i) is Some {
        coil_violation_at(coils, i)
    } else {
        coils_violation_from(coils, i + 1)
    }
}

/// The violation of the first register that has one.
pub open spec fn registers_violation(registers: Seq<RegisterView>) -> Option<ErrorRuntime> {
    registers_violation_from(registers, 0)
}

/// The violation of the first coil that has one.
pub open spec fn coils_violation(coils: Seq<CoilView>) -> Option<ErrorRuntime> {
    coils_violation_from(coils, 0)
}

/// The rule a device breaks first, in the order in which the rules are
/// checked: the device's name, its transport, then register by register,
/// then coil by coil. `None` for a device that breaks none.
pub open spec fn violation(c: ClientView) -> Option<ErrorRuntime> {
    if !valid_name(c.name) {
        Some(ErrorRuntime::RegexError)
    } else if !supported_protocol(c.protocol) {
        Some(ErrorRuntime::ClientProtocolNotSupported)
    } else if registers_violation(c.registers) is Some {
        registers_violation(c.registers)
    } else {
        coils_violation(c.coils)
    }
}

/// What holds of every device that is accepted: its name and the names of
/// its points meet the naming rule, its transport, datatypes and kinds are
/// supported ones, and no name occurs twice among its registers or twice
/// among its coils.
pub open spec fn well_formed(c: ClientView) -> bool {
    &&& valid_name(c.name)
    &&& supported_protocol(c.protocol)
    &&& forall|i: int|
        0 <= i < c.registers.len() ==> register_violation(#[trigger] c.registers[i]) is None
    &&& register_names(c.registers).no_duplicates()
    &&& forall|i: int| 0 <= i < c.coils.len() ==> coil_violation(#[trigger] c.coils[i]) is None
    &&& coil_names(c.coils).no_duplicates()
}

/// Among registers of which none from place `i` up to place `k` breaks a
/// rule, the violation from `i` on is the violation from `k` on.
pub proof fn lemma_registers_violation_skip(registers: Seq<RegisterView>, i: int, k: int)
    requires
        0 <= i <= k <= registers.len(),
        forall|j: int| i <= j < k ==> (#[trigger] register_violation_at(registers, j)) is None,
    ensures
        registers_violation_from(registers, i) == registers_violation_from(registers, k),
    decreases k - i,
{
    if i < k {
        assert(register_violation_at(registers, i) is None);
        lemma_registers_violation_skip(registers, i + 1, k);
    }
}

/// Among coils of which none from place `i` up to place `k` breaks a rule,
/// the violation from `i` on is the violation from `k` on.
pub proof fn lemma_coils_violation_skip(coils: Seq<CoilView>, i: int, k: int)
    requires
        0 <= i <= k <= coils.len(),
        forall|j: int| i <= j < k ==> (#[trigger] coil_violation_at(coils, j)) is None,
    ensures
        coils_violation_from(coils, i) == coils_violation_from(coils, k),
    decreases k - i,
{
    if i < k {
        assert(coil_violation_at(coils, i) is None);
        lemma_coils_violation_skip(coils, i + 1, k);
    }
}

/// A list of registers breaks no rule from place `i` on exactly if none of
/// its registers from there on does.
pub proof fn lemma_registers_violation_none(registers: Seq<RegisterView>, i: int)
    requires
        0 <= i <= registers.len(),
    ensures
        registers_violation_from(registers, i) is None <==> (forall|j: int|
            i <= j < registers.len() ==> (#[trigger] register_violation_at(registers, j)) is None),
    decreases registers.len() - i,
{
    if i < registers.len() {
        lemma_registers_violation_none(registers, i + 1);
        if registers_violation_from(registers, i) is None {
            assert forall|j: int| i <= j < registers.len() implies (#[trigger] register_violation_at(
                registers,
                j,
            )) is None by {
                if j > i {
                    assert(registers_violation_from(registers, i + 1) is None);
                }
            }
        }
    }
}

/// A list of coils breaks no rule from place `i` on exactly if none of its
/// coils from there on does.
pub proof fn lemma_coils_violation_none(coils: Seq<CoilView>, i: int)
    requires
        0 <= i <= coils.len(),
    ensures
        coils_violation_from(coils, i) is None <==> (forall|j: int|
            i <= j < coils.len() ==> (#[trigger] coil_violation_at(coils, j)) is None),
    decreases coils.len() - i,
{
    if i < coils.len() {
        lemma_coils_violation_none(coils, i + 1);
        if coils_violation_from(coils, i) is None {
            assert forall|j: int| i <= j < coils.len() implies (#[trigger] coil_violation_at(
                coils,
                j,
            )) is None by {
                if j > i {
                    assert(coils_violation_from(coils, i + 1) is None);
                }
            }
        }
    }
}

/// No name of a list stands at an earlier place too exactly if no name
/// occurs twice.
pub proof fn lemma_repeated_none(names: Seq<Seq<char>>)
    ensures
        (forall|i: int| 0 <= i < names.len() ==> !(#[trigger] repeated(names, i)))
            <==> names.no_duplicates(),
{
    if forall|i: int| 0 <= i < names.len() ==> !(#[trigger] repeated(names, i)) {
        assert forall|i: int, j: int|
            0 <= i < names.len() && 0 <= j < names.len() && i != j implies names[i] != names[j] by {
            if i < j {
                assert(!repeated(names, j));
            } else {
                assert(!repeated(names, i));
            }
        }
    }
    if names.no_duplicates() {
        assert forall|i: int| 0 <= i < names.len() implies !(#[trigger] repeated(names, i)) by {
            if repeated(names, i) {
                let j = choose|j: int| 0 <= j < i && #[trigger] names[j] == names[i];
                assert(names[j] != names[i]);
            }
        }
    }
}

/// A device breaks no rule exactly if it is well-formed.
pub proof fn lemma_accepted_is_well_formed(c: ClientView)
    ensures
        violation(c) is None <==> well_formed(c),
{
    lemma_registers_violation_none(c.registers, 0);
    lemma_coils_violation_none(c.coils, 0);
    lemma_repeated_none(register_names(c.registers));
    lemma_repeated_none(coil_names(c.coils));
    let rn = register_names(c.registers);
    let cn = coil_names(c.coils);
    if well_formed(c) {
        assert forall|j: int| 0 <= j < c.registers.len() implies (#[trigger] register_violation_at(
            c.registers,
            j,
        )) is None by {
            assert(!repeated(rn, j));
            assert(register_violation(c.registers[j]) is None);
        }
        assert forall|j: int| 0 <= j < c.coils.len() implies (#[trigger] coil_violation_at(
            c.coils,
            j,
        )) is None by {
            assert(!repeated(cn, j));
            assert(coil_violation(c.coils[j]) is None);
        }
    }
    if violation(c) is None {
        assert forall|i: int| 0 <= i < c.registers.len() implies register_violation(
            #[trigger] c.registers[i],
        ) is None && !repeated(rn, i) by {
            assert(register_violation_at(c.registers, i) is None);
        }
        assert forall|i: int| 0 <= i < rn.len() implies !(#[trigger] repeated(rn, i)) by {
            assert(register_violation_at(c.registers, i) is None);
        }
        assert forall|i: int| 0 <= i < c.coils.len() implies coil_violation(#[trigger] c.coils[i]) is None
            && !repeated(cn, i) by {
            assert(coil_violation_at(c.coils, i) is None);
        }
        assert forall|i: int| 0 <= i < cn.len() implies !(#[trigger] repeated(cn, i)) by {
            assert(coil_violation_at(c.coils, i) is None);
        }
    }
}

/// A device of an unsupported transport is never accepted, and where its
/// name is valid it is refused for its transport.
pub proof fn lemma_unsupported_protocol(c: ClientView)
    requires
        !supported_protocol(c.protocol),
    ensures
        violation(c) is Some,
        valid_name(c.name) ==> violation(c) == Some(ErrorRuntime::ClientProtocolNotSupported),
{
}

/// A device with a register of an unsupported datatype is never accepted,
/// and where nothing that is checked before breaks a rule it is refused
/// for that datatype.
pub proof fn lemma_unsupported_datatype(c: ClientView, i: int)
    requires
        0 <= i < c.registers.len(),
        !supported_datatype(c.registers[i].datatype),
    ensures
        violation(c) is Some,
        valid_name(c.name) && supported_protocol(c.protocol) && valid_name(c.registers[i].name)
            && !repeated(register_names(c.registers), i) && (forall|j: int|
            0 <= j < i ==> (#[trigger] register_violation_at(c.registers, j)) is None) ==> violation(
            c,
        ) == Some(ErrorRuntime::ClientRegisterDatatypeNotSupported),
{
    lemma_registers_violation_none(c.registers, 0);
    assert(register_violation_at(c.registers, i) is Some);
    if forall|j: int| 0 <= j < i ==> (#[trigger] register_violation_at(c.registers, j)) is None {
        lemma_registers_violation_skip(c.registers, 0, i);
    }
}

/// A device with a register of an unsupported kind is never accepted, and
/// where nothing that is checked before breaks a rule it is refused for
/// that kind.
pub proof fn lemma_unsupported_register_kind(c: ClientView, i: int)
    requires
        0 <= i < c.registers.len(),
        !register_kind(c.registers[i].objecttype),
    ensures
        violation(c) is Some,
        valid_name(c.name) && supported_protocol(c.protocol) && valid_name(c.registers[i].name)
            && !repeated(register_names(c.registers), i) && supported_datatype(
            c.registers[i].datatype,
        ) && (forall|j: int|
            0 <= j < i ==> (#[trigger] register_violation_at(c.registers, j)) is None) ==> violation(
            c,
        ) == Some(ErrorRuntime::ClientRegisterObjecttypeNotSupported),
{
    lemma_registers_violation_none(c.registers, 0);
    assert(register_violation_at(c.registers, i) is Some);
    if forall|j: int| 0 <= j < i ==> (#[trigger] register_violation_at(c.registers, j)) is None {
        lemma_registers_violation_skip(c.registers, 0, i);
    }
}

/// The number a raw word stands for under a datatype: `int16` reads it as
/// two's complement, every other datatype as it is.
pub open spec fn interpret(raw: u16, datatype: Seq<char>) -> int {
    if datatype == "int16"@ && raw >= 32768 {
        raw - 65536
    } else {
        raw as int
    }
}

/// Under `int16` a raw word is read as two's complement: the upper half of
/// the words stands for the negative numbers.
pub proof fn lemma_int16_is_signed(raw: u16)
    ensures
        -32768 <= interpret(raw, "int16"@) <= 32767,
        raw < 32768 ==> interpret(raw, "int16"@) == raw,
        raw >= 32768 ==> interpret(raw, "int16"@) == raw - 65536,
{
}

/// Under `uint16` a raw word is read as it is: no word stands for a
/// negative number.
pub proof fn lemma_uint16_is_unsigned(raw: u16)
    ensures
        interpret(raw, "uint16"@) == raw,
{
    reveal_strlit("uint16");
    reveal_strlit("int16");
    assert("uint16"@.len() != "int16"@.len());
}

impl Register {
    /// Decides which rule this register breaks first.
    pub fn verify(&self) -> (r: Result<(), ErrorRuntime>)
        ensures
            r == match register_violation(self@) {
                Some(e) => Err::<(), ErrorRuntime>(e),
                None => Ok(()),
            },
    {
        if !is_valid_name(self.name.as_str()) {
            return Err(ErrorRuntime::RegexError);
        }
        let datatype = self.datatype.as_str();
        if !(str_eq(datatype, "int16") || str_eq(datatype, "uint16")) {
            return Err(ErrorRuntime::ClientRegisterDatatypeNotSupported);
        }
        let objecttype = self.objecttype.as_str();
        if !(str_eq(objecttype, "holding") || str_eq(objecttype, "input")) {
            return Err(ErrorRuntime::ClientRegisterObjecttypeNotSupported);
        }
        Ok(())
    }

    /// The value this register exports: its raw word read as its datatype
    /// says, to be scaled by ten to the power of its factor. A register of
    /// another datatype exports nothing.
    pub fn calc_final_value_for_registry(&self) -> (r: Result<ScaledValue, ErrorRuntime>)
        ensures
            match r {
                Ok(v) => supported_datatype(self.datatype@) && v.mantissa == interpret(
                    self.value,
                    self.datatype@,
                ) && v.exponent == self.factor,
                Err(e) => !supported_datatype(self.datatype@) && e
                    == ErrorRuntime::ClientRegisterDatatypeNotSupported,
            },
    {
        let datatype = self.datatype.as_str();
        if str_eq(datatype, "int16") {
            let word: i32 = self.value as i32;
            let mantissa: i32 = if self.value >= 32768 {
                word - 65536
            } else {
                word
            };
            Ok(ScaledValue { mantissa, exponent: self.factor })
        } else if str_eq(datatype, "uint16") {
            Ok(ScaledValue { mantissa: self.value as i32, exponent: self.factor })
        } else {
            Err(ErrorRuntime::ClientRegisterDatatypeNotSupported)
        }
    }

    /// Whether the control interface may write this register: a holding
    /// register, not an input register.
    pub fn is_writable(&self) -> (r: bool)
        ensures
            r == (self.objecttype@ == "holding"@),
    {
        str_eq(self.objecttype.as_str(), "holding")
    }
}

impl Coil {
    /// Decides which rule this coil breaks first.
    pub fn verify(&self) -> (r: Result<(), ErrorRuntime>)
        ensures
            r == match coil_violation(self@) {
                Some(e) => Err::<(), ErrorRuntime>(e),
                None => Ok(()),
            },
    {
        if !is_valid_name(self.name.as_str()) {
            return Err(ErrorRuntime::RegexError);
        }
        let objecttype = self.objecttype.as_str();
        if !(str_eq(objecttype, "coil") || str_eq(objecttype, "discrete")) {
            return Err(ErrorRuntime::ClientRegisterObjecttypeNotSupported);
        }
        Ok(())
    }

    /// Whether the control interface may write this coil: a coil, not a
    /// discrete input.
    pub fn is_writable(&self) -> (r: bool)
        ensures
            r == (self.objecttype@ == "coil"@),
    {
        str_eq(self.objecttype.as_str(), "coil")
    }
}

/// The value a coil reading exports: one for set, zero for clear.
pub fn coil_gauge_value(input: bool) -> (r: ScaledValue)
    ensures
        r.exponent == 0,
        r.mantissa == if input { 1int } else { 0int },
{
    if input {
        ScaledValue { mantissa: 1, exponent: 0 }
    } else {
        ScaledValue { mantissa: 0, exponent: 0 }
    }
}

/// The text filed under `key`, where there is one.
pub open spec fn text_field(members: Seq<(Seq<char>, JsonTree)>, key: Seq<char>) -> Option<Seq<char>> {
    match member(members, key) {
        Some(JsonTree::Text(s)) => Some(s),
        _ => None,
    }
}

/// The truth value filed under `key`, where there is one.
pub open spec fn bool_field(members: Seq<(Seq<char>, JsonTree)>, key: Seq<char>) -> Option<bool> {
    match member(members, key) {
        Some(JsonTree::Boolean(b)) => Some(b),
        _ => None,
    }
}

/// The unsigned 16-bit number filed under `key`, where there is one.
pub open spec fn u16_field(members: Seq<(Seq<char>, JsonTree)>, key: Seq<char>) -> Option<u16> {
    match member(members, key) {
        Some(JsonTree::Number(JsonNumber::PosInt(n))) => if n <= 65535 {
            Some(n as u16)
        } else {
            None
        },
        _ => None,
    }
}

/// The signed 8-bit number filed under `key`, where there is one.
pub open spec fn i8_field(members: Seq<(Seq<char>, JsonTree)>, key: Seq<char>) -> Option<i8> {
    match member(members, key) {
        Some(JsonTree::Number(JsonNumber::PosInt(n))) => if n <= 127 {
            Some(n as i8)
        } else {
            None
        },
        Some(JsonTree::Number(JsonNumber::NegInt(n))) => if -128 <= n <= 127 {
            Some(n as i8)
        } else {
            None
        },
        _ => None,
    }
}

/// The register that a document describes: an object with a text `name`,
/// `objecttype` and `datatype`, 16-bit `address`, `length` and `value`, and
/// an 8-bit signed `factor`. Other members are ignored.
pub open spec fn decode_register(t: JsonTree) -> Option<RegisterView> {
    match t {
        JsonTree::Object(m) => if text_field(m, "name"@) is Some && text_field(m, "objecttype"@) is Some
            && u16_field(m, "address"@) is Some && u16_field(m, "length"@) is Some && text_field(
            m,
            "datatype"@,
        ) is Some && i8_field(m, "factor"@) is Some && u16_field(m, "value"@) is Some {
            Some(
                RegisterView {
                    name: text_field(m, "name"@).unwrap(),
                    objecttype: text_field(m, "objecttype"@).unwrap(),
                    address: u16_field(m, "address"@).unwrap(),
                    length: u16_field(m, "length"@).unwrap(),
                    datatype: text_field(m, "datatype"@).unwrap(),
                    factor: i8_field(m, "factor"@).unwrap(),
                    value: u16_field(m, "value"@).unwrap(),
                },
            )
        } else {
            None
        },
        _ => None,
    }
}

/// The coil that a document describes: an object with a text `name` and
/// `objecttype`, a 16-bit `address` and a truth value `value`.
pub open spec fn decode_coil(t: JsonTree) -> Option<CoilView> {
    match t {
        JsonTree::Object(m) => if text_field(m, "name"@) is Some && text_field(m, "objecttype"@) is Some
            && u16_field(m, "address"@) is Some && bool_field(m, "value"@) is Some {
            Some(
                CoilView {
                    name: text_field(m, "name"@).unwrap(),
                    objecttype: text_field(m, "objecttype"@).unwrap(),
                    address: u16_field(m, "address"@).unwrap(),
                    value: bool_field(m, "value"@).unwrap(),
                },
            )
        } else {
            None
        },
        _ => None,
    }
}

/// The registers that a document lists: an array of registers.
pub open spec fn decode_registers(t: Option<JsonTree>) -> Option<Seq<RegisterView>> {
    match t {
        Some(JsonTree::Array(items)) => if forall|i: int|
            0 <= i < items.len() ==> (#[trigger] decode_register(items[i])) is Some {
            Some(Seq::new(items.len(), |i: int| decode_register(items[i]).unwrap()))
        } else {
            None
        },
        _ => None,
    }
}

/// The coils that a document lists: an array of coils.
pub open spec fn decode_coils(t: Option<JsonTree>) -> Option<Seq<CoilView>> {
    match t {
        Some(JsonTree::Array(items)) => if forall|i: int|
            0 <= i < items.len() ==> (#[trigger] decode_coil(items[i])) is Some {
            Some(Seq::new(items.len(), |i: int| decode_coil(items[i]).unwrap()))
        } else {
            None
        },
        _ => None,
    }
}

/// The device that a document describes: an object with a text `name`,
/// `ip_address` and `protocol`, a 16-bit `port`, and the lists `registers`
/// and `coils`.
pub open spec fn decode_client(t: JsonTree) -> Option<ClientView> {
    match t {
        JsonTree::Object(m) => if text_field(m, "name"@) is Some && text_field(m, "ip_address"@) is Some
            && u16_field(m, "port"@) is Some && text_field(m, "protocol"@) is Some
            && decode_registers(member(m, "registers"@)) is Some && decode_coils(
            member(m, "coils"@),
        ) is Some {
            Some(
                ClientView {
                    name: text_field(m, "name"@).unwrap(),
                    ip_address: text_field(m, "ip_address"@).unwrap(),
                    port: u16_field(m, "port"@).unwrap(),
                    protocol: text_field(m, "protocol"@).unwrap(),
                    registers: decode_registers(member(m, "registers"@)).unwrap(),
                    coils: decode_coils(member(m, "coils"@)).unwrap(),
                },
            )
        } else {
            None
        },
        _ => None,
    }
}

/// What becomes of a device description: a description that is no device
/// is malformed, a device that breaks a rule is refused with that rule, and
/// every other device is accepted.
pub open spec fn creation(t: JsonTree) -> Result<ClientView, ErrorRuntime> {
    match decode_client(t) {
        None => Err(ErrorRuntime::ClientJsonParseError),
        Some(c) => match violation(c) {
            Some(e) => Err(e),
            None => Ok(c),
        },
    }
}

/// The outcome of a creation in mathematical form.
pub open spec fn creation_view(r: Result<Client, ErrorRuntime>) -> Result<ClientView, ErrorRuntime> {
    match r {
        Ok(c) => Ok(c@),
        Err(e) => Err(e),
    }
}

fn read_text(members: &Vec<(String, JsonValue)>, key: &str) -> (r: Option<String>)
    ensures
        match r {
            Some(s) => text_field(members_view(members@), key@) == Some(s@),
            None => text_field(members_view(members@), key@) is None,
        },
{
    match find_member(members, key) {
        Some(JsonValue::Text(s)) => Some(s.clone()),
        _ => None,
    }
}

fn read_bool(members: &Vec<(String, JsonValue)>, key: &str) -> (r: Option<bool>)
    ensures
        r == bool_field(members_view(members@), key@),
{
    match find_member(members, key) {
        Some(JsonValue::Boolean(b)) => Some(*b),
        _ => None,
    }
}

fn read_u16(members: &Vec<(String, JsonValue)>, key: &str) -> (r: Option<u16>)
    ensures
        r == u16_field(members_view(members@), key@),
{
    match find_member(members, key) {
        Some(JsonValue::Number(JsonNumber::PosInt(n))) => {
            if *n <= 65535 {
                Some(*n as u16)
            } else {
                None
            }
        },
        _ => None,
    }
}

fn read_i8(members: &Vec<(String, JsonValue)>, key: &str) -> (r: Option<i8>)
    ensures
        r == i8_field(members_view(members@), key@),
{
    match find_member(members, key) {
        Some(JsonValue::Number(JsonNumber::PosInt(n))) => {
            if *n <= 127 {
                Some(*n as i8)
            } else {
                None
            }
        },
        Some(JsonValue::Number(JsonNumber::NegInt(n))) => {
            if -128 <= *n && *n <= 127 {
                Some(*n as i8)
            } else {
                None
            }
        },
        _ => None,
    }
}

impl Register {
    /// Reads a register from its description.
    pub fn from_json(value: &JsonValue) -> (r: Option<Register>)
        ensures
            match r {
                Some(register) => decode_register(value@) == Some(register@),
                None => decode_register(value@) is None,
            },
    {
        match value {
            JsonValue::Object(members) => {
                proof {
                    lemma_object_view(*members);
                }
                let name = read_text(members, "name");
                let objecttype = read_text(members, "objecttype");
                let address = read_u16(members, "address");
                let length = read_u16(members, "length");
                let datatype = read_text(members, "datatype");
                let factor = read_i8(members, "factor");
                let word = read_u16(members, "value");
                match (name, objecttype, address, length, datatype, factor, word) {
                    (
                        Some(name),
                        Some(objecttype),
                        Some(address),
                        Some(length),
                        Some(datatype),
                        Some(factor),
                        Some(value),
                    ) => Some(
                        Register { name, objecttype, address, length, datatype, factor, value },
                    ),
                    _ => None,
                }
            },
            _ => None,
        }
    }
}

impl Coil {
    /// Reads a coil from its description.
    pub fn from_json(value: &JsonValue) -> (r: Option<Coil>)
        ensures
            match r {
                Some(coil) => decode_coil(value@) == Some(coil@),
                None => decode_coil(value@) is None,
            },
    {
        match value {
            JsonValue::Object(members) => {
                proof {
                    lemma_object_view(*members);
                }
                let name = read_text(members, "name");
                let objecttype = read_text(members, "objecttype");
                let address = read_u16(members, "address");
                let state = read_bool(members, "value");
                match (name, objecttype, address, state) {
                    (Some(name), Some(objecttype), Some(address), Some(value)) => Some(
                        Coil { name, objecttype, address, value },
                    ),
                    _ => None,
                }
            },
            _ => None,
        }
    }
}

fn read_registers(members: &Vec<(String, JsonValue)>, key: &str) -> (r: Option<Vec<Register>>)
    ensures
        match r {
            Some(registers) => decode_registers(member(members_view(members@), key@)) == Some(
                registers_view(registers@),
            ),
            None => decode_registers(member(members_view(members@), key@)) is None,
        },
{
    match find_member(members, key) {
        Some(JsonValue::Array(items)) => {
            proof {
                lemma_array_view(*items);
            }
            let ghost trees = items_view(items@);
            let mut registers: Vec<Register> = Vec::new();
            let mut i: usize = 0;
            while i < items.len()
                invariant
                    i <= items@.len(),
                    trees == items_view(items@),
                    member(members_view(members@), key@) == Some(JsonTree::Array(trees)),
                    registers@.len() == i,
                    forall|j: int|
                        0 <= j < i ==> (#[trigger] decode_register(trees[j])) == Some(
                            registers@[j]@,
                        ),
                decreases items@.len() - i,
            {
                match Register::from_json(&items[i]) {
                    Some(register) => {
                        registers.push(register);
                    },
                    None => {
                        assert(decode_register(trees[i as int]) is None);
                        return None;
                    },
                }
                i += 1;
            }
            assert(decode_registers(Some(JsonTree::Array(trees))).unwrap() =~= registers_view(
                registers@,
            ));
            Some(registers)
        },
        _ => None,
    }
}

fn read_coils(members: &Vec<(String, JsonValue)>, key: &str) -> (r: Option<Vec<Coil>>)
    ensures
        match r {
            Some(coils) => decode_coils(member(members_view(members@), key@)) == Some(
                coils_view(coils@),
            ),
            None => decode_coils(member(members_view(members@), key@)) is None,
        },
{
    match find_member(members, key) {
        Some(JsonValue::Array(items)) => {
            proof {
                lemma_array_view(*items);
            }
            let ghost trees = items_view(items@);
            let mut coils: Vec<Coil> = Vec::new();
            let mut i: usize = 0;
            while i < items.len()
                invariant
                    i <= items@.len(),
                    trees == items_view(items@),
                    member(members_view(members@), key@) == Some(JsonTree::Array(trees)),
                    coils@.len() == i,
                    forall|j: int|
                        0 <= j < i ==> (#[trigger] decode_coil(trees[j])) == Some(coils@[j]@),
                decreases items@.len() - i,
            {
                match Coil::from_json(&items[i]) {
                    Some(coil) => {
                        coils.push(coil);
                    },
                    None => {
                        assert(decode_coil(trees[i as int]) is None);
                        return None;
                    },
                }
                i += 1;
            }
            assert(decode_coils(Some(JsonTree::Array(trees))).unwrap() =~= coils_view(coils@));
            Some(coils)
        },
        _ => None,
    }
}

impl Client {
    /// Reads a device from its description, without holding it to the
    /// rules.
    pub fn decode(value: &JsonValue) -> (r: Option<Client>)
        ensures
            match r {
                Some(client) => decode_client(value@) == Some(client@),
                None => decode_client(value@) is None,
            },
    {
        match value {
            JsonValue::Object(members) => {
                proof {
                    lemma_object_view(*members);
                }
                let name = read_text(members, "name");
                let ip_address = read_text(members, "ip_address");
                let port = read_u16(members, "port");
                let protocol = read_text(members, "protocol");
                let registers = read_registers(members, "registers");
                let coils = read_coils(members, "coils");
                match (name, ip_address, port, protocol, registers, coils) {
                    (
                        Some(name),
                        Some(ip_address),
                        Some(port),
                        Some(protocol),
                        Some(registers),
                        Some(coils),
                    ) => Some(Client { name, ip_address, port, protocol, registers, coils }),
                    _ => None,
                }
            },
            _ => None,
        }
    }

    /// Whether the name of the register at place `i` is the name of an
    /// earlier register too.
    fn register_name_repeated(&self, i: usize) -> (r: bool)
        requires
            i < self.registers@.len(),
        ensures
            r == repeated(register_names(self@.registers), i as int),
    {
        let ghost names = register_names(self@.registers);
        let mut j: usize = 0;
        while j < i
            invariant
                j <= i,
                i < self.registers@.len(),
                names == register_names(self@.registers),
                forall|k: int| 0 <= k < j ==> names[k] != names[i as int],
            decreases i - j,
        {
            assert(names[j as int] == self.registers@[j as int].name@);
            assert(names[i as int] == self.registers@[i as int].name@);
            if str_eq(self.registers[j].name.as_str(), self.registers[i].name.as_str()) {
                return true;
            }
            j += 1;
        }
        false
    }

    /// Whether the name of the coil at place `i` is the name of an earlier
    /// coil too.
    fn coil_name_repeated(&self, i: usize) -> (r: bool)
        requires
            i < self.coils@.len(),
        ensures
            r == repeated(coil_names(self@.coils), i as int),
    {
        let ghost names = coil_names(self@.coils);
        let mut j: usize = 0;
        while j < i
            invariant
                j <= i,
                i < self.coils@.len(),
                names == coil_names(self@.coils),
                forall|k: int| 0 <= k < j ==> names[k] != names[i as int],
            decreases i - j,
        {
            assert(names[j as int] == self.coils@[j as int].name@);
            assert(names[i as int] == self.coils@[i as int].name@);
            if str_eq(self.coils[j].name.as_str(), self.coils[i].name.as_str()) {
                return true;
            }
            j += 1;
        }
        false
    }

    /// Decides which rule this device breaks first, in the order in which
    /// the rules are checked. It accepts the well-formed devices and no
    /// others.
    pub fn verify(&self) -> (r: Result<(), ErrorRuntime>)
        ensures
            r == match violation(self@) {
                Some(e) => Err::<(), ErrorRuntime>(e),
                None => Ok(()),
            },
            r is Ok <==> well_formed(self@),
    {
        proof {
            lemma_accepted_is_well_formed(self@);
        }
        if !is_valid_name(self.name.as_str()) {
            return Err(ErrorRuntime::RegexError);
        }
        if !str_eq(self.protocol.as_str(), "tcp") {
            return Err(ErrorRuntime::ClientProtocolNotSupported);
        }
        let ghost rs = self@.registers;
        let mut i: usize = 0;
        while i < self.registers.len()
            invariant
                i <= self.registers@.len(),
                valid_name(self@.name),
                supported_protocol(self@.protocol),
                rs == self@.registers,
                registers_violation(rs) == registers_violation_from(rs, i as int),
            decreases self.registers@.len() - i,
        {
            assert(rs[i as int] == self.registers@[i as int]@);
            if self.register_name_repeated(i) {
                return Err(ErrorRuntime::RegexError);
            }
            match self.registers[i].verify() {
                Err(e) => {
                    return Err(e);
                },
                Ok(()) => {},
            }
            i += 1;
        }
        let ghost cs = self@.coils;
        let mut k: usize = 0;
        while k < self.coils.len()
            invariant
                k <= self.coils@.len(),
                valid_name(self@.name),
                supported_protocol(self@.protocol),
                registers_violation(self@.registers) is None,
                cs == self@.coils,
                coils_violation(cs) == coils_violation_from(cs, k as int),
            decreases self.coils@.len() - k,
        {
            assert(cs[k as int] == self.coils@[k as int]@);
            if self.coil_name_repeated(k) {
                return Err(ErrorRuntime::RegexError);
            }
            match self.coils[k].verify() {
                Err(e) => {
                    return Err(e);
                },
                Ok(()) => {},
            }
            k += 1;
        }
        Ok(())
    }

    /// Reads a device from its description and holds it to the rules.
    pub fn from_json(value: &JsonValue) -> (r: Result<Client, ErrorRuntime>)
        ensures
            creation_view(r) == creation(value@),
    {
        match Client::decode(value) {
            None => Err(ErrorRuntime::ClientJsonParseError),
            Some(client) => match client.verify() {
                Err(e) => Err(e),
                Ok(()) => Ok(client),
            },
        }
    }

    /// Reads a device from the text of its description and holds it to the
    /// rules. A text that is no JSON document is malformed.
    pub fn new(json_string: String) -> (r: Result<Client, ErrorRuntime>)
        ensures
            creation_view(r) == match json_document(json_string@) {
                None => Err::<ClientView, ErrorRuntime>(ErrorRuntime::ClientJsonParseError),
                Some(t) => creation(t),
            },
    {
        match parse_document(json_string.as_str()) {
            None => Err(ErrorRuntime::ClientJsonParseError),
            Some(value) => Client::from_json(&value),
        }
    }
}

impl Clone for Register {
    fn clone(&self) -> (r: Self)
        ensures
            r@ == self@,
    {
        Register {
            name: self.name.clone(),
            objecttype: self.objecttype.clone(),
            address: self.address,
            length: self.length,
            datatype: self.datatype.clone(),
            factor: self.factor,
            value: self.value,
        }
    }
}

impl Clone for Coil {
    fn clone(&self) -> (r: Self)
        ensures
            r@ == self@,
    {
        Coil {
            name: self.name.clone(),
            objecttype: self.objecttype.clone(),
            address: self.address,
            value: self.value,
        }
    }
}

impl Clone for Client {
    fn clone(&self) -> (r: Self)
        ensures
            r@ == self@,
    {
        let mut registers: Vec<Register> = Vec::new();
        let mut i: usize = 0;
        while i < self.registers.len()
            invariant
                i <= self.registers@.len(),
                registers@.len() == i,
                forall|j: int| 0 <= j < i ==> (#[trigger] registers@[j])@ == self.registers@[j]@,
            decreases self.registers@.len() - i,
        {
            registers.push(self.registers[i].clone());
            i += 1;
        }
        let mut coils: Vec<Coil> = Vec::new();
        let mut k: usize = 0;
        while k < self.coils.len()
            invariant
                k <= self.coils@.len(),
                coils@.len() == k,
                forall|j: int| 0 <= j < k ==> (#[trigger] coils@[j])@ == self.coils@[j]@,
            decreases self.coils@.len() - k,
        {
            coils.push(self.coils[k].clone());
            k += 1;
        }
        assert(registers_view(registers@) =~= registers_view(self.registers@));
        assert(coils_view(coils@) =~= coils_view(self.coils@));
        Client {
            name: self.name.clone(),
            ip_address: self.ip_address.clone(),
            port: self.port,
            protocol: self.protocol.clone(),
            registers,
            coils,
        }
    }
}

impl Client {
    /// The first register that goes by `name`.
    pub fn get_register_by_name(&self, name: &str) -> (r: Option<&Register>)
        ensures
            match r {
                Some(register) => exists|i: int|
                    0 <= i < self.registers@.len() && self.registers@[i] == *register
                        && register.name@ == name@ && forall|j: int|
                        0 <= j < i ==> self.registers@[j].name@ != name@,
                None => forall|j: int|
                    0 <= j < self.registers@.len() ==> self.registers@[j].name@ != name@,
            },
    {
        let mut i: usize = 0;
        while i < self.registers.len()
            invariant
                i <= self.registers@.len(),
                forall|j: int| 0 <= j < i ==> self.registers@[j].name@ != name@,
            decreases self.registers@.len() - i,
        {
            if str_eq(self.registers[i].name.as_str(), name) {
                return Some(&self.registers[i]);
            }
            i += 1;
        }
        None
    }

    /// The first coil that goes by `name`.
    pub fn get_coil_by_name(&self, name: &str) -> (r: Option<&Coil>)
        ensures
            match r {
                Some(coil) => exists|i: int|
                    0 <= i < self.coils@.len() && self.coils@[i] == *coil && coil.name@ == name@
                        && forall|j: int| 0 <= j < i ==> self.coils@[j].name@ != name@,
                None => forall|j: int| 0 <= j < self.coils@.len() ==> self.coils@[j].name@ != name@,
            },
    {
        let mut i: usize = 0;
        while i < self.coils.len()
            invariant
                i <= self.coils@.len(),
                forall|j: int| 0 <= j < i ==> self.coils@[j].name@ != name@,
            decreases self.coils@.len() - i,
        {
            if str_eq(self.coils[i].name.as_str(), name) {
                return Some(&self.coils[i]);
            }
            i += 1;
        }
        None
    }

    /// Whether some register that goes by `name` is an input register.
    pub fn is_register_input(&self, name: &str) -> (r: bool)
        ensures
            r == exists|i: int|
                0 <= i < self.registers@.len() && self.registers@[i].name@ == name@
                    && self.registers@[i].objecttype@ == "input"@,
    {
        let mut i: usize = 0;
        while i < self.registers.len()
            invariant
                i <= self.registers@.len(),
                forall|j: int|
                    0 <= j < i ==> !(self.registers@[j].name@ == name@
                        && self.registers@[j].objecttype@ == "input"@),
            decreases self.registers@.len() - i,
        {
            if str_eq(self.registers[i].name.as_str(), name) && str_eq(
                self.registers[i].objecttype.as_str(),
                "input",
            ) {
                return true;
            }
            i += 1;
        }
        false
    }

    /// Whether some coil that goes by `name` is a coil proper, not a
    /// discrete input.
    pub fn is_coil_input(&self, name: &str) -> (r: bool)
        ensures
            r == exists|i: int|
                0 <= i < self.coils@.len() && self.coils@[i].name@ == name@
                    && self.coils@[i].objecttype@ == "coil"@,
    {
        let mut i: usize = 0;
        while i < self.coils.len()
            invariant
                i <= self.coils@.len(),
                forall|j: int|
                    0 <= j < i ==> !(self.coils@[j].name@ == name@ && self.coils@[j].objecttype@
                        == "coil"@),
            decreases self.coils@.len() - i,
        {
            if str_eq(self.coils[i].name.as_str(), name) && str_eq(
                self.coils[i].objecttype.as_str(),
                "coil",
            ) {
                return true;
            }
            i += 1;
        }
        false
    }

    /// The address of the device as it was given.
    pub fn get_ip_address(&self) -> (r: String)
        ensures
            r@ == self.ip_address@,
    {
        self.ip_address.clone()
    }
}

} // verus!
