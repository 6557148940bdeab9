//! The metrics registry: one gauge per point of every device, each filed
//! under the point's key and attached to the exporter.

use vstd::prelude::*;
use vstd::string::*;
use vstd::hash_map::StringHashMap;
use crate::clients::{
    coil_gauge, gauge_specs, make_point_key, point_keys, register_gauge, Client, ClientView,
    Clients, GaugeSpec,
};
use crate::errors::ErrorRuntime;

verus! {

/// The exporter's registry of collectors.
#[verifier::external_type_specification]
#[verifier::external_body]
pub struct ExRegistry(::prometheus::Registry);

/// The exporter's error.
#[verifier::external_type_specification]
#[verifier::external_body]
pub struct ExExporterError(::prometheus::Error);

/// The exporter's record of one metric with its current values.
#[verifier::external_type_specification]
#[verifier::external_body]
pub struct ExMetricFamily(::prometheus::proto::MetricFamily);

/// A gauge of the exporter. The exporter's gauge is generic over a trait of
/// its own, so it is held here as a whole; the value it shows is set
/// through `gauge`.
#[verifier::external_body]
pub struct Instrument {
    pub gauge: ::prometheus::Gauge,
}

/// The name a gauge was made with.
pub uninterp spec fn instrument_name(instrument: Instrument) -> Seq<char>;

/// The help text a gauge was made with.
pub uninterp spec fn instrument_help(instrument: Instrument) -> Seq<char>;

/// Whether `Registry::register` refuses, in the state a registry is in, a
/// gauge that was made with a name and a help text.
pub uninterp spec fn register_refuses(
    registry: ::prometheus::Registry,
    name: Seq<char>,
    help: Seq<char>,
) -> bool;

/// The names of the gauges that are attached to a registry.
pub uninterp spec fn registered_names(registry: ::prometheus::Registry) -> Set<Seq<char>>;

/// Whether `c` may start a metric name: an ASCII letter, an underscore or a
/// colon.
pub open spec fn metric_name_start(c: char) -> bool {
    ('a' <= c && c <= 'z') || ('A' <= c && c <= 'Z') || c == '_' || c == ':'
}

/// The exporter's rule for metric names: a start character, then start
/// characters and ASCII digits.
pub open spec fn metric_name(name: Seq<char>) -> bool {
    &&& name.len() > 0
    &&& metric_name_start(name[0])
    &&& forall|i: int|
        0 < i < name.len() ==> metric_name_start(#[trigger] name[i]) || ('0' <= name[i]
            && name[i] <= '9')
}

/// Whether the exporter makes a gauge from a name and a help text: the help
/// is not empty and the name is a metric name.
pub open spec fn gauge_accepted(spec: GaugeSpec) -> bool {
    spec.help.len() > 0 && metric_name(spec.name)
}

/// `Registry::new`: a registry with nothing attached, which refuses no
/// gauge.
#[verifier::external_body]
fn new_registry() -> (r: ::prometheus::Registry)
    ensures
        registered_names(r) == Set::<Seq<char>>::empty(),
        forall|name: Seq<char>, help: Seq<char>| !#[trigger] register_refuses(r, name, help),
{
    ::prometheus::Registry::new()
}

/// `Gauge::new`: it makes a gauge exactly if the help text is not empty and
/// the name is a metric name, and the gauge then goes by that name and
/// carries that help text.
#[verifier::external_body]
fn new_gauge(name: &str, help: &str) -> (r: Result<Instrument, ::prometheus::Error>)
    ensures
        r is Ok <==> gauge_accepted(GaugeSpec { name: name@, help: help@ }),
        r is Ok ==> instrument_name(r->Ok_0) == name@ && instrument_help(r->Ok_0) == help@,
{
    match ::prometheus::Gauge::new(name, help) {
        Ok(gauge) => Ok(Instrument { gauge }),
        Err(e) => Err(e),
    }
}

/// `Registry::register` with a handle to the gauge. Its answer is a
/// function of the registry and the gauge: it fails exactly where
/// [`register_refuses`] says so. Where it succeeds, the name was not
/// attached before and is attached now, so it fails for a name that is
/// attached already; where it fails, the registry is as it was.
#[verifier::external_body]
fn register(registry: &mut ::prometheus::Registry, instrument: &Instrument) -> (r: Result<
    (),
    ::prometheus::Error,
>)
    ensures
        r is Err <==> register_refuses(
            *old(registry),
            instrument_name(*instrument),
            instrument_help(*instrument),
        ),
        r is Ok ==> !registered_names(*old(registry)).contains(instrument_name(*instrument))
            && registered_names(*final(registry)) == registered_names(*old(registry)).insert(
            instrument_name(*instrument),
        ),
        r is Err ==> *final(registry) == *old(registry),
{
    registry.register(Box::new(instrument.gauge.clone()))
}

/// `Registry::unregister` with a handle to a gauge whose name is attached.
/// It finds the gauge by its name, so it succeeds; that name is then no
/// longer attached and the others are.
#[verifier::external_body]
fn unregister(registry: &mut ::prometheus::Registry, instrument: &Instrument) -> (r: Result<
    (),
    ::prometheus::Error,
>)
    requires
        registered_names(*old(registry)).contains(instrument_name(*instrument)),
    ensures
        r is Ok,
        registered_names(*final(registry)) == registered_names(*old(registry)).remove(
            instrument_name(*instrument),
        ),
{
    registry.unregister(Box::new(instrument.gauge.clone()))
}

/// The name of the metric that a record is of: what `MetricFamily::get_name`
/// gives.
pub uninterp spec fn family_name(family: ::prometheus::proto::MetricFamily) -> Seq<char>;

/// Whether a record is of gauges: `MetricFamily::get_field_type` gives
/// `GAUGE`.
pub uninterp spec fn gauge_record(family: ::prometheus::proto::MetricFamily) -> bool;

/// The bytes that `TextEncoder::encode` writes for a list of records; `None`
/// where it refuses the list.
pub uninterp spec fn exposition(families: Seq<::prometheus::proto::MetricFamily>) -> Option<Seq<u8>>;

/// Records that were gathered from a registry to which the gauges of
/// `names` are attached: each record is of gauges and goes by one of the
/// names, and each name has one record.
pub open spec fn gathered(names: Set<Seq<char>>, families: Seq<::prometheus::proto::MetricFamily>) -> bool {
    &&& forall|i: int|
        0 <= i < families.len() ==> gauge_record(#[trigger] families[i]) && names.contains(
            family_name(families[i]),
        )
    &&& forall|i: int, j: int|
        0 <= i < j < families.len() ==> family_name(#[trigger] families[i]) != family_name(
            #[trigger] families[j],
        )
    &&& forall|k: Seq<char>| #[trigger]
        names.contains(k) ==> exists|i: int|
            0 <= i < families.len() && family_name(#[trigger] families[i]) == k
}

/// `Registry::gather`: one record for each gauge that is attached, under
/// the gauge's name, with the value the gauge shows at the time of the
/// call. Nothing is claimed of the values.
#[verifier::external_body]
fn gather(registry: &::prometheus::Registry) -> (r: Vec<::prometheus::proto::MetricFamily>)
    ensures
        forall|i: int|
            0 <= i < r@.len() ==> gauge_record(#[trigger] r@[i]) && registered_names(
                *registry,
            ).contains(family_name(r@[i])),
        forall|i: int, j: int|
            0 <= i < j < r@.len() ==> family_name(#[trigger] r@[i]) != family_name(#[trigger] r@[j]),
        forall|k: Seq<char>| #[trigger]
            registered_names(*registry).contains(k) ==> exists|i: int|
                0 <= i < r@.len() && family_name(#[trigger] r@[i]) == k,
{
    registry.gather()
}

/// `TextEncoder::encode` into a fresh buffer, for records of gauges. The
/// outcome is a function of the records: it is the text named
/// [`exposition`]. For no records it writes no bytes.
#[verifier::external_body]
fn encode(families: &Vec<::prometheus::proto::MetricFamily>) -> (r: Result<
    Vec<u8>,
    ::prometheus::Error,
>)
    requires
        forall|i: int| 0 <= i < families@.len() ==> gauge_record(#[trigger] families@[i]),
    ensures
        match r {
            Ok(bytes) => exposition(families@) == Some(bytes@),
            Err(_) => exposition(families@) is None,
        },
        families@.len() == 0 ==> r is Ok && r->Ok_0@.len() == 0,
{
    let mut buffer: Vec<u8> = Vec::new();
    match ::prometheus::Encoder::encode(&::prometheus::TextEncoder::new(), families, &mut buffer) {
        Ok(()) => Ok(buffer),
        Err(e) => Err(e),
    }
}

/// `String::from_utf8`: the text that bytes encode, exactly where they are
/// well-formed UTF-8.
#[verifier::external_body]
fn text_from_utf8(bytes: Vec<u8>) -> (r: Option<String>)
    ensures
        r is Some <==> vstd::utf8::valid_utf8(bytes@),
        r is Some ==> r->Some_0@ == vstd::utf8::decode_utf8(bytes@),
{
    String::from_utf8(bytes).ok()
}

/// Turns the exporter's bytes into the text of a snapshot. Bytes that are
/// no text are an encoder failure.
pub fn metrics_text(bytes: Vec<u8>) -> (r: Result<String, ErrorRuntime>)
    ensures
        match r {
            Ok(text) => vstd::utf8::valid_utf8(bytes@) && text@ == vstd::utf8::decode_utf8(bytes@),
            Err(e) => !vstd::utf8::valid_utf8(bytes@) && e == ErrorRuntime::PrometheusErrorEncoder,
        },
{
    match text_from_utf8(bytes) {
        Some(text) => Ok(text),
        None => Err(ErrorRuntime::PrometheusErrorEncoder),
    }
}

/// What the exporter's bytes come to as a snapshot: where it wrote none,
/// the registry could not be processed; bytes that are no text are an
/// encoder failure; and every other outcome is the text of the bytes.
pub open spec fn snapshot_reply(bytes: Option<Seq<u8>>) -> Result<Seq<char>, ErrorRuntime> {
    match bytes {
        None => Err(ErrorRuntime::PrometheusErrorRegistry),
        Some(b) => if vstd::utf8::valid_utf8(b) {
            Ok(vstd::utf8::decode_utf8(b))
        } else {
            Err(ErrorRuntime::PrometheusErrorEncoder)
        },
    }
}

/// The outcome of a snapshot in mathematical form.
pub open spec fn snapshot_view(r: Result<String, ErrorRuntime>) -> Result<Seq<char>, ErrorRuntime> {
    match r {
        Ok(text) => Ok(text@),
        Err(e) => Err(e),
    }
}

/// `r` is a snapshot of a registry: what the exporter's text encoding comes
/// to for the records that were gathered. Of a well-formed registry these
/// are records of the gauges under `keys`, one for each key.
pub open spec fn snapshot(keys: Set<Seq<char>>, well_formed: bool, r: Result<String, ErrorRuntime>) -> bool {
    exists|families: Seq<::prometheus::proto::MetricFamily>|
        (well_formed ==> gathered(keys, families)) && snapshot_view(r) == snapshot_reply(
            #[trigger] exposition(families),
        )
}

/// The names of the first `m` gauges of a list.
pub open spec fn names_upto(specs: Seq<GaugeSpec>, m: int) -> Set<Seq<char>> {
    Set::new(|k: Seq<char>| exists|i: int| 0 <= i < m && #[trigger] specs[i].name == k)
}

/// The first `m` keys of a list.
pub open spec fn keys_upto(keys: Seq<Seq<char>>, m: int) -> Set<Seq<char>> {
    Set::new(|k: Seq<char>| exists|i: int| 0 <= i < m && #[trigger] keys[i] == k)
}

/// `after` is `before` with the first `m` gauges of `specs` attached: each
/// of them is one the exporter makes, under a name that was in use neither
/// before nor earlier in the list.
pub open spec fn attached(
    before: Set<Seq<char>>,
    specs: Seq<GaugeSpec>,
    m: int,
    after: Set<Seq<char>>,
) -> bool {
    &&& 0 <= m <= specs.len()
    &&& forall|i: int|
        0 <= i < m ==> gauge_accepted(#[trigger] specs[i]) && !before.contains(specs[i].name)
    &&& forall|i: int, j: int| 0 <= j < i < m ==> #[trigger] specs[j].name != #[trigger] specs[i].name
    &&& after == before.union(names_upto(specs, m))
}

/// What attaching a list of gauges one by one comes to, where `refused`
/// are the gauges that the exporter refuses afterwards. It succeeds only
/// with all of them attached. It fails at the first gauge that cannot be
/// attached, with those before it attached: as a gauge that could not be
/// made, or else as one that the exporter refuses.
pub open spec fn attach_outcome(
    before: Set<Seq<char>>,
    specs: Seq<GaugeSpec>,
    r: Result<(), ErrorRuntime>,
    after: Set<Seq<char>>,
    refused: Set<GaugeSpec>,
) -> bool {
    match r {
        Ok(()) => attached(before, specs, specs.len() as int, after),
        Err(e) => exists|m: int|
            0 <= m < specs.len() && #[trigger] attached(before, specs, m, after) && stopped_at(
                specs[m],
                e,
                refused,
            ),
    }
}

/// Why attaching stops at a gauge: the gauge could not be made, or else
/// the exporter refuses it.
pub open spec fn stopped_at(spec: GaugeSpec, e: ErrorRuntime, refused: Set<GaugeSpec>) -> bool {
    if gauge_accepted(spec) {
        e == ErrorRuntime::PrometheusErrorRegistryRegister && refused.contains(spec)
    } else {
        e == ErrorRuntime::PrometheusErrorGaugeNew
    }
}

/// Attaching stopped at the first gauge: it failed and left the keys as
/// they were.
pub open spec fn stopped_at_first(
    before: Set<Seq<char>>,
    r: Result<(), ErrorRuntime>,
    after: Set<Seq<char>>,
) -> bool {
    r is Err && after == before
}

/// Once a gauge is attached, the keys are no longer as they were.
pub proof fn lemma_first_attached(
    before: Set<Seq<char>>,
    specs: Seq<GaugeSpec>,
    m: int,
    after: Set<Seq<char>>,
)
    requires
        attached(before, specs, m, after),
    ensures
        m > 0 ==> after != before,
{
    if m > 0 {
        assert(names_upto(specs, m).contains(specs[0].name));
        assert(after.contains(specs[0].name));
    }
}

/// `after` is `before` without the first `m` keys of `keys`: each of them
/// was in use before, and none occurs twice among them.
pub open spec fn detached(
    before: Set<Seq<char>>,
    keys: Seq<Seq<char>>,
    m: int,
    after: Set<Seq<char>>,
) -> bool {
    &&& 0 <= m <= keys.len()
    &&& forall|i: int| 0 <= i < m ==> before.contains(#[trigger] keys[i])
    &&& forall|i: int, j: int| 0 <= j < i < m ==> #[trigger] keys[j] != #[trigger] keys[i]
    &&& after == before.difference(keys_upto(keys, m))
}

/// What detaching a list of keys one by one comes to. It succeeds only with
/// all of them detached. It fails at the first key under which no gauge is
/// on file, with those before it detached.
pub open spec fn detach_outcome(
    before: Set<Seq<char>>,
    keys: Seq<Seq<char>>,
    r: Result<(), ErrorRuntime>,
    after: Set<Seq<char>>,
) -> bool {
    match r {
        Ok(()) => detached(before, keys, keys.len() as int, after),
        Err(e) => exists|m: int|
            0 <= m < keys.len() && #[trigger] detached(before, keys, m, after) && !after.contains(
                keys[m],
            ) && e == ErrorRuntime::PrometheusErrorGaugeRemove,
    }
}

/// Whether every key of a list is in use and none occurs twice in the
/// list: what it takes for all of them to be detached.
pub open spec fn detachable(before: Set<Seq<char>>, keys: Seq<Seq<char>>) -> bool {
    &&& forall|i: int| 0 <= i < keys.len() ==> before.contains(#[trigger] keys[i])
    &&& keys.no_duplicates()
}

/// Detaching a list of keys succeeds exactly if every key is in use and
/// none occurs twice in the list.
pub proof fn lemma_detach_succeeds(
    before: Set<Seq<char>>,
    keys: Seq<Seq<char>>,
    r: Result<(), ErrorRuntime>,
    after: Set<Seq<char>>,
)
    requires
        detach_outcome(before, keys, r, after),
    ensures
        r is Ok <==> detachable(before, keys),
{
    match r {
        Ok(()) => {
            assert forall|i: int, j: int|
                0 <= i < keys.len() && 0 <= j < keys.len() && i != j implies keys[i] != keys[j] by {
                if j < i {
                    assert(keys[j] != keys[i]);
                } else {
                    assert(keys[i] != keys[j]);
                }
            }
        },
        Err(e) => {
            let m = choose|m: int|
                0 <= m < keys.len() && #[trigger] detached(before, keys, m, after) && !after.contains(
                    keys[m],
                ) && e == ErrorRuntime::PrometheusErrorGaugeRemove;
            if detachable(before, keys) {
                assert(before.contains(keys[m]));
                assert(keys_upto(keys, m).contains(keys[m]));
                let j = choose|j: int| 0 <= j < m && #[trigger] keys[j] == keys[m];
                assert(keys[j] != keys[m]);
            }
        },
    }
}

/// Attaching a single gauge fails only by stopping at it: with one gauge
/// in the list, a failure leaves the keys as they were.
pub proof fn lemma_one_gauge(
    before: Set<Seq<char>>,
    specs: Seq<GaugeSpec>,
    r: Result<(), ErrorRuntime>,
    after: Set<Seq<char>>,
    refused: Set<GaugeSpec>,
)
    requires
        specs.len() == 1,
        attach_outcome(before, specs, r, after, refused),
    ensures
        r is Err <==> stopped_at_first(before, r, after),
{
    if r is Err {
        assert(attached(before, specs, 0, after));
        assert(after =~= before);
    }
}

/// Detaching the keys of a device whose gauges were all attached succeeds
/// and leaves the keys as they were before the gauges were attached.
pub proof fn lemma_detach_undoes_attach(
    before: Set<Seq<char>>,
    c: ClientView,
    middle: Set<Seq<char>>,
    r: Result<(), ErrorRuntime>,
    after: Set<Seq<char>>,
)
    requires
        attached(before, gauge_specs(c), gauge_specs(c).len() as int, middle),
        detach_outcome(middle, point_keys(c), r, after),
    ensures
        r is Ok,
        after == before,
{
    let specs = gauge_specs(c);
    let keys = point_keys(c);
    let n = specs.len() as int;
    assert forall|i: int| 0 <= i < keys.len() implies middle.contains(#[trigger] keys[i]) by {
        assert(names_upto(specs, n).contains(specs[i].name));
    }
    assert forall|i: int, j: int|
        0 <= i < keys.len() && 0 <= j < keys.len() && i != j implies keys[i] != keys[j] by {
        if j < i {
            assert(specs[j].name != specs[i].name);
        } else {
            assert(specs[i].name != specs[j].name);
        }
    }
    lemma_detach_succeeds(middle, keys, r, after);
    assert forall|k: Seq<char>| after.contains(k) <==> before.contains(k) by {
        if names_upto(specs, n).contains(k) {
            let i = choose|i: int| 0 <= i < n && #[trigger] specs[i].name == k;
            assert(keys[i] == k);
            assert(keys_upto(keys, n).contains(k));
            assert(!before.contains(specs[i].name));
        }
        if keys_upto(keys, n).contains(k) {
            let i = choose|i: int| 0 <= i < n && #[trigger] keys[i] == k;
            assert(specs[i].name == k);
            assert(!before.contains(specs[i].name));
        }
    }
    assert(after =~= before);
}

/// The gauges of all devices of a table, device by device.
pub open spec fn table_specs(devices: Seq<ClientView>) -> Seq<GaugeSpec>
    decreases devices.len(),
{
    if devices.len() == 0 {
        Seq::empty()
    } else {
        table_specs(devices.drop_last()) + gauge_specs(devices.last())
    }
}

/// Attaching nothing changes nothing.
pub proof fn lemma_attached_none(before: Set<Seq<char>>, specs: Seq<GaugeSpec>)
    ensures
        attached(before, specs, 0, before),
{
    assert(before.union(names_upto(specs, 0)) =~= before);
}

/// Attaching one more gauge, under a name that is not in use, extends what
/// is attached by that gauge.
pub proof fn lemma_attached_step(
    before: Set<Seq<char>>,
    specs: Seq<GaugeSpec>,
    m: int,
    current: Set<Seq<char>>,
    next: Set<Seq<char>>,
)
    requires
        attached(before, specs, m, current),
        m < specs.len(),
        gauge_accepted(specs[m]),
        !current.contains(specs[m].name),
        next == current.insert(specs[m].name),
    ensures
        attached(before, specs, m + 1, next),
{
    assert forall|i: int, j: int| 0 <= j < i < m + 1 implies #[trigger] specs[j].name
        != #[trigger] specs[i].name by {
        if i == m {
            assert(names_upto(specs, m).contains(specs[j].name));
        }
    }
    assert(next =~= before.union(names_upto(specs, m + 1)));
}

/// Attaching the first gauges of a second list after all of a first list is
/// attaching that many more gauges of a list which holds the second list's
/// gauges where the first list ends.
pub proof fn lemma_attached_append(
    before: Set<Seq<char>>,
    all: Seq<GaugeSpec>,
    offset: int,
    current: Set<Seq<char>>,
    specs: Seq<GaugeSpec>,
    m: int,
    next: Set<Seq<char>>,
)
    requires
        attached(before, all, offset, current),
        attached(current, specs, m, next),
        offset + specs.len() <= all.len(),
        forall|j: int| 0 <= j < specs.len() ==> all[offset + j] == #[trigger] specs[j],
    ensures
        attached(before, all, offset + m, next),
{
    assert forall|i: int| 0 <= i < offset + m implies gauge_accepted(#[trigger] all[i])
        && !before.contains(all[i].name) by {
        if i >= offset {
            assert(all[i] == specs[i - offset]);
        }
    }
    assert forall|i: int, j: int| 0 <= j < i < offset + m implies #[trigger] all[j].name
        != #[trigger] all[i].name by {
        if i >= offset {
            assert(all[i] == specs[i - offset]);
            if j >= offset {
                assert(all[j] == specs[j - offset]);
            } else {
                assert(names_upto(all, offset).contains(all[j].name));
            }
        }
    }
    assert forall|k: Seq<char>| names_upto(all, offset + m).contains(k) <==> names_upto(
        all,
        offset,
    ).contains(k) || names_upto(specs, m).contains(k) by {
        if names_upto(all, offset + m).contains(k) {
            let i = choose|i: int| 0 <= i < offset + m && #[trigger] all[i].name == k;
            if i >= offset {
                assert(specs[i - offset].name == k);
            }
        }
        if names_upto(specs, m).contains(k) {
            let j = choose|j: int| 0 <= j < m && #[trigger] specs[j].name == k;
            assert(all[offset + j].name == k);
        }
    }
    assert(next =~= before.union(names_upto(all, offset + m)));
}

/// Detaching nothing changes nothing.
pub proof fn lemma_detached_none(before: Set<Seq<char>>, keys: Seq<Seq<char>>)
    ensures
        detached(before, keys, 0, before),
{
    assert(before.difference(keys_upto(keys, 0)) =~= before);
}

/// Detaching one more key, which is in use, extends what is detached by
/// that key.
pub proof fn lemma_detached_step(
    before: Set<Seq<char>>,
    keys: Seq<Seq<char>>,
    m: int,
    current: Set<Seq<char>>,
    next: Set<Seq<char>>,
)
    requires
        detached(before, keys, m, current),
        m < keys.len(),
        current.contains(keys[m]),
        next == current.remove(keys[m]),
    ensures
        detached(before, keys, m + 1, next),
{
    assert forall|i: int, j: int| 0 <= j < i < m + 1 implies #[trigger] keys[j] != #[trigger] keys[i] by {
        if i == m {
            assert(keys_upto(keys, m).contains(keys[j]));
        }
    }
    assert(next =~= before.difference(keys_upto(keys, m + 1)));
}

/// Where the gauges of one device stand among those of its table: after
/// those of the devices before it.
pub proof fn lemma_table_specs_at(devices: Seq<ClientView>, d: int)
    requires
        0 <= d < devices.len(),
    ensures
        table_specs(devices.take(d + 1)) == table_specs(devices.take(d)) + gauge_specs(devices[d]),
        table_specs(devices.take(d)).len() + gauge_specs(devices[d]).len() <= table_specs(
            devices,
        ).len(),
        forall|j: int|
            0 <= j < gauge_specs(devices[d]).len() ==> table_specs(devices)[table_specs(
                devices.take(d),
            ).len() + j] == #[trigger] gauge_specs(devices[d])[j],
    decreases devices.len(),
{
    assert(devices.take(d + 1).drop_last() =~= devices.take(d));
    assert(devices.take(d + 1).last() == devices[d]);
    if d + 1 == devices.len() {
        assert(devices.take(d + 1) =~= devices);
    } else {
        let shorter = devices.drop_last();
        lemma_table_specs_at(shorter, d);
        assert(shorter.take(d) =~= devices.take(d));
        assert(shorter[d] == devices[d]);
    }
}

/// A call that changes which gauges are on file.
pub enum RegistryCall {
    Register(ClientView),
    Unregister(ClientView),
}

impl RegistryCall {
    /// The device the call is about.
    pub open spec fn device(self) -> ClientView {
        match self {
            RegistryCall::Register(c) => c,
            RegistryCall::Unregister(c) => c,
        }
    }
}

/// The call took the keys on file from `before` to `after` and reported
/// success.
pub open spec fn call_succeeded(
    before: Set<Seq<char>>,
    call: RegistryCall,
    after: Set<Seq<char>>,
) -> bool {
    match call {
        RegistryCall::Register(c) => attached(
            before,
            gauge_specs(c),
            gauge_specs(c).len() as int,
            after,
        ),
        RegistryCall::Unregister(c) => detach_outcome(before, point_keys(c), Ok(()), after),
    }
}

/// The devices that are current after a sequence of successful calls: those
/// registered and not unregistered since.
pub open spec fn current_devices(calls: Seq<RegistryCall>) -> Seq<ClientView>
    decreases calls.len(),
{
    if calls.len() == 0 {
        Seq::empty()
    } else {
        let earlier = current_devices(calls.drop_last());
        match calls.last() {
            RegistryCall::Register(c) => earlier.push(c),
            RegistryCall::Unregister(c) => if earlier.contains(c) {
                earlier.remove(earlier.index_of(c))
            } else {
                earlier
            },
        }
    }
}

/// The keys of the points of a list of devices.
pub open spec fn keys_of(devices: Seq<ClientView>) -> Set<Seq<char>> {
    Set::new(
        |k: Seq<char>|
            exists|d: int, i: int|
                0 <= d < devices.len() && 0 <= i < point_keys(devices[d]).len() && #[trigger] point_keys(
                    devices[d],
                )[i] == k,
    )
}

/// A history of a registry from its creation: `states` are the keys on
/// file before and after each of the `calls`, all of which succeeded.
pub open spec fn history(states: Seq<Set<Seq<char>>>, calls: Seq<RegistryCall>) -> bool {
    &&& states.len() == calls.len() + 1
    &&& states[0] == Set::<Seq<char>>::empty()
    &&& forall|i: int|
        0 <= i < calls.len() ==> call_succeeded(states[i], #[trigger] calls[i], states[i + 1])
}

/// Every device that is unregistered is current at that time.
pub open spec fn unregisters_current(calls: Seq<RegistryCall>) -> bool {
    forall|i: int|
        0 <= i < calls.len() && (#[trigger] calls[i]) is Unregister ==> current_devices(
            calls.take(i),
        ).contains(calls[i].device())
}

/// No key belongs to two places of a list of devices.
pub open spec fn keys_apart(devices: Seq<ClientView>) -> bool {
    forall|d: int, e: int, i: int, j: int|
        0 <= d < devices.len() && 0 <= e < devices.len() && d != e && 0 <= i < point_keys(
            devices[d],
        ).len() && 0 <= j < point_keys(devices[e]).len() ==> #[trigger] point_keys(devices[d])[i]
            != #[trigger] point_keys(devices[e])[j]
}

/// The keys on file are in step with a list of devices: they are the keys
/// of the points of these devices, and no key belongs to two of them.
pub open spec fn in_step(devices: Seq<ClientView>, keys: Set<Seq<char>>) -> bool {
    keys == keys_of(devices) && keys_apart(devices)
}

/// A registration that succeeds keeps the keys in step with the devices,
/// the new device counted in.
pub proof fn lemma_register_in_step(
    devices: Seq<ClientView>,
    before: Set<Seq<char>>,
    c: ClientView,
    after: Set<Seq<char>>,
)
    requires
        in_step(devices, before),
        attached(before, gauge_specs(c), gauge_specs(c).len() as int, after),
    ensures
        in_step(devices.push(c), after),
{
    let specs = gauge_specs(c);
    let keys = point_keys(c);
    let next = devices.push(c);
    assert forall|d: int, e: int, i: int, j: int|
        0 <= d < next.len() && 0 <= e < next.len() && d != e && 0 <= i < point_keys(next[d]).len()
            && 0 <= j < point_keys(next[e]).len() implies #[trigger] point_keys(next[d])[i]
        != #[trigger] point_keys(next[e])[j] by {
        if d == devices.len() {
            assert(keys[i] == specs[i].name);
            assert(before.contains(point_keys(devices[e])[j]));
        } else if e == devices.len() {
            assert(keys[j] == specs[j].name);
            assert(before.contains(point_keys(devices[d])[i]));
        }
    }
    assert forall|k: Seq<char>| after.contains(k) <==> keys_of(next).contains(k) by {
        if before.contains(k) {
            let (d, i) = choose|d: int, i: int|
                0 <= d < devices.len() && 0 <= i < point_keys(devices[d]).len()
                    && #[trigger] point_keys(devices[d])[i] == k;
            assert(point_keys(next[d])[i] == k);
        }
        if names_upto(specs, specs.len() as int).contains(k) {
            let i = choose|i: int| 0 <= i < specs.len() && #[trigger] specs[i].name == k;
            assert(point_keys(next[devices.len() as int])[i] == k);
        }
        if keys_of(next).contains(k) {
            let (d, i) = choose|d: int, i: int|
                0 <= d < next.len() && 0 <= i < point_keys(next[d]).len() && #[trigger] point_keys(
                    next[d],
                )[i] == k;
            if d == devices.len() {
                assert(specs[i].name == k);
            } else {
                assert(point_keys(devices[d])[i] == k);
            }
        }
    }
    assert(after =~= keys_of(next));
}

/// An unregistration of one of the devices that succeeds keeps the keys in
/// step with the devices, that device counted out.
pub proof fn lemma_unregister_in_step(
    devices: Seq<ClientView>,
    before: Set<Seq<char>>,
    p: int,
    after: Set<Seq<char>>,
)
    requires
        in_step(devices, before),
        0 <= p < devices.len(),
        detach_outcome(before, point_keys(devices[p]), Ok(()), after),
    ensures
        in_step(devices.remove(p), after),
{
    let keys = point_keys(devices[p]);
    let next = devices.remove(p);
    devices.remove_ensures(p);
    assert forall|d: int, e: int, i: int, j: int|
        0 <= d < next.len() && 0 <= e < next.len() && d != e && 0 <= i < point_keys(next[d]).len()
            && 0 <= j < point_keys(next[e]).len() implies #[trigger] point_keys(next[d])[i]
        != #[trigger] point_keys(next[e])[j] by {
        let d0 = if d < p { d } else { d + 1 };
        let e0 = if e < p { e } else { e + 1 };
        assert(next[d] == devices[d0] && next[e] == devices[e0]);
    }
    assert forall|k: Seq<char>| after.contains(k) <==> keys_of(next).contains(k) by {
        if after.contains(k) {
            let (d, i) = choose|d: int, i: int|
                0 <= d < devices.len() && 0 <= i < point_keys(devices[d]).len()
                    && #[trigger] point_keys(devices[d])[i] == k;
            if d == p {
                assert(keys[i] == k);
                assert(keys_upto(keys, keys.len() as int).contains(k));
            } else {
                let d1 = if d < p { d } else { d - 1 };
                assert(point_keys(next[d1])[i] == k);
            }
        }
        if keys_of(next).contains(k) {
            let (d, i) = choose|d: int, i: int|
                0 <= d < next.len() && 0 <= i < point_keys(next[d]).len() && #[trigger] point_keys(
                    next[d],
                )[i] == k;
            let d0 = if d < p { d } else { d + 1 };
            assert(next[d] == devices[d0]);
            assert(point_keys(devices[d0])[i] == k);
            if keys_upto(keys, keys.len() as int).contains(k) {
                let j = choose|j: int| 0 <= j < keys.len() && #[trigger] keys[j] == k;
                assert(point_keys(devices[p])[j] == k);
            }
        }
    }
    assert(after =~= keys_of(next));
}

/// Attaching all gauges of two lists, one after the other, is attaching
/// those of the first list and then those of the second.
pub proof fn lemma_attached_split(
    before: Set<Seq<char>>,
    first: Seq<GaugeSpec>,
    second: Seq<GaugeSpec>,
    after: Set<Seq<char>>,
)
    requires
        attached(before, first + second, (first + second).len() as int, after),
    ensures
        attached(
            before,
            first,
            first.len() as int,
            before.union(names_upto(first, first.len() as int)),
        ),
        attached(
            before.union(names_upto(first, first.len() as int)),
            second,
            second.len() as int,
            after,
        ),
{
    let all = first + second;
    let n = first.len() as int;
    let middle = before.union(names_upto(first, n));
    assert forall|i: int| 0 <= i < n implies gauge_accepted(#[trigger] first[i]) && !before.contains(
        first[i].name,
    ) by {
        assert(all[i] == first[i]);
    }
    assert forall|i: int, j: int| 0 <= j < i < n implies #[trigger] first[j].name
        != #[trigger] first[i].name by {
        assert(all[i] == first[i] && all[j] == first[j]);
    }
    assert forall|i: int| 0 <= i < second.len() implies gauge_accepted(#[trigger] second[i])
        && !middle.contains(second[i].name) by {
        assert(all[n + i] == second[i]);
        if names_upto(first, n).contains(second[i].name) {
            let j = choose|j: int| 0 <= j < n && #[trigger] first[j].name == second[i].name;
            assert(all[j] == first[j]);
        }
    }
    assert forall|i: int, j: int| 0 <= j < i < second.len() implies #[trigger] second[j].name
        != #[trigger] second[i].name by {
        assert(all[n + i] == second[i] && all[n + j] == second[j]);
    }
    assert forall|k: Seq<char>| names_upto(all, all.len() as int).contains(k) <==> names_upto(
        first,
        n,
    ).contains(k) || names_upto(second, second.len() as int).contains(k) by {
        if names_upto(all, all.len() as int).contains(k) {
            let i = choose|i: int| 0 <= i < all.len() && #[trigger] all[i].name == k;
            if i < n {
                assert(first[i].name == k);
            } else {
                assert(second[i - n].name == k);
            }
        }
        if names_upto(first, n).contains(k) {
            let i = choose|i: int| 0 <= i < n && #[trigger] first[i].name == k;
            assert(all[i].name == k);
        }
        if names_upto(second, second.len() as int).contains(k) {
            let i = choose|i: int| 0 <= i < second.len() && #[trigger] second[i].name == k;
            assert(all[n + i].name == k);
        }
    }
    assert(after =~= middle.union(names_upto(second, second.len() as int)));
}

/// Giving every device of a table its gauges, where that succeeds, keeps
/// the keys in step with the devices, those of the table counted in. On a
/// registry without gauges the keys are then in step with the table.
pub proof fn lemma_init_in_step(
    known: Seq<ClientView>,
    before: Set<Seq<char>>,
    devices: Seq<ClientView>,
    after: Set<Seq<char>>,
)
    requires
        in_step(known, before),
        attached(before, table_specs(devices), table_specs(devices).len() as int, after),
    ensures
        in_step(known + devices, after),
    decreases devices.len(),
{
    if devices.len() == 0 {
        assert(known + devices =~= known);
        assert(after =~= before);
    } else {
        let front = devices.drop_last();
        let first = table_specs(front);
        let second = gauge_specs(devices.last());
        lemma_attached_split(before, first, second, after);
        let middle = before.union(names_upto(first, first.len() as int));
        lemma_init_in_step(known, before, front, middle);
        lemma_register_in_step(known + front, middle, devices.last(), after);
        assert((known + front).push(devices.last()) =~= known + devices);
    }
}

proof fn lemma_history_in_step(states: Seq<Set<Seq<char>>>, calls: Seq<RegistryCall>)
    requires
        history(states, calls),
        unregisters_current(calls),
    ensures
        in_step(current_devices(calls), states.last()),
    decreases calls.len(),
{
    if calls.len() == 0 {
        assert(keys_of(current_devices(calls)) =~= Set::<Seq<char>>::empty());
    } else {
        let n = calls.len() as int - 1;
        let calls0 = calls.drop_last();
        let states0 = states.drop_last();
        assert forall|i: int| 0 <= i < calls0.len() implies call_succeeded(
            states0[i],
            #[trigger] calls0[i],
            states0[i + 1],
        ) by {
            assert(calls0[i] == calls[i]);
        }
        assert forall|i: int|
            0 <= i < calls0.len() && (#[trigger] calls0[i]) is Unregister implies current_devices(
            calls0.take(i),
        ).contains(calls0[i].device()) by {
            assert(calls0[i] == calls[i]);
            assert(calls0.take(i) =~= calls.take(i));
        }
        lemma_history_in_step(states0, calls0);
        let before = states[n];
        let after = states[n + 1];
        assert(states0.last() == before);
        assert(call_succeeded(before, calls[n], after));
        let devices = current_devices(calls0);
        match calls.last() {
            RegistryCall::Register(c) => {
                lemma_register_in_step(devices, before, c, after);
            },
            RegistryCall::Unregister(c) => {
                assert(calls[n] is Unregister);
                assert(calls.take(n) =~= calls0);
                assert(devices.contains(c));
                lemma_unregister_in_step(devices, before, devices.index_of(c), after);
            },
        }
    }
}

/// After any sequence of registrations and unregistrations that all
/// succeeded, on a registry that started empty and where only current
/// devices were unregistered, the keys on file are exactly the keys of the
/// points of the current devices.
pub proof fn lemma_registry_tracks_devices(states: Seq<Set<Seq<char>>>, calls: Seq<RegistryCall>)
    requires
        history(states, calls),
        unregisters_current(calls),
    ensures
        states.last() == keys_of(current_devices(calls)),
{
    lemma_history_in_step(states, calls);
}

/// Attaching a list of gauges again, after all of them were attached,
/// changes nothing: with an empty list it succeeds, and otherwise it fails
/// as a gauge that the exporter refuses.
pub proof fn lemma_attach_again(
    before: Set<Seq<char>>,
    specs: Seq<GaugeSpec>,
    first: Set<Seq<char>>,
    r: Result<(), ErrorRuntime>,
    second: Set<Seq<char>>,
    refused: Set<GaugeSpec>,
)
    requires
        attached(before, specs, specs.len() as int, first),
        attach_outcome(first, specs, r, second, refused),
    ensures
        second == first,
        specs.len() == 0 ==> r is Ok,
        specs.len() > 0 ==> r == Err::<(), ErrorRuntime>(
            ErrorRuntime::PrometheusErrorRegistryRegister,
        ),
{
    if specs.len() == 0 {
        match r {
            Ok(()) => {
                assert(second =~= first);
            },
            Err(e) => {},
        }
    } else {
        assert(names_upto(specs, specs.len() as int).contains(specs[0].name));
        assert(first.contains(specs[0].name));
        match r {
            Ok(()) => {
                assert(!first.contains(specs[0].name));
            },
            Err(e) => {
                let m = choose|m: int|
                    0 <= m < specs.len() && #[trigger] attached(first, specs, m, second)
                        && stopped_at(specs[m], e, refused);
                if m > 0 {
                    assert(!first.contains(specs[0].name));
                }
                assert(second =~= first);
            },
        }
    }
}

/// The gauges of all known points, by key, and the exporter's registry they
/// are attached to.
pub struct PrometheusMetrics {
    registry: ::prometheus::Registry,
    counters: StringHashMap<Instrument>,
}

impl PrometheusMetrics {
    /// The keys that gauges are filed under.
    pub closed spec fn keys(&self) -> Set<Seq<char>> {
        self.counters@.dom()
    }

    /// The exporter's registry in the state it is in.
    pub closed spec fn exporter(&self) -> ::prometheus::Registry {
        self.registry
    }

    /// The gauges that the exporter refuses to attach in the state it is
    /// in.
    pub open spec fn refused(&self) -> Set<GaugeSpec> {
        Set::new(|g: GaugeSpec| register_refuses(self.exporter(), g.name, g.help))
    }

    /// Every gauge is filed under its own name, and the gauges on file are
    /// those attached to the exporter.
    pub closed spec fn wf(&self) -> bool {
        &&& self.counters@.dom() == registered_names(self.registry)
        &&& forall|k: Seq<char>|
            self.counters@.contains_key(k) ==> instrument_name(#[trigger] self.counters@[k]) == k
    }

    /// Creates a registry without gauges, whose exporter refuses no gauge.
    pub fn new() -> (r: Self)
        ensures
            r.wf(),
            r.keys() == Set::<Seq<char>>::empty(),
            r.refused() == Set::<GaugeSpec>::empty(),
    {
        let r = PrometheusMetrics { registry: new_registry(), counters: StringHashMap::new() };
        assert(r.refused() =~= Set::<GaugeSpec>::empty());
        r
    }

    /// The exporter's registry, to gather the current values from.
    pub fn registry(&self) -> (r: &::prometheus::Registry)
        ensures
            self.wf() ==> registered_names(*r) == self.keys(),
    {
        &self.registry
    }

    /// The gauge that is filed under a key, where there is one. It is the
    /// gauge that the exporter shows under that name.
    pub fn instrument(&self, name: &str) -> (r: Option<&Instrument>)
        ensures
            r is Some <==> self.keys().contains(name@),
            self.wf() ==> (r matches Some(instrument) ==> instrument_name(*instrument) == name@),
    {
        self.counters.get(name)
    }

    /// The snapshot of all gauges in the exporter's text format: the text
    /// that the exporter's encoding gives for the records it gathers, one
    /// for each gauge on file. Without gauges the text is empty. A failure
    /// is either the exporter's refusal to encode or bytes that are no
    /// text.
    pub fn render(&self) -> (r: Result<String, ErrorRuntime>)
        ensures
            snapshot(self.keys(), self.wf(), r),
            self.wf() && self.keys() == Set::<Seq<char>>::empty() ==> snapshot_view(r) == Ok::<
                Seq<char>,
                ErrorRuntime,
            >(Seq::empty()),
            r matches Err(e) ==> e == ErrorRuntime::PrometheusErrorRegistry || e
                == ErrorRuntime::PrometheusErrorEncoder,
    {
        let families = gather(&self.registry);
        proof {
            assert(gathered(registered_names(self.registry), families@));
            if self.wf() && self.keys() == Set::<Seq<char>>::empty() && families@.len() > 0 {
                assert(self.keys().contains(family_name(families@[0])));
            }
        }
        match encode(&families) {
            Ok(bytes) => metrics_text(bytes),
            Err(_) => Err(ErrorRuntime::PrometheusErrorRegistry),
        }
    }

    /// Makes a gauge, attaches it to the exporter and files it.
    fn attach(&mut self, name: String, help: &str) -> (r: Result<(), ErrorRuntime>)
        requires
            old(self).wf(),
        ensures
            final(self).wf(),
            r is Ok <==> gauge_accepted(GaugeSpec { name: name@, help: help@ }) && !old(
                self,
            ).refused().contains(GaugeSpec { name: name@, help: help@ }),
            match r {
                Ok(()) => !old(self).keys().contains(name@) && final(self).keys() == old(
                    self,
                ).keys().insert(name@),
                Err(e) => final(self).keys() == old(self).keys() && final(self).exporter() == old(
                    self,
                ).exporter() && e == (if gauge_accepted(GaugeSpec { name: name@, help: help@ }) {
                    ErrorRuntime::PrometheusErrorRegistryRegister
                } else {
                    ErrorRuntime::PrometheusErrorGaugeNew
                }),
            },
    {
        let instrument = match new_gauge(name.as_str(), help) {
            Ok(instrument) => instrument,
            Err(_) => {
                return Err(ErrorRuntime::PrometheusErrorGaugeNew);
            },
        };
        match register(&mut self.registry, &instrument) {
            Ok(()) => {
                self.counters.insert(name, instrument);
                Ok(())
            },
            Err(_) => Err(ErrorRuntime::PrometheusErrorRegistryRegister),
        }
    }

    /// Gives every point of a device a gauge: first its registers, then its
    /// coils. It succeeds unless it comes to a gauge that cannot be made or
    /// that the exporter refuses; there it stops and leaves the gauges
    /// before it in place.
    pub fn register_client(&mut self, client: &Client) -> (r: Result<(), ErrorRuntime>)
        requires
            old(self).wf(),
        ensures
            final(self).wf(),
            attach_outcome(
                old(self).keys(),
                gauge_specs(client@),
                r,
                final(self).keys(),
                final(self).refused(),
            ),
            gauge_specs(client@).len() > 0 ==> (stopped_at_first(
                old(self).keys(),
                r,
                final(self).keys(),
            ) <==> !gauge_accepted(gauge_specs(client@)[0]) || old(self).refused().contains(
                gauge_specs(client@)[0],
            )),
            final(self).keys() == old(self).keys() ==> final(self).exporter() == old(
                self,
            ).exporter(),
    {
        let ghost before = self.keys();
        let ghost specs = gauge_specs(client@);
        proof {
            lemma_attached_none(before, specs);
        }
        let mut i: usize = 0;
        while i < client.registers.len()
            invariant
                i <= client.registers@.len(),
                self.wf(),
                before == old(self).keys(),
                specs == gauge_specs(client@),
                attached(before, specs, i as int, self.keys()),
                i == 0 ==> self.exporter() == old(self).exporter(),
                i > 0 ==> gauge_accepted(specs[0]) && !old(self).refused().contains(specs[0]),
            decreases client.registers@.len() - i,
        {
            let register = &client.registers[i];
            let key = make_point_key(client.name.as_str(), register.name.as_str());
            let mut help = register.datatype.clone();
            help.append(" ");
            help.append(register.objecttype.as_str());
            let ghost current = self.keys();
            let ghost refused = self.refused();
            assert(specs[i as int] == register_gauge(client@.name, client@.registers[i as int]));
            assert(i == 0 ==> (refused.contains(specs[0]) <==> old(self).refused().contains(specs[0])));
            match self.attach(key, help.as_str()) {
                Err(e) => {
                    proof {
                        lemma_first_attached(before, specs, i as int, self.keys());
                        if i == 0 {
                            assert(self.keys() =~= before);
                        }
                    }
                    return Err(e);
                },
                Ok(()) => {
                    proof {
                        lemma_attached_step(before, specs, i as int, current, self.keys());
                    }
                },
            }
            i += 1;
        }
        let ghost offset = client.registers@.len() as int;
        let mut k: usize = 0;
        while k < client.coils.len()
            invariant
                k <= client.coils@.len(),
                self.wf(),
                before == old(self).keys(),
                specs == gauge_specs(client@),
                offset == client.registers@.len(),
                attached(before, specs, offset + k, self.keys()),
                offset + k == 0 ==> self.exporter() == old(self).exporter(),
                offset + k > 0 ==> gauge_accepted(specs[0]) && !old(self).refused().contains(
                    specs[0],
                ),
            decreases client.coils@.len() - k,
        {
            let coil = &client.coils[k];
            let key = make_point_key(client.name.as_str(), coil.name.as_str());
            let ghost current = self.keys();
            let ghost refused = self.refused();
            assert(specs[offset + k] == coil_gauge(client@.name, client@.coils[k as int]));
            assert(offset + k == 0 ==> (refused.contains(specs[0]) <==> old(self).refused().contains(
                specs[0],
            )));
            match self.attach(key, coil.objecttype.as_str()) {
                Err(e) => {
                    proof {
                        lemma_first_attached(before, specs, offset + k, self.keys());
                        if offset + k == 0 {
                            assert(self.keys() =~= before);
                        }
                    }
                    return Err(e);
                },
                Ok(()) => {
                    proof {
                        lemma_attached_step(before, specs, offset + k, current, self.keys());
                    }
                },
            }
            k += 1;
        }
        proof {
            lemma_first_attached(before, specs, specs.len() as int, self.keys());
        }
        Ok(())
    }

    /// Takes the gauge of every point of a device away: first those of its
    /// registers, then those of its coils. It succeeds exactly if a gauge
    /// is on file under every key of the device and no key occurs twice
    /// among them. Otherwise it stops at the first gauge that is missing,
    /// with those before it taken away.
    pub fn unregister_client(&mut self, client: &Client) -> (r: Result<(), ErrorRuntime>)
        requires
            old(self).wf(),
        ensures
            final(self).wf(),
            detach_outcome(old(self).keys(), point_keys(client@), r, final(self).keys()),
            r is Ok <==> detachable(old(self).keys(), point_keys(client@)),
    {
        let ghost before = self.keys();
        let ghost keys = point_keys(client@);
        proof {
            lemma_detached_none(before, keys);
        }
        let mut i: usize = 0;
        while i < client.registers.len()
            invariant
                i <= client.registers@.len(),
                self.wf(),
                before == old(self).keys(),
                keys == point_keys(client@),
                detached(before, keys, i as int, self.keys()),
            decreases client.registers@.len() - i,
        {
            let key = make_point_key(client.name.as_str(), client.registers[i].name.as_str());
            let ghost current = self.keys();
            assert(gauge_specs(client@)[i as int] == register_gauge(
                client@.name,
                client@.registers[i as int],
            ));
            assert(keys[i as int] == key@);
            match self.detach(key.as_str()) {
                Err(e) => {
                    proof {
                        lemma_detach_succeeds(before, keys, Err(e), self.keys());
                    }
                    return Err(e);
                },
                Ok(()) => {
                    proof {
                        lemma_detached_step(before, keys, i as int, current, self.keys());
                    }
                },
            }
            i += 1;
        }
        let ghost offset = client.registers@.len() as int;
        let mut k: usize = 0;
        while k < client.coils.len()
            invariant
                k <= client.coils@.len(),
                self.wf(),
                before == old(self).keys(),
                keys == point_keys(client@),
                offset == client.registers@.len(),
                detached(before, keys, offset + k, self.keys()),
            decreases client.coils@.len() - k,
        {
            let key = make_point_key(client.name.as_str(), client.coils[k].name.as_str());
            let ghost current = self.keys();
            assert(gauge_specs(client@)[offset + k] == coil_gauge(
                client@.name,
                client@.coils[k as int],
            ));
            assert(keys[offset + k] == key@);
            match self.detach(key.as_str()) {
                Err(e) => {
                    proof {
                        lemma_detach_succeeds(before, keys, Err(e), self.keys());
                    }
                    return Err(e);
                },
                Ok(()) => {
                    proof {
                        lemma_detached_step(before, keys, offset + k, current, self.keys());
                    }
                },
            }
            k += 1;
        }
        proof {
            lemma_detach_succeeds(before, keys, Ok(()), self.keys());
        }
        Ok(())
    }

    /// Gives every point of every device of a table a gauge, device by
    /// device in the order of the table. It succeeds unless it comes to a
    /// gauge that cannot be made or that the exporter refuses; there it
    /// stops and leaves the gauges before it in place. An empty table
    /// leaves the registry as it is. Where it succeeds on a registry
    /// without gauges, the gauges are in step with the table.
    pub fn init(&mut self, clients: &Clients) -> (r: Result<(), ErrorRuntime>)
        requires
            old(self).wf(),
        ensures
            final(self).wf(),
            attach_outcome(
                old(self).keys(),
                table_specs(clients.devices()),
                r,
                final(self).keys(),
                final(self).refused(),
            ),
            table_specs(clients.devices()).len() > 0 ==> (stopped_at_first(
                old(self).keys(),
                r,
                final(self).keys(),
            ) <==> !gauge_accepted(table_specs(clients.devices())[0]) || old(
                self,
            ).refused().contains(table_specs(clients.devices())[0])),
            r is Ok && old(self).keys() == Set::<Seq<char>>::empty() ==> in_step(
                clients.devices(),
                final(self).keys(),
            ),
    {
        let ghost before = self.keys();
        let ghost devices = clients.devices();
        let ghost all = table_specs(devices);
        proof {
            lemma_attached_none(before, all);
            assert(devices.take(0) =~= Seq::<ClientView>::empty());
        }
        let mut d: usize = 0;
        while d < clients.len()
            invariant
                d <= devices.len(),
                self.wf(),
                before == old(self).keys(),
                devices == clients.devices(),
                all == table_specs(devices),
                table_specs(devices.take(d as int)).len() <= all.len(),
                attached(before, all, table_specs(devices.take(d as int)).len() as int, self.keys()),
                table_specs(devices.take(d as int)).len() == 0 ==> self.exporter() == old(
                    self,
                ).exporter(),
                table_specs(devices.take(d as int)).len() > 0 ==> gauge_accepted(all[0]) && !old(
                    self,
                ).refused().contains(all[0]),
            decreases devices.len() - d,
        {
            let ghost current = self.keys();
            let ghost offset = table_specs(devices.take(d as int)).len() as int;
            let ghost specs = gauge_specs(devices[d as int]);
            let ghost refused = self.refused();
            proof {
                lemma_table_specs_at(devices, d as int);
                if offset == 0 {
                    assert(current =~= before);
                    if specs.len() > 0 {
                        assert(all[0] == specs[0]);
                        assert(refused.contains(specs[0]) <==> old(self).refused().contains(specs[0]));
                    }
                }
            }
            match self.register_client(clients.client_at(d)) {
                Err(e) => {
                    proof {
                        let m = choose|m: int|
                            0 <= m < specs.len() && #[trigger] attached(
                                current,
                                specs,
                                m,
                                self.keys(),
                            ) && stopped_at(specs[m], e, self.refused());
                        lemma_attached_append(before, all, offset, current, specs, m, self.keys());
                        assert(all[offset + m] == specs[m]);
                        lemma_first_attached(before, all, offset + m, self.keys());
                        lemma_first_attached(current, specs, m, self.keys());
                    }
                    return Err(e);
                },
                Ok(()) => {
                    proof {
                        lemma_attached_append(
                            before,
                            all,
                            offset,
                            current,
                            specs,
                            specs.len() as int,
                            self.keys(),
                        );
                        lemma_first_attached(current, specs, specs.len() as int, self.keys());
                        if specs.len() == 0 {
                            assert(self.keys() =~= current);
                        }
                    }
                },
            }
            d += 1;
        }
        proof {
            assert(devices.take(devices.len() as int) =~= devices);
            lemma_first_attached(before, all, all.len() as int, self.keys());
            if before == Set::<Seq<char>>::empty() {
                let none = Seq::<ClientView>::empty();
                assert(keys_of(none) =~= before);
                lemma_init_in_step(none, before, devices, self.keys());
                assert(none + devices =~= devices);
            }
        }
        Ok(())
    }

    /// Takes the gauge under a key off the exporter and off the file. It
    /// fails only where no gauge is on file under the key.
    fn detach(&mut self, name: &str) -> (r: Result<(), ErrorRuntime>)
        requires
            old(self).wf(),
        ensures
            final(self).wf(),
            r is Ok <==> old(self).keys().contains(name@),
            match r {
                Ok(()) => final(self).keys() == old(self).keys().remove(name@),
                Err(e) => final(self).keys() == old(self).keys() && e
                    == ErrorRuntime::PrometheusErrorGaugeRemove,
            },
    {
        let outcome = match self.counters.get(name) {
            Some(instrument) => unregister(&mut self.registry, instrument),
            None => {
                return Err(ErrorRuntime::PrometheusErrorGaugeRemove);
            },
        };
        match outcome {
            Ok(()) => {
                self.counters.remove(name);
                Ok(())
            },
            Err(_) => Err(ErrorRuntime::PrometheusErrorRegistryUnregister),
        }
    }
}

} // verus!
