//! The device table: every known device, filed under a name, in the order
//! in which the names were first filed.

use vstd::prelude::*;
use vstd::string::*;
use crate::clients::{creation, Client, ClientView, CoilView, RegisterView};
use crate::errors::ErrorRuntime;
use crate::json::json_document;
use crate::text::str_eq;

verus! {

/// All known devices and the place their descriptions are kept in.
#[derive(Debug)]
pub struct Clients {
    clients: Vec<(String, Client)>,
    config: String,
}

/// The mapping that a list of distinct names and a list of devices of the
/// same length stand for.
pub open spec fn table_map(keys: Seq<Seq<char>>, devices: Seq<ClientView>) -> Map<
    Seq<char>,
    ClientView,
> {
    Map::new(|k: Seq<char>| keys.contains(k), |k: Seq<char>| devices[keys.index_of(k)])
}

/// Among distinct names, a name is found where it stands.
pub proof fn lemma_index_of(keys: Seq<Seq<char>>, i: int)
    requires
        keys.no_duplicates(),
        0 <= i < keys.len(),
    ensures
        keys.contains(keys[i]),
        keys.index_of(keys[i]) == i,
{
}

/// Replacing the device at one place replaces what is filed under the name
/// at that place.
pub proof fn lemma_table_update(keys: Seq<Seq<char>>, devices: Seq<ClientView>, p: int, d: ClientView)
    requires
        keys.no_duplicates(),
        keys.len() == devices.len(),
        0 <= p < keys.len(),
    ensures
        table_map(keys, devices.update(p, d)) == table_map(keys, devices).insert(keys[p], d),
{
    lemma_index_of(keys, p);
    assert forall|k: Seq<char>| keys.contains(k) implies #[trigger] table_map(
        keys,
        devices.update(p, d),
    )[k] == table_map(keys, devices).insert(keys[p], d)[k] by {
        let i = keys.index_of(k);
        if k != keys[p] {
            assert(i != p);
        }
    }
    assert(table_map(keys, devices.update(p, d)) =~= table_map(keys, devices).insert(keys[p], d));
}

/// Appending a new name with its device files the device under that name.
pub proof fn lemma_table_push(keys: Seq<Seq<char>>, devices: Seq<ClientView>, k: Seq<char>, d: ClientView)
    requires
        keys.no_duplicates(),
        keys.len() == devices.len(),
        !keys.contains(k),
    ensures
        keys.push(k).no_duplicates(),
        table_map(keys.push(k), devices.push(d)) == table_map(keys, devices).insert(k, d),
{
    let keys2 = keys.push(k);
    let devices2 = devices.push(d);
    assert forall|i: int, j: int|
        0 <= i < keys2.len() && 0 <= j < keys2.len() && i != j implies keys2[i] != keys2[j] by {
        if i < keys.len() && j < keys.len() {
            assert(keys2[i] == keys[i] && keys2[j] == keys[j]);
        } else if i < keys.len() {
            assert(keys2[i] == keys[i]);
        } else {
            assert(keys2[j] == keys[j]);
        }
    }
    assert forall|x: Seq<char>| keys2.contains(x) <==> (keys.contains(x) || x == k) by {
        if keys.contains(x) {
            let i = keys.index_of(x);
            assert(keys2[i] == x);
        }
        if x == k {
            assert(keys2[keys.len() as int] == x);
        }
        if keys2.contains(x) {
            let i = keys2.index_of(x);
            if i < keys.len() {
                assert(keys[i] == x);
            }
        }
    }
    assert forall|x: Seq<char>| keys2.contains(x) implies #[trigger] table_map(keys2, devices2)[x]
        == table_map(keys, devices).insert(k, d)[x] by {
        let i2 = keys2.index_of(x);
        if x == k {
            lemma_index_of(keys2, keys.len() as int);
        } else {
            let i = keys.index_of(x);
            assert(keys2[i] == x);
            lemma_index_of(keys2, i);
        }
    }
    assert(table_map(keys2, devices2) =~= table_map(keys, devices).insert(k, d));
}

/// Taking out the name at one place with its device takes out what is
/// filed under that name.
pub proof fn lemma_table_remove(keys: Seq<Seq<char>>, devices: Seq<ClientView>, p: int)
    requires
        keys.no_duplicates(),
        keys.len() == devices.len(),
        0 <= p < keys.len(),
    ensures
        keys.remove(p).no_duplicates(),
        !keys.remove(p).contains(keys[p]),
        table_map(keys.remove(p), devices.remove(p)) == table_map(keys, devices).remove(keys[p]),
{
    let keys2 = keys.remove(p);
    let devices2 = devices.remove(p);
    keys.remove_ensures(p);
    devices.remove_ensures(p);
    assert forall|i: int, j: int|
        0 <= i < keys2.len() && 0 <= j < keys2.len() && i != j implies keys2[i] != keys2[j] by {
        let a = if i < p { i } else { i + 1 };
        let b = if j < p { j } else { j + 1 };
        assert(keys2[i] == keys[a] && keys2[j] == keys[b]);
    }
    assert forall|x: Seq<char>| keys2.contains(x) <==> (keys.contains(x) && x != keys[p]) by {
        if keys.contains(x) && x != keys[p] {
            let i = keys.index_of(x);
            if i < p {
                assert(keys2[i] == x);
            } else {
                assert(keys2[i - 1] == x);
            }
        }
        if keys2.contains(x) {
            let i = keys2.index_of(x);
            let a = if i < p { i } else { i + 1 };
            assert(keys[a] == x);
        }
    }
    assert forall|x: Seq<char>| keys2.contains(x) implies #[trigger] table_map(keys2, devices2)[x]
        == table_map(keys, devices).remove(keys[p])[x] by {
        let i = keys2.index_of(x);
        let a = if i < p { i } else { i + 1 };
        assert(keys[a] == x);
        lemma_index_of(keys, a);
    }
    assert(table_map(keys2, devices2) =~= table_map(keys, devices).remove(keys[p]));
}

/// What becomes of the text of a device description: a text that is no
/// document is malformed, and a document is held to the rules.
pub open spec fn document_creation(text: Seq<char>) -> Result<ClientView, ErrorRuntime> {
    match json_document(text) {
        None => Err(ErrorRuntime::ClientJsonParseError),
        Some(t) => creation(t),
    }
}

/// A table after the devices of the first `k` descriptions were filed, each
/// under its own name.
pub open spec fn loaded(
    table: Map<Seq<char>, ClientView>,
    documents: Seq<Seq<char>>,
    k: int,
) -> Map<Seq<char>, ClientView>
    decreases k,
{
    if k <= 0 {
        table
    } else {
        let device = document_creation(documents[k - 1])->Ok_0;
        loaded(table, documents, k - 1).insert(device.name, device)
    }
}

/// The texts of a list in mathematical form.
pub open spec fn texts_view(texts: Seq<String>) -> Seq<Seq<char>> {
    Seq::new(texts.len(), |i: int| texts[i]@)
}

/// A device with the raw value of one register replaced.
pub open spec fn with_register_value(device: ClientView, i: int, word: u16) -> ClientView {
    ClientView {
        registers: device.registers.update(i, RegisterView { value: word, ..device.registers[i] }),
        ..device
    }
}

/// A device with the raw value of one coil replaced.
pub open spec fn with_coil_value(device: ClientView, j: int, state: bool) -> ClientView {
    ClientView { coils: device.coils.update(j, CoilView { value: state, ..device.coils[j] }), ..device }
}

impl Clients {
    /// The names devices are filed under, in the order in which they were
    /// first filed.
    pub closed spec fn keys(&self) -> Seq<Seq<char>> {
        Seq::new(self.clients@.len(), |i: int| self.clients@[i].0@)
    }

    /// The devices, each at the place of its name.
    pub closed spec fn devices(&self) -> Seq<ClientView> {
        Seq::new(self.clients@.len(), |i: int| self.clients@[i].1@)
    }

    /// The place device descriptions are kept in.
    pub closed spec fn config_path(&self) -> Seq<char> {
        self.config@
    }

    /// No name is filed twice.
    pub open spec fn wf(&self) -> bool {
        self.keys().no_duplicates() && self.keys().len() == self.devices().len()
    }

    /// Creates an empty table for the given place of descriptions.
    pub fn new(config: &str) -> (r: Self)
        ensures
            r.wf(),
            r.keys() == Seq::<Seq<char>>::empty(),
            r.devices() == Seq::<ClientView>::empty(),
            r@ == Map::<Seq<char>, ClientView>::empty(),
            r.config_path() == config@,
    {
        let r = Clients { clients: Vec::new(), config: String::from_str(config) };
        assert(r.keys() =~= Seq::<Seq<char>>::empty());
        assert(r.devices() =~= Seq::<ClientView>::empty());
        assert(r@ =~= Map::<Seq<char>, ClientView>::empty());
        r
    }

    /// The place device descriptions are kept in.
    pub fn get_config_path(&self) -> (r: &str)
        ensures
            r@ == self.config_path(),
    {
        self.config.as_str()
    }

    /// The number of devices.
    pub fn len(&self) -> (r: usize)
        ensures
            r == self.keys().len(),
            r == self.devices().len(),
    {
        self.clients.len()
    }

    /// The device at a place of the table.
    pub fn client_at(&self, i: usize) -> (r: &Client)
        requires
            i < self.devices().len(),
        ensures
            r@ == self.devices()[i as int],
    {
        &self.clients[i].1
    }

    /// The name at a place of the table.
    pub fn name_at(&self, i: usize) -> (r: &str)
        requires
            i < self.keys().len(),
        ensures
            r@ == self.keys()[i as int],
    {
        self.clients[i].0.as_str()
    }

    fn position(&self, name: &str) -> (r: Option<usize>)
        ensures
            match r {
                Some(i) => i < self.keys().len() && self.keys()[i as int] == name@,
                None => !self.keys().contains(name@),
            },
    {
        let mut i: usize = 0;
        while i < self.clients.len()
            invariant
                i <= self.clients@.len(),
                forall|j: int| 0 <= j < i ==> self.keys()[j] != name@,
            decreases self.clients@.len() - i,
        {
            if str_eq(self.clients[i].0.as_str(), name) {
                return Some(i);
            }
            i += 1;
        }
        None
    }

    /// Files a device under a name, in place of the device that was filed
    /// under it, if there was one.
    pub fn add_client(&mut self, name: String, client: Client)
        requires
            old(self).wf(),
        ensures
            final(self).wf(),
            final(self)@ == old(self)@.insert(name@, client@),
            final(self).keys() == if old(self).keys().contains(name@) {
                old(self).keys()
            } else {
                old(self).keys().push(name@)
            },
            final(self).devices() == if old(self).keys().contains(name@) {
                old(self).devices().update(old(self).keys().index_of(name@), client@)
            } else {
                old(self).devices().push(client@)
            },
            final(self).config_path() == old(self).config_path(),
    {
        let ghost keys = self.keys();
        let ghost devices = self.devices();
        let ghost device = client@;
        match self.position(name.as_str()) {
            Some(p) => {
                proof {
                    lemma_index_of(keys, p as int);
                    lemma_table_update(keys, devices, p as int, device);
                }
                self.clients[p] = (name, client);
                assert(self.keys() =~= keys);
                assert(self.devices() =~= devices.update(p as int, device));
            },
            None => {
                proof {
                    lemma_table_push(keys, devices, name@, device);
                }
                self.clients.push((name, client));
                assert(self.keys() =~= keys.push(name@));
                assert(self.devices() =~= devices.push(device));
            },
        }
    }

    /// Takes out the device that is filed under a name. Where there is
    /// none, nothing changes.
    pub fn delete_client(&mut self, name: &str)
        requires
            old(self).wf(),
        ensures
            final(self).wf(),
            final(self)@ == old(self)@.remove(name@),
            final(self).keys() == if old(self).keys().contains(name@) {
                old(self).keys().remove(old(self).keys().index_of(name@))
            } else {
                old(self).keys()
            },
            final(self).devices() == if old(self).keys().contains(name@) {
                old(self).devices().remove(old(self).keys().index_of(name@))
            } else {
                old(self).devices()
            },
            final(self).config_path() == old(self).config_path(),
    {
        let ghost keys = self.keys();
        let ghost devices = self.devices();
        match self.position(name) {
            Some(p) => {
                proof {
                    lemma_index_of(keys, p as int);
                    lemma_table_remove(keys, devices, p as int);
                }
                self.clients.remove(p);
                assert(self.keys() =~= keys.remove(p as int));
                assert(self.devices() =~= devices.remove(p as int));
            },
            None => {
                assert(self@ =~= self@.remove(name@));
            },
        }
    }

    /// The device that is filed under a name.
    pub fn get(&self, name: &str) -> (r: Option<&Client>)
        requires
            self.wf(),
        ensures
            match r {
                Some(client) => self@.contains_key(name@) && client@ == self@[name@],
                None => !self@.contains_key(name@),
            },
    {
        match self.position(name) {
            Some(p) => {
                proof {
                    lemma_index_of(self.keys(), p as int);
                }
                Some(&self.clients[p].1)
            },
            None => None,
        }
    }

    /// Files the devices of a list of description texts, each under its
    /// own name, in the order of the list. It stops at the first text that
    /// is no acceptable description, with the devices before it filed.
    pub fn init(&mut self, documents: Vec<String>) -> (r: Result<(), ErrorRuntime>)
        requires
            old(self).wf(),
        ensures
            final(self).wf(),
            final(self).config_path() == old(self).config_path(),
            match r {
                Ok(()) => final(self)@ == loaded(
                    old(self)@,
                    texts_view(documents@),
                    documents@.len() as int,
                ) && forall|k: int|
                    0 <= k < documents@.len() ==> (#[trigger] document_creation(
                        texts_view(documents@)[k],
                    )) is Ok,
                Err(e) => exists|k: int|
                    0 <= k < documents@.len() && final(self)@ == #[trigger] loaded(
                        old(self)@,
                        texts_view(documents@),
                        k,
                    ) && document_creation(texts_view(documents@)[k]) == Err::<ClientView, ErrorRuntime>(e)
                        && forall|j: int|
                        0 <= j < k ==> (#[trigger] document_creation(texts_view(documents@)[j])) is Ok,
            },
    {
        let ghost texts = texts_view(documents@);
        let ghost before = self@;
        let mut i: usize = 0;
        while i < documents.len()
            invariant
                i <= documents@.len(),
                self.wf(),
                self.config_path() == old(self).config_path(),
                before == old(self)@,
                texts == texts_view(documents@),
                self@ == loaded(before, texts, i as int),
                forall|j: int| 0 <= j < i ==> (#[trigger] document_creation(texts[j])) is Ok,
            decreases documents@.len() - i,
        {
            assert(texts[i as int] == documents@[i as int]@);
            match Client::new(documents[i].clone()) {
                Err(e) => {
                    return Err(e);
                },
                Ok(client) => {
                    let name = client.name.clone();
                    self.add_client(name, client);
                },
            }
            i += 1;
        }
        Ok(())
    }

    /// Stores a word that was read as the raw value of the first register
    /// of that name, of the device filed under `device`. It says whether
    /// there is such a register.
    pub fn store_register_value(&mut self, device: &str, register: &str, word: u16) -> (r: bool)
        requires
            old(self).wf(),
        ensures
            final(self).wf(),
            final(self).keys() == old(self).keys(),
            final(self).config_path() == old(self).config_path(),
            r == (old(self)@.contains_key(device@) && exists|i: int|
                0 <= i < old(self)@[device@].registers.len() && old(
                    self,
                )@[device@].registers[i].name == register@),
            !r ==> final(self).devices() == old(self).devices(),
            r ==> exists|i: int|
                0 <= i < old(self)@[device@].registers.len() && old(
                    self,
                )@[device@].registers[i].name == register@ && (forall|j: int|
                    0 <= j < i ==> old(self)@[device@].registers[j].name != register@) && final(self)@
                    == old(self)@.insert(
                    device@,
                    #[trigger] with_register_value(old(self)@[device@], i, word),
                ),
    {
        let ghost keys = self.keys();
        let ghost devices = self.devices();
        let p = match self.position(device) {
            Some(p) => p,
            None => {
                return false;
            },
        };
        proof {
            lemma_index_of(keys, p as int);
        }
        let count = self.clients[p].1.registers.len();
        let mut i: usize = 0;
        while i < count
            invariant
                i <= count,
                p < self.clients@.len(),
                count == self.clients@[p as int].1.registers@.len(),
                forall|j: int| 0 <= j < i ==> self.clients@[p as int].1.registers@[j].name@ != register@,
            ensures
                i < count ==> self.clients@[p as int].1.registers@[i as int].name@ == register@,
            decreases count - i,
        {
            if str_eq(self.clients[p].1.registers[i].name.as_str(), register) {
                break ;
            }
            i += 1;
        }
        if i >= count {
            assert forall|k: int| 0 <= k < devices[p as int].registers.len() implies devices[p as int].registers[k].name
                != register@ by {
                assert(devices[p as int].registers[k] == self.clients@[p as int].1.registers@[k]@);
            }
            return false;
        }
        let ghost found = devices[p as int];
        assert(found.registers[i as int] == self.clients@[p as int].1.registers@[i as int]@);
        assert forall|j: int| 0 <= j < i implies found.registers[j].name != register@ by {
            assert(found.registers[j] == self.clients@[p as int].1.registers@[j]@);
        }
        self.clients[p].1.registers[i].value = word;
        proof {
            let changed = with_register_value(found, i as int, word);
            assert(self.clients@[p as int].1@.registers =~= changed.registers);
            assert(self.clients@[p as int].1@.coils =~= changed.coils);
            assert(self.keys() =~= keys);
            assert(self.devices() =~= devices.update(p as int, changed));
            lemma_table_update(keys, devices, p as int, changed);
            assert(old(self)@[device@] == found);
            assert(found.registers[i as int].name == register@);
            assert(self@ == old(self)@.insert(device@, with_register_value(found, i as int, word)));
        }
        true
    }

    /// Stores a bit that was read as the raw value of the first coil of
    /// that name, of the device filed under `device`. It says whether there
    /// is such a coil.
    pub fn store_coil_value(&mut self, device: &str, coil: &str, state: bool) -> (r: bool)
        requires
            old(self).wf(),
        ensures
            final(self).wf(),
            final(self).keys() == old(self).keys(),
            final(self).config_path() == old(self).config_path(),
            r == (old(self)@.contains_key(device@) && exists|i: int|
                0 <= i < old(self)@[device@].coils.len() && old(self)@[device@].coils[i].name
                    == coil@),
            !r ==> final(self).devices() == old(self).devices(),
            r ==> exists|i: int|
                0 <= i < old(self)@[device@].coils.len() && old(self)@[device@].coils[i].name
                    == coil@ && (forall|j: int|
                    0 <= j < i ==> old(self)@[device@].coils[j].name != coil@) && final(self)@ == old(
                    self,
                )@.insert(device@, #[trigger] with_coil_value(old(self)@[device@], i, state)),
    {
        let ghost keys = self.keys();
        let ghost devices = self.devices();
        let p = match self.position(device) {
            Some(p) => p,
            None => {
                return false;
            },
        };
        proof {
            lemma_index_of(keys, p as int);
        }
        let count = self.clients[p].1.coils.len();
        let mut i: usize = 0;
        while i < count
            invariant
                i <= count,
                p < self.clients@.len(),
                count == self.clients@[p as int].1.coils@.len(),
                forall|j: int| 0 <= j < i ==> self.clients@[p as int].1.coils@[j].name@ != coil@,
            ensures
                i < count ==> self.clients@[p as int].1.coils@[i as int].name@ == coil@,
            decreases count - i,
        {
            if str_eq(self.clients[p].1.coils[i].name.as_str(), coil) {
                break ;
            }
            i += 1;
        }
        if i >= count {
            assert forall|k: int| 0 <= k < devices[p as int].coils.len() implies devices[p as int].coils[k].name
                != coil@ by {
                assert(devices[p as int].coils[k] == self.clients@[p as int].1.coils@[k]@);
            }
            return false;
        }
        let ghost found = devices[p as int];
        assert(found.coils[i as int] == self.clients@[p as int].1.coils@[i as int]@);
        assert forall|j: int| 0 <= j < i implies found.coils[j].name != coil@ by {
            assert(found.coils[j] == self.clients@[p as int].1.coils@[j]@);
        }
        self.clients[p].1.coils[i].value = state;
        proof {
            let changed = with_coil_value(found, i as int, state);
            assert(self.clients@[p as int].1@.registers =~= changed.registers);
            assert(self.clients@[p as int].1@.coils =~= changed.coils);
            assert(self.keys() =~= keys);
            assert(self.devices() =~= devices.update(p as int, changed));
            lemma_table_update(keys, devices, p as int, changed);
            assert(old(self)@[device@] == found);
            assert(found.coils[i as int].name == coil@);
            assert(self@ == old(self)@.insert(device@, with_coil_value(found, i as int, state)));
        }
        true
    }

    /// The names of all devices, in the order of the table.
    pub fn names(&self) -> (r: Vec<String>)
        ensures
            r@.len() == self.keys().len(),
            forall|i: int| 0 <= i < r@.len() ==> (#[trigger] r@[i])@ == self.keys()[i],
    {
        let mut names: Vec<String> = Vec::new();
        let mut i: usize = 0;
        while i < self.clients.len()
            invariant
                i <= self.clients@.len(),
                names@.len() == i,
                forall|j: int| 0 <= j < i ==> (#[trigger] names@[j])@ == self.keys()[j],
            decreases self.clients@.len() - i,
        {
            names.push(self.clients[i].0.clone());
            i += 1;
        }
        names
    }

    /// A copy of all devices, in the order of the table, for a poll cycle to
    /// work on while the table stays free.
    pub fn snapshot_for_poll(&self) -> (r: Vec<Client>)
        ensures
            r@.len() == self.devices().len(),
            forall|i: int| 0 <= i < r@.len() ==> (#[trigger] r@[i])@ == self.devices()[i],
    {
        let mut devices: Vec<Client> = Vec::new();
        let mut i: usize = 0;
        while i < self.clients.len()
            invariant
                i <= self.clients@.len(),
                devices@.len() == i,
                forall|j: int| 0 <= j < i ==> (#[trigger] devices@[j])@ == self.devices()[j],
            decreases self.clients@.len() - i,
        {
            devices.push(self.clients[i].1.clone());
            i += 1;
        }
        devices
    }
}

impl View for Clients {
    type V = Map<Seq<char>, ClientView>;

    /// The devices by the names they are filed under.
    open spec fn view(&self) -> Map<Seq<char>, ClientView> {
        table_map(self.keys(), self.devices())
    }
}

} // verus!
