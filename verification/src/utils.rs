//! Helpers of the control operations: the texts of written values, the
//! naming check over a whole description, and the files descriptions are
//! kept in.

use vstd::prelude::*;
use vstd::string::*;
use crate::clients::Client;
use crate::errors::{ErrorRuntime, ErrorRuntimeNoRejection};
use crate::json::{
    items_view, lemma_array_view, lemma_object_view, members_view, JsonTree, JsonValue,
};
use crate::text::{is_valid_name, str_eq, valid_name};

verus! {

/// Whether `c` is an ASCII digit.
pub open spec fn is_digit(c: char) -> bool {
    '0' <= c && c <= '9'
}

/// The number that a text of decimal digits stands for.
pub open spec fn decimal(digits: Seq<char>) -> nat
    decreases digits.len(),
{
    if digits.len() == 0 {
        0
    } else {
        (10 * decimal(digits.drop_last()) + (digits.last() as nat - '0' as nat)) as nat
    }
}

/// The digits of the text of a number: the text without a leading plus
/// sign.
pub open spec fn unsigned_digits(text: Seq<char>) -> Seq<char> {
    if text.len() > 0 && text[0] == '+' {
        text.drop_first()
    } else {
        text
    }
}

/// The 16-bit number that a text stands for: one or more decimal digits,
/// with or without a plus sign before them and nothing else around them,
/// that make a number of at most 65535.
pub open spec fn u16_text(text: Seq<char>) -> Option<u16> {
    let digits = unsigned_digits(text);
    if digits.len() > 0 && (forall|i: int| 0 <= i < digits.len() ==> is_digit(#[trigger] digits[i]))
        && decimal(digits) <= 65535 {
        Some(decimal(digits) as u16)
    } else {
        None
    }
}

/// The truth value that a text stands for: `true` or `false`, in these
/// letters.
pub open spec fn bool_text(text: Seq<char>) -> Option<bool> {
    if text == "true"@ {
        Some(true)
    } else if text == "false"@ {
        Some(false)
    } else {
        None
    }
}

/// More digits make no smaller number.
proof fn lemma_decimal_grows(digits: Seq<char>, k: int)
    requires
        0 <= k <= digits.len(),
        forall|i: int| 0 <= i < digits.len() ==> is_digit(#[trigger] digits[i]),
    ensures
        decimal(digits.take(k)) <= decimal(digits),
    decreases digits.len() - k,
{
    if k == digits.len() {
        assert(digits.take(k) =~= digits);
    } else {
        lemma_decimal_grows(digits, k + 1);
        assert(digits.take(k + 1).drop_last() =~= digits.take(k));
        assert(digits.take(k + 1).last() == digits[k]);
    }
}

/// Reads a 16-bit number from its text.
pub fn parse_u16(text: &str) -> (r: Option<u16>)
    ensures
        r == u16_text(text@),
{
    let ghost digits = unsigned_digits(text@);
    let mut total: u32 = 0;
    let ghost mut count: int = 0;
    let mut seen = false;
    let mut first = true;
    let mut signed = false;
    for c in it: text.chars()
        invariant
            it.seq() == text@,
            digits == unsigned_digits(text@),
            first == (it.index() == 0),
            signed == (it.index() > 0 && text@[0] == '+'),
            count == it.index() - (if signed { 1int } else { 0int }),
            0 <= count <= digits.len(),
            seen == (count > 0),
            forall|i: int| 0 <= i < count ==> is_digit(#[trigger] digits[i]),
            total == decimal(digits.take(count)),
            total <= 65535,
    {
        if first && c == '+' {
            signed = true;
            first = false;
            assert(digits.take(0) =~= Seq::<char>::empty());
        } else {
            first = false;
            assert(digits[count] == c);
            if !('0' <= c && c <= '9') {
                return None;
            }
            let value: u32 = (c as u32) - ('0' as u32);
            let next: u32 = total * 10 + value;
            proof {
                assert(digits.take(count + 1).drop_last() =~= digits.take(count));
                assert(digits.take(count + 1).last() == c);
                assert(next == decimal(digits.take(count + 1)));
            }
            if next > 65535 {
                proof {
                    if forall|i: int| 0 <= i < digits.len() ==> is_digit(#[trigger] digits[i]) {
                        lemma_decimal_grows(digits, count + 1);
                    }
                }
                return None;
            }
            total = next;
            seen = true;
            proof {
                count = count + 1;
            }
        }
    }
    proof {
        assert(digits.take(count) =~= digits);
    }
    if seen {
        Some(total as u16)
    } else {
        None
    }
}

/// Reads a truth value from its text.
pub fn parse_bool(text: &str) -> (r: Option<bool>)
    ensures
        r == bool_text(text@),
{
    if str_eq(text, "true") {
        Some(true)
    } else if str_eq(text, "false") {
        Some(false)
    } else {
        None
    }
}

/// Whether every text in a description, but for what is filed under
/// `ip_address`, meets the naming rule.
pub open spec fn strings_valid(t: JsonTree) -> bool
    decreases t,
{
    match t {
        JsonTree::Text(s) => valid_name(s),
        JsonTree::Array(items) => forall|i: int|
            0 <= i < items.len() ==> strings_valid(#[trigger] items[i]),
        JsonTree::Object(members) => forall|i: int|
            0 <= i < members.len() && (#[trigger] members[i]).0 != "ip_address"@ ==> strings_valid(
                members[i].1,
            ),
        _ => true,
    }
}

/// An array meets the naming rule where each of its items does.
pub proof fn lemma_strings_valid_array(items: Seq<JsonTree>)
    ensures
        strings_valid(JsonTree::Array(items)) == (forall|i: int|
            0 <= i < items.len() ==> strings_valid(#[trigger] items[i])),
{
    let t = JsonTree::Array(items);
    if forall|i: int| 0 <= i < items.len() ==> strings_valid(#[trigger] items[i]) {
        assert(strings_valid(t));
    }
    if strings_valid(t) {
        assert forall|i: int| 0 <= i < items.len() implies strings_valid(#[trigger] items[i]) by {
            assert(t->Array_0[i] == items[i]);
        }
    }
}

/// An object meets the naming rule where each of its members does that is
/// not filed under `ip_address`.
pub proof fn lemma_strings_valid_object(members: Seq<(Seq<char>, JsonTree)>)
    ensures
        strings_valid(JsonTree::Object(members)) == (forall|i: int|
            0 <= i < members.len() && (#[trigger] members[i]).0 != "ip_address"@ ==> strings_valid(
                members[i].1,
            )),
{
    let t = JsonTree::Object(members);
    if forall|i: int|
        0 <= i < members.len() && (#[trigger] members[i]).0 != "ip_address"@ ==> strings_valid(
            members[i].1,
        ) {
        assert(strings_valid(t));
    }
    if strings_valid(t) {
        assert forall|i: int|
            0 <= i < members.len() && (#[trigger] members[i]).0 != "ip_address"@ implies strings_valid(
            members[i].1,
        ) by {
            assert(t->Object_0[i] == members[i]);
        }
    }
}

/// Holds every text in a description to the naming rule, but for what is
/// filed under `ip_address`.
pub fn check_client_strings(input: &JsonValue) -> (r: Result<(), ErrorRuntime>)
    ensures
        r is Ok <==> strings_valid(input@),
        r is Err ==> r == Err::<(), ErrorRuntime>(ErrorRuntime::RegexError),
    decreases input,
{
    match input {
        JsonValue::Text(s) => {
            if !is_valid_name(s.as_str()) {
                return Err(ErrorRuntime::RegexError);
            }
        },
        JsonValue::Array(items) => {
            proof {
                lemma_array_view(*items);
                lemma_strings_valid_array(items_view(items@));
            }
            let mut i: usize = 0;
            while i < items.len()
                invariant
                    i <= items@.len(),
                    input@ == JsonTree::Array(items_view(items@)),
                    strings_valid(input@) == (forall|i: int|
                        0 <= i < items_view(items@).len() ==> strings_valid(
                            #[trigger] items_view(items@)[i],
                        )),
                    *input == JsonValue::Array(*items),
                    forall|k: int| 0 <= k < i ==> strings_valid(#[trigger] items_view(items@)[k]),
                decreases items@.len() - i,
            {
                let checked = check_client_strings(&items[i]);
                if checked.is_err() {
                    assert(!strings_valid(items_view(items@)[i as int]));
                    return Err(ErrorRuntime::RegexError);
                }
                i += 1;
            }
        },
        JsonValue::Object(members) => {
            proof {
                lemma_object_view(*members);
                lemma_strings_valid_object(members_view(members@));
            }
            let mut i: usize = 0;
            while i < members.len()
                invariant
                    i <= members@.len(),
                    input@ == JsonTree::Object(members_view(members@)),
                    strings_valid(input@) == (forall|i: int|
                        0 <= i < members_view(members@).len() && (#[trigger] members_view(
                            members@,
                        )[i]).0 != "ip_address"@ ==> strings_valid(members_view(members@)[i].1)),
                    *input == JsonValue::Object(*members),
                    forall|k: int|
                        0 <= k < i && (#[trigger] members_view(members@)[k]).0 != "ip_address"@
                            ==> strings_valid(members_view(members@)[k].1),
                decreases members@.len() - i,
            {
                if !str_eq(members[i].0.as_str(), "ip_address") {
                    let checked = check_client_strings(&members[i].1);
                    if checked.is_err() {
                        assert(!strings_valid(members_view(members@)[i as int].1));
                        return Err(ErrorRuntime::RegexError);
                    }
                }
                i += 1;
            }
        },
        _ => {},
    }
    Ok(())
}

/// The fields of a text that is split at every dot.
pub open spec fn fields(text: Seq<char>) -> Seq<Seq<char>>
    decreases text.len(),
{
    if text.len() == 0 {
        seq![Seq::empty()]
    } else if text.last() == '.' {
        fields(text.drop_last()).push(Seq::empty())
    } else {
        let before = fields(text.drop_last());
        before.update(before.len() - 1, before.last().push(text.last()))
    }
}

/// The octet that a field stands for: one to three decimal digits, without
/// a leading zero before another digit, that make a number of at most 255.
pub open spec fn octet(field: Seq<char>) -> Option<u8> {
    if 1 <= field.len() <= 3 && (forall|i: int| 0 <= i < field.len() ==> is_digit(#[trigger] field[i]))
        && (field.len() > 1 ==> field[0] != '0') && decimal(field) <= 255 {
        Some(decimal(field) as u8)
    } else {
        None
    }
}

/// The address that a text in dotted-quad form stands for: four octets
/// with a dot between each two, and nothing else.
pub open spec fn ipv4_octets(text: Seq<char>) -> Option<(u8, u8, u8, u8)> {
    let f = fields(text);
    if f.len() == 4 && octet(f[0]) is Some && octet(f[1]) is Some && octet(f[2]) is Some && octet(
        f[3],
    ) is Some {
        Some((octet(f[0])->Some_0, octet(f[1])->Some_0, octet(f[2])->Some_0, octet(f[3])->Some_0))
    } else {
        None
    }
}

/// A text has at least one field.
proof fn lemma_fields_nonempty(text: Seq<char>)
    ensures
        fields(text).len() >= 1,
    decreases text.len(),
{
    if text.len() > 0 {
        lemma_fields_nonempty(text.drop_last());
    }
}

/// The value of the field that is being read, as far as it can still be an
/// octet: its length up to four, whether it holds digits only, whether it
/// starts with a zero, and the number its digits make.
struct FieldState {
    length: u8,
    digits: bool,
    leading_zero: bool,
    value: u16,
}

impl FieldState {
    spec fn describes(self, field: Seq<char>) -> bool {
        &&& self.length == if field.len() <= 3 {
            field.len() as int
        } else {
            4
        }
        &&& self.digits == (forall|i: int| 0 <= i < field.len() ==> is_digit(#[trigger] field[i]))
        &&& self.leading_zero == (field.len() > 0 && field[0] == '0')
        &&& self.digits && field.len() <= 3 ==> self.value == decimal(field)
        &&& self.value <= 999
    }

    fn empty() -> (r: Self)
        ensures
            r.describes(Seq::empty()),
    {
        FieldState { length: 0, digits: true, leading_zero: false, value: 0 }
    }

    fn push(self, c: char, Ghost(field): Ghost<Seq<char>>) -> (r: Self)
        requires
            self.describes(field),
        ensures
            r.describes(field.push(c)),
    {
        let ghost longer = field.push(c);
        let numeral = '0' <= c && c <= '9';
        proof {
            assert(longer.drop_last() =~= field);
            assert(longer.last() == c);
            assert forall|i: int| 0 <= i < field.len() implies longer[i] == field[i] by {}
            if self.digits && numeral {
                assert forall|i: int| 0 <= i < longer.len() implies is_digit(#[trigger] longer[i]) by {
                    if i < field.len() {
                        assert(longer[i] == field[i]);
                    }
                }
            }
            if !self.digits {
                let i = choose|i: int| 0 <= i < field.len() && !is_digit(#[trigger] field[i]);
                assert(longer[i] == field[i]);
            }
            if !numeral {
                assert(longer[field.len() as int] == c);
            }
            lemma_decimal_bound(field);
        }
        let digits = self.digits && numeral;
        let leading_zero = if self.length == 0 {
            c == '0'
        } else {
            self.leading_zero
        };
        let length: u8 = if self.length < 4 {
            self.length + 1
        } else {
            4
        };
        let value: u16 = if digits && self.length < 3 {
            self.value * 10 + ((c as u32 - '0' as u32) as u16)
        } else {
            0
        };
        FieldState { length, digits, leading_zero, value }
    }

    fn finish(&self, Ghost(field): Ghost<Seq<char>>) -> (r: Option<u8>)
        requires
            self.describes(field),
        ensures
            r == octet(field),
    {
        if 1 <= self.length && self.length <= 3 && self.digits && !(self.length > 1
            && self.leading_zero) && self.value <= 255 {
            Some(self.value as u8)
        } else {
            None
        }
    }
}

/// Up to three digits make a number below a thousand.
proof fn lemma_decimal_bound(field: Seq<char>)
    ensures
        (forall|i: int| 0 <= i < field.len() ==> is_digit(#[trigger] field[i])) && field.len() <= 3
            ==> decimal(field) < 1000,
        (forall|i: int| 0 <= i < field.len() ==> is_digit(#[trigger] field[i])) && field.len() <= 2
            ==> decimal(field) < 100,
{
    if (forall|i: int| 0 <= i < field.len() ==> is_digit(#[trigger] field[i])) && field.len() <= 3 {
        reveal_with_fuel(decimal, 4);
        if field.len() >= 1 {
            let a = field.drop_last();
            assert(is_digit(field[field.len() - 1]));
            if a.len() >= 1 {
                let b = a.drop_last();
                assert(a.last() == field[field.len() - 2]);
                assert(is_digit(field[field.len() - 2]));
                if b.len() >= 1 {
                    assert(b.last() == field[field.len() - 3]);
                    assert(is_digit(field[field.len() - 3]));
                    assert(b.drop_last().len() == 0);
                }
            }
        }
    }
}

/// Reads an address in dotted-quad form.
pub fn parse_ipv4(text: &str) -> (r: Option<(u8, u8, u8, u8)>)
    ensures
        r == ipv4_octets(text@),
{
    let mut current = FieldState::empty();
    let mut finished: usize = 0;
    let mut valid = true;
    let mut first: u8 = 0;
    let mut second: u8 = 0;
    let mut third: u8 = 0;
    let ghost mut read: Seq<char> = Seq::empty();
    for c in it: text.chars()
        invariant
            it.seq() == text@,
            read == text@.take(it.index() as int),
            fields(read).len() >= 1,
            finished == if fields(read).len() - 1 <= 4 {
                fields(read).len() - 1
            } else {
                4
            },
            current.describes(fields(read).last()),
            valid == (forall|k: int|
                0 <= k < fields(read).len() - 1 ==> octet(#[trigger] fields(read)[k]) is Some),
            valid && finished >= 1 ==> octet(fields(read)[0]) == Some(first),
            valid && finished >= 2 ==> octet(fields(read)[1]) == Some(second),
            valid && finished >= 3 ==> octet(fields(read)[2]) == Some(third),
    {
        let ghost before = fields(read);
        let ghost longer = read.push(c);
        proof {
            assert(longer.drop_last() =~= read);
            assert(longer.last() == c);
            assert(text@.take(it.index() + 1) =~= longer);
            lemma_fields_nonempty(longer);
        }
        if c == '.' {
            let closed = current.finish(Ghost(before.last()));
            proof {
                assert(fields(longer) == before.push(Seq::empty()));
                assert forall|k: int| 0 <= k < before.len() - 1 implies fields(longer)[k] == before[k] by {}
                assert(fields(longer)[before.len() - 1] == before.last());
            }
            match closed {
                Some(value) => {
                    if finished == 0 {
                        first = value;
                    } else if finished == 1 {
                        second = value;
                    } else if finished == 2 {
                        third = value;
                    }
                },
                None => {
                    valid = false;
                },
            }
            if finished < 4 {
                finished += 1;
            }
            current = FieldState::empty();
        } else {
            current = current.push(c, Ghost(before.last()));
            proof {
                assert(fields(longer) == before.update(before.len() - 1, before.last().push(c)));
                assert forall|k: int| 0 <= k < before.len() - 1 implies fields(longer)[k] == before[k] by {}
            }
        }
        proof {
            read = longer;
        }
    }
    proof {
        assert(read =~= text@);
    }
    let last = current.finish(Ghost(fields(read).last()));
    match last {
        Some(fourth) => {
            if valid && finished == 3 {
                Some((first, second, third, fourth))
            } else {
                None
            }
        },
        None => None,
    }
}

/// Where a session to a device is opened.
#[derive(Debug, Clone, Copy, PartialEq, Eq)]
pub struct SocketTarget {
    pub octets: (u8, u8, u8, u8),
    pub port: u16,
}

/// Works out where the session to a device is opened: at its address, read
/// as a dotted quad, and its port. An address that is no dotted quad is
/// invalid.
pub fn create_ctx(client: &Client) -> (r: Result<SocketTarget, ErrorRuntimeNoRejection>)
    ensures
        r == match ipv4_octets(client.ip_address@) {
            Some(octets) => Ok::<SocketTarget, ErrorRuntimeNoRejection>(
                SocketTarget { octets, port: client.port },
            ),
            None => Err::<SocketTarget, ErrorRuntimeNoRejection>(
                ErrorRuntimeNoRejection::InvalidIpAddress,
            ),
        },
{
    match parse_ipv4(client.ip_address.as_str()) {
        Some(octets) => Ok(SocketTarget { octets, port: client.port }),
        None => Err(ErrorRuntimeNoRejection::InvalidIpAddress),
    }
}

/// The name of the file that the description of a device is kept in.
pub open spec fn file_name(device: Seq<char>) -> Seq<char> {
    device + ".json"@
}

/// The path of the file that the description of a device is kept in.
pub open spec fn file_path(config: Seq<char>, device: Seq<char>) -> Seq<char> {
    config + "/"@ + file_name(device)
}

/// Writes out the name of the file that the description of a device is
/// kept in.
pub fn config_file_name(device: &str) -> (r: String)
    ensures
        r@ == file_name(device@),
{
    let mut name = String::from_str(device);
    name.append(".json");
    name
}

/// Writes out the path of the file that the description of a device is
/// kept in.
pub fn config_file_path(config: &str, device: &str) -> (r: String)
    ensures
        r@ == file_path(config@, device@),
{
    let mut path = String::from_str(config);
    path.append("/");
    path.append(device);
    path.append(".json");
    proof {
        assert(path@ =~= file_path(config@, device@));
    }
    path
}

/// Whether a list of file names holds a name.
pub open spec fn listed(files: Seq<String>, name: Seq<char>) -> bool {
    exists|i: int| 0 <= i < files.len() && (#[trigger] files[i])@ == name
}

/// Refuses a description whose file is among those already kept. Where
/// the files could not be listed, nothing is refused.
pub fn check_if_client_exist(client_file_name: &str, local_files: &Result<Vec<String>, ErrorRuntime>) -> (r:
    Result<(), ErrorRuntime>)
    ensures
        match *local_files {
            Ok(files) => if listed(files@, client_file_name@) {
                r == Err::<(), ErrorRuntime>(ErrorRuntime::ClientExists)
            } else {
                r is Ok
            },
            Err(_) => r is Ok,
        },
{
    match local_files {
        Ok(files) => {
            let mut i: usize = 0;
            while i < files.len()
                invariant
                    i <= files@.len(),
                    *local_files == Ok::<Vec<String>, ErrorRuntime>(*files),
                    forall|k: int| 0 <= k < i ==> (#[trigger] files@[k])@ != client_file_name@,
                decreases files@.len() - i,
            {
                if str_eq(files[i].as_str(), client_file_name) {
                    return Err(ErrorRuntime::ClientExists);
                }
                i += 1;
            }
            Ok(())
        },
        Err(_) => Ok(()),
    }
}

} // verus!
