//! The messages the service starts with.

use vstd::prelude::*;
use vstd::string::*;
use crate::errors::ErrorRuntime;
use crate::utils::{decimal, is_digit};

verus! {

/// The text of a number: its decimal digits, without leading zeros.
pub open spec fn number_text(text: Seq<char>, n: nat) -> bool {
    &&& text.len() > 0
    &&& forall|i: int| 0 <= i < text.len() ==> is_digit(#[trigger] text[i])
    &&& text.len() > 1 ==> text[0] != '0'
    &&& decimal(text) == n
}

fn digit_text(d: usize) -> (r: &'static str)
    requires
        d < 10,
    ensures
        r@.len() == 1,
        r@[0] as nat == '0' as nat + d,
        is_digit(r@[0]),
{
    proof {
        reveal_strlit("0");
        reveal_strlit("1");
        reveal_strlit("2");
        reveal_strlit("3");
        reveal_strlit("4");
        reveal_strlit("5");
        reveal_strlit("6");
        reveal_strlit("7");
        reveal_strlit("8");
        reveal_strlit("9");
    }
    if d == 0 {
        "0"
    } else if d == 1 {
        "1"
    } else if d == 2 {
        "2"
    } else if d == 3 {
        "3"
    } else if d == 4 {
        "4"
    } else if d == 5 {
        "5"
    } else if d == 6 {
        "6"
    } else if d == 7 {
        "7"
    } else if d == 8 {
        "8"
    } else {
        "9"
    }
}

/// Writes a number out in decimal digits.
pub fn number_to_text(n: usize) -> (r: String)
    ensures
        number_text(r@, n as nat),
    decreases n,
{
    if n < 10 {
        let text = String::from_str(digit_text(n));
        proof {
            assert(text@.drop_last() =~= Seq::<char>::empty());
            assert(decimal(text@.drop_last()) == 0);
        }
        text
    } else {
        let mut text = number_to_text(n / 10);
        let ghost front = text@;
        let digit = digit_text(n % 10);
        text.append(digit);
        proof {
            assert(text@.drop_last() =~= front);
            assert(text@.last() == digit@[0]);
            assert(text@[0] == front[0]);
            if front.len() == 1 {
                assert(front.drop_last() =~= Seq::<char>::empty());
                assert(decimal(front.drop_last()) == 0);
            }
        }
        text
    }
}

/// The messages a start is logged with: the steps taken, the place of the
/// descriptions, and either the number of descriptions found and one line
/// for each of them, or that none was found.
pub open spec fn start_messages(
    config: Seq<char>,
    files: Result<Vec<String>, ErrorRuntime>,
    count: Seq<char>,
) -> Seq<Seq<char>> {
    let head = seq![
        "Starting server..."@,
        "Initializing  Clients..."@,
        "Trying to read local stored config files..."@,
        "Location for config files: "@ + config,
    ];
    match files {
        Ok(list) => head + seq![
            "Found "@ + count + " config files, so "@ + count + " client/s will be initialized."@,
        ] + Seq::new(list@.len(), |i: int| "Config file: "@ + list@[i]@),
        Err(_) => head + seq!["No config files found. No clients will be initialized."@],
    }
}

/// The lines of a list in mathematical form.
pub open spec fn lines_view(lines: Seq<String>) -> Seq<Seq<char>> {
    Seq::new(lines.len(), |i: int| lines[i]@)
}

/// Writes out the messages a start is logged with, given the place of the
/// descriptions and the descriptions that were found there.
pub fn print_start(config: String, config_files: &Result<Vec<String>, ErrorRuntime>) -> (r: Vec<String>)
    ensures
        exists|count: Seq<char>|
            lines_view(r@) == #[trigger] start_messages(config@, *config_files, count) && (
            config_files matches Ok(list) ==> number_text(count, list@.len())),
{
    let mut lines: Vec<String> = Vec::new();
    lines.push(String::from_str("Starting server..."));
    lines.push(String::from_str("Initializing  Clients..."));
    lines.push(String::from_str("Trying to read local stored config files..."));
    let mut place = String::from_str("Location for config files: ");
    place.append(config.as_str());
    lines.push(place);
    match config_files {
        Ok(list) => {
            let count = number_to_text(list.len());
            let mut found = String::from_str("Found ");
            found.append(count.as_str());
            found.append(" config files, so ");
            found.append(count.as_str());
            found.append(" client/s will be initialized.");
            lines.push(found);
            let ghost expected = start_messages(config@, *config_files, count@);
            let mut i: usize = 0;
            while i < list.len()
                invariant
                    i <= list@.len(),
                    *config_files == Ok::<Vec<String>, ErrorRuntime>(*list),
                    expected == start_messages(config@, *config_files, count@),
                    lines@.len() == 5 + i,
                    forall|k: int| 0 <= k < 5 + i ==> (#[trigger] lines@[k])@ == expected[k],
                decreases list@.len() - i,
            {
                let mut line = String::from_str("Config file: ");
                line.append(list[i].as_str());
                lines.push(line);
                i += 1;
            }
            assert(lines_view(lines@) =~= expected);
        },
        Err(_) => {
            lines.push(String::from_str("No config files found. No clients will be initialized."));
            assert(lines_view(lines@) =~= start_messages(config@, *config_files, Seq::empty()));
        },
    }
    lines
}

} // verus!
