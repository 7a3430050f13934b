//! The compute side of the request dispatcher: the reply lines the
//! handlers produce, and the parsing of the logs command's argument.
//!
//! The daemon performs the I/O around these — spawning, signalling,
//! reading files — and builds each reply from the verified pieces here.

use vstd::prelude::*;
use vstd::string::StringSliceAdditionalSpecFns;
use vstd::utf8::decode_utf8;

use crate::logging::spec_joined;
use crate::strutil::{
    all_digits, dec_value, find_byte, index_of_from, lemma_ascii_boundary, parse_u64_bytes,
    utf8_sub,
};

verus! {

/// `Started: ` and the name.
pub fn started_message(name: &str) -> (r: String)
    ensures
        r@ == "Started: "@ + name@,
{
    "Started: ".to_owned().concat(name)
}

/// `Stopped: ` and the name.
pub fn stopped_message(name: &str) -> (r: String)
    ensures
        r@ == "Stopped: "@ + name@,
{
    "Stopped: ".to_owned().concat(name)
}

/// `Restarted: ` and the name, appended to the stop report.
pub fn restarted_message(stop_result: &str, name: &str) -> (r: String)
    ensures
        r@ == stop_result@ + "\nRestarted: "@ + name@,
{
    stop_result.to_owned().concat("\nRestarted: ").concat(name)
}

/// `Deleted: ` and the name, appended to the stop report.
pub fn deleted_message(stop_result: &str, name: &str) -> (r: String)
    ensures
        r@ == stop_result@ + "\nDeleted: "@ + name@,
{
    stop_result.to_owned().concat("\nDeleted: ").concat(name)
}

/// The reply to a disable command.
pub fn disabled_message(name: &str) -> (r: String)
    ensures
        r@ == "Auto-restart disabled for: "@ + name@,
{
    "Auto-restart disabled for: ".to_owned().concat(name)
}

/// The reply to a flush command naming one process.
pub fn flushed_message(name: &str) -> (r: String)
    ensures
        r@ == "Flushed logs for: "@ + name@,
{
    "Flushed logs for: ".to_owned().concat(name)
}

/// `Resurrected: ` and the name.
pub fn resurrected_message(name: &str) -> (r: String)
    ensures
        r@ == "Resurrected: "@ + name@,
{
    "Resurrected: ".to_owned().concat(name)
}

/// Join reply lines with newlines between them.
pub fn join_lines(lines: &Vec<String>) -> (r: String)
    ensures
        r@ == spec_joined_sep(lines@),
{
    let mut out = String::new();
    let mut i: usize = 0;
    while i < lines.len()
        invariant
            i <= lines@.len(),
            out@ == spec_joined_sep(lines@.take(i as int)),
        decreases lines@.len() - i,
    {
        if i > 0 {
            out = out.concat("\n");
        }
        out = out.concat(lines[i].as_str());
        proof {
            assert(lines@.take(i + 1).drop_last() =~= lines@.take(i as int));
            assert(lines@.take(i + 1).last() == lines@[i as int]);
        }
        i += 1;
    }
    proof {
        assert(lines@.take(lines@.len() as int) =~= lines@);
    }
    out
}

/// Lines joined with a newline between each pair.
pub open spec fn spec_joined_sep(lines: Seq<String>) -> Seq<char>
    decreases lines.len(),
{
    if lines.len() == 0 {
        Seq::empty()
    } else if lines.len() == 1 {
        lines.last()@
    } else {
        spec_joined_sep(lines.drop_last()) + "\n"@ + lines.last()@
    }
}

/// The name part of a logs argument: the text before the first colon.
pub open spec fn spec_logs_name(b: Seq<u8>) -> Seq<char> {
    decode_utf8(b.take(index_of_from(b, 58, 0)))
}

/// The line count of a logs argument: the decimal between the first and
/// second colon, or 20 when missing or malformed.
pub open spec fn spec_logs_lines(b: Seq<u8>) -> int {
    let c1 = index_of_from(b, 58, 0);
    if c1 == b.len() {
        20
    } else {
        let seg = b.subrange(c1 + 1, index_of_from(b, 58, c1 + 1));
        if seg.len() > 0 && all_digits(seg) && dec_value(seg) <= u64::MAX {
            dec_value(seg)
        } else {
            20
        }
    }
}

/// Split a logs argument of the form `name:lines:follow` into the name and
/// the line count. The follow flag is carried but ignored, as the
/// dispatcher does not implement follow mode.
pub fn parse_logs_arg(arg: &str) -> (r: (String, u64))
    ensures
        r.0@ == spec_logs_name(arg.spec_bytes()),
        r.1 as int == spec_logs_lines(arg.spec_bytes()),
{
    let b = arg.as_bytes();
    proof {
        vstd::utf8::encode_utf8_valid_utf8(arg@);
    }
    let c1 = find_byte(b, 58, 0);
    proof {
        lemma_ascii_boundary(b@, 0);
        lemma_ascii_boundary(b@, c1 as int);
    }
    let name = utf8_sub(b, 0, c1);
    proof {
        assert(b@.subrange(0, c1 as int) =~= b@.take(c1 as int));
    }
    let lines: u64 = if c1 == b.len() {
        20
    } else {
        let c2 = find_byte(b, 58, c1 + 1);
        let seg = crate::strutil::bytes_range(b, c1 + 1, c2);
        match parse_u64_bytes(seg.as_slice()) {
            Some(v) => v,
            None => 20,
        }
    };
    (name, lines)
}

/// The logs reply: a labelled section for each log file that could be
/// read, or a fixed line when neither could.
pub fn logs_reply(
    name: &str,
    stdout_tail: &Option<Vec<String>>,
    stderr_tail: &Option<Vec<String>>,
) -> (r: String)
    ensures
        (match (stdout_tail, stderr_tail) {
            (None, None) => r@ == "No logs found for: "@ + name@,
            (Some(out_lines), None) => (r@ == "=== "@ + name@ + " stdout ===\n"@ + spec_joined(
                out_lines@,
            )),
            (None, Some(err_lines)) => (r@ == "\n=== "@ + name@ + " stderr ===\n"@ + spec_joined(
                err_lines@,
            )),
            (Some(out_lines), Some(err_lines)) => (r@ == "=== "@ + name@ + " stdout ===\n"@
                + spec_joined(out_lines@) + "\n=== "@ + name@ + " stderr ===\n"@ + spec_joined(
                err_lines@,
            )),
        }),
{
    let mut out = String::new();
    let mut empty = true;
    match stdout_tail {
        Some(lines) => {
            out = out.concat("=== ").concat(name).concat(" stdout ===\n");
            out = append_lines(out, lines);
            empty = false;
        },
        None => {},
    }
    match stderr_tail {
        Some(lines) => {
            out = out.concat("\n=== ").concat(name).concat(" stderr ===\n");
            out = append_lines(out, lines);
            empty = false;
        },
        None => {},
    }
    if empty {
        "No logs found for: ".to_owned().concat(name)
    } else {
        out
    }
}

/// Append each line and a newline.
fn append_lines(out: String, lines: &Vec<String>) -> (r: String)
    ensures
        r@ == out@ + spec_joined(lines@),
{
    let ghost base = out@;
    let mut acc = out;
    proof {
        assert(acc@ =~= base + spec_joined(lines@.take(0)));
    }
    let mut i: usize = 0;
    while i < lines.len()
        invariant
            i <= lines@.len(),
            acc@ == base + spec_joined(lines@.take(i as int)),
        decreases lines@.len() - i,
    {
        acc = acc.concat(lines[i].as_str()).concat("\n");
        proof {
            assert(lines@.take(i + 1).drop_last() =~= lines@.take(i as int));
            assert(lines@.take(i + 1).last() == lines@[i as int]);
        }
        i += 1;
    }
    proof {
        assert(lines@.take(lines@.len() as int) =~= lines@);
    }
    acc
}

} // verus!
