//! The golden-ROM comparison run: how a test case is run, how a mismatch is
//! described, and the report.

use vstd::prelude::*;
use crate::text::{chars_of, decimal, push_all, push_decimal, push_str, str_eq, string_of};

verus! {

/// How a test case is run: extra command-line flags, whether the bundled
/// scripts must be installed, and why its golden ROM cannot be regenerated
/// here, if it cannot.
pub open spec fn case_setup(group: Seq<char>, name: Seq<char>) -> (Seq<Seq<char>>, bool, Option<Seq<char>>) {
    let flags = if name == "undocumented"@ {
        seq!["-u"@]
    } else {
        Seq::empty()
    };
    if group == "examples"@ && name == "custom"@ {
        (flags, false, Some("polyglot scripts not runnable in-sandbox"@))
    } else if (group == "examples"@ && name == "ease"@) || (group == "errors"@ && name
        == "ease-type"@) {
        (flags, true, Some("bundled Lua ease script"@))
    } else {
        (flags, false, None)
    }
}

/// The flags, script needs and skip reason of a test case.
pub fn classify(group: &str, name: &str) -> (r: (Vec<String>, bool, Option<&'static str>))
    ensures
        ({
            let (flags, scripts, skip) = case_setup(group@, name@);
            &&& r.0@.map_values(|f: String| f@) == flags
            &&& r.1 == scripts
            &&& match skip {
                Some(s) => r.2 matches Some(x) && x@ == s,
                None => r.2 is None,
            }
        }),
{
    let mut flags: Vec<String> = Vec::new();
    if str_eq(name, "undocumented") {
        flags.push(string_of(&chars_of("-u")));
    }
    assert(flags@.map_values(|f: String| f@) =~= case_setup(group@, name@).0);
    if str_eq(group, "examples") && str_eq(name, "custom") {
        (flags, false, Some("polyglot scripts not runnable in-sandbox"))
    } else if (str_eq(group, "examples") && str_eq(name, "ease")) || (str_eq(group, "errors")
        && str_eq(name, "ease-type")) {
        (flags, true, Some("bundled Lua ease script"))
    } else {
        (flags, false, None)
    }
}

/// The lower-case hex digit for `d` in `0..16`.
pub open spec fn lower_hex_digit(d: int) -> char {
    if d < 10 {
        (d + 48) as char
    } else {
        (d + 87) as char
    }
}

/// A byte as `{:#04x}` writes it: `0x` and two lower-case hex digits.
pub open spec fn byte_hex(b: u8) -> Seq<char> {
    "0x"@ + seq![lower_hex_digit(b as int / 16), lower_hex_digit(b as int % 16)]
}

/// The first index below `n` where `a` and `b` differ.
pub open spec fn first_mismatch(a: Seq<u8>, b: Seq<u8>, i: int, n: int) -> Option<int>
    decreases n - i,
{
    if i < 0 || i >= n {
        None
    } else if a[i] != b[i] {
        Some(i)
    } else {
        first_mismatch(a, b, i + 1, n)
    }
}

/// How two outputs differ: the first differing byte and the two values there,
/// or `identical`, or `differing length` when one is a prefix of the other.
pub open spec fn diff_text(got: Seq<u8>, expected: Seq<u8>) -> Seq<char> {
    let n = if got.len() < expected.len() {
        got.len() as int
    } else {
        expected.len() as int
    };
    match first_mismatch(got, expected, 0, n) {
        Some(i) => "first diff at byte "@ + decimal(i as nat) + ": "@ + byte_hex(got[i]) + " != "@
            + byte_hex(expected[i]),
        None => if got.len() == expected.len() {
            "identical"@
        } else {
            "differing length"@
        },
    }
}

/// The lower-case hex digit for `d`.
fn lower_hex_char(d: u8) -> (c: char)
    requires
        d < 16,
    ensures
        c == lower_hex_digit(d as int),
{
    if d < 10 {
        (d + 48) as char
    } else {
        (d + 87) as char
    }
}

/// Append `b` as `{:#04x}` writes it.
fn push_byte_hex(v: &mut Vec<char>, b: u8)
    ensures
        final(v)@ == old(v)@ + byte_hex(b),
{
    push_str(v, "0x");
    v.push(lower_hex_char(b / 16));
    v.push(lower_hex_char(b % 16));
}

/// Describe where two outputs first differ.
pub fn first_diff(got: &[u8], expected: &[u8]) -> (r: String)
    ensures
        r@ == diff_text(got@, expected@),
{
    let n = if got.len() < expected.len() {
        got.len()
    } else {
        expected.len()
    };
    let mut i: usize = 0;
    while i < n
        invariant
            i <= n,
            n == (if got.len() < expected.len() {
                got.len()
            } else {
                expected.len()
            }),
            first_mismatch(got@, expected@, i as int, n as int) == first_mismatch(
                got@,
                expected@,
                0,
                n as int,
            ),
        decreases n - i,
    {
        if got[i] != expected[i] {
            let mut v = chars_of("first diff at byte ");
            push_decimal(&mut v, i as u64);
            push_str(&mut v, ": ");
            push_byte_hex(&mut v, got[i]);
            push_str(&mut v, " != ");
            push_byte_hex(&mut v, expected[i]);
            return string_of(&v);
        }
        i += 1;
    }
    if got.len() == expected.len() {
        string_of(&chars_of("identical"))
    } else {
        string_of(&chars_of("differing length"))
    }
}

/// One failure line of the report: the case, both sizes, and where the
/// outputs first differ.
pub open spec fn failure_text(group: Seq<char>, name: Seq<char>, got: Seq<u8>, expected: Seq<u8>) -> Seq<char> {
    group + "/"@ + name + ": got "@ + decimal(got.len()) + " bytes, expected "@ + decimal(
        expected.len(),
    ) + " ("@ + diff_text(got, expected) + ")"@
}

/// The failure lines of the report, each as `FAIL <line>` on a line of its own.
pub open spec fn fail_lines(fails: Seq<Seq<char>>) -> Seq<char>
    decreases fails.len(),
{
    if fails.len() == 0 {
        Seq::empty()
    } else {
        fail_lines(fails.drop_last()) + "FAIL "@ + fails.last() + "\n"@
    }
}

/// The whole report: a title and its underline, the pass and fail counts out
/// of the total, a blank line, then the failure lines.
pub open spec fn report_text(pass: nat, fails: Seq<Seq<char>>) -> Seq<char> {
    let total = pass + fails.len();
    "nessemble-rs parity vs v1.1.1 goldens\n"@ + "=================================================\n"@
        + "pass:    "@ + decimal(pass) + "/"@ + decimal(total) + "\n"@ + "fail:    "@ + decimal(
        fails.len(),
    ) + "/"@ + decimal(total) + "\n\n"@ + fail_lines(fails)
}

/// The failure line for a case whose output differs from its golden ROM.
pub fn failure_line(group: &str, name: &str, got: &[u8], expected: &[u8]) -> (r: String)
    ensures
        r@ == failure_text(group@, name@, got@, expected@),
{
    let mut v = chars_of(group);
    push_str(&mut v, "/");
    push_str(&mut v, name);
    push_str(&mut v, ": got ");
    push_decimal(&mut v, got.len() as u64);
    push_str(&mut v, " bytes, expected ");
    push_decimal(&mut v, expected.len() as u64);
    push_str(&mut v, " (");
    let d = first_diff(got, expected);
    let dc = chars_of(d.as_str());
    push_all(&mut v, &dc);
    push_str(&mut v, ")");
    string_of(&v)
}

/// The report for `pass` matching cases and the given failure lines.
pub fn report(pass: usize, fails: &[String]) -> (r: String)
    requires
        pass + fails.len() <= u64::MAX,
    ensures
        r@ == report_text(pass as nat, fails@.map_values(|f: String| f@)),
{
    let ghost lines = fails@.map_values(|f: String| f@);
    let total: u64 = pass as u64 + fails.len() as u64;
    let mut v = chars_of("nessemble-rs parity vs v1.1.1 goldens\n");
    push_str(&mut v, "=================================================\n");
    push_str(&mut v, "pass:    ");
    push_decimal(&mut v, pass as u64);
    push_str(&mut v, "/");
    push_decimal(&mut v, total);
    push_str(&mut v, "\n");
    push_str(&mut v, "fail:    ");
    push_decimal(&mut v, fails.len() as u64);
    push_str(&mut v, "/");
    push_decimal(&mut v, total);
    push_str(&mut v, "\n\n");
    let ghost head = v@;
    let mut i: usize = 0;
    while i < fails.len()
        invariant
            i <= fails.len(),
            lines == fails@.map_values(|f: String| f@),
            v@ == head + fail_lines(lines.take(i as int)),
        decreases fails.len() - i,
    {
        push_str(&mut v, "FAIL ");
        push_str(&mut v, fails[i].as_str());
        push_str(&mut v, "\n");
        proof {
            assert(lines.take(i + 1).drop_last() =~= lines.take(i as int));
        }
        i += 1;
    }
    assert(lines.take(fails.len() as int) =~= lines);
    string_of(&v)
}

} // verus!
