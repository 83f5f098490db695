//! The texts the property runner reports: the JSON result line, the errors
//! for unknown names, and the failure message taken from a panic.
use vstd::prelude::*;
use vstd::string::StringExecFns;
use crate::json::{char_from_code, json_decode, json_quoted, json_str, law_json_quoted_decodes};
use crate::text::{has_prefix, push_char, strip_prefix};

verus! {

/// The decimal digit character for `d`.
pub open spec fn decimal_digit(d: int) -> char {
    (('0' as int) + d) as char
}

/// The decimal notation of `n`, without leading zeros.
pub open spec fn decimal(n: nat) -> Seq<char>
    decreases n,
{
    if n < 10 {
        seq![decimal_digit(n as int)]
    } else {
        decimal(n / 10) + seq![decimal_digit((n % 10) as int)]
    }
}

/// Appends the decimal notation of `n` to `out`.
pub fn push_decimal(out: &mut String, n: u128)
    ensures
        final(out)@ == old(out)@ + decimal(n as nat),
{
    let mut rev: Vec<char> = Vec::new();
    let mut m = n;
    let ghost mut suffix: Seq<char> = Seq::empty();
    while m >= 10
        invariant
            decimal(n as nat) == decimal(m as nat) + suffix,
            suffix.len() == rev@.len(),
            forall|k: int| 0 <= k < suffix.len() ==> suffix[k] == rev@[rev@.len() - 1 - k],
        decreases m,
    {
        let d = (m % 10) as u32;
        let c = char_from_code(48 + d);
        proof {
            assert(decimal(m as nat) == decimal((m / 10) as nat) + seq![decimal_digit(d as int)]);
            assert(decimal((m / 10) as nat) + seq![decimal_digit(d as int)] + suffix =~= decimal(
                (m / 10) as nat,
            ) + (seq![c] + suffix));
            suffix = seq![c] + suffix;
        }
        rev.push(c);
        m = m / 10;
    }
    let c = char_from_code(48 + (m as u32));
    proof {
        suffix = seq![c] + suffix;
    }
    rev.push(c);
    let ghost start = out@;
    let total = rev.len();
    let mut i = total;
    while i > 0
        invariant
            i <= total,
            total == rev@.len(),
            suffix == decimal(n as nat),
            suffix.len() == total,
            forall|k: int| 0 <= k < suffix.len() ==> suffix[k] == rev@[rev@.len() - 1 - k],
            out@ == start + suffix.take(total - i),
        decreases i,
    {
        i = i - 1;
        push_char(out, rev[i]);
        proof {
            assert(suffix.take(total - i) =~= suffix.take(total - i - 1).push(rev@[i as int]));
        }
    }
    proof {
        assert(suffix.take(total as int) =~= suffix);
    }
}

/// A string's view, if there is a string.
pub open spec fn opt_view(o: Option<&str>) -> Option<Seq<char>> {
    match o {
        Some(s) => Some(s@),
        None => None,
    }
}

/// A string as a JSON string literal, or `null`.
pub open spec fn json_or_null(v: Option<Seq<char>>) -> Seq<char> {
    match v {
        Some(s) => json_quoted(s),
        None => "null"@,
    }
}

/// The JSON result line of one run: its status, the number of inputs tried,
/// no discards, the time in microseconds, the counterexample and the error
/// (or `null`), the tool and the property.
pub open spec fn json_line_text(
    tool: Seq<char>,
    property: Seq<char>,
    status: Seq<char>,
    inputs: nat,
    elapsed_us: nat,
    counterexample: Option<Seq<char>>,
    error: Option<Seq<char>>,
) -> Seq<char> {
    "{\"status\":"@ + json_quoted(status) + ",\"tests\":"@ + decimal(inputs)
        + ",\"discards\":0,\"time\":"@ + json_quoted(decimal(elapsed_us) + "us"@)
        + ",\"counterexample\":"@ + json_or_null(counterexample) + ",\"error\":"@ + json_or_null(
        error,
    ) + ",\"tool\":"@ + json_quoted(tool) + ",\"property\":"@ + json_quoted(property) + "}"@
}

/// The part of a result line before the counterexample's value: the
/// status, the number of inputs, the discards and the time.
pub open spec fn json_line_head(status: Seq<char>, inputs: nat, elapsed_us: nat) -> Seq<char> {
    "{\"status\":"@ + json_quoted(status) + ",\"tests\":"@ + decimal(inputs)
        + ",\"discards\":0,\"time\":"@ + json_quoted(decimal(elapsed_us) + "us"@)
        + ",\"counterexample\":"@
}

/// The counterexample field of a result line depends on the counterexample
/// alone, whatever the error: after the same head it holds the quoted
/// counterexample, which decodes back to it, or `null` when there is none.
/// Two lines that differ only in their error agree up to the end of that
/// field.
pub proof fn law_json_line_counterexample(
    tool: Seq<char>,
    property: Seq<char>,
    status: Seq<char>,
    inputs: nat,
    elapsed_us: nat,
    counterexample: Option<Seq<char>>,
    error1: Option<Seq<char>>,
    error2: Option<Seq<char>>,
)
    ensures
        ({
            let head = json_line_head(status, inputs, elapsed_us);
            let line1 = json_line_text(
                tool,
                property,
                status,
                inputs,
                elapsed_us,
                counterexample,
                error1,
            );
            let line2 = json_line_text(
                tool,
                property,
                status,
                inputs,
                elapsed_us,
                counterexample,
                error2,
            );
            let field = match counterexample {
                Some(c) => json_quoted(c),
                None => "null"@,
            };
            &&& line1.take(head.len() as int) == head
            &&& line1.subrange(head.len() as int, (head.len() + field.len()) as int) == field
            &&& line1.take((head.len() + field.len()) as int) == line2.take((head.len() + field.len()) as int)
            &&& (counterexample matches Some(c) ==> json_decode(field) == Some(c))
        }),
{
    let head = json_line_head(status, inputs, elapsed_us);
    let field = match counterexample {
        Some(c) => json_quoted(c),
        None => "null"@,
    };
    let tail1 = ",\"error\":"@ + json_or_null(error1) + ",\"tool\":"@ + json_quoted(tool)
        + ",\"property\":"@ + json_quoted(property) + "}"@;
    let tail2 = ",\"error\":"@ + json_or_null(error2) + ",\"tool\":"@ + json_quoted(tool)
        + ",\"property\":"@ + json_quoted(property) + "}"@;
    let line1 = json_line_text(tool, property, status, inputs, elapsed_us, counterexample, error1);
    let line2 = json_line_text(tool, property, status, inputs, elapsed_us, counterexample, error2);
    assert(json_or_null(counterexample) == field);
    assert(line1 =~= head + field + tail1);
    assert(line2 =~= head + field + tail2);
    assert(line1.take(head.len() as int) =~= head);
    assert(line1.subrange(head.len() as int, (head.len() + field.len()) as int) =~= field);
    assert(line1.take((head.len() + field.len()) as int) =~= head + field);
    assert(line2.take((head.len() + field.len()) as int) =~= head + field);
    if let Some(c) = counterexample {
        law_json_quoted_decodes(c);
    }
}

/// Appends a string as a JSON string literal, or `null`, to `out`.
fn push_json_or_null(out: &mut String, v: Option<&str>)
    ensures
        final(out)@ == old(out)@ + json_or_null(opt_view(v)),
{
    match v {
        Some(s) => {
            let q = json_str(s);
            out.append(q.as_str());
        },
        None => {
            out.append("null");
        },
    }
}

/// The JSON result line of one run.
pub fn json_line(
    tool: &str,
    property: &str,
    status: &str,
    inputs: u64,
    elapsed_us: u128,
    counterexample: Option<&str>,
    error: Option<&str>,
) -> (line: String)
    ensures
        line@ == json_line_text(
            tool@,
            property@,
            status@,
            inputs as nat,
            elapsed_us as nat,
            opt_view(counterexample),
            opt_view(error),
        ),
{
    let mut out = String::new();
    out.append("{\"status\":");
    out.append(json_str(status).as_str());
    out.append(",\"tests\":");
    push_decimal(&mut out, inputs as u128);
    out.append(",\"discards\":0,\"time\":");
    let mut time = String::new();
    push_decimal(&mut time, elapsed_us);
    time.append("us");
    out.append(json_str(time.as_str()).as_str());
    out.append(",\"counterexample\":");
    push_json_or_null(&mut out, counterexample);
    out.append(",\"error\":");
    push_json_or_null(&mut out, error);
    out.append(",\"tool\":");
    out.append(json_str(tool).as_str());
    out.append(",\"property\":");
    out.append(json_str(property).as_str());
    out.append("}");
    proof {
        assert(time@ =~= decimal(elapsed_us as nat) + "us"@);
        assert(out@ =~= json_line_text(
            tool@,
            property@,
            status@,
            inputs as nat,
            elapsed_us as nat,
            opt_view(counterexample),
            opt_view(error),
        ));
    }
    out
}

/// The error for a property name that no property has; with a tool, the
/// message names it.
pub open spec fn unknown_property_text(tool: Option<Seq<char>>, name: Seq<char>) -> Seq<char> {
    match tool {
        Some(t) => "Unknown property for "@ + t + ": "@ + name,
        None => "Unknown property: "@ + name,
    }
}

/// The error for a property name that no property has.
pub fn unknown_property_message(tool: Option<&str>, name: &str) -> (m: String)
    ensures
        m@ == unknown_property_text(opt_view(tool), name@),
{
    let mut out = String::new();
    match tool {
        Some(t) => {
            out.append("Unknown property for ");
            out.append(t);
            out.append(": ");
        },
        None => {
            out.append("Unknown property: ");
        },
    }
    out.append(name);
    proof {
        assert(out@ =~= unknown_property_text(opt_view(tool), name@));
    }
    out
}

/// The error for a tool name that no tool has.
pub fn unknown_tool_message(tool: &str) -> (m: String)
    ensures
        m@ == "Unknown tool: "@ + tool@,
{
    let mut out = String::new();
    out.append("Unknown tool: ");
    out.append(tool);
    out
}

/// The marker with which a test body reports an unknown property name
/// through a panic.
pub open spec fn unknown_property_marker() -> Seq<char> {
    "__unknown_property:"@
}

/// The prefix that the hegel engine puts before a failing test's message.
pub open spec fn hegel_failure_prefix() -> Seq<char> {
    "Property test failed: "@
}

/// What a panic message from a hegel run means.
pub enum HegelFailure {
    /// The property name was unknown; the error to report.
    UnknownProperty(String),
    /// The property failed; the message, without the engine's prefix.
    Failed(String),
}

/// Reads a panic message from a hegel run: the unknown-property marker
/// becomes the unknown-property error for hegel; otherwise the engine's
/// failure prefix, where present, is removed.
pub fn classify_hegel_failure(msg: &str) -> (r: HegelFailure)
    ensures
        has_prefix(msg@, unknown_property_marker()) ==> (r matches HegelFailure::UnknownProperty(m)
            && m@ == unknown_property_text(
            Some("hegel"@),
            msg@.skip(unknown_property_marker().len() as int),
        )),
        !has_prefix(msg@, unknown_property_marker()) && has_prefix(msg@, hegel_failure_prefix())
            ==> (r matches HegelFailure::Failed(m) && m@ == msg@.skip(
            hegel_failure_prefix().len() as int,
        )),
        !has_prefix(msg@, unknown_property_marker()) && !has_prefix(msg@, hegel_failure_prefix())
            ==> (r matches HegelFailure::Failed(m) && m@ == msg@),
{
    match strip_prefix(msg, "__unknown_property:") {
        Some(rest) => HegelFailure::UnknownProperty(unknown_property_message(Some("hegel"), rest)),
        None => match strip_prefix(msg, "Property test failed: ") {
            Some(rest) => HegelFailure::Failed(rest.to_string()),
            None => HegelFailure::Failed(msg.to_string()),
        },
    }
}

} // verus!
