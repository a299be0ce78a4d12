//! The report format: a pretty-printed JSON document holding the total
//! duration and the per-thread event sequences. The renderer produces
//! the document text; the grammar is pinned down by spec functions, and
//! a canonical reader inverts them (see `reader`).

use vstd::prelude::*;
use vstd::string::StrSliceExecFns;
use vstd::string::StringExecFns;
use crate::event::{DurationRep, EventView};
use crate::store::entries_view;

verus! {

/// The decimal digit characters, in value order.
pub open spec fn digit_char(d: nat) -> char {
    if d == 0 {
        '0'
    } else if d == 1 {
        '1'
    } else if d == 2 {
        '2'
    } else if d == 3 {
        '3'
    } else if d == 4 {
        '4'
    } else if d == 5 {
        '5'
    } else if d == 6 {
        '6'
    } else if d == 7 {
        '7'
    } else if d == 8 {
        '8'
    } else {
        '9'
    }
}

/// The value of a decimal digit character, or ten for any other char.
pub open spec fn char_digit(c: char) -> nat {
    if c == '0' {
        0
    } else if c == '1' {
        1
    } else if c == '2' {
        2
    } else if c == '3' {
        3
    } else if c == '4' {
        4
    } else if c == '5' {
        5
    } else if c == '6' {
        6
    } else if c == '7' {
        7
    } else if c == '8' {
        8
    } else if c == '9' {
        9
    } else {
        10
    }
}

pub open spec fn is_digit(c: char) -> bool {
    char_digit(c) < 10
}

/// The lower-case hexadecimal digit characters, in value order.
pub open spec fn hex_char(d: nat) -> char {
    if d < 10 {
        digit_char(d)
    } else if d == 10 {
        'a'
    } else if d == 11 {
        'b'
    } else if d == 12 {
        'c'
    } else if d == 13 {
        'd'
    } else if d == 14 {
        'e'
    } else {
        'f'
    }
}

/// The value of a lower-case hexadecimal digit character, or sixteen.
pub open spec fn char_hex(c: char) -> nat {
    if char_digit(c) < 10 {
        char_digit(c)
    } else if c == 'a' {
        10
    } else if c == 'b' {
        11
    } else if c == 'c' {
        12
    } else if c == 'd' {
        13
    } else if c == 'e' {
        14
    } else if c == 'f' {
        15
    } else {
        16
    }
}

/// The canonical decimal numeral of `n`: no sign, no leading zero.
pub open spec fn dec_rep(n: nat) -> Seq<char>
    decreases n,
{
    if n < 10 {
        seq![digit_char(n)]
    } else {
        dec_rep(n / 10) + seq![digit_char(n % 10)]
    }
}

/// The JSON escape of one character: quote and backslash are escaped
/// with a backslash, control characters as a four-digit hex escape, and
/// everything else stands for itself.
pub open spec fn escape_char(c: char) -> Seq<char> {
    if c == '"' {
        seq!['\\', '"']
    } else if c == '\\' {
        seq!['\\', '\\']
    } else if (c as u32) < 0x20 {
        seq!['\\', 'u', '0', '0', hex_char((c as u32 / 16) as nat), hex_char((c as u32 % 16) as nat)]
    } else {
        seq![c]
    }
}

/// The escaped body of a JSON string.
pub open spec fn escape_seq(s: Seq<char>) -> Seq<char>
    decreases s.len(),
{
    if s.len() == 0 {
        Seq::empty()
    } else {
        escape_char(s[0]) + escape_seq(s.drop_first())
    }
}

/// A JSON string literal: quoted escaped body.
pub open spec fn jstr(s: Seq<char>) -> Seq<char> {
    seq!['"'] + escape_seq(s) + seq!['"']
}

/// A duration object, rendered with its fields indented two spaces past
/// `pad` and its closing brace at `pad`.
pub open spec fn render_duration(d: DurationRep, pad: Seq<char>) -> Seq<char> {
    "{\n"@ + pad + "  \"secs\": "@ + dec_rep(d.secs as nat) + ",\n"@ + pad + "  \"nanos\": "@
        + dec_rep(d.nanos as nat) + "\n"@ + pad + "}"@
}

/// A payload-size field: the number, or `null` on point events.
pub open spec fn render_size(s: Option<u64>) -> Seq<char> {
    match s {
        Option::Some(v) => dec_rep(v as nat),
        Option::None => "null"@,
    }
}

/// A payload-flag field: the boolean, or `null` on point events.
pub open spec fn render_plug(p: Option<bool>) -> Seq<char> {
    match p {
        Option::Some(true) => "true"@,
        Option::Some(false) => "false"@,
        Option::None => "null"@,
    }
}

/// One event object, rendered at the depth it has inside a thread's
/// event array.
pub open spec fn render_event(e: EventView) -> Seq<char> {
    "{\n        \"timestamp\": "@ + render_duration(e.timestamp, "        "@)
        + ",\n        \"event\": "@ + jstr(e.event) + ",\n        \"end_timestamp\": "@ + dec_rep(
        e.end_timestamp as nat,
    ) + ",\n        \"depth\": "@ + dec_rep(e.depth as nat) + ",\n        \"size\": "@
        + render_size(e.size) + ",\n        \"plug\": "@ + render_plug(e.plug) + "\n      }"@
}

/// The comma-separated elements of a thread's event array.
pub open spec fn render_event_items(evs: Seq<EventView>) -> Seq<char>
    decreases evs.len(),
{
    if evs.len() == 0 {
        Seq::empty()
    } else if evs.len() == 1 {
        "      "@ + render_event(evs[0])
    } else {
        "      "@ + render_event(evs[0]) + ",\n"@ + render_event_items(evs.drop_first())
    }
}

/// A thread's event array.
pub open spec fn render_events(evs: Seq<EventView>) -> Seq<char> {
    if evs.len() == 0 {
        "[]"@
    } else {
        "[\n"@ + render_event_items(evs) + "\n    ]"@
    }
}

/// The comma-separated members of the per-thread mapping.
pub open spec fn render_entry_items(es: Seq<(Seq<char>, Seq<EventView>)>) -> Seq<char>
    decreases es.len(),
{
    if es.len() == 0 {
        Seq::empty()
    } else if es.len() == 1 {
        "    "@ + jstr(es[0].0) + ": "@ + render_events(es[0].1)
    } else {
        "    "@ + jstr(es[0].0) + ": "@ + render_events(es[0].1) + ",\n"@ + render_entry_items(
            es.drop_first(),
        )
    }
}

/// The per-thread mapping object.
pub open spec fn render_entries(es: Seq<(Seq<char>, Seq<EventView>)>) -> Seq<char> {
    if es.len() == 0 {
        "{}"@
    } else {
        "{\n"@ + render_entry_items(es) + "\n  }"@
    }
}

/// The whole report document.
pub open spec fn render_report(d: DurationRep, es: Seq<(Seq<char>, Seq<EventView>)>) -> Seq<char> {
    "{\n  \"duration\": "@ + render_duration(d, "  "@) + ",\n  \"events\": "@ + render_entries(es)
        + "\n}"@
}

/// The decimal digit as a one-character string.
fn digit_str(d: u128) -> (r: &'static str)
    requires
        d < 10,
    ensures
        r@ == seq![digit_char(d as nat)],
{
    proof {
        reveal_strlit("0");
        reveal_strlit("1");
        reveal_strlit("2");
        reveal_strlit("3");
        reveal_strlit("4");
        reveal_strlit("5");
        reveal_strlit("6");
        reveal_strlit("7");
        reveal_strlit("8");
        reveal_strlit("9");
    }
    let r = if d == 0 {
        "0"
    } else if d == 1 {
        "1"
    } else if d == 2 {
        "2"
    } else if d == 3 {
        "3"
    } else if d == 4 {
        "4"
    } else if d == 5 {
        "5"
    } else if d == 6 {
        "6"
    } else if d == 7 {
        "7"
    } else if d == 8 {
        "8"
    } else {
        "9"
    };
    proof {
        assert(r@ =~= seq![digit_char(d as nat)]);
    }
    r
}

/// The hexadecimal digit as a one-character string.
fn hex_str(d: u32) -> (r: &'static str)
    requires
        d < 16,
    ensures
        r@ == seq![hex_char(d as nat)],
{
    if d < 10 {
        digit_str(d as u128)
    } else {
        proof {
            reveal_strlit("a");
            reveal_strlit("b");
            reveal_strlit("c");
            reveal_strlit("d");
            reveal_strlit("e");
            reveal_strlit("f");
        }
        let r = if d == 10 {
            "a"
        } else if d == 11 {
            "b"
        } else if d == 12 {
            "c"
        } else if d == 13 {
            "d"
        } else if d == 14 {
            "e"
        } else {
            "f"
        };
        proof {
            assert(r@ =~= seq![hex_char(d as nat)]);
        }
        r
    }
}

/// Appends the canonical decimal numeral of `n`.
fn push_dec(out: &mut String, n: u128)
    ensures
        final(out)@ == old(out)@ + dec_rep(n as nat),
    decreases n,
{
    if n < 10 {
        out.append(digit_str(n));
    } else {
        push_dec(out, n / 10);
        out.append(digit_str(n % 10));
        proof {
            assert(final(out)@ =~= old(out)@ + dec_rep(n as nat));
        }
    }
}

/// Relies on `String::push`: appends the one character to the string.
#[verifier::external_body]
fn push_char(out: &mut String, c: char)
    ensures
        final(out)@ == old(out)@ + seq![c],
{
    out.push(c);
}

/// Appends the escaped body of `s` from character `i` on.
fn push_escaped_from(out: &mut String, s: &str, i: usize)
    requires
        i <= s@.len(),
    ensures
        final(out)@ == old(out)@ + escape_seq(s@.skip(i as int)),
    decreases s@.len() - i,
{
    proof {
        reveal_strlit("\\\"");
        reveal_strlit("\\\\");
        reveal_strlit("\\u00");
    }
    if i == s.unicode_len() {
        proof {
            assert(final(out)@ =~= old(out)@ + escape_seq(s@.skip(i as int)));
        }
        return ;
    }
    let c = s.get_char(i);
    if c == '"' {
        out.append("\\\"");
        proof {
            assert("\\\""@ =~= escape_char(c));
        }
    } else if c == '\\' {
        out.append("\\\\");
        proof {
            assert("\\\\"@ =~= escape_char(c));
        }
    } else if (c as u32) < 0x20 {
        out.append("\\u00");
        out.append(hex_str((c as u32) / 16));
        out.append(hex_str((c as u32) % 16));
        proof {
            assert("\\u00"@ + seq![hex_char(((c as u32) / 16) as nat)] + seq![
                hex_char(((c as u32) % 16) as nat),
            ] =~= escape_char(c));
        }
    } else {
        push_char(out, c);
        proof {
            assert(seq![c] =~= escape_char(c));
        }
    }
    let ghost mid = out@;
    push_escaped_from(out, s, i + 1);
    proof {
        assert(s@.skip(i as int).drop_first() =~= s@.skip(i + 1 as int));
        assert(s@.skip(i as int)[0] == s@[i as int]);
        assert(final(out)@ =~= old(out)@ + escape_seq(s@.skip(i as int)));
    }
}

/// Appends the JSON string literal for `s`.
fn push_jstr(out: &mut String, s: &str)
    ensures
        final(out)@ == old(out)@ + jstr(s@),
{
    proof {
        reveal_strlit("\"");
    }
    out.append("\"");
    push_escaped_from(out, s, 0);
    out.append("\"");
    proof {
        assert("\""@ =~= seq!['"']);
        assert(s@.skip(0) =~= s@);
        assert(final(out)@ =~= old(out)@ + jstr(s@));
    }
}

/// Appends a duration object at the given indentation.
fn push_duration(out: &mut String, d: &DurationRep, pad: &str)
    ensures
        final(out)@ == old(out)@ + render_duration(*d, pad@),
{
    out.append("{\n");
    out.append(pad);
    out.append("  \"secs\": ");
    push_dec(out, d.secs as u128);
    out.append(",\n");
    out.append(pad);
    out.append("  \"nanos\": ");
    push_dec(out, d.nanos as u128);
    out.append("\n");
    out.append(pad);
    out.append("}");
    proof {
        assert(final(out)@ =~= old(out)@ + render_duration(*d, pad@));
    }
}

/// Appends one event object.
#[verifier::rlimit(50)]
fn push_event(out: &mut String, e: &crate::event::TraceEvent)
    ensures
        final(out)@ == old(out)@ + render_event(e@),
{
    out.append("{\n        \"timestamp\": ");
    push_duration(out, &e.timestamp, "        ");
    out.append(",\n        \"event\": ");
    push_jstr(out, e.event.as_str());
    out.append(",\n        \"end_timestamp\": ");
    push_dec(out, e.end_timestamp);
    out.append(",\n        \"depth\": ");
    push_dec(out, e.depth as u128);
    out.append(",\n        \"size\": ");
    match &e.size {
        Option::Some(v) => push_dec(out, *v as u128),
        Option::None => out.append("null"),
    }
    out.append(",\n        \"plug\": ");
    match &e.plug {
        Option::Some(b) => {
            if *b {
                out.append("true");
            } else {
                out.append("false");
            }
        },
        Option::None => out.append("null"),
    }
    out.append("\n      }");
    proof {
        assert(final(out)@ =~= old(out)@ + render_event(e@));
    }
}

/// Appends the array elements for the events from index `i` on.
#[verifier::rlimit(50)]
fn push_event_items(out: &mut String, evs: &Vec<crate::event::TraceEvent>, i: usize)
    requires
        i <= evs@.len(),
    ensures
        final(out)@ == old(out)@ + render_event_items(
            evs@.map_values(|e: crate::event::TraceEvent| e@).skip(i as int),
        ),
    decreases evs@.len() - i,
{
    let ghost vs = evs@.map_values(|e: crate::event::TraceEvent| e@);
    if i == evs.len() {
        proof {
            assert(final(out)@ =~= old(out)@ + render_event_items(vs.skip(i as int)));
        }
        return ;
    }
    out.append("      ");
    push_event(out, &evs[i]);
    if i + 1 < evs.len() {
        out.append(",\n");
    }
    push_event_items(out, evs, i + 1);
    proof {
        assert(vs.skip(i as int)[0] == vs[i as int]);
        assert(vs.skip(i as int).drop_first() =~= vs.skip(i + 1 as int));
        assert(final(out)@ =~= old(out)@ + render_event_items(vs.skip(i as int)));
    }
}

/// Appends a thread's event array.
fn push_events(out: &mut String, evs: &Vec<crate::event::TraceEvent>)
    ensures
        final(out)@ == old(out)@ + render_events(
            evs@.map_values(|e: crate::event::TraceEvent| e@),
        ),
{
    let ghost vs = evs@.map_values(|e: crate::event::TraceEvent| e@);
    if evs.len() == 0 {
        out.append("[]");
    } else {
        out.append("[\n");
        push_event_items(out, evs, 0);
        out.append("\n    ]");
        proof {
            assert(vs.skip(0) =~= vs);
            assert(final(out)@ =~= old(out)@ + render_events(vs));
        }
    }
}

/// Appends the mapping members for the entries from index `i` on.
#[verifier::rlimit(50)]
fn push_entry_items(out: &mut String, entries: &Vec<(String, Vec<crate::event::TraceEvent>)>, i: usize)
    requires
        i <= entries@.len(),
    ensures
        final(out)@ == old(out)@ + render_entry_items(entries_view(entries@).skip(i as int)),
    decreases entries@.len() - i,
{
    let ghost vs = entries_view(entries@);
    if i == entries.len() {
        proof {
            assert(final(out)@ =~= old(out)@ + render_entry_items(vs.skip(i as int)));
        }
        return ;
    }
    out.append("    ");
    push_jstr(out, entries[i].0.as_str());
    out.append(": ");
    push_events(out, &entries[i].1);
    if i + 1 < entries.len() {
        out.append(",\n");
    }
    push_entry_items(out, entries, i + 1);
    proof {
        assert(vs.skip(i as int)[0] == vs[i as int]);
        assert(vs.skip(i as int).drop_first() =~= vs.skip(i + 1 as int));
        assert(final(out)@ =~= old(out)@ + render_entry_items(vs.skip(i as int)));
    }
}

/// Appends the per-thread mapping object.
fn push_entries(out: &mut String, entries: &Vec<(String, Vec<crate::event::TraceEvent>)>)
    ensures
        final(out)@ == old(out)@ + render_entries(entries_view(entries@)),
{
    let ghost vs = entries_view(entries@);
    if entries.len() == 0 {
        out.append("{}");
    } else {
        out.append("{\n");
        push_entry_items(out, entries, 0);
        out.append("\n  }");
        proof {
            assert(vs.skip(0) =~= vs);
            assert(final(out)@ =~= old(out)@ + render_entries(vs));
        }
    }
}

/// Renders the whole report document.
pub fn render_report_doc(
    duration: &DurationRep,
    entries: &Vec<(String, Vec<crate::event::TraceEvent>)>,
) -> (r: String)
    ensures
        r@ == render_report(*duration, entries_view(entries@)),
{
    let mut out = String::new();
    out.append("{\n  \"duration\": ");
    push_duration(&mut out, duration, "  ");
    out.append(",\n  \"events\": ");
    push_entries(&mut out, entries);
    out.append("\n}");
    proof {
        assert(out@ =~= render_report(*duration, entries_view(entries@)));
    }
    out
}

/// The name of the report file written for the process with the given
/// identifier.
pub open spec fn spec_report_path(pid: u32) -> Seq<char> {
    "cloud-hypervisor-"@ + dec_rep(pid as nat) + ".virtio-mem-trace"@
}

/// The report file name for the given process identifier.
pub fn report_path(pid: u32) -> (r: String)
    ensures
        r@ == spec_report_path(pid),
{
    let mut out = String::new();
    out.append("cloud-hypervisor-");
    push_dec(&mut out, pid as u128);
    out.append(".virtio-mem-trace");
    proof {
        assert(out@ =~= spec_report_path(pid));
    }
    out
}

} // verus!
