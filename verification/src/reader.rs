//! A canonical reader for the report format: spec functions that parse
//! exactly the text the renderer produces, and proofs that reading a
//! rendered report yields the original state. Together with the
//! renderer's contracts this pins the round trip down: the serialized
//! document re-parses to a structurally equal value.

use vstd::prelude::*;
use crate::event::{DurationRep, EventView, NANOS_PER_SEC};
use crate::json::{
    char_digit, char_hex, dec_rep, digit_char, escape_char, escape_seq, hex_char, is_digit, jstr,
    render_duration, render_entries, render_entry_items, render_event, render_event_items,
    render_events, render_plug, render_report, render_size,
};

verus! {

/// Consumes an exact literal prefix.
pub open spec fn p_lit(s: Seq<char>, lit: Seq<char>) -> Option<Seq<char>> {
    if lit.len() <= s.len() && s.subrange(0, lit.len() as int) == lit {
        Some(s.skip(lit.len() as int))
    } else {
        None
    }
}

/// A literal followed by anything parses to that anything.
pub proof fn lemma_rt_lit(lit: Seq<char>, rest: Seq<char>)
    ensures
        p_lit(lit + rest, lit) == Some(rest),
{
    let s = lit + rest;
    assert(s.subrange(0, lit.len() as int) =~= lit);
    assert(s.skip(lit.len() as int) =~= rest);
}

/// Splits the longest leading run of decimal digits off the input.
pub open spec fn split_digits(s: Seq<char>) -> (Seq<char>, Seq<char>)
    decreases s.len(),
{
    if s.len() > 0 && is_digit(s[0]) {
        let (run, rest) = split_digits(s.drop_first());
        (seq![s[0]] + run, rest)
    } else {
        (Seq::empty(), s)
    }
}

/// The value of a sequence of decimal digit characters.
pub open spec fn dec_val(ds: Seq<char>) -> nat
    decreases ds.len(),
{
    if ds.len() == 0 {
        0
    } else {
        dec_val(ds.drop_last()) * 10 + char_digit(ds.last())
    }
}

/// Consumes a canonical decimal numeral: a nonempty digit run, no
/// leading zero, value representable in 128 bits.
pub open spec fn p_dec(s: Seq<char>) -> Option<(nat, Seq<char>)> {
    let (run, rest) = split_digits(s);
    if run.len() == 0 {
        None
    } else if run[0] == '0' && run.len() > 1 {
        None
    } else if dec_val(run) > u128::MAX {
        None
    } else {
        Some((dec_val(run), rest))
    }
}

/// Digit characters read back to their value.
proof fn lemma_digit_inverse(d: nat)
    requires
        d < 10,
    ensures
        char_digit(digit_char(d)) == d,
{
}

/// Every character of a canonical numeral is a digit.
proof fn lemma_dec_rep_digits(n: nat)
    ensures
        dec_rep(n).len() >= 1,
        forall|i: int| 0 <= i < dec_rep(n).len() ==> is_digit(#[trigger] dec_rep(n)[i]),
    decreases n,
{
    if n < 10 {
    } else {
        lemma_dec_rep_digits(n / 10);
    }
}

/// A canonical numeral has no leading zero unless it is zero itself.
proof fn lemma_dec_rep_leading(n: nat)
    ensures
        n >= 1 ==> dec_rep(n)[0] != '0',
    decreases n,
{
    if n < 10 {
    } else {
        lemma_dec_rep_leading(n / 10);
        assert(dec_rep(n)[0] == dec_rep(n / 10)[0]);
    }
}

/// Splitting a digit run followed by a non-digit returns exactly the
/// run and the remainder.
proof fn lemma_split_digits_exact(run: Seq<char>, rest: Seq<char>)
    requires
        forall|i: int| 0 <= i < run.len() ==> is_digit(#[trigger] run[i]),
        rest.len() == 0 || !is_digit(rest[0]),
    ensures
        split_digits(run + rest) == (run, rest),
    decreases run.len(),
{
    let s = run + rest;
    if run.len() == 0 {
        assert(s =~= rest);
        if rest.len() > 0 {
            assert(!is_digit(s[0]));
        }
        assert(split_digits(s) == (Seq::<char>::empty(), s));
        assert(split_digits(run + rest) =~= (run, rest));
    } else {
        assert(is_digit(s[0]));
        assert(s.drop_first() =~= run.drop_first() + rest);
        lemma_split_digits_exact(run.drop_first(), rest);
        assert(seq![s[0]] + run.drop_first() =~= run);
    }
}

/// Reading back a canonical numeral yields its value.
proof fn lemma_dec_val_rep(n: nat)
    ensures
        dec_val(dec_rep(n)) == n,
    decreases n,
{
    if n < 10 {
        lemma_digit_inverse(n);
        assert(dec_rep(n).drop_last() =~= Seq::<char>::empty());
        assert(dec_rep(n).last() == digit_char(n));
        assert(dec_val(Seq::<char>::empty()) == 0);
    } else {
        lemma_dec_val_rep(n / 10);
        lemma_digit_inverse(n % 10);
        assert(dec_rep(n).len() >= 1);
        assert(dec_rep(n).drop_last() =~= dec_rep(n / 10));
        assert(dec_rep(n).last() == digit_char(n % 10));
        vstd::arithmetic::div_mod::lemma_fundamental_div_mod(n as int, 10);
    }
}

/// A rendered numeral followed by a non-digit parses back to its value.
pub proof fn lemma_rt_dec(n: nat, rest: Seq<char>)
    requires
        n <= u128::MAX,
        rest.len() == 0 || !is_digit(rest[0]),
    ensures
        p_dec(dec_rep(n) + rest) == Some((n, rest)),
{
    lemma_dec_rep_digits(n);
    lemma_dec_rep_leading(n);
    lemma_split_digits_exact(dec_rep(n), rest);
    lemma_dec_val_rep(n);
    if n == 0 {
        assert(dec_rep(0).len() == 1);
    }
}

/// Consumes the escaped body of a JSON string up to and including the
/// closing quote, yielding the unescaped text. Only the escapes the
/// renderer emits are accepted, so the reading is canonical.
pub open spec fn p_jstr_body(s: Seq<char>) -> Option<(Seq<char>, Seq<char>)>
    decreases s.len(),
{
    if s.len() == 0 {
        None
    } else if s[0] == '"' {
        Some((Seq::empty(), s.skip(1)))
    } else if s[0] == '\\' {
        if s.len() < 2 {
            None
        } else if s[1] == '"' || s[1] == '\\' {
            match p_jstr_body(s.skip(2)) {
                Some((w, rest)) => Some((seq![s[1]] + w, rest)),
                None => None,
            }
        } else if s[1] == 'u' {
            if s.len() < 6 {
                None
            } else if s[2] == '0' && s[3] == '0' && char_hex(s[4]) < 16 && char_hex(s[5]) < 16
                && char_hex(s[4]) * 16 + char_hex(s[5]) < 0x20 {
                match p_jstr_body(s.skip(6)) {
                    Some((w, rest)) => Some(
                        (seq![(((char_hex(s[4]) * 16 + char_hex(s[5])) as u32) as char)] + w, rest),
                    ),
                    None => None,
                }
            } else {
                None
            }
        } else {
            None
        }
    } else if (s[0] as u32) < 0x20 {
        None
    } else {
        match p_jstr_body(s.skip(1)) {
            Some((w, rest)) => Some((seq![s[0]] + w, rest)),
            None => None,
        }
    }
}

/// Consumes a JSON string literal, yielding the unescaped text.
pub open spec fn p_jstr(s: Seq<char>) -> Option<(Seq<char>, Seq<char>)> {
    if s.len() >= 1 && s[0] == '"' {
        p_jstr_body(s.skip(1))
    } else {
        None
    }
}

/// Hex digits read back to their value.
proof fn lemma_hex_inverse(d: nat)
    requires
        d < 16,
    ensures
        char_hex(hex_char(d)) == d,
{
}

/// An escaped body followed by the closing quote parses back to the
/// original text.
proof fn lemma_rt_jstr_body(w: Seq<char>, rest: Seq<char>)
    ensures
        p_jstr_body(escape_seq(w) + seq!['"'] + rest) == Some((w, rest)),
    decreases w.len(),
{
    let s = escape_seq(w) + seq!['"'] + rest;
    if w.len() == 0 {
        assert(escape_seq(w).len() == 0);
        assert(s[0] == '"');
        assert(s.skip(1) =~= rest);
    } else {
        let c = w[0];
        let tail = escape_seq(w.drop_first()) + seq!['"'] + rest;
        assert(s =~= escape_char(c) + tail);
        lemma_rt_jstr_body(w.drop_first(), rest);
        if c == '"' {
            assert(s[0] == '\\' && s[1] == '"');
            assert(s.skip(2) =~= tail);
            assert(seq![s[1]] + w.drop_first() =~= w);
        } else if c == '\\' {
            assert(s[0] == '\\' && s[1] == '\\');
            assert(s.skip(2) =~= tail);
            assert(seq![s[1]] + w.drop_first() =~= w);
        } else if (c as u32) < 0x20 {
            let v = c as u32;
            assert(s[0] == '\\' && s[1] == 'u' && s[2] == '0' && s[3] == '0');
            assert(s[4] == hex_char((v / 16) as nat));
            assert(s[5] == hex_char((v % 16) as nat));
            lemma_hex_inverse((v / 16) as nat);
            lemma_hex_inverse((v % 16) as nat);
            vstd::arithmetic::div_mod::lemma_fundamental_div_mod(v as int, 16);
            assert(char_hex(s[4]) * 16 + char_hex(s[5]) == v);
            assert(s.skip(6) =~= tail);
            assert(((char_hex(s[4]) * 16 + char_hex(s[5])) as u32) == v);
            vstd::utf8::char_u32_cast(c, v);
            assert((((char_hex(s[4]) * 16 + char_hex(s[5])) as u32) as char) == c);
            assert(seq![c] + w.drop_first() =~= w);
        } else {
            assert(s[0] == c);
            assert(s.skip(1) =~= tail);
            assert(seq![c] + w.drop_first() =~= w);
        }
    }
}

/// A rendered string literal parses back to the original text.
pub proof fn lemma_rt_jstr(w: Seq<char>, rest: Seq<char>)
    ensures
        p_jstr(jstr(w) + rest) == Some((w, rest)),
{
    let s = jstr(w) + rest;
    assert(s[0] == '"');
    assert(s.skip(1) =~= escape_seq(w) + seq!['"'] + rest);
    lemma_rt_jstr_body(w, rest);
}

/// Consumes a duration object at the given indentation.
pub open spec fn p_duration(s: Seq<char>, pad: Seq<char>) -> Option<(DurationRep, Seq<char>)> {
    match p_lit(s, "{\n"@ + pad + "  \"secs\": "@) {
        Some(t1) => match p_dec(t1) {
            Some((secs, t2)) => if secs > u64::MAX as nat {
                None
            } else {
                match p_lit(t2, ",\n"@ + pad + "  \"nanos\": "@) {
                    Some(t3) => match p_dec(t3) {
                        Some((nanos, t4)) => if nanos >= NANOS_PER_SEC as nat {
                            None
                        } else {
                            match p_lit(t4, "\n"@ + pad + "}"@) {
                                Some(t5) => Some(
                                    (DurationRep { secs: secs as u64, nanos: nanos as u32 }, t5),
                                ),
                                None => None,
                            }
                        },
                        None => None,
                    },
                    None => None,
                }
            },
            None => None,
        },
        None => None,
    }
}

/// A rendered duration parses back to the original value.
pub proof fn lemma_rt_duration(d: DurationRep, pad: Seq<char>, rest: Seq<char>)
    requires
        d.wf(),
    ensures
        p_duration(render_duration(d, pad) + rest, pad) == Some((d, rest)),
{
    reveal_strlit(",\n");
    reveal_strlit("\n");
    let l1 = "{\n"@ + pad + "  \"secs\": "@;
    let l2 = ",\n"@ + pad + "  \"nanos\": "@;
    let l3 = "\n"@ + pad + "}"@;
    let a = dec_rep(d.secs as nat);
    let b = dec_rep(d.nanos as nat);
    let s = render_duration(d, pad) + rest;
    let t4 = l3 + rest;
    let t3 = b + t4;
    let t2 = l2 + t3;
    let t1 = a + t2;
    assert(s =~= l1 + t1);
    lemma_rt_lit(l1, t1);
    assert(t2[0] == ',');
    assert(!is_digit(t2[0]));
    lemma_rt_dec(d.secs as nat, t2);
    lemma_rt_lit(l2, t3);
    assert(t4[0] == '\n');
    assert(!is_digit(t4[0]));
    lemma_rt_dec(d.nanos as nat, t4);
    lemma_rt_lit(l3, rest);
}

/// Consumes a payload-size field: `null` or a number.
pub open spec fn p_size(s: Seq<char>) -> Option<(Option<u64>, Seq<char>)> {
    match p_lit(s, "null"@) {
        Some(t) => Some((Option::None, t)),
        None => match p_dec(s) {
            Some((v, t)) => if v > u64::MAX as nat {
                None
            } else {
                Some((Some(v as u64), t))
            },
            None => None,
        },
    }
}

/// A rendered size field parses back to the original value.
pub proof fn lemma_rt_size(v: Option<u64>, rest: Seq<char>)
    requires
        rest.len() > 0,
        !is_digit(rest[0]),
    ensures
        p_size(render_size(v) + rest) == Some((v, rest)),
{
    reveal_strlit("null");
    let s = render_size(v) + rest;
    match v {
        Option::Some(n) => {
            lemma_dec_rep_digits(n as nat);
            assert(s[0] == dec_rep(n as nat)[0]);
            assert(is_digit(s[0]));
            if p_lit(s, "null"@) is Some {
                assert(s.subrange(0, 4)[0] == s[0]);
                assert(s[0] == 'n');
            }
            lemma_rt_dec(n as nat, rest);
        },
        Option::None => {
            lemma_rt_lit("null"@, rest);
        },
    }
}

/// Consumes a payload-flag field: `null`, `true` or `false`.
pub open spec fn p_plug(s: Seq<char>) -> Option<(Option<bool>, Seq<char>)> {
    match p_lit(s, "null"@) {
        Some(t) => Some((Option::None, t)),
        None => match p_lit(s, "true"@) {
            Some(t) => Some((Some(true), t)),
            None => match p_lit(s, "false"@) {
                Some(t) => Some((Some(false), t)),
                None => None,
            },
        },
    }
}

/// A rendered flag field parses back to the original value.
pub proof fn lemma_rt_plug(v: Option<bool>, rest: Seq<char>)
    ensures
        p_plug(render_plug(v) + rest) == Some((v, rest)),
{
    reveal_strlit("null");
    reveal_strlit("true");
    reveal_strlit("false");
    let s = render_plug(v) + rest;
    match v {
        Option::Some(b) => {
            if b {
                assert(s[0] == 't');
                if p_lit(s, "null"@) is Some {
                    assert(s.subrange(0, 4)[0] == s[0]);
                }
                lemma_rt_lit("true"@, rest);
            } else {
                assert(s[0] == 'f');
                if p_lit(s, "null"@) is Some {
                    assert(s.subrange(0, 4)[0] == s[0]);
                }
                if p_lit(s, "true"@) is Some {
                    assert(s.subrange(0, 4)[0] == s[0]);
                }
                lemma_rt_lit("false"@, rest);
            }
        },
        Option::None => {
            lemma_rt_lit("null"@, rest);
        },
    }
}

/// Consumes one event object.
pub open spec fn p_event(s: Seq<char>) -> Option<(EventView, Seq<char>)> {
    match p_lit(s, "{\n        \"timestamp\": "@) {
        Some(t1) => match p_duration(t1, "        "@) {
            Some((ts, t2)) => match p_lit(t2, ",\n        \"event\": "@) {
                Some(t3) => match p_jstr(t3) {
                    Some((name, t4)) => match p_lit(t4, ",\n        \"end_timestamp\": "@) {
                        Some(t5) => match p_dec(t5) {
                            Some((endts, t6)) => match p_lit(t6, ",\n        \"depth\": "@) {
                                Some(t7) => match p_dec(t7) {
                                    Some((depth, t8)) => if depth > u64::MAX as nat {
                                        None
                                    } else {
                                        match p_lit(t8, ",\n        \"size\": "@) {
                                            Some(t9) => match p_size(t9) {
                                                Some((size, t10)) => match p_lit(
                                                    t10,
                                                    ",\n        \"plug\": "@,
                                                ) {
                                                    Some(t11) => match p_plug(t11) {
                                                        Some((plug, t12)) => match p_lit(
                                                            t12,
                                                            "\n      }"@,
                                                        ) {
                                                            Some(t13) => Some(
                                                                (
                                                                EventView {
                                                                    timestamp: ts,
                                                                    event: name,
                                                                    end_timestamp: endts as u128,
                                                                    depth: depth as u64,
                                                                    size,
                                                                    plug,
                                                                },
                                                                t13,
                                                                ),
                                                            ),
                                                            None => None,
                                                        },
                                                        None => None,
                                                    },
                                                    None => None,
                                                },
                                                None => None,
                                            },
                                            None => None,
                                        }
                                    },
                                    None => None,
                                },
                                None => None,
                            },
                            None => None,
                        },
                        None => None,
                    },
                    None => None,
                },
                None => None,
            },
            None => None,
        },
        None => None,
    }
}

/// A rendered event parses back to the original value.
#[verifier::rlimit(100)]
pub proof fn lemma_rt_event(e: EventView, rest: Seq<char>)
    requires
        e.timestamp.wf(),
    ensures
        p_event(render_event(e) + rest) == Some((e, rest)),
{
    reveal_strlit(",\n        \"event\": ");
    reveal_strlit(",\n        \"end_timestamp\": ");
    reveal_strlit(",\n        \"depth\": ");
    reveal_strlit(",\n        \"size\": ");
    reveal_strlit(",\n        \"plug\": ");
    reveal_strlit("\n      }");
    let l1 = "{\n        \"timestamp\": "@;
    let l2 = ",\n        \"event\": "@;
    let l3 = ",\n        \"end_timestamp\": "@;
    let l4 = ",\n        \"depth\": "@;
    let l5 = ",\n        \"size\": "@;
    let l6 = ",\n        \"plug\": "@;
    let l7 = "\n      }"@;
    let s = render_event(e) + rest;
    let t12 = l7 + rest;
    let t11 = render_plug(e.plug) + t12;
    let t10 = l6 + t11;
    let t9 = render_size(e.size) + t10;
    let t8 = l5 + t9;
    let t7 = dec_rep(e.depth as nat) + t8;
    let t6 = l4 + t7;
    let t5 = dec_rep(e.end_timestamp as nat) + t6;
    let t4 = l3 + t5;
    let t3 = jstr(e.event) + t4;
    let t2 = l2 + t3;
    let t1 = render_duration(e.timestamp, "        "@) + t2;
    assert(s =~= l1 + t1);
    lemma_rt_lit(l1, t1);
    lemma_rt_duration(e.timestamp, "        "@, t2);
    lemma_rt_lit(l2, t3);
    lemma_rt_jstr(e.event, t4);
    lemma_rt_lit(l3, t5);
    assert(t6[0] == ',');
    assert(!is_digit(t6[0]));
    lemma_rt_dec(e.end_timestamp as nat, t6);
    lemma_rt_lit(l4, t7);
    assert(t8[0] == ',');
    assert(!is_digit(t8[0]));
    lemma_rt_dec(e.depth as nat, t8);
    lemma_rt_lit(l5, t9);
    assert(t10[0] == ',');
    assert(!is_digit(t10[0]));
    lemma_rt_size(e.size, t10);
    lemma_rt_lit(l6, t11);
    lemma_rt_plug(e.plug, t12);
    lemma_rt_lit(l7, rest);
}

/// The elements of a thread's event array, one object per element.
pub open spec fn p_event_items(s: Seq<char>) -> Option<(Seq<EventView>, Seq<char>)>
    decreases s.len(),
{
    match p_lit(s, "      "@) {
        Some(t0) => match p_event(t0) {
            Some((e, t)) => match p_lit(t, ",\n"@) {
                Some(t2) => if t2.len() < s.len() {
                    match p_event_items(t2) {
                        Some((es, r)) => Some((seq![e] + es, r)),
                        None => None,
                    }
                } else {
                    None
                },
                None => Some((seq![e], t)),
            },
            None => None,
        },
        None => None,
    }
}

/// Every event in the sequence has a well-formed timestamp.
pub open spec fn items_ts_wf(evs: Seq<EventView>) -> bool {
    forall|k: int| 0 <= k < evs.len() ==> (#[trigger] evs[k]).timestamp.wf()
}

/// Rendered array elements parse back to the original events.
pub proof fn lemma_rt_event_items(evs: Seq<EventView>, rest: Seq<char>)
    requires
        evs.len() >= 1,
        items_ts_wf(evs),
        rest.len() > 0,
        rest[0] != ',',
    ensures
        p_event_items(render_event_items(evs) + rest) == Some((evs, rest)),
    decreases evs.len(),
{
    reveal_strlit(",\n");
    let s = render_event_items(evs) + rest;
    let e0 = evs[0];
    if evs.len() == 1 {
        let t1 = render_event(e0) + rest;
        assert(s =~= "      "@ + t1);
        lemma_rt_lit("      "@, t1);
        lemma_rt_event(e0, rest);
        if p_lit(rest, ",\n"@) is Some {
            assert(rest.subrange(0, 2)[0] == rest[0]);
        }
        assert(seq![e0] =~= evs);
    } else {
        let tail = render_event_items(evs.drop_first()) + rest;
        let t3 = ",\n"@ + tail;
        let t2 = render_event(e0) + t3;
        assert(s =~= "      "@ + t2);
        lemma_rt_lit("      "@, t2);
        lemma_rt_event(e0, t3);
        lemma_rt_lit(",\n"@, tail);
        assert(tail.len() < s.len());
        lemma_rt_event_items(evs.drop_first(), rest);
        assert(seq![e0] + evs.drop_first() =~= evs);
    }
}

/// A thread's event array.
pub open spec fn p_events(s: Seq<char>) -> Option<(Seq<EventView>, Seq<char>)> {
    match p_lit(s, "[]"@) {
        Some(t) => Some((Seq::empty(), t)),
        None => match p_lit(s, "[\n"@) {
            Some(t) => match p_event_items(t) {
                Some((es, t2)) => match p_lit(t2, "\n    ]"@) {
                    Some(t3) => Some((es, t3)),
                    None => None,
                },
                None => None,
            },
            None => None,
        },
    }
}

/// A rendered event array parses back to the original events.
pub proof fn lemma_rt_events(evs: Seq<EventView>, rest: Seq<char>)
    requires
        items_ts_wf(evs),
    ensures
        p_events(render_events(evs) + rest) == Some((evs, rest)),
{
    reveal_strlit("[]");
    reveal_strlit("[\n");
    reveal_strlit("\n    ]");
    let s = render_events(evs) + rest;
    if evs.len() == 0 {
        lemma_rt_lit("[]"@, rest);
        assert(Seq::<EventView>::empty() =~= evs);
    } else {
        let close = "\n    ]"@ + rest;
        let t1 = render_event_items(evs) + close;
        assert(s =~= "[\n"@ + t1);
        if p_lit(s, "[]"@) is Some {
            assert(s.subrange(0, 2)[1] == s[1]);
            assert(s[1] == '\n');
        }
        lemma_rt_lit("[\n"@, t1);
        assert(close[0] == '\n');
        lemma_rt_event_items(evs, close);
        lemma_rt_lit("\n    ]"@, rest);
    }
}

/// The members of the per-thread mapping, one per thread.
pub open spec fn p_entry_items(s: Seq<char>) -> Option<
    (Seq<(Seq<char>, Seq<EventView>)>, Seq<char>),
>
    decreases s.len(),
{
    match p_lit(s, "    "@) {
        Some(t0) => match p_jstr(t0) {
            Some((name, t1)) => match p_lit(t1, ": "@) {
                Some(t2) => match p_events(t2) {
                    Some((evs, t3)) => match p_lit(t3, ",\n"@) {
                        Some(t4) => if t4.len() < s.len() {
                            match p_entry_items(t4) {
                                Some((es, r)) => Some((seq![(name, evs)] + es, r)),
                                None => None,
                            }
                        } else {
                            None
                        },
                        None => Some((seq![(name, evs)], t3)),
                    },
                    None => None,
                },
                None => None,
            },
            None => None,
        },
        None => None,
    }
}

/// Every event under every thread has a well-formed timestamp.
pub open spec fn entries_ts_wf(es: Seq<(Seq<char>, Seq<EventView>)>) -> bool {
    forall|i: int| 0 <= i < es.len() ==> items_ts_wf((#[trigger] es[i]).1)
}

/// Rendered mapping members parse back to the original entries.
pub proof fn lemma_rt_entry_items(es: Seq<(Seq<char>, Seq<EventView>)>, rest: Seq<char>)
    requires
        es.len() >= 1,
        entries_ts_wf(es),
        rest.len() > 0,
        rest[0] != ',',
    ensures
        p_entry_items(render_entry_items(es) + rest) == Some((es, rest)),
    decreases es.len(),
{
    reveal_strlit(",\n");
    let s = render_entry_items(es) + rest;
    let name = es[0].0;
    let evs = es[0].1;
    if es.len() == 1 {
        let t2 = render_events(evs) + rest;
        let t1 = ": "@ + t2;
        let t0 = jstr(name) + t1;
        assert(s =~= "    "@ + t0);
        lemma_rt_lit("    "@, t0);
        lemma_rt_jstr(name, t1);
        lemma_rt_lit(": "@, t2);
        lemma_rt_events(evs, rest);
        if p_lit(rest, ",\n"@) is Some {
            assert(rest.subrange(0, 2)[0] == rest[0]);
        }
        assert((name, evs) == es[0]);
        assert(seq![es[0]] =~= es);
    } else {
        let tail = render_entry_items(es.drop_first()) + rest;
        let t3 = ",\n"@ + tail;
        let t2 = render_events(evs) + t3;
        let t1 = ": "@ + t2;
        let t0 = jstr(name) + t1;
        assert(s =~= "    "@ + t0);
        lemma_rt_lit("    "@, t0);
        lemma_rt_jstr(name, t1);
        lemma_rt_lit(": "@, t2);
        lemma_rt_events(evs, t3);
        lemma_rt_lit(",\n"@, tail);
        assert(tail.len() < s.len());
        lemma_rt_entry_items(es.drop_first(), rest);
        assert((name, evs) == es[0]);
        assert(seq![es[0]] + es.drop_first() =~= es);
    }
}

/// The per-thread mapping object.
pub open spec fn p_entries(s: Seq<char>) -> Option<(Seq<(Seq<char>, Seq<EventView>)>, Seq<char>)> {
    match p_lit(s, "{}"@) {
        Some(t) => Some((Seq::empty(), t)),
        None => match p_lit(s, "{\n"@) {
            Some(t) => match p_entry_items(t) {
                Some((es, t2)) => match p_lit(t2, "\n  }"@) {
                    Some(t3) => Some((es, t3)),
                    None => None,
                },
                None => None,
            },
            None => None,
        },
    }
}

/// A rendered mapping parses back to the original entries.
pub proof fn lemma_rt_entries(es: Seq<(Seq<char>, Seq<EventView>)>, rest: Seq<char>)
    requires
        entries_ts_wf(es),
    ensures
        p_entries(render_entries(es) + rest) == Some((es, rest)),
{
    reveal_strlit("{}");
    reveal_strlit("{\n");
    reveal_strlit("\n  }");
    let s = render_entries(es) + rest;
    if es.len() == 0 {
        lemma_rt_lit("{}"@, rest);
        assert(Seq::<(Seq<char>, Seq<EventView>)>::empty() =~= es);
    } else {
        let close = "\n  }"@ + rest;
        let t1 = render_entry_items(es) + close;
        assert(s =~= "{\n"@ + t1);
        if p_lit(s, "{}"@) is Some {
            assert(s.subrange(0, 2)[1] == s[1]);
            assert(s[1] == '\n');
        }
        lemma_rt_lit("{\n"@, t1);
        assert(close[0] == '\n');
        lemma_rt_entry_items(es, close);
        lemma_rt_lit("\n  }"@, rest);
    }
}

/// Reads a whole report document: the total duration and the
/// per-thread events. Only a complete, canonically rendered document is
/// accepted.
pub open spec fn parse_report(s: Seq<char>) -> Option<
    (DurationRep, Seq<(Seq<char>, Seq<EventView>)>),
> {
    match p_lit(s, "{\n  \"duration\": "@) {
        Some(t1) => match p_duration(t1, "  "@) {
            Some((d, t2)) => match p_lit(t2, ",\n  \"events\": "@) {
                Some(t3) => match p_entries(t3) {
                    Some((es, t4)) => match p_lit(t4, "\n}"@) {
                        Some(t5) => if t5.len() == 0 {
                            Some((d, es))
                        } else {
                            None
                        },
                        None => None,
                    },
                    None => None,
                },
                None => None,
            },
            None => None,
        },
        None => None,
    }
}

/// The round trip: a rendered report document parses back to the very
/// duration and per-thread events it was rendered from.
pub proof fn lemma_rt_report(d: DurationRep, es: Seq<(Seq<char>, Seq<EventView>)>)
    requires
        d.wf(),
        crate::store::store_all_wf(es),
    ensures
        parse_report(render_report(d, es)) == Some((d, es)),
{
    let s = render_report(d, es);
    let l1 = "{\n  \"duration\": "@;
    let l2 = ",\n  \"events\": "@;
    let l3 = "\n}"@;
    let empty = Seq::<char>::empty();
    let t4 = l3 + empty;
    let t3 = render_entries(es) + t4;
    let t2 = l2 + t3;
    let t1 = render_duration(d, "  "@) + t2;
    assert(s =~= l1 + t1);
    lemma_rt_lit(l1, t1);
    lemma_rt_duration(d, "  "@, t2);
    lemma_rt_lit(l2, t3);
    assert forall|i: int| 0 <= i < es.len() implies items_ts_wf((#[trigger] es[i]).1) by {
        assert forall|k: int| 0 <= k < es[i].1.len() implies (#[trigger] es[i].1[k]).timestamp.wf()
            by {
            assert(crate::event::event_wf(es[i].1[k]));
        }
    }
    lemma_rt_entries(es, t4);
    lemma_rt_lit(l3, empty);
}

} // verus!

