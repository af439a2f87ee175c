//! TOML values as plain data, and their inline rendering.

use vstd::prelude::*;
use crate::text::{push_char, append_str, append_decimal_u64, decimal, to_chars};

verus! {

/// A TOML value. A float or a date-time is held as the text it displays as.
pub enum TomlValue {
    String(String),
    Integer(i64),
    Float(String),
    Boolean(bool),
    Datetime(String),
    Array(Vec<TomlValue>),
    Table(Vec<(String, TomlValue)>),
}

/// The text of a string escaped for a TOML basic string: backslashes and
/// double quotes get a backslash.
pub open spec fn escape_basic(s: Seq<char>) -> Seq<char>
    decreases s.len(),
{
    if s.len() == 0 {
        Seq::empty()
    } else {
        let c = s.last();
        escape_basic(s.drop_last()) + if c == '\\' || c == '"' {
            seq!['\\', c]
        } else {
            seq![c]
        }
    }
}

/// The decimal text of an integer, with a minus sign when negative.
pub open spec fn int_text(i: int) -> Seq<char> {
    if i < 0 {
        seq!['-'] + decimal((-i) as nat)
    } else {
        decimal(i as nat)
    }
}

/// The inline TOML text of a value: strings quoted and escaped, arrays as
/// `[a, b]`, tables as `{ k = v, ... }`.
pub open spec fn inline_spec(v: TomlValue) -> Seq<char>
    decreases v, 1int, 0int,
{
    match v {
        TomlValue::String(s) => seq!['"'] + escape_basic(s@) + seq!['"'],
        TomlValue::Integer(i) => int_text(i as int),
        TomlValue::Float(f) => f@,
        TomlValue::Boolean(b) => if b {
            seq!['t', 'r', 'u', 'e']
        } else {
            seq!['f', 'a', 'l', 's', 'e']
        },
        TomlValue::Datetime(d) => d@,
        TomlValue::Array(items) => seq!['['] + items_inline(v, items@.len() as int) + seq![']'],
        TomlValue::Table(entries) => seq!['{', ' '] + entries_inline(v, entries@.len() as int)
            + seq![' ', '}'],
    }
}

/// The first `n` elements of an array value, rendered and joined with ", ".
pub open spec fn items_inline(v: TomlValue, n: int) -> Seq<char>
    decreases v, 0int, n,
{
    match v {
        TomlValue::Array(items) => if n <= 0 || n > items@.len() {
            Seq::empty()
        } else if n == 1 {
            proof {
                assert(decreases_to!(v => items));
                assert(decreases_to!(items => items@));
                assert(decreases_to!(items@ => items@[0]));
            }
            inline_spec(items@[0])
        } else {
            proof {
                assert(decreases_to!(v => items));
                assert(decreases_to!(items => items@));
                assert(decreases_to!(items@ => items@[n - 1]));
            }
            items_inline(v, n - 1) + seq![',', ' '] + inline_spec(items@[n - 1])
        },
        _ => Seq::empty(),
    }
}

/// The first `n` entries of a table value, rendered as `k = v` and joined with ", ".
pub open spec fn entries_inline(v: TomlValue, n: int) -> Seq<char>
    decreases v, 0int, n,
{
    match v {
        TomlValue::Table(entries) => if n <= 0 || n > entries@.len() {
            Seq::empty()
        } else {
            proof {
                assert(decreases_to!(v => entries));
                assert(decreases_to!(entries => entries@));
                assert(decreases_to!(entries@ => entries@[n - 1]));
                assert(decreases_to!(entries@[n - 1] => entries@[n - 1].1));
            }
            let e = entries@[n - 1];
            let here = e.0@ + seq![' ', '=', ' '] + inline_spec(e.1);
            if n == 1 {
                here
            } else {
                entries_inline(v, n - 1) + seq![',', ' '] + here
            }
        },
        _ => Seq::empty(),
    }
}

fn append_escaped(out: &mut String, s: &str)
    ensures
        final(out)@ == old(out)@ + escape_basic(s@),
{
    let c = to_chars(s);
    let ghost o0 = out@;
    let mut i: usize = 0;
    assert(c@.take(0).len() == 0);
    while i < c.len()
        invariant
            i <= c@.len(),
            c@ == s@,
            out@ == o0 + escape_basic(c@.take(i as int)),
        decreases c@.len() - i,
    {
        proof {
            assert(c@.take(i + 1).drop_last() == c@.take(i as int));
            assert(c@.take(i + 1).last() == c@[i as int]);
        }
        let ch = c[i];
        if ch == '\\' || ch == '"' {
            push_char(out, '\\');
        }
        push_char(out, ch);
        i = i + 1;
    }
    assert(c@.take(c@.len() as int) == c@);
}

fn append_int(out: &mut String, i: i64)
    ensures
        final(out)@ == old(out)@ + int_text(i as int),
{
    if i < 0 {
        push_char(out, '-');
        let n: u64 = if i == i64::MIN {
            9223372036854775808u64
        } else {
            (-i) as u64
        };
        append_decimal_u64(out, n);
    } else {
        append_decimal_u64(out, i as u64);
    }
}

fn append_chars_of(out: &mut String, s: &str)
    ensures
        final(out)@ == old(out)@ + s@,
{
    append_str(out, s);
}

/// Appends the inline TOML text of a value.
pub fn append_inline(out: &mut String, v: &TomlValue)
    ensures
        final(out)@ == old(out)@ + inline_spec(*v),
    decreases *v, 1int, 0int,
{
    match v {
        TomlValue::String(s) => {
            push_char(out, '"');
            append_escaped(out, s.as_str());
            push_char(out, '"');
        },
        TomlValue::Integer(i) => {
            append_int(out, *i);
        },
        TomlValue::Float(f) => {
            append_chars_of(out, f.as_str());
        },
        TomlValue::Boolean(b) => {
            if *b {
                push_char(out, 't');
                push_char(out, 'r');
                push_char(out, 'u');
                push_char(out, 'e');
            } else {
                push_char(out, 'f');
                push_char(out, 'a');
                push_char(out, 'l');
                push_char(out, 's');
                push_char(out, 'e');
            }
        },
        TomlValue::Datetime(d) => {
            append_chars_of(out, d.as_str());
        },
        TomlValue::Array(items) => {
            push_char(out, '[');
            append_items(out, v, items.len());
            push_char(out, ']');
        },
        TomlValue::Table(entries) => {
            push_char(out, '{');
            push_char(out, ' ');
            append_entries(out, v, entries.len());
            push_char(out, ' ');
            push_char(out, '}');
        },
    }
}

fn append_items(out: &mut String, v: &TomlValue, n: usize)
    requires
        v is Array,
        n <= v->Array_0@.len(),
    ensures
        final(out)@ == old(out)@ + items_inline(*v, n as int),
    decreases *v, 0int, n,
{
    match v {
        TomlValue::Array(items) => {
            if n == 0 {
            } else if n == 1 {
                proof {
                    assert(decreases_to!(*v => items));
                    assert(decreases_to!(items => items@));
                    assert(decreases_to!(items@ => items@[0]));
                }
                append_inline(out, &items[0]);
            } else {
                append_items(out, v, n - 1);
                push_char(out, ',');
                push_char(out, ' ');
                proof {
                    assert(decreases_to!(*v => items));
                    assert(decreases_to!(items => items@));
                    assert(decreases_to!(items@ => items@[n - 1]));
                }
                append_inline(out, &items[n - 1]);
            }
        },
        _ => {},
    }
}

fn append_entries(out: &mut String, v: &TomlValue, n: usize)
    requires
        v is Table,
        n <= v->Table_0@.len(),
    ensures
        final(out)@ == old(out)@ + entries_inline(*v, n as int),
    decreases *v, 0int, n,
{
    match v {
        TomlValue::Table(entries) => {
            if n == 0 {
            } else {
                if n > 1 {
                    append_entries(out, v, n - 1);
                    push_char(out, ',');
                    push_char(out, ' ');
                }
                let e = &entries[n - 1];
                append_str(out, e.0.as_str());
                push_char(out, ' ');
                push_char(out, '=');
                push_char(out, ' ');
                proof {
                    assert(decreases_to!(*v => entries));
                    assert(decreases_to!(entries => entries@));
                    assert(decreases_to!(entries@ => entries@[n - 1]));
                    assert(decreases_to!(entries@[n - 1] => entries@[n - 1].1));
                }
                append_inline(out, &e.1);
            }
        },
        _ => {},
    }
}

/// The inline TOML text of a value, as it is written in place of a
/// `"${name}"` reference: strings quoted with `\` and `"` escaped,
/// integers and booleans as written, arrays as `[a, b]`, tables as
/// `{ k = v }`.
pub fn value_to_toml_inline(v: &TomlValue) -> (r: String)
    ensures
        r@ == inline_spec(*v),
{
    let mut out = String::new();
    append_inline(&mut out, v);
    out
}

} // verus!
