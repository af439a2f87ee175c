//! The `[vars]` section of a configuration file: named values that other
//! fields use as `"${name}"`.

use vstd::prelude::*;
use crate::text::{
    strings_view, lines_of, lines, trim, trim_chars, vecs_view, from_chars, sub_vec, chars_eq,
    push_char, to_chars, append_str, first_index, first_char, replace_all, replace_all_exec,
};
use crate::config::toml_value::{TomlValue, inline_spec, value_to_toml_inline};

verus! {

pub open spec fn vars_header() -> Seq<char> {
    seq!['[', 'v', 'a', 'r', 's', ']']
}

/// The trimmed line is the `[vars]` header.
pub open spec fn is_vars_header(line: Seq<char>) -> bool {
    trim(line) == vars_header()
}

/// The trimmed line starts a section.
pub open spec fn starts_section(line: Seq<char>) -> bool {
    trim(line).len() > 0 && trim(line)[0] == '['
}

/// A line is part of the `[vars]` section's body, given whether the lines
/// before it left the reader inside that section.
pub open spec fn in_body(inside: bool, line: Seq<char>) -> bool {
    !is_vars_header(line) && inside && !starts_section(line)
}

/// Whether the reader is inside the `[vars]` section after the lines.
pub open spec fn inside_after(lines: Seq<Seq<char>>) -> bool
    decreases lines.len(),
{
    if lines.len() == 0 {
        false
    } else {
        let inside = inside_after(lines.drop_last());
        if is_vars_header(lines.last()) {
            true
        } else if inside && starts_section(lines.last()) {
            false
        } else {
            inside
        }
    }
}

/// The lines outside the `[vars]` section (its header and body removed),
/// each followed by a newline.
pub open spec fn without_vars(lines: Seq<Seq<char>>) -> Seq<char>
    decreases lines.len(),
{
    if lines.len() == 0 {
        Seq::empty()
    } else {
        let prev = without_vars(lines.drop_last());
        let line = lines.last();
        if is_vars_header(line) || in_body(inside_after(lines.drop_last()), line) {
            prev
        } else {
            prev + line + seq!['\n']
        }
    }
}

/// The lines outside the `[vars]` section, in order.
pub open spec fn kept_lines(lines: Seq<Seq<char>>) -> Seq<Seq<char>>
    decreases lines.len(),
{
    if lines.len() == 0 {
        Seq::empty()
    } else {
        let prev = kept_lines(lines.drop_last());
        let line = lines.last();
        if is_vars_header(line) || in_body(inside_after(lines.drop_last()), line) {
            prev
        } else {
            prev.push(line)
        }
    }
}

/// Each line followed by a newline.
pub open spec fn newline_terminated(lines: Seq<Seq<char>>) -> Seq<char>
    decreases lines.len(),
{
    if lines.len() == 0 {
        Seq::empty()
    } else {
        newline_terminated(lines.drop_last()) + lines.last() + seq!['\n']
    }
}

/// Removing the `[vars]` section leaves the other lines, in order, each
/// followed by a newline; none of them is a `[vars]` header, and every line
/// outside the section's header and body is among them.
pub proof fn lemma_without_vars_lines(lines: Seq<Seq<char>>)
    ensures
        without_vars(lines) == newline_terminated(kept_lines(lines)),
        forall|k: int| 0 <= k < kept_lines(lines).len() ==> !is_vars_header(#[trigger] kept_lines(lines)[k]),
        kept_lines(lines).len() + vars_section_len(lines) == lines.len(),
    decreases lines.len(),
{
    if lines.len() > 0 {
        lemma_without_vars_lines(lines.drop_last());
        let prev = kept_lines(lines.drop_last());
        let now = kept_lines(lines);
        if now.len() > prev.len() {
            assert(now.drop_last() == prev);
        }
        assert forall|k: int| 0 <= k < now.len() implies !is_vars_header(#[trigger] now[k]) by {
            if k < prev.len() {
                assert(now[k] == prev[k]);
            }
        }
    }
}

/// How many lines the `[vars]` section takes: its header and body lines.
pub open spec fn vars_section_len(lines: Seq<Seq<char>>) -> nat
    decreases lines.len(),
{
    if lines.len() == 0 {
        0
    } else {
        let prev = vars_section_len(lines.drop_last());
        let line = lines.last();
        if is_vars_header(line) || in_body(inside_after(lines.drop_last()), line) {
            prev + 1
        } else {
            prev
        }
    }
}

/// The lines of the `[vars]` section's body, each followed by a newline.
pub open spec fn vars_body(lines: Seq<Seq<char>>) -> Seq<char>
    decreases lines.len(),
{
    if lines.len() == 0 {
        Seq::empty()
    } else {
        let prev = vars_body(lines.drop_last());
        let line = lines.last();
        if in_body(inside_after(lines.drop_last()), line) {
            prev + line + seq!['\n']
        } else {
            prev
        }
    }
}

/// Some line is the `[vars]` header.
pub open spec fn has_vars_section(lines: Seq<Seq<char>>) -> bool {
    exists|i: int| 0 <= i < lines.len() && is_vars_header(#[trigger] lines[i])
}

/// The variable a trimmed body line defines: the trimmed text before its
/// first `=`, unless the line is blank or a `#` comment, has no `=`, or
/// the name is empty.
pub open spec fn var_name(tr: Seq<char>) -> Option<Seq<char>> {
    if tr.len() == 0 || tr[0] == '#' {
        None
    } else {
        match first_index(tr, '=') {
            None => None,
            Some(i) => if trim(tr.take(i)).len() > 0 {
                Some(trim(tr.take(i)))
            } else {
                None
            },
        }
    }
}

/// The names the `[vars]` section's body defines, in order.
pub open spec fn var_names(lines: Seq<Seq<char>>) -> Seq<Seq<char>>
    decreases lines.len(),
{
    if lines.len() == 0 {
        Seq::empty()
    } else {
        let prev = var_names(lines.drop_last());
        let line = lines.last();
        if in_body(inside_after(lines.drop_last()), line) {
            match var_name(trim(line)) {
                Some(n) => prev.push(n),
                None => prev,
            }
        } else {
            prev
        }
    }
}

fn is_vars_header_exec(tr: &Vec<char>) -> (r: bool)
    ensures
        r == (tr@ == vars_header()),
{
    let h: Vec<char> = vec!['[', 'v', 'a', 'r', 's', ']'];
    assert(h@ == vars_header());
    chars_eq(tr.as_slice(), h.as_slice())
}

/// The facts about one line: its trimmed form, whether it is the `[vars]`
/// header, and whether it starts a section.
fn classify_line(line: &Vec<char>) -> (r: (Vec<char>, bool, bool))
    ensures
        r.0@ == trim(line@),
        r.1 == is_vars_header(line@),
        r.2 == starts_section(line@),
{
    let tr = trim_chars(line.as_slice());
    let header = is_vars_header_exec(&tr);
    let section = tr.len() > 0 && tr[0] == '[';
    (tr, header, section)
}

/// Removes the `[vars]` section (its header and the lines up to the next
/// section header) from a configuration text; the other lines are kept,
/// each followed by a newline.
pub fn remove_vars_section(content: &str) -> (r: String)
    ensures
        r@ == without_vars(lines_of(content@)),
{
    let ls = lines(content);
    let ghost lv = vecs_view(ls@);
    let mut out = String::new();
    let mut inside = false;
    let mut i: usize = 0;
    assert(lv.take(0).len() == 0);
    while i < ls.len()
        invariant
            i <= ls@.len(),
            lv == vecs_view(ls@),
            inside == inside_after(lv.take(i as int)),
            out@ == without_vars(lv.take(i as int)),
        decreases ls@.len() - i,
    {
        proof {
            assert(lv.take(i + 1).drop_last() == lv.take(i as int));
            assert(lv.take(i + 1).last() == ls@[i as int]@);
        }
        let (_tr, header, section) = classify_line(&ls[i]);
        let body = !header && inside && !section;
        if !header && !body {
            let line = &ls[i];
            let mut k: usize = 0;
            let ghost o0 = out@;
            while k < line.len()
                invariant
                    k <= line@.len(),
                    out@ == o0 + line@.take(k as int),
                decreases line@.len() - k,
            {
                push_char(&mut out, line[k]);
                assert(line@.take(k + 1) == line@.take(k as int).push(line@[k as int]));
                k = k + 1;
            }
            assert(line@.take(line@.len() as int) == line@);
            push_char(&mut out, '\n');
        }
        if header {
            inside = true;
        } else if inside && section {
            inside = false;
        }
        i = i + 1;
    }
    assert(lv.take(ls@.len() as int) == lv);
    out
}

/// Lists the variable names the `[vars]` section defines, in order; blank
/// lines and `#` comments are skipped.
pub fn extract_var_names(content: &str) -> (r: Vec<String>)
    ensures
        strings_view(r@) == var_names(lines_of(content@)),
{
    let ls = lines(content);
    let ghost lv = vecs_view(ls@);
    let mut names: Vec<String> = Vec::new();
    let mut inside = false;
    let mut i: usize = 0;
    assert(lv.take(0).len() == 0);
    while i < ls.len()
        invariant
            i <= ls@.len(),
            lv == vecs_view(ls@),
            inside == inside_after(lv.take(i as int)),
            strings_view(names@) == var_names(lv.take(i as int)),
        decreases ls@.len() - i,
    {
        proof {
            assert(lv.take(i + 1).drop_last() == lv.take(i as int));
            assert(lv.take(i + 1).last() == ls@[i as int]@);
        }
        let (tr, header, section) = classify_line(&ls[i]);
        let body = !header && inside && !section;
        if body && tr.len() > 0 && tr[0] != '#' {
            match first_char(&tr, '=') {
                Some(eq) => {
                    let before = sub_vec(tr.as_slice(), 0, eq);
                    let name = trim_chars(before.as_slice());
                    assert(before@ == tr@.take(eq as int));
                    if name.len() > 0 {
                        let ghost old_n = strings_view(names@);
                        names.push(from_chars(name.as_slice()));
                        assert(strings_view(names@) == old_n.push(trim(tr@.take(eq as int))));
                    }
                },
                None => {},
            }
        }
        if header {
            inside = true;
        } else if inside && section {
            inside = false;
        }
        i = i + 1;
    }
    assert(lv.take(ls@.len() as int) == lv);
    names
}


#[verifier::external_type_specification]
#[verifier::external_body]
pub struct ExTomlValue(toml::Value);

/// What `toml` parses a text into as a table: its entries in key order, or
/// the text of the parse error.
pub uninterp spec fn toml_table_of(text: Seq<char>) -> Result<Seq<(Seq<char>, TomlValue)>, Seq<char>>;

pub open spec fn entries_view(v: Seq<(String, TomlValue)>) -> Seq<(Seq<char>, TomlValue)> {
    v.map_values(|e: (String, TomlValue)| (e.0@, e.1))
}

/// Converts a parsed TOML value into plain data, variant by variant; a
/// float or date-time becomes the text it displays as.
///
/// Trusted: a conversion of `toml::Value` with no contract; only
/// `parse_toml_table` uses it, and its named result covers the conversion.
#[verifier::external_body]
fn toml_value_plain(v: toml::Value) -> TomlValue {
    match v {
        toml::Value::String(s) => TomlValue::String(s),
        toml::Value::Integer(i) => TomlValue::Integer(i),
        toml::Value::Float(f) => TomlValue::Float(f.to_string()),
        toml::Value::Boolean(b) => TomlValue::Boolean(b),
        toml::Value::Datetime(d) => TomlValue::Datetime(d.to_string()),
        toml::Value::Array(a) => TomlValue::Array(a.into_iter().map(toml_value_plain).collect()),
        toml::Value::Table(t) => TomlValue::Table(t.into_iter().map(|(k, x)| (k, toml_value_plain(x))).collect()),
    }
}

/// Parses a text as a TOML table.
///
/// Trusted: calls `toml::from_str::<toml::Table>`; claims only that the
/// result (entries in the table's key order, values converted to plain
/// data, or the error's text) is a function of the text, named `toml_table_of`.
#[verifier::external_body]
fn parse_toml_table(text: &str) -> (r: Result<Vec<(String, TomlValue)>, String>)
    ensures
        toml_table_of(text@) == match r {
            Ok(v) => Ok(entries_view(v@)),
            Err(e) => Err(e@),
        },
{
    match toml::from_str::<toml::Table>(text) {
        Ok(t) => Ok(t.into_iter().map(|(k, v)| (k, toml_value_plain(v))).collect()),
        Err(e) => Err(e.to_string()),
    }
}

/// The quoted reference to a variable: `"${name}"`.
pub open spec fn reference(name: Seq<char>) -> Seq<char> {
    seq!['"', '$', '{'] + name + seq!['}', '"']
}

/// The text with each variable's quoted references replaced by its value's
/// inline text, variable by variable in order.
pub open spec fn substitute_all(t: Seq<char>, vars: Seq<(Seq<char>, TomlValue)>) -> Seq<char>
    decreases vars.len(),
{
    if vars.len() == 0 {
        t
    } else {
        let v = vars.last();
        replace_all(substitute_all(t, vars.drop_last()), reference(v.0), inline_spec(v.1))
    }
}

/// The first `}` at or after `p`.
pub open spec fn close_brace(t: Seq<char>, p: int) -> Option<int>
    decreases t.len() - p,
{
    if p < 0 || p >= t.len() {
        None
    } else if t[p] == '}' {
        Some(p)
    } else {
        close_brace(t, p + 1)
    }
}

pub proof fn lemma_close_brace(t: Seq<char>, p: int)
    ensures
        close_brace(t, p) matches Some(c) ==> p <= c < t.len() && t[c] == '}',
    decreases t.len() - p,
{
    if !(p < 0 || p >= t.len()) && t[p] != '}' {
        lemma_close_brace(t, p + 1);
    }
}

/// The name of the first `${name}` reference at or after `pos` whose name is
/// not among `names`.
pub open spec fn first_undefined(t: Seq<char>, names: Seq<Seq<char>>, pos: int) -> Option<Seq<char>>
    decreases t.len() - pos,
{
    if pos < 0 || pos + 1 >= t.len() {
        None
    } else if t[pos] == '$' && t[pos + 1] == '{' {
        match close_brace(t, pos + 2) {
            None => first_undefined(t, names, pos + 2),
            Some(c) => {
                proof {
                    lemma_close_brace(t, pos + 2);
                }
                let name = t.subrange(pos + 2, c);
                if !names.contains(name) {
                    Some(name)
                } else {
                    first_undefined(t, names, c + 1)
                }
            },
        }
    } else {
        first_undefined(t, names, pos + 1)
    }
}

pub open spec fn undefined_message(name: Seq<char>) -> Seq<char> {
    "Undefined variable: ${"@ + name + "}"@
}

pub open spec fn parse_error_message(e: Seq<char>) -> Seq<char> {
    "Failed to substitute variables: invalid [vars] section: "@ + e
}

/// The text with the references substituted, or the first undefined reference as an error.
pub open spec fn finish_spec(t: Seq<char>, vars: Seq<(Seq<char>, TomlValue)>) -> Result<Seq<char>, Seq<char>> {
    let done = substitute_all(t, vars);
    match first_undefined(done, vars.map_values(|v: (Seq<char>, TomlValue)| v.0), 0) {
        Some(n) => Err(undefined_message(n)),
        None => Ok(done),
    }
}

/// What `substitute_variables` gives for a configuration text.
pub open spec fn substitute_spec(content: Seq<char>) -> Result<Seq<char>, Seq<char>> {
    let ls = lines_of(content);
    if has_vars_section(ls) {
        match toml_table_of(vars_body(ls)) {
            Err(e) => Err(parse_error_message(e)),
            Ok(vars) => finish_spec(without_vars(ls), vars),
        }
    } else {
        finish_spec(content, Seq::empty())
    }
}

fn reference_exec(name: &str) -> (r: Vec<char>)
    ensures
        r@ == reference(name@),
{
    let n = to_chars(name);
    let mut r: Vec<char> = vec!['"', '$', '{'];
    let mut k: usize = 0;
    while k < n.len()
        invariant
            k <= n@.len(),
            r@ == seq!['"', '$', '{'] + n@.take(k as int),
        decreases n@.len() - k,
    {
        r.push(n[k]);
        assert(n@.take(k + 1) == n@.take(k as int).push(n@[k as int]));
        k = k + 1;
    }
    assert(n@.take(n@.len() as int) == n@);
    r.push('}');
    r.push('"');
    assert(r@ == seq!['"', '$', '{'] + n@ + seq!['}', '"']);
    r
}

fn names_contain(vars: &Vec<(String, TomlValue)>, name: &[char]) -> (r: bool)
    ensures
        r == entries_view(vars@).map_values(|v: (Seq<char>, TomlValue)| v.0).contains(name@),
{
    let ghost names = entries_view(vars@).map_values(|v: (Seq<char>, TomlValue)| v.0);
    let mut k: usize = 0;
    while k < vars.len()
        invariant
            k <= vars@.len(),
            names == entries_view(vars@).map_values(|v: (Seq<char>, TomlValue)| v.0),
            forall|j: int| 0 <= j < k ==> names[j] != name@,
        decreases vars@.len() - k,
    {
        let c = to_chars(vars[k].0.as_str());
        assert(names[k as int] == vars@[k as int].0@);
        if chars_eq(c.as_slice(), name) {
            return true;
        }
        k = k + 1;
    }
    false
}

/// The first undefined `${name}` reference, as `first_undefined(t, names, 0)`.
fn find_undefined(t: &Vec<char>, vars: &Vec<(String, TomlValue)>) -> (r: Option<Vec<char>>)
    ensures
        match r {
            Some(n) => first_undefined(t@, entries_view(vars@).map_values(|v: (Seq<char>, TomlValue)| v.0), 0) == Some(n@),
            None => first_undefined(t@, entries_view(vars@).map_values(|v: (Seq<char>, TomlValue)| v.0), 0) is None,
        },
{
    let ghost names = entries_view(vars@).map_values(|v: (Seq<char>, TomlValue)| v.0);
    let n = t.len();
    let mut pos: usize = 0;
    while pos < n && n - pos > 1
        invariant
            n == t@.len(),
            pos <= n,
            names == entries_view(vars@).map_values(|v: (Seq<char>, TomlValue)| v.0),
            first_undefined(t@, names, 0) == first_undefined(t@, names, pos as int),
        decreases n - pos,
    {
        if t[pos] == '$' && t[pos + 1] == '{' {
            let mut c = pos + 2;
            while c < n && t[c] != '}'
                invariant
                    pos + 2 <= c <= n,
                    n == t@.len(),
                    close_brace(t@, c as int) == close_brace(t@, pos + 2),
                decreases n - c,
            {
                c = c + 1;
            }
            if c >= n {
                pos = pos + 2;
            } else {
                let name = sub_vec(t.as_slice(), pos + 2, c);
                if !names_contain(vars, name.as_slice()) {
                    return Some(name);
                }
                pos = c + 1;
            }
        } else {
            pos = pos + 1;
        }
    }
    None
}

/// Whether one of the lines is the `[vars]` header.
fn has_vars(ls: &Vec<Vec<char>>) -> (r: bool)
    ensures
        r == has_vars_section(vecs_view(ls@)),
{
    let mut i: usize = 0;
    while i < ls.len()
        invariant
            i <= ls@.len(),
            forall|j: int| 0 <= j < i ==> !is_vars_header(#[trigger] vecs_view(ls@)[j]),
        decreases ls@.len() - i,
    {
        let (_tr, header, _section) = classify_line(&ls[i]);
        assert(vecs_view(ls@)[i as int] == ls@[i as int]@);
        if header {
            return true;
        }
        i = i + 1;
    }
    false
}

/// The `[vars]` section's body lines, each followed by a newline.
fn vars_body_exec(ls: &Vec<Vec<char>>) -> (r: String)
    ensures
        r@ == vars_body(vecs_view(ls@)),
{
    let ghost lv = vecs_view(ls@);
    let mut out = String::new();
    let mut inside = false;
    let mut i: usize = 0;
    assert(lv.take(0).len() == 0);
    while i < ls.len()
        invariant
            i <= ls@.len(),
            lv == vecs_view(ls@),
            inside == inside_after(lv.take(i as int)),
            out@ == vars_body(lv.take(i as int)),
        decreases ls@.len() - i,
    {
        proof {
            assert(lv.take(i + 1).drop_last() == lv.take(i as int));
            assert(lv.take(i + 1).last() == ls@[i as int]@);
        }
        let (_tr, header, section) = classify_line(&ls[i]);
        let body = !header && inside && !section;
        if body {
            let line = &ls[i];
            let mut k: usize = 0;
            let ghost o0 = out@;
            while k < line.len()
                invariant
                    k <= line@.len(),
                    out@ == o0 + line@.take(k as int),
                decreases line@.len() - k,
            {
                push_char(&mut out, line[k]);
                assert(line@.take(k + 1) == line@.take(k as int).push(line@[k as int]));
                k = k + 1;
            }
            assert(line@.take(line@.len() as int) == line@);
            push_char(&mut out, '\n');
        }
        if header {
            inside = true;
        } else if inside && section {
            inside = false;
        }
        i = i + 1;
    }
    assert(lv.take(ls@.len() as int) == lv);
    out
}

/// Substitutes the variables into the text, then looks for an undefined reference.
fn finish(text: Vec<char>, vars: &Vec<(String, TomlValue)>) -> (r: Result<String, String>)
    ensures
        match r {
            Ok(s) => finish_spec(text@, entries_view(vars@)) == Ok::<Seq<char>, Seq<char>>(s@),
            Err(e) => finish_spec(text@, entries_view(vars@)) == Err::<Seq<char>, Seq<char>>(e@),
        },
{
    let ghost ev = entries_view(vars@);
    let mut t = text;
    let ghost t0 = t@;
    let mut i: usize = 0;
    assert(ev.take(0).len() == 0);
    while i < vars.len()
        invariant
            i <= vars@.len(),
            ev == entries_view(vars@),
            t@ == substitute_all(t0, ev.take(i as int)),
        decreases vars@.len() - i,
    {
        proof {
            assert(ev.take(i + 1).drop_last() == ev.take(i as int));
            assert(ev.take(i + 1).last() == (vars@[i as int].0@, vars@[i as int].1));
        }
        let pat = reference_exec(vars[i].0.as_str());
        let rep_s = value_to_toml_inline(&vars[i].1);
        let rep = to_chars(rep_s.as_str());
        t = replace_all_exec(&t, &pat, &rep);
        i = i + 1;
    }
    assert(ev.take(vars@.len() as int) == ev);
    match find_undefined(&t, vars) {
        Some(name) => {
            let mut m = String::new();
            append_str(&mut m, "Undefined variable: ${");
            let ns = from_chars(name.as_slice());
            append_str(&mut m, ns.as_str());
            append_str(&mut m, "}");
            Err(m)
        },
        None => Ok(from_chars(t.as_slice())),
    }
}

/// Substitutes the `[vars]` section into a configuration text: the section
/// is removed, and each quoted reference `"${name}"` is replaced by the
/// variable's value written inline (so arrays, integers and booleans keep
/// their type). A reference `${name}` to a name the section does not
/// define is an error, as is a `[vars]` section that is not valid TOML.
/// A text without a `[vars]` section is returned unchanged unless it holds
/// such a reference.
pub fn substitute_variables(content: &str) -> (r: Result<String, String>)
    ensures
        match r {
            Ok(s) => substitute_spec(content@) == Ok::<Seq<char>, Seq<char>>(s@),
            Err(e) => substitute_spec(content@) == Err::<Seq<char>, Seq<char>>(e@),
        },
{
    let ls = lines(content);
    if has_vars(&ls) {
        let body = vars_body_exec(&ls);
        match parse_toml_table(body.as_str()) {
            Err(e) => {
                let mut m = String::new();
                append_str(&mut m, "Failed to substitute variables: invalid [vars] section: ");
                append_str(&mut m, e.as_str());
                Err(m)
            },
            Ok(vars) => {
                let removed = remove_vars_section(content);
                let t = to_chars(removed.as_str());
                finish(t, &vars)
            },
        }
    } else {
        let t = to_chars(content);
        let vars: Vec<(String, TomlValue)> = Vec::new();
        assert(entries_view(vars@) == Seq::<(Seq<char>, TomlValue)>::empty());
        finish(t, &vars)
    }
}

} // verus!
