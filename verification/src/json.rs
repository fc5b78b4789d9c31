//! The library's model of a JSON value.
//!
//! Import maps arrive as JSON; the library works on this plain enum so the
//! parsing rules can be verified.  The boundary code converts a crate's own
//! JSON type into this one.  Object member order is preserved, as the
//! import-map rules depend on it only through diagnostics.

use vstd::prelude::*;

verus! {

use crate::strutil::push_char;
use vstd::string::*;

pub enum JsonValue {
    Null,
    Bool(bool),
    /// The number's literal JSON text; the library never computes with it.
    Number(String),
    Str(String),
    Array(Vec<JsonValue>),
    Object(Vec<(String, JsonValue)>),
}

pub open spec fn hex_digit(n: int) -> char {
    seq!['0', '1', '2', '3', '4', '5', '6', '7', '8', '9', 'a', 'b', 'c', 'd', 'e', 'f'][n]
}

/// How one character of a JSON string is written inside quotes.
pub open spec fn spec_escape_char(c: char) -> Seq<char> {
    if c == '"' {
        seq!['\\', '"']
    } else if c == '\\' {
        seq!['\\', '\\']
    } else if c == '\u{8}' {
        seq!['\\', 'b']
    } else if c == '\u{c}' {
        seq!['\\', 'f']
    } else if c == '\n' {
        seq!['\\', 'n']
    } else if c == '\r' {
        seq!['\\', 'r']
    } else if c == '\t' {
        seq!['\\', 't']
    } else if (c as u32) < 0x20 {
        seq!['\\', 'u', '0', '0', hex_digit((c as u32) as int / 16), hex_digit(
            (c as u32) as int % 16,
        )]
    } else {
        seq![c]
    }
}

pub open spec fn spec_escape(s: Seq<char>) -> Seq<char>
    decreases s.len(),
{
    if s.len() == 0 {
        Seq::empty()
    } else {
        spec_escape_char(s[0]) + spec_escape(s.subrange(1, s.len() as int))
    }
}

/// A JSON string literal: the escaped text between double quotes.
pub open spec fn spec_quote(s: Seq<char>) -> Seq<char> {
    seq!['"'] + spec_escape(s) + seq!['"']
}

/// Compact JSON text of a value, mirroring the usual `to_string` form:
/// no whitespace, members joined with `,`, keys and values with `:`.
pub open spec fn spec_json(v: JsonValue) -> Seq<char>
    decreases v,
{
    match v {
        JsonValue::Null => seq!['n', 'u', 'l', 'l'],
        JsonValue::Bool(b) => if b {
            seq!['t', 'r', 'u', 'e']
        } else {
            seq!['f', 'a', 'l', 's', 'e']
        },
        JsonValue::Number(t) => t@,
        JsonValue::Str(s) => spec_quote(s@),
        JsonValue::Array(items) => seq!['['] + spec_json_items(items@) + seq![']'],
        JsonValue::Object(members) => seq!['{'] + spec_json_members(members@) + seq!['}'],
    }
}

pub open spec fn spec_json_items(items: Seq<JsonValue>) -> Seq<char>
    decreases items,
{
    if items.len() == 0 {
        Seq::empty()
    } else if items.len() == 1 {
        spec_json(items[0])
    } else {
        spec_json(items[0]) + seq![','] + spec_json_items(items.subrange(1, items.len() as int))
    }
}

pub open spec fn spec_json_members(members: Seq<(String, JsonValue)>) -> Seq<char>
    decreases members,
{
    if members.len() == 0 {
        Seq::empty()
    } else if members.len() == 1 {
        spec_quote(members[0].0@) + seq![':'] + spec_json(members[0].1)
    } else {
        spec_quote(members[0].0@) + seq![':'] + spec_json(members[0].1) + seq![',']
            + spec_json_members(members.subrange(1, members.len() as int))
    }
}

fn push_escaped(out: &mut String, s: &str)
    ensures
        final(out)@ == old(out)@ + spec_escape(s@),
{
    let n = s.unicode_len();
    let mut i: usize = 0;
    while i < n
        invariant
            0 <= i <= n,
            n == s@.len(),
            out@ == old(out)@ + spec_escape(s@.subrange(0, i as int)),
        decreases n - i,
    {
        let ghost done = s@.subrange(0, i as int);
        let c = s.get_char(i);
        if c == '"' {
            push_char(out, '\\');
            push_char(out, '"');
        } else if c == '\\' {
            push_char(out, '\\');
            push_char(out, '\\');
        } else if c == '\u{8}' {
            push_char(out, '\\');
            push_char(out, 'b');
        } else if c == '\u{c}' {
            push_char(out, '\\');
            push_char(out, 'f');
        } else if c == '\n' {
            push_char(out, '\\');
            push_char(out, 'n');
        } else if c == '\r' {
            push_char(out, '\\');
            push_char(out, 'r');
        } else if c == '\t' {
            push_char(out, '\\');
            push_char(out, 't');
        } else if (c as u32) < 0x20 {
            let code: u32 = c as u32;
            let hexchars: [char; 16] = [
                '0',
                '1',
                '2',
                '3',
                '4',
                '5',
                '6',
                '7',
                '8',
                '9',
                'a',
                'b',
                'c',
                'd',
                'e',
                'f',
            ];
            push_char(out, '\\');
            push_char(out, 'u');
            push_char(out, '0');
            push_char(out, '0');
            push_char(out, hexchars[(code / 16) as usize]);
            push_char(out, hexchars[(code % 16) as usize]);
            proof {
                assert(hexchars@[(code / 16) as int] == hex_digit((c as u32) as int / 16));
                assert(hexchars@[(code % 16) as int] == hex_digit((c as u32) as int % 16));
            }
        } else {
            push_char(out, c);
        }
        proof {
            assert(s@.subrange(0, i + 1) =~= done.push(s@[i as int]));
            lemma_escape_push(done, s@[i as int]);
        }
        i = i + 1;
    }
    proof {
        assert(s@.subrange(0, n as int) =~= s@);
    }
}

proof fn lemma_escape_push(s: Seq<char>, c: char)
    ensures
        spec_escape(s.push(c)) == spec_escape(s) + spec_escape_char(c),
    decreases s.len(),
{
    let s2 = s.push(c);
    if s.len() == 0 {
        assert(s2.len() == 1);
        assert(s2[0] == c);
        let tail = s2.subrange(1, 1);
        assert(tail =~= Seq::<char>::empty());
        assert(spec_escape(tail) == Seq::<char>::empty()) by {
            assert(tail.len() == 0);
        }
        assert(spec_escape(s2) =~= spec_escape_char(c));
        assert(spec_escape(s) + spec_escape_char(c) =~= spec_escape_char(c));
    } else {
        lemma_escape_push(s.subrange(1, s.len() as int), c);
        assert(s2.subrange(1, s2.len() as int) =~= s.subrange(1, s.len() as int).push(c));
        assert(spec_escape(s) + spec_escape_char(c) =~= spec_escape_char(s[0]) + (spec_escape(
            s.subrange(1, s.len() as int),
        ) + spec_escape_char(c)));
    }
}

fn push_quoted(out: &mut String, s: &str)
    ensures
        final(out)@ == old(out)@ + spec_quote(s@),
{
    push_char(out, '"');
    push_escaped(out, s);
    push_char(out, '"');
    proof {
        assert(old(out)@ + spec_quote(s@) =~= ((old(out)@ + seq!['"']) + spec_escape(s@)).push(
            '"',
        ));
    }
}

/// Compact JSON text of `v`; what the recorded diagnostics quote when an
/// import-map entry holds a non-string value.
pub fn json_to_string(v: &JsonValue) -> (r: String)
    ensures
        r@ == spec_json(*v),
{
    let mut out = String::new();
    push_json(&mut out, v);
    out
}

#[verifier::loop_isolation(false)]
#[verifier::rlimit(60)]
fn push_json(out: &mut String, v: &JsonValue)
    ensures
        final(out)@ == old(out)@ + spec_json(*v),
    decreases *v,
{
    match v {
        JsonValue::Null => {
            out.append("null");
            proof {
                reveal_strlit("null");
                assert("null"@ =~= seq!['n', 'u', 'l', 'l']);
            }
        }
        JsonValue::Bool(b) => {
            if *b {
                out.append("true");
                proof {
                    reveal_strlit("true");
                    assert("true"@ =~= seq!['t', 'r', 'u', 'e']);
                }
            } else {
                out.append("false");
                proof {
                    reveal_strlit("false");
                    assert("false"@ =~= seq!['f', 'a', 'l', 's', 'e']);
                }
            }
        }
        JsonValue::Number(t) => {
            out.append(t.as_str());
        }
        JsonValue::Str(s) => {
            push_quoted(out, s.as_str());
        }
        JsonValue::Array(items) => {
            push_char(out, '[');
            let n = items.len();
            let mut i: usize = 0;
            while i < n
                invariant
                    0 <= i <= n,
                    n == items@.len(),
                    out@ == old(out)@ + seq!['['] + spec_json_items(items@.subrange(0, i as int))
                        + if 0 < i < n {
                        seq![',']
                    } else {
                        Seq::<char>::empty()
                    },
                decreases n - i,
            {
                let ghost done = items@.subrange(0, i as int);
                proof {
                    assert(decreases_to!(*v => (*v)->Array_0));
                    assert((*v)->Array_0 == *items);
                    assert(decreases_to!(*items => items@[i as int]));
                    assert(decreases_to!(*v => items@[i as int]));
                }
                push_json(out, &items[i]);
                proof {
                    assert(items@.subrange(0, i + 1) =~= done.push(items@[i as int]));
                    lemma_json_items_push(done, items@[i as int]);
                }
                i = i + 1;
                if i < n {
                    push_char(out, ',');
                }
            }
            push_char(out, ']');
            proof {
                assert(items@.subrange(0, n as int) =~= items@);
                assert(old(out)@ + spec_json(*v) =~= ((old(out)@ + seq!['[']) + spec_json_items(
                    items@,
                )).push(']'));
            }
        }
        JsonValue::Object(members) => {
            push_char(out, '{');
            let n = members.len();
            let mut i: usize = 0;
            while i < n
                invariant
                    0 <= i <= n,
                    n == members@.len(),
                    out@ == old(out)@ + seq!['{'] + spec_json_members(
                        members@.subrange(0, i as int),
                    ) + if 0 < i < n {
                        seq![',']
                    } else {
                        Seq::<char>::empty()
                    },
                decreases n - i,
            {
                let ghost done = members@.subrange(0, i as int);
                push_quoted(out, members[i].0.as_str());
                push_char(out, ':');
                proof {
                    assert(decreases_to!(*v => (*v)->Object_0));
                    assert((*v)->Object_0 == *members);
                    assert(decreases_to!(*members => members@[i as int]));
                    assert(decreases_to!(members@[i as int] => members@[i as int].1));
                    assert(decreases_to!(*v => members@[i as int].1));
                }
                push_json(out, &members[i].1);
                proof {
                    assert(members@.subrange(0, i + 1) =~= done.push(members@[i as int]));
                    lemma_json_members_push(done, members@[i as int]);
                    assert(out@ =~= old(out)@ + seq!['{'] + spec_json_members(
                        members@.subrange(0, i + 1),
                    ));
                }
                i = i + 1;
                if i < n {
                    push_char(out, ',');
                }
            }
            push_char(out, '}');
            proof {
                assert(members@.subrange(0, n as int) =~= members@);
                assert(old(out)@ + spec_json(*v) =~= ((old(out)@ + seq!['{']) + spec_json_members(
                    members@,
                )).push('}'));
            }
        }
    }
}

proof fn lemma_json_items_push(items: Seq<JsonValue>, x: JsonValue)
    ensures
        spec_json_items(items.push(x)) == if items.len() == 0 {
            spec_json(x)
        } else {
            spec_json_items(items) + seq![','] + spec_json(x)
        },
    decreases items.len(),
{
    let s2 = items.push(x);
    if items.len() == 0 {
        assert(s2.len() == 1);
        assert(s2[0] == x);
    } else {
        let tail = items.subrange(1, items.len() as int);
        lemma_json_items_push(tail, x);
        assert(s2.subrange(1, s2.len() as int) =~= tail.push(x));
        if items.len() == 1 {
            assert(tail.len() == 0);
            assert(spec_json_items(s2) == spec_json(s2[0]) + seq![','] + spec_json_items(
                s2.subrange(1, s2.len() as int),
            ));
        } else {
            assert(spec_json_items(items) + seq![','] + spec_json(x) =~= spec_json(items[0])
                + seq![','] + (spec_json_items(tail) + seq![','] + spec_json(x)));
        }
    }
}

proof fn lemma_json_members_push(members: Seq<(String, JsonValue)>, x: (String, JsonValue))
    ensures
        spec_json_members(members.push(x)) == if members.len() == 0 {
            spec_quote(x.0@) + seq![':'] + spec_json(x.1)
        } else {
            spec_json_members(members) + seq![','] + (spec_quote(x.0@) + seq![':'] + spec_json(
                x.1,
            ))
        },
    decreases members.len(),
{
    let s2 = members.push(x);
    if members.len() == 0 {
        assert(s2.len() == 1);
        assert(s2[0] == x);
    } else {
        let tail = members.subrange(1, members.len() as int);
        lemma_json_members_push(tail, x);
        assert(s2.subrange(1, s2.len() as int) =~= tail.push(x));
        if members.len() == 1 {
            assert(tail.len() == 0);
        } else {
            assert(spec_json_members(members) + seq![','] + (spec_quote(x.0@) + seq![':']
                + spec_json(x.1)) =~= spec_quote(members[0].0@) + seq![':'] + spec_json(
                members[0].1,
            ) + seq![','] + (spec_json_members(tail) + seq![','] + (spec_quote(x.0@) + seq![':']
                + spec_json(x.1))));
        }
    }
}

} // verus!
