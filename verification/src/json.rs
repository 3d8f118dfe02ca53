//! JSON framing: verified string escaping and encoding for the bodies
//! the gateway emits, and canonicalisation of the bodies it accepts.
//!
//! The auth envelope is framed here, byte for byte, by verified code.
//! An inbound webhook payload is checked and re-serialised through
//! serde_json behind a trusted wrapper: what subscribers receive is the
//! canonical serialisation of the payload, named [`json_canon_of`].

use vstd::prelude::*;

verus! {

/// The lower-case hex digit for `n` (0 to 15).
pub open spec fn hex_digit(n: u32) -> char {
    if n == 0 {
        '0'
    } else if n == 1 {
        '1'
    } else if n == 2 {
        '2'
    } else if n == 3 {
        '3'
    } else if n == 4 {
        '4'
    } else if n == 5 {
        '5'
    } else if n == 6 {
        '6'
    } else if n == 7 {
        '7'
    } else if n == 8 {
        '8'
    } else if n == 9 {
        '9'
    } else if n == 10 {
        'a'
    } else if n == 11 {
        'b'
    } else if n == 12 {
        'c'
    } else if n == 13 {
        'd'
    } else if n == 14 {
        'e'
    } else {
        'f'
    }
}

/// How one character appears inside a JSON string literal: quote and
/// backslash are escaped, control characters use their short escapes or
/// the `\u00XX` form, and everything else stands for itself.
pub open spec fn escaped_char(c: char) -> Seq<char> {
    if c == '"' {
        seq!['\\', '"']
    } else if c == '\\' {
        seq!['\\', '\\']
    } else if c == '\u{8}' {
        seq!['\\', 'b']
    } else if c == '\u{9}' {
        seq!['\\', 't']
    } else if c == '\u{A}' {
        seq!['\\', 'n']
    } else if c == '\u{C}' {
        seq!['\\', 'f']
    } else if c == '\u{D}' {
        seq!['\\', 'r']
    } else if (c as u32) < 0x20 {
        seq!['\\', 'u', '0', '0', hex_digit((c as u32) / 16), hex_digit((c as u32) % 16)]
    } else {
        seq![c]
    }
}

/// The body of a JSON string literal for `s`.
pub open spec fn escaped(s: Seq<char>) -> Seq<char>
    decreases s.len(),
{
    if s.len() == 0 {
        Seq::empty()
    } else {
        escaped(s.drop_last()) + escaped_char(s.last())
    }
}

/// The JSON string literal for `s`, quotes included.
pub open spec fn quoted(s: Seq<char>) -> Seq<char> {
    seq!['"'] + escaped(s) + seq!['"']
}

/// The members of a JSON object holding `pairs` in order, commas
/// between them, braces not included.
pub open spec fn object_members(pairs: Seq<(Seq<char>, Seq<char>)>) -> Seq<char>
    decreases pairs.len(),
{
    if pairs.len() == 0 {
        Seq::empty()
    } else if pairs.len() == 1 {
        quoted(pairs[0].0) + seq![':'] + quoted(pairs[0].1)
    } else {
        object_members(pairs.drop_last()) + seq![','] + quoted(pairs.last().0) + seq![':']
            + quoted(pairs.last().1)
    }
}

/// A JSON object of string members, braces included.
pub open spec fn string_object(pairs: Seq<(Seq<char>, Seq<char>)>) -> Seq<char> {
    seq!['{'] + object_members(pairs) + seq!['}']
}

/// Append the lower-case hex digit for `n` (0 to 15).
fn push_hex_digit(out: &mut String, n: u32)
    requires
        n < 16,
    ensures
        final(out)@ == old(out)@ + seq![hex_digit(n)],
{
    let d: &str = match n {
        0 => "0",
        1 => "1",
        2 => "2",
        3 => "3",
        4 => "4",
        5 => "5",
        6 => "6",
        7 => "7",
        8 => "8",
        9 => "9",
        10 => "a",
        11 => "b",
        12 => "c",
        13 => "d",
        14 => "e",
        _ => "f",
    };
    proof {
        reveal_strlit("0");
        reveal_strlit("1");
        reveal_strlit("2");
        reveal_strlit("3");
        reveal_strlit("4");
        reveal_strlit("5");
        reveal_strlit("6");
        reveal_strlit("7");
        reveal_strlit("8");
        reveal_strlit("9");
        reveal_strlit("a");
        reveal_strlit("b");
        reveal_strlit("c");
        reveal_strlit("d");
        reveal_strlit("e");
        reveal_strlit("f");
        assert(d@ == seq![hex_digit(n)]);
    }
    out.append(d);
}

/// Append `s` escaped as the body of a JSON string literal.
fn push_escaped(out: &mut String, s: &str)
    ensures
        final(out)@ == old(out)@ + escaped(s@),
{
    let n = s.unicode_len();
    let mut i: usize = 0;
    proof {
        assert(s@.take(0) =~= Seq::<char>::empty());
        assert(out@ + escaped(s@.take(0)) =~= out@);
    }
    while i < n
        invariant
            n == s@.len(),
            i <= n,
            out@ == old(out)@ + escaped(s@.take(i as int)),
        decreases n - i,
    {
        let c = s.get_char(i);
        let code = c as u32;
        if c == '"' {
            proof {
                reveal_strlit("\\\"");
            }
            out.append("\\\"");
        } else if c == '\\' {
            proof {
                reveal_strlit("\\\\");
            }
            out.append("\\\\");
        } else if code == 0x8 {
            proof {
                reveal_strlit("\\b");
            }
            out.append("\\b");
        } else if code == 0x9 {
            proof {
                reveal_strlit("\\t");
            }
            out.append("\\t");
        } else if code == 0xA {
            proof {
                reveal_strlit("\\n");
            }
            out.append("\\n");
        } else if code == 0xC {
            proof {
                reveal_strlit("\\f");
            }
            out.append("\\f");
        } else if code == 0xD {
            proof {
                reveal_strlit("\\r");
            }
            out.append("\\r");
        } else if code < 0x20 {
            proof {
                reveal_strlit("\\u00");
            }
            out.append("\\u00");
            push_hex_digit(out, code / 16);
            push_hex_digit(out, code % 16);
        } else {
            let piece = s.substring_char(i, i + 1);
            out.append(piece);
            proof {
                assert(piece@ =~= seq![s@[i as int]]);
            }
        }
        proof {
            assert(s@.take(i + 1).drop_last() =~= s@.take(i as int));
            assert(s@.take(i + 1).last() == s@[i as int]);
            assert(escaped(s@.take(i + 1)) == escaped(s@.take(i as int)) + escaped_char(
                s@[i as int],
            ));
            assert(out@ =~= old(out)@ + escaped(s@.take(i + 1)));
        }
        i = i + 1;
    }
    proof {
        assert(s@.take(n as int) =~= s@);
    }
}

/// Append the JSON string literal for `s`, quotes included.
pub fn push_quoted(out: &mut String, s: &str)
    ensures
        final(out)@ == old(out)@ + quoted(s@),
{
    proof {
        reveal_strlit("\"");
    }
    out.append("\"");
    push_escaped(out, s);
    out.append("\"");
    proof {
        assert(out@ =~= old(out)@ + quoted(s@));
    }
}

/// Encode a JSON object whose members are the given string pairs, in
/// order.
pub fn encode_string_object(pairs: &Vec<(String, String)>) -> (r: String)
    ensures
        r@ == string_object(pairs.deep_view()),
{
    let mut out = String::new();
    proof {
        reveal_strlit("{");
        reveal_strlit("}");
        reveal_strlit(",");
        reveal_strlit(":");
    }
    out.append("{");
    let n = pairs.len();
    let mut i: usize = 0;
    proof {
        assert(pairs.deep_view().take(0) =~= Seq::<(Seq<char>, Seq<char>)>::empty());
        assert(out@ =~= seq!['{'] + object_members(pairs.deep_view().take(0)));
    }
    while i < n
        invariant
            n == pairs@.len(),
            pairs.deep_view().len() == n,
            i <= n,
            out@ == seq!['{'] + object_members(pairs.deep_view().take(i as int)),
        decreases n - i,
    {
        if i > 0 {
            proof {
                reveal_strlit(",");
            }
            out.append(",");
        }
        let pair = &pairs[i];
        push_quoted(&mut out, pair.0.as_str());
        proof {
            reveal_strlit(":");
        }
        out.append(":");
        push_quoted(&mut out, pair.1.as_str());
        proof {
            let dv = pairs.deep_view();
            assert(dv.take(i + 1).drop_last() =~= dv.take(i as int));
            assert(dv.take(i + 1).last() == dv[i as int]);
            assert(dv[i as int] == (pair.0@, pair.1@));
            if i == 0 {
                assert(out@ =~= seq!['{'] + object_members(dv.take(1)));
            } else {
                assert(object_members(dv.take(i + 1)) == object_members(dv.take(i as int))
                    + seq![','] + quoted(dv[i as int].0) + seq![':'] + quoted(dv[i as int].1));
                assert(out@ =~= seq!['{'] + object_members(dv.take(i + 1)));
            }
        }
        i = i + 1;
    }
    out.append("}");
    proof {
        assert(pairs.deep_view().take(n as int) =~= pairs.deep_view());
        assert(out@ =~= string_object(pairs.deep_view()));
    }
    out
}

/// The canonical serialisation of `s` read as JSON: what serde_json
/// prints back after parsing it, if it parses at all.
pub uninterp spec fn json_canon_of(s: Seq<char>) -> Option<Seq<char>>;

/// Relies on `serde_json::from_str::<serde_json::Value>` and
/// `serde_json::to_string`: parsing text as JSON and printing the value
/// back is a function of the text alone, and it fails exactly when the
/// text is not valid JSON.
#[verifier::external_body]
pub fn canonicalize_json(body: &str) -> (r: Option<String>)
    ensures
        r is Some <==> json_canon_of(body@) is Some,
        r matches Some(s) ==> json_canon_of(body@) == Some(s@),
{
    match serde_json::from_str::<serde_json::Value>(body) {
        Ok(v) => Some(serde_json::to_string(&v).unwrap_or_default()),
        Err(_) => None,
    }
}

} // verus!
