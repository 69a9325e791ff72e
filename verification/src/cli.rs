//! Argument parsing for the command-line client.
use vstd::prelude::*;

use crate::text::{chars_of, is_first, push_str, split_once, split_once_chars, string_of};

verus! {

/// The message for an option that is not `key=value`.
pub open spec fn kv_error_text(s: Seq<char>) -> Seq<char> {
    "expected key=value, got `"@ + s + "`"@
}

/// Parse a `key=value` option: the text before the first `=` is the key and
/// must not be empty, the rest is the value (which may itself hold `=`).
pub fn parse_kv(s: &str) -> (r: Result<(String, String), String>)
    ensures
        match split_once(s@, '=') {
            Some((k, v)) if k.len() > 0 => r matches Ok((rk, rv)) && rk@ == k && rv@ == v,
            _ => r matches Err(m) && m@ == kv_error_text(s@),
        },
{
    let c = chars_of(s);
    match split_once_chars(&c, '=') {
        Some((k, v)) => {
            if k.len() > 0 {
                return Ok((string_of(k.as_slice()), string_of(v.as_slice())));
            }
        },
        None => {},
    }
    let mut m = String::new();
    push_str(&mut m, "expected key=value, got `");
    push_str(&mut m, s);
    push_str(&mut m, "`");
    Err(m)
}

/// An option written as a non-empty key without `=`, then `=`, then any
/// value, is read back as that key and value.
pub proof fn law_parse_kv_reads_back(k: Seq<char>, v: Seq<char>)
    requires
        k.len() > 0,
        !k.contains('='),
    ensures
        split_once(k + seq!['='] + v, '=') == Some((k, v)),
{
    let s = k + seq!['='] + v;
    let i = k.len() as int;
    assert(s[i] == '=');
    assert forall|j: int| 0 <= j < i implies s[j] != '=' by {
        assert(s[j] == k[j]);
    }
    assert(is_first(s, '=', i));
    let w = choose|w: int| is_first(s, '=', w);
    assert(w == i) by {
        if w < i {
            assert(s[w] != '=');
        } else if w > i {
            assert(s[i] != '=');
        }
    }
    assert(s.take(i) =~= k);
    assert(s.skip(i + 1) =~= v);
}

} // verus!
