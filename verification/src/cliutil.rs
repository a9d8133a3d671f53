//! A set of utility functions to implement command line programs for the
//! expression language.
use vstd::prelude::*;
use crate::cli::{keys_of, split_key_values, values_of};
use crate::text::{chars_of, owned, push_str, string_from_chars};

verus! {

/// Unzip a vector of key-value pairs into separate vectors for keys and values.
///
/// This can be used to accept key-value pairs from command line arguments,
/// feeding the keys and the values to the compile time and runtime
/// environments respectively.
pub fn unzip_key_values(keys_values: Vec<(String, String)>) -> (r: (Vec<String>, Vec<String>))
    ensures
        r.0@.map_values(|s: String| s@) == keys_of(keys_values@),
        r.1@.map_values(|s: String| s@) == values_of(keys_values@),
{
    split_key_values(&keys_values)
}

/// The first position of `c` in `s`, or -1.
pub open spec fn first_index_of(s: Seq<char>, c: char) -> int
    decreases s.len(),
{
    if s.len() == 0 {
        -1
    } else if first_index_of(s.drop_last(), c) >= 0 {
        first_index_of(s.drop_last(), c)
    } else if s.last() == c {
        s.len() - 1
    } else {
        -1
    }
}

/// A key-value pair: the text before the first `=` and the text after it;
/// without an `=`, the message saying how the pair is written.
pub open spec fn key_val_of(value: Seq<char>) -> Result<(Seq<char>, Seq<char>), Seq<char>> {
    let i = first_index_of(value, '=');
    if i >= 0 {
        Ok((value.take(i), value.skip(i + 1)))
    } else {
        Err("should be formatted as key=value pair: `"@ + value + "`"@)
    }
}

/// Parse a single key-value pair string, such as a command line argument `key=value`.
pub fn parse_key_val(value: &str) -> (r: Result<(String, String), String>)
    ensures
        match key_val_of(value@) {
            Ok((k, v)) => r matches Ok((rk, rv)) && rk@ == k && rv@ == v,
            Err(m) => r matches Err(rm) && rm@ == m,
        },
{
    let cs = chars_of(value);
    let mut i: usize = 0;
    while i < cs.len() && cs[i] != '='
        invariant
            i <= cs.len(),
            cs@ == value@,
            forall|k: int| 0 <= k < i ==> cs@[k] != '=',
        decreases cs.len() - i,
    {
        i = i + 1;
    }
    proof {
        lemma_first_index_of(cs@, '=', i as int);
    }
    if i < cs.len() {
        let key = string_from_chars(&cs, 0, i);
        let val = string_from_chars(&cs, i + 1, cs.len());
        assert(cs@.subrange(0, i as int) =~= cs@.take(i as int));
        assert(cs@.subrange(i + 1, cs@.len() as int) =~= cs@.skip(i + 1));
        Ok((key, val))
    } else {
        let mut m = owned("should be formatted as key=value pair: `");
        push_str(&mut m, value);
        push_str(&mut m, "`");
        Err(m)
    }
}

/// `first_index_of` is the first match, or -1 where there is none.
proof fn lemma_first_index_of(s: Seq<char>, c: char, i: int)
    requires
        0 <= i <= s.len(),
        forall|k: int| 0 <= k < i ==> s[k] != c,
        i < s.len() ==> s[i] == c,
    ensures
        first_index_of(s, c) == if i < s.len() { i } else { -1 },
    decreases s.len(),
{
    if s.len() > 0 {
        if i < s.len() - 1 {
            lemma_first_index_of(s.drop_last(), c, i);
        } else {
            lemma_first_index_of(s.drop_last(), c, s.len() - 1);
        }
    }
}

} // verus!
