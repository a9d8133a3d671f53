//! Helpers for command line programs: splitting key-value pairs.
use vstd::prelude::*;

pub use crate::cliutil::parse_key_val;

verus! {

/// The keys of key-value pairs, in order.
pub open spec fn keys_of(kv: Seq<(String, String)>) -> Seq<Seq<char>> {
    kv.map_values(|p: (String, String)| p.0@)
}

/// The values of key-value pairs, in order.
pub open spec fn values_of(kv: Seq<(String, String)>) -> Seq<Seq<char>> {
    kv.map_values(|p: (String, String)| p.1@)
}

/// Split key-value pairs into their keys and their values.
pub fn split_key_values(input: &Vec<(String, String)>) -> (r: (Vec<String>, Vec<String>))
    ensures
        r.0@.map_values(|s: String| s@) == keys_of(input@),
        r.1@.map_values(|s: String| s@) == values_of(input@),
{
    let mut keys: Vec<String> = Vec::new();
    let mut values: Vec<String> = Vec::new();
    let mut i: usize = 0;
    while i < input.len()
        invariant
            i <= input.len(),
            keys@.map_values(|s: String| s@) == keys_of(input@).take(i as int),
            values@.map_values(|s: String| s@) == values_of(input@).take(i as int),
        decreases input.len() - i,
    {
        let ghost k0 = keys@;
        let ghost v0 = values@;
        keys.push(input[i].0.clone());
        values.push(input[i].1.clone());
        assert(keys@.map_values(|s: String| s@) =~= k0.map_values(|s: String| s@).push(input@[i as int].0@));
        assert(values@.map_values(|s: String| s@) =~= v0.map_values(|s: String| s@).push(input@[i as int].1@));
        assert(keys_of(input@).take(i + 1) =~= keys_of(input@).take(i as int).push(input@[i as int].0@));
        assert(values_of(input@).take(i + 1) =~= values_of(input@).take(i as int).push(input@[i as int].1@));
        i = i + 1;
    }
    assert(keys_of(input@).take(input.len() as int) =~= keys_of(input@));
    assert(values_of(input@).take(input.len() as int) =~= values_of(input@));
    (keys, values)
}

} // verus!
