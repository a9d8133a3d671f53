//! Text helpers: building strings, joining, and formatting numbers.
use vstd::prelude::*;
use vstd::utf8::{
    char_is_scalar, decode_utf8, encode_scalar, encode_utf8, encode_utf8_decode_utf8,
    encode_utf8_valid_utf8, has_width_1_encoding, has_width_2_encoding, has_width_3_encoding,
    is_char_boundary, is_char_boundary_iff_not_is_continuation_byte,
    is_char_boundary_start_end_of_seq, is_continuation_byte, valid_utf8, valid_utf8_split,
};

verus! {

/// Joins `parts` with `sep` between consecutive parts.
pub open spec fn join_sep(parts: Seq<Seq<char>>, sep: Seq<char>) -> Seq<char>
    decreases parts.len(),
{
    if parts.len() == 0 {
        Seq::empty()
    } else if parts.len() == 1 {
        parts[0]
    } else {
        join_sep(parts.drop_last(), sep) + sep + parts.last()
    }
}

/// The views of a sequence of strings.
pub open spec fn string_views(v: Seq<String>) -> Seq<Seq<char>> {
    v.map_values(|s: String| s@)
}

/// Appends `c` to `s` (`String::push`).
#[verifier::external_body]
pub(crate) fn push_char(s: &mut String, c: char)
    ensures
        final(s)@ == old(s)@.push(c),
{
    s.push(c)
}

/// Appends the text of `t` to `s`.
pub fn push_str(s: &mut String, t: &str)
    ensures
        final(s)@ == old(s)@ + t@,
{
    s.append(t)
}

/// An owned copy of `s`.
pub fn owned(s: &str) -> (r: String)
    ensures
        r@ == s@,
{
    String::from_str(s)
}

/// Joins `parts` with `sep`.
pub fn join_strings(parts: &Vec<String>, sep: &str) -> (r: String)
    ensures
        r@ == join_sep(string_views(parts@), sep@),
{
    let mut r = String::new();
    let ghost views = string_views(parts@);
    let mut i: usize = 0;
    while i < parts.len()
        invariant
            i <= parts.len(),
            views == string_views(parts@),
            r@ == join_sep(views.take(i as int), sep@),
        decreases parts.len() - i,
    {
        assert(views.take(i + 1).drop_last() =~= views.take(i as int));
        if i == 0 {
            push_str(&mut r, parts[i].as_str());
            assert(views.take(1) =~= seq![views[0]]);
        } else {
            push_str(&mut r, sep);
            push_str(&mut r, parts[i].as_str());
        }
        i = i + 1;
    }
    assert(views.take(parts.len() as int) =~= views);
    r
}

/// The characters of `s`, in order.
pub fn chars_of(s: &str) -> (r: Vec<char>)
    ensures
        r@ == s@,
{
    let mut r: Vec<char> = Vec::new();
    for c in it: s.chars()
        invariant
            r@ == it.seq().take(it.index() as int),
            it.seq() == s@,
    {
        r.push(c);
    }
    r
}

/// A string made of `cs[lo..hi]`.
pub fn string_from_chars(cs: &Vec<char>, lo: usize, hi: usize) -> (r: String)
    requires
        lo <= hi <= cs.len(),
    ensures
        r@ == cs@.subrange(lo as int, hi as int),
{
    let mut r = String::new();
    let mut i = lo;
    while i < hi
        invariant
            lo <= i <= hi <= cs.len(),
            r@ == cs@.subrange(lo as int, i as int),
        decreases hi - i,
    {
        push_char(&mut r, cs[i]);
        assert(cs@.subrange(lo as int, i + 1) =~= cs@.subrange(lo as int, i as int).push(cs@[i as int]));
        i = i + 1;
    }
    r
}

/// The decimal digits of `n`.
pub open spec fn decimal(n: nat) -> Seq<char>
    decreases n,
{
    if n < 10 {
        seq![digit_char(n)]
    } else {
        decimal(n / 10).push(digit_char(n % 10))
    }
}

/// The decimal digit character of `d`.
pub open spec fn digit_char(d: nat) -> char {
    if d == 0 { '0' }
    else if d == 1 { '1' }
    else if d == 2 { '2' }
    else if d == 3 { '3' }
    else if d == 4 { '4' }
    else if d == 5 { '5' }
    else if d == 6 { '6' }
    else if d == 7 { '7' }
    else if d == 8 { '8' }
    else { '9' }
}

/// `n` copies of `c`.
pub open spec fn repeat_char(c: char, n: nat) -> Seq<char>
    decreases n,
{
    if n == 0 { Seq::empty() } else { repeat_char(c, (n - 1) as nat).push(c) }
}

/// `s` padded on the right with spaces to at least `width` characters.
pub open spec fn pad_right(s: Seq<char>, width: nat) -> Seq<char> {
    if s.len() >= width { s } else { s + repeat_char(' ', (width - s.len()) as nat) }
}

/// `s` padded on the left with `c` to at least `width` characters.
pub open spec fn pad_left(s: Seq<char>, c: char, width: nat) -> Seq<char> {
    if s.len() >= width { s } else { repeat_char(c, (width - s.len()) as nat) + s }
}

fn digit(d: usize) -> (c: char)
    requires
        d < 10,
    ensures
        c == digit_char(d as nat),
{
    if d == 0 { '0' }
    else if d == 1 { '1' }
    else if d == 2 { '2' }
    else if d == 3 { '3' }
    else if d == 4 { '4' }
    else if d == 5 { '5' }
    else if d == 6 { '6' }
    else if d == 7 { '7' }
    else if d == 8 { '8' }
    else { '9' }
}

/// The decimal text of `n`.
pub fn decimal_string(n: usize) -> (r: String)
    ensures
        r@ == decimal(n as nat),
    decreases n,
{
    if n < 10 {
        let mut r = String::new();
        push_char(&mut r, digit(n));
        assert(r@ =~= seq![digit_char(n as nat)]);
        r
    } else {
        let mut r = decimal_string(n / 10);
        push_char(&mut r, digit(n % 10));
        r
    }
}

/// Appends `n` copies of `c` to `s`.
pub fn push_repeat(s: &mut String, c: char, n: usize)
    ensures
        final(s)@ == old(s)@ + repeat_char(c, n as nat),
{
    let mut i: usize = 0;
    while i < n
        invariant
            i <= n,
            s@ == old(s)@ + repeat_char(c, i as nat),
        decreases n - i,
    {
        push_char(s, c);
        assert(repeat_char(c, (i + 1) as nat) == repeat_char(c, i as nat).push(c));
        assert(old(s)@ + repeat_char(c, i as nat).push(c) =~= (old(s)@ + repeat_char(c, i as nat)).push(c));
        i = i + 1;
    }
}

/// `repeat_char(c, n)` has `n` characters.
pub proof fn lemma_repeat_len(c: char, n: nat)
    ensures
        repeat_char(c, n).len() == n,
    decreases n,
{
    if n > 0 {
        lemma_repeat_len(c, (n - 1) as nat);
    }
}

/// `s` padded on the right with spaces to `width` characters.
pub fn padded_right(s: String, width: usize) -> (r: String)
    ensures
        r@ == pad_right(s@, width as nat),
{
    let n = s.as_str().unicode_len();
    let mut r = s;
    if n < width {
        push_repeat(&mut r, ' ', width - n);
    }
    r
}

/// `s` padded on the left with `c` to `width` characters.
pub fn padded_left(s: String, c: char, width: usize) -> (r: String)
    ensures
        r@ == pad_left(s@, c, width as nat),
{
    let n = s.as_str().unicode_len();
    if n < width {
        let mut r = String::new();
        push_repeat(&mut r, c, width - n);
        push_str(&mut r, s.as_str());
        assert(r@ =~= repeat_char(c, (width - n) as nat) + s@);
        r
    } else {
        s
    }
}


/// Whether `c` has the Unicode `White_Space` property (`char::is_whitespace`).
pub open spec fn is_white_space(c: char) -> bool {
    let u = c as u32;
    ||| 0x9 <= u <= 0xD
    ||| u == 0x20
    ||| u == 0x85
    ||| u == 0xA0
    ||| u == 0x1680
    ||| 0x2000 <= u <= 0x200A
    ||| u == 0x2028
    ||| u == 0x2029
    ||| u == 0x202F
    ||| u == 0x205F
    ||| u == 0x3000
}

/// `s` without its leading white space.
pub open spec fn trim_start_of(s: Seq<char>) -> Seq<char>
    decreases s.len(),
{
    if s.len() > 0 && is_white_space(s[0]) { trim_start_of(s.drop_first()) } else { s }
}

/// `s` without its trailing white space.
pub open spec fn trim_end_of(s: Seq<char>) -> Seq<char>
    decreases s.len(),
{
    if s.len() > 0 && is_white_space(s.last()) { trim_end_of(s.drop_last()) } else { s }
}

/// `s` without leading and trailing white space.
pub open spec fn trim_of(s: Seq<char>) -> Seq<char> {
    trim_end_of(trim_start_of(s))
}

/// Whether `needle` occurs in `hay` as a contiguous piece.
pub open spec fn occurs_in(needle: Seq<char>, hay: Seq<char>) -> bool {
    exists|i: int| 0 <= i && i + needle.len() <= hay.len() && #[trigger] hay.subrange(i, i + needle.len()) == needle
}

/// Whether `c` is white space (`char::is_whitespace`).
pub fn is_white_space_char(c: char) -> (r: bool)
    ensures
        r == is_white_space(c),
{
    let u = c as u32;
    (0x9 <= u && u <= 0xD) || u == 0x20 || u == 0x85 || u == 0xA0 || u == 0x1680 || (0x2000 <= u
        && u <= 0x200A) || u == 0x2028 || u == 0x2029 || u == 0x202F || u == 0x205F || u == 0x3000
}

proof fn lemma_trim_start_skip(s: Seq<char>, i: int)
    requires
        0 <= i <= s.len(),
        forall|k: int| 0 <= k < i ==> is_white_space(#[trigger] s[k]),
    ensures
        trim_start_of(s) == trim_start_of(s.skip(i)),
    decreases i,
{
    if i > 0 {
        lemma_trim_start_skip(s.drop_first(), i - 1);
        assert(s.drop_first().skip(i - 1) =~= s.skip(i));
    } else {
        assert(s.skip(0) =~= s);
    }
}

proof fn lemma_trim_end_take(s: Seq<char>, j: int)
    requires
        0 <= j <= s.len(),
        forall|k: int| j <= k < s.len() ==> is_white_space(#[trigger] s[k]),
    ensures
        trim_end_of(s) == trim_end_of(s.take(j)),
    decreases s.len() - j,
{
    if j < s.len() {
        lemma_trim_end_take(s.drop_last(), j);
        assert(s.drop_last().take(j) =~= s.take(j));
    } else {
        assert(s.take(j) =~= s);
    }
}

/// `s` without leading white space.
pub fn trim_start_string(s: &str) -> (r: String)
    ensures
        r@ == trim_start_of(s@),
{
    let cs = chars_of(s);
    let mut i: usize = 0;
    while i < cs.len() && is_white_space_char(cs[i])
        invariant
            i <= cs.len(),
            cs@ == s@,
            forall|k: int| 0 <= k < i ==> is_white_space(#[trigger] cs@[k]),
        decreases cs.len() - i,
    {
        i = i + 1;
    }
    proof {
        lemma_trim_start_skip(cs@, i as int);
        assert(cs@.skip(i as int) =~= cs@.subrange(i as int, cs@.len() as int));
    }
    string_from_chars(&cs, i, cs.len())
}

/// `s` without trailing white space.
pub fn trim_end_string(s: &str) -> (r: String)
    ensures
        r@ == trim_end_of(s@),
{
    let cs = chars_of(s);
    let mut j: usize = cs.len();
    while j > 0 && is_white_space_char(cs[j - 1])
        invariant
            j <= cs.len(),
            cs@ == s@,
            forall|k: int| j <= k < cs@.len() ==> is_white_space(#[trigger] cs@[k]),
        decreases j,
    {
        j = j - 1;
    }
    proof {
        lemma_trim_end_take(cs@, j as int);
        assert(cs@.take(j as int) =~= cs@.subrange(0, j as int));
    }
    string_from_chars(&cs, 0, j)
}

/// `s` without leading and trailing white space.
pub fn trim_string(s: &str) -> (r: String)
    ensures
        r@ == trim_of(s@),
{
    let a = trim_start_string(s);
    trim_end_string(a.as_str())
}

/// Whether `needle` occurs in `hay`.
pub fn contains_str(hay: &str, needle: &str) -> (r: bool)
    ensures
        r == occurs_in(needle@, hay@),
{
    let h = chars_of(hay);
    let n = chars_of(needle);
    if n.len() > h.len() {
        assert forall|i: int| 0 <= i && i + n@.len() <= h@.len() implies #[trigger] h@.subrange(i, i + n@.len()) != n@ by {}
        return false;
    }
    let mut i: usize = 0;
    while i <= h.len() - n.len()
        invariant
            n.len() <= h.len(),
            h@ == hay@,
            n@ == needle@,
            i <= h.len() - n.len() + 1,
            forall|k: int| 0 <= k < i ==> #[trigger] h@.subrange(k, k + n@.len()) != n@,
        decreases h.len() - i,
    {
        let mut j: usize = 0;
        let mut same = true;
        while j < n.len()
            invariant
                j <= n.len(),
                i + n.len() <= h.len(),
                same == (forall|k: int| 0 <= k < j ==> h@[i + k] == n@[k]),
            decreases n.len() - j,
        {
            if h[i + j] != n[j] {
                same = false;
            }
            j = j + 1;
        }
        if same {
            assert(h@.subrange(i as int, i + n@.len()) =~= n@);
            return true;
        } else {
            let ghost k = choose|k: int| 0 <= k < n.len() && h@[i + k] != n@[k];
            assert(h@.subrange(i as int, i + n@.len())[k] != n@[k]);
        }
        i = i + 1;
    }
    false
}


/// The byte offset of character position `i` in `cs`: the length of the
/// UTF-8 encoding of the characters before it.
pub open spec fn byte_offset(cs: Seq<char>, i: int) -> int {
    encode_utf8(cs.take(i)).len() as int
}

/// Encoding a concatenation encodes each part.
pub proof fn lemma_encode_concat(a: Seq<char>, b: Seq<char>)
    ensures
        encode_utf8(a + b) =~= encode_utf8(a) + encode_utf8(b),
    decreases a.len(),
{
    if a.len() == 0 {
        assert(a + b =~= b);
    } else {
        assert((a + b).drop_first() =~= a.drop_first() + b);
        assert((a + b)[0] == a[0]);
        lemma_encode_concat(a.drop_first(), b);
    }
}

/// One more character moves the byte offset by its encoded width, within the
/// encoding of the whole sequence.
pub proof fn lemma_byte_offset_step(cs: Seq<char>, i: int)
    requires
        0 <= i < cs.len(),
    ensures
        byte_offset(cs, i + 1) == byte_offset(cs, i) + encode_scalar(cs[i] as u32).len(),
        byte_offset(cs, i + 1) <= encode_utf8(cs).len(),
{
    assert(cs.take(i + 1) =~= cs.take(i) + seq![cs[i]]);
    lemma_encode_concat(cs.take(i), seq![cs[i]]);
    let one = seq![cs[i]];
    assert(one[0] == cs[i]);
    assert(one.drop_first() =~= Seq::<char>::empty());
    assert(encode_utf8(Seq::<char>::empty()) =~= Seq::<u8>::empty());
    assert(encode_utf8(one) =~= encode_scalar(cs[i] as u32) + encode_utf8(one.drop_first()));
    assert(encode_utf8(one) =~= encode_scalar(cs[i] as u32));
    assert(cs =~= cs.take(i + 1) + cs.skip(i + 1));
    lemma_encode_concat(cs.take(i + 1), cs.skip(i + 1));
}

/// The byte offset of the start is 0.
pub proof fn lemma_byte_offset_zero(cs: Seq<char>)
    ensures
        byte_offset(cs, 0) == 0,
{
    assert(cs.take(0) =~= Seq::<char>::empty());
}

/// The number of bytes `c` takes in UTF-8.
pub fn char_width(c: char) -> (w: usize)
    ensures
        w == encode_scalar(c as u32).len(),
{
    proof {
        char_is_scalar(c);
    }
    let u = c as u32;
    if u <= 0x7F {
        1
    } else if u <= 0x7FF {
        2
    } else if u <= 0xFFFF {
        3
    } else {
        4
    }
}


/// The encoding of one character.
proof fn lemma_encode_one(c: char)
    ensures
        encode_utf8(seq![c]) =~= encode_scalar(c as u32),
{
    let one = seq![c];
    assert(one[0] == c);
    assert(one.drop_first() =~= Seq::<char>::empty());
    assert(encode_utf8(Seq::<char>::empty()) =~= Seq::<u8>::empty());
    assert(encode_utf8(one) =~= encode_scalar(c as u32) + encode_utf8(one.drop_first()));
}

/// The first byte of a character's encoding is no continuation byte.
proof fn lemma_first_byte_leads(c: char)
    ensures
        encode_scalar(c as u32).len() >= 1,
        !is_continuation_byte(encode_scalar(c as u32)[0]),
{
    char_is_scalar(c);
    let v = c as u32;
    if has_width_1_encoding(v) {
        assert(((v & 0x7F) as u8) <= 0x7F) by (bit_vector);
    } else if has_width_2_encoding(v) {
        assert((0xC0u8 | ((v >> 6) & 0x1F) as u8) >= 0xC0) by (bit_vector);
    } else if has_width_3_encoding(v) {
        assert((0xE0u8 | ((v >> 12) & 0x0F) as u8) >= 0xE0) by (bit_vector);
    } else {
        assert((0xF0u8 | ((v >> 18) & 0x7) as u8) >= 0xF0) by (bit_vector);
    }
}

/// The encoding of the characters `k..j` is the bytes between their offsets.
pub proof fn lemma_encode_subrange(cs: Seq<char>, k: int, j: int)
    requires
        0 <= k <= j <= cs.len(),
    ensures
        byte_offset(cs, k) <= byte_offset(cs, j) <= encode_utf8(cs).len(),
        encode_utf8(cs).subrange(byte_offset(cs, k), byte_offset(cs, j)) =~= encode_utf8(cs.subrange(k, j)),
{
    let a = cs.take(k);
    let m = cs.subrange(k, j);
    let z = cs.skip(j);
    assert(cs.take(j) =~= a + m);
    assert(cs =~= (a + m) + z);
    lemma_encode_concat(a, m);
    lemma_encode_concat(a + m, z);
}

/// The byte offset of a character position is a character boundary.
pub proof fn lemma_byte_offset_boundary(cs: Seq<char>, k: int)
    requires
        0 <= k <= cs.len(),
    ensures
        is_char_boundary(encode_utf8(cs), byte_offset(cs, k)),
{
    let bytes = encode_utf8(cs);
    encode_utf8_valid_utf8(cs);
    if k == cs.len() {
        assert(cs.take(k) =~= cs);
        is_char_boundary_start_end_of_seq(bytes);
    } else {
        lemma_encode_subrange(cs, k, k + 1);
        assert(cs.subrange(k, k + 1) =~= seq![cs[k]]);
        lemma_encode_one(cs[k]);
        lemma_first_byte_leads(cs[k]);
        lemma_byte_offset_step(cs, k);
        assert(bytes[byte_offset(cs, k)] == encode_scalar(cs[k] as u32)[0]);
        is_char_boundary_iff_not_is_continuation_byte(bytes, byte_offset(cs, k));
    }
}

/// A character boundary `e` after the boundary `s` is a boundary of the bytes from `s` on.
proof fn lemma_suffix_boundary(bytes: Seq<u8>, s: int, e: int)
    requires
        valid_utf8(bytes),
        0 <= s <= e <= bytes.len(),
        is_char_boundary(bytes, s),
        is_char_boundary(bytes, e),
    ensures
        valid_utf8(bytes.subrange(s, bytes.len() as int)),
        is_char_boundary(bytes.subrange(s, bytes.len() as int), e - s),
{
    let rest = bytes.subrange(s, bytes.len() as int);
    valid_utf8_split(bytes, s);
    if e == s {
    } else if e == bytes.len() {
        is_char_boundary_start_end_of_seq(rest);
    } else {
        is_char_boundary_iff_not_is_continuation_byte(bytes, e);
        is_char_boundary_iff_not_is_continuation_byte(rest, e - s);
    }
}

/// The text of `source` between the byte offsets `start` and `end`
/// (`&source[start..end]`, owned).
pub fn source_slice(source: &str, start: usize, end: usize) -> (r: String)
    requires
        start <= end <= encode_utf8(source@).len(),
        is_char_boundary(encode_utf8(source@), start as int),
        is_char_boundary(encode_utf8(source@), end as int),
    ensures
        r@ == decode_utf8(encode_utf8(source@).subrange(start as int, end as int)),
{
    proof {
        encode_utf8_valid_utf8(source@);
        lemma_suffix_boundary(encode_utf8(source@), start as int, end as int);
    }
    let (_, rest) = source.split_at(start);
    let (mid, _) = rest.split_at(end - start);
    proof {
        encode_utf8_decode_utf8(mid@);
        assert(encode_utf8(mid@) =~= encode_utf8(source@).subrange(start as int, end as int));
    }
    mid.to_owned()
}


/// The characters with the Unicode `White_Space` property, one by one.
pub open spec fn is_unicode_white_space(c: char) -> bool {
    ||| c == '\t'
    ||| c == '\n'
    ||| c == '\u{B}'
    ||| c == '\u{C}'
    ||| c == '\r'
    ||| c == ' '
    ||| c == '\u{85}'
    ||| c == '\u{A0}'
    ||| c == '\u{1680}'
    ||| c == '\u{2000}'
    ||| c == '\u{2001}'
    ||| c == '\u{2002}'
    ||| c == '\u{2003}'
    ||| c == '\u{2004}'
    ||| c == '\u{2005}'
    ||| c == '\u{2006}'
    ||| c == '\u{2007}'
    ||| c == '\u{2008}'
    ||| c == '\u{2009}'
    ||| c == '\u{200A}'
    ||| c == '\u{2028}'
    ||| c == '\u{2029}'
    ||| c == '\u{202F}'
    ||| c == '\u{205F}'
    ||| c == '\u{3000}'
}

/// The white space that trimming strips is exactly the Unicode `White_Space`
/// characters: tab, line feed, vertical tab, form feed, carriage return,
/// space, next line, no-break space and the other Unicode spaces.
pub proof fn white_space_is_unicode_white_space(c: char)
    ensures
        is_white_space(c) <==> is_unicode_white_space(c),
{
}

proof fn lemma_trim_start_push(s: Seq<char>, c: char)
    ensures
        trim_start_of(s.push(c)) == if trim_start_of(s).len() == 0 {
            trim_start_of(seq![c])
        } else {
            trim_start_of(s).push(c)
        },
    decreases s.len(),
{
    if s.len() == 0 {
        assert(s.push(c) =~= seq![c]);
    } else if is_white_space(s[0]) {
        assert(s.push(c).drop_first() =~= s.drop_first().push(c));
        assert(s.push(c)[0] == s[0]);
        lemma_trim_start_push(s.drop_first(), c);
    } else {
        assert(s.push(c)[0] == s[0]);
    }
}

proof fn lemma_trim_start_head(s: Seq<char>)
    ensures
        trim_start_of(s).len() > 0 ==> !is_white_space(trim_start_of(s)[0]),
    decreases s.len(),
{
    if s.len() > 0 && is_white_space(s[0]) {
        lemma_trim_start_head(s.drop_first());
    }
}

proof fn lemma_trim_end_prefix(s: Seq<char>)
    ensures
        trim_end_of(s).len() <= s.len(),
        trim_end_of(s) == s.take(trim_end_of(s).len() as int),
        trim_end_of(s).len() > 0 ==> !is_white_space(trim_end_of(s).last()),
    decreases s.len(),
{
    if s.len() > 0 && is_white_space(s.last()) {
        lemma_trim_end_prefix(s.drop_last());
        assert(s.drop_last().take(trim_end_of(s).len() as int) =~= s.take(trim_end_of(s).len() as int));
    } else {
        assert(s.take(s.len() as int) =~= s);
    }
}

/// Trimming strips every Unicode white space character at either end: one
/// more white space character before or after the text changes nothing, and
/// what is left neither starts nor ends with white space.
pub proof fn trim_strips_unicode_white_space(s: Seq<char>, c: char)
    ensures
        is_unicode_white_space(c) ==> {
            &&& trim_start_of(seq![c] + s) == trim_start_of(s)
            &&& trim_end_of(s.push(c)) == trim_end_of(s)
            &&& trim_of(seq![c] + s) == trim_of(s)
            &&& trim_of(s.push(c)) == trim_of(s)
        },
        trim_start_of(s).len() > 0 ==> !is_unicode_white_space(trim_start_of(s)[0]),
        trim_end_of(s).len() > 0 ==> !is_unicode_white_space(trim_end_of(s).last()),
        trim_of(s).len() > 0 ==> !is_unicode_white_space(trim_of(s)[0]) && !is_unicode_white_space(trim_of(s).last()),
{
    white_space_is_unicode_white_space(c);
    if is_unicode_white_space(c) {
        let cs = seq![c] + s;
        assert(cs[0] == c);
        assert(cs.drop_first() =~= s);
        assert(s.push(c).last() == c);
        assert(s.push(c).drop_last() =~= s);
        lemma_trim_start_push(s, c);
        let one = seq![c];
        assert(one[0] == c);
        assert(one.drop_first() =~= Seq::<char>::empty());
        assert(trim_start_of(one) == trim_start_of(Seq::<char>::empty()));
        assert(trim_start_of(one).len() == 0);
        assert(trim_start_of(cs) == trim_start_of(s));
        assert(trim_end_of(s.push(c)) == trim_end_of(s));
        assert(trim_of(cs) == trim_of(s));
        if trim_start_of(s).len() > 0 {
            let t = trim_start_of(s);
            assert(t.push(c).last() == c);
            assert(t.push(c).drop_last() =~= t);
            assert(trim_end_of(t.push(c)) == trim_end_of(t));
        } else {
            assert(trim_start_of(s.push(c)).len() == 0);
            assert(trim_end_of(trim_start_of(s.push(c))) =~= trim_end_of(trim_start_of(s)));
        }
        assert(trim_of(s.push(c)) == trim_of(s));
    }
    lemma_trim_start_head(s);
    lemma_trim_end_prefix(s);
    let u = trim_start_of(s);
    lemma_trim_end_prefix(u);
    white_space_is_unicode_white_space(s.first());
    if trim_start_of(s).len() > 0 {
        white_space_is_unicode_white_space(trim_start_of(s)[0]);
    }
    if trim_end_of(s).len() > 0 {
        white_space_is_unicode_white_space(trim_end_of(s).last());
    }
    if trim_of(s).len() > 0 {
        assert(trim_of(s)[0] == u[0]);
        white_space_is_unicode_white_space(trim_of(s)[0]);
        white_space_is_unicode_white_space(trim_of(s).last());
    }
}

} // verus!
