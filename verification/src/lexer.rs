//! The lexer: source text into tokens with byte spans.
use vstd::prelude::*;
use vstd::utf8::{decode_utf8, encode_utf8, encode_utf8_decode_utf8, is_char_boundary};
use crate::ast::has_ascii_head;
use crate::errors::{ErrorM, ErrorSM, ExprError, ExprErrorS, LexicalError, error_s_view};
use crate::text::{
    byte_offset, char_width, chars_of, lemma_byte_offset_step, lemma_byte_offset_zero,
    lemma_byte_offset_boundary, lemma_encode_concat, lemma_encode_subrange, owned, string_from_chars,
};

verus! {

broadcast use vstd::std_specs::vec::group_vec_axioms;

/// A token of the expression language.
#[derive(Debug, Clone, PartialEq)]
pub enum Token {
    LParan,
    RParan,
    String(String),
    Identifier(String),
    True,
    False,
}

/// The model of a [`Token`].
pub enum TokenM {
    LParan,
    RParan,
    Str(Seq<char>),
    Ident(Seq<char>),
    True,
    False,
}

impl View for Token {
    type V = TokenM;

    open spec fn view(&self) -> TokenM {
        match self {
            Token::LParan => TokenM::LParan,
            Token::RParan => TokenM::RParan,
            Token::String(s) => TokenM::Str(s@),
            Token::Identifier(s) => TokenM::Ident(s@),
            Token::True => TokenM::True,
            Token::False => TokenM::False,
        }
    }
}

impl Token {
    /// An identifier token with the given text.
    pub fn identifier(identifier: &str) -> (r: Token)
        ensures
            r@ == TokenM::Ident(identifier@),
    {
        Token::Identifier(owned(identifier))
    }
}

/// What the lexer yields: a token with the byte offsets it spans, or an error.
pub type LexItem = Result<(usize, Token, usize), ExprErrorS>;

/// The model of a [`LexItem`].
pub type LexItemM = Result<(int, TokenM, int), ErrorSM>;

/// The model of a lexer item.
pub open spec fn lex_item_view(r: LexItem) -> LexItemM {
    match r {
        Ok((a, t, b)) => Ok((a as int, t@, b as int)),
        Err(e) => Err(error_s_view(e)),
    }
}

/// The models of a sequence of lexer items.
pub open spec fn lex_items_view(rs: Seq<LexItem>) -> Seq<LexItemM> {
    rs.map_values(|r: LexItem| lex_item_view(r))
}

/// The characters skipped between tokens: space, tab, line feed, form feed.
pub open spec fn is_skipped(c: char) -> bool {
    c == ' ' || c == '\t' || c == '\n' || c == '\x0C'
}

/// The sigils that may start an identifier.
pub open spec fn is_sigil(c: char) -> bool {
    c == '!' || c == '?' || c == ':' || c == '@'
}

/// An ASCII letter or `_`.
pub open spec fn is_ident_start(c: char) -> bool {
    let u = c as u32;
    (0x61 <= u <= 0x7A) || (0x41 <= u <= 0x5A) || u == 0x5F
}

/// An ASCII letter, digit or `_`.
pub open spec fn is_ident_char(c: char) -> bool {
    is_ident_start(c) || (0x30 <= c as u32 <= 0x39)
}

/// The end of the run of identifier characters that starts at `i`.
pub open spec fn ident_end(cs: Seq<char>, i: int) -> int
    decreases cs.len() - i,
{
    if 0 <= i < cs.len() && is_ident_char(cs[i]) {
        ident_end(cs, i + 1)
    } else {
        i
    }
}

/// The first backtick at or after `i`, or the end of `cs`.
pub open spec fn tick_from(cs: Seq<char>, i: int) -> int
    decreases cs.len() - i,
{
    if 0 <= i < cs.len() && cs[i] != '`' {
        tick_from(cs, i + 1)
    } else {
        i
    }
}

/// The token a word is: a boolean keyword or an identifier.
pub open spec fn word_token(w: Seq<char>) -> TokenM {
    if w == seq!['t', 'r', 'u', 'e'] {
        TokenM::True
    } else if w == seq!['f', 'a', 'l', 's', 'e'] {
        TokenM::False
    } else {
        TokenM::Ident(w)
    }
}

/// The token that starts at character `i` and the position after it, taking
/// the longest match; `None` where no token starts there. An unterminated
/// string runs to the end of the source.
pub open spec fn token_at(cs: Seq<char>, i: int) -> (Option<TokenM>, int) {
    let c = cs[i];
    if c == '(' {
        (Some(TokenM::LParan), i + 1)
    } else if c == ')' {
        (Some(TokenM::RParan), i + 1)
    } else if c == '`' {
        let j = tick_from(cs, i + 1);
        if j < cs.len() {
            (Some(TokenM::Str(cs.subrange(i + 1, j))), j + 1)
        } else {
            (None, cs.len() as int)
        }
    } else if is_ident_start(c) || (is_sigil(c) && i + 1 < cs.len() && is_ident_start(cs[i + 1])) {
        let j = ident_end(cs, i + 1);
        (Some(word_token(cs.subrange(i, j))), j)
    } else {
        (None, i + 1)
    }
}

/// The run of identifier characters from `i` ends within `cs` at a character that is not one.
pub proof fn lemma_ident_end(cs: Seq<char>, i: int)
    requires
        0 <= i <= cs.len(),
    ensures
        i <= ident_end(cs, i) <= cs.len(),
        forall|k: int| i <= k < ident_end(cs, i) ==> is_ident_char(#[trigger] cs[k]),
        ident_end(cs, i) < cs.len() ==> !is_ident_char(cs[ident_end(cs, i)]),
    decreases cs.len() - i,
{
    if i < cs.len() && is_ident_char(cs[i]) {
        lemma_ident_end(cs, i + 1);
    }
}

/// The backtick search from `i` ends within `cs`, at a backtick where it stops before the end.
pub proof fn lemma_tick_from(cs: Seq<char>, i: int)
    requires
        0 <= i <= cs.len(),
    ensures
        i <= tick_from(cs, i) <= cs.len(),
        tick_from(cs, i) < cs.len() ==> cs[tick_from(cs, i)] == '`',
    decreases cs.len() - i,
{
    if i < cs.len() && cs[i] != '`' {
        lemma_tick_from(cs, i + 1);
    }
}

/// A token is never empty.
pub proof fn lemma_token_at_advances(cs: Seq<char>, i: int)
    requires
        0 <= i < cs.len(),
    ensures
        i < token_at(cs, i).1 <= cs.len(),
{
    lemma_tick_from(cs, i + 1);
    lemma_ident_end(cs, i + 1);
}

/// The items the lexer yields for `cs` from character `i` on: skipped
/// characters are dropped, a token comes with the byte offsets of its start
/// and end, and where no token starts the item is an invalid token error at
/// the empty span.
pub open spec fn lex_from(cs: Seq<char>, i: int) -> Seq<LexItemM>
    decreases cs.len() - i,
{
    if i < 0 || i >= cs.len() {
        Seq::empty()
    } else if is_skipped(cs[i]) {
        lex_from(cs, i + 1)
    } else {
        proof {
            lemma_token_at_advances(cs, i);
        }
        let j = token_at(cs, i).1;
        let item = match token_at(cs, i).0 {
            Some(tok) => Ok((byte_offset(cs, i), tok, byte_offset(cs, j))),
            None => Err((ErrorM::Lex, 0usize, 0usize)),
        };
        seq![item] + lex_from(cs, j)
    }
}

/// The items the lexer yields for a whole source text.
pub open spec fn lex_spec(source: Seq<char>) -> Seq<LexItemM> {
    lex_from(source, 0)
}

fn is_skipped_char(c: char) -> (r: bool)
    ensures
        r == is_skipped(c),
{
    c == ' ' || c == '\t' || c == '\n' || c == '\x0C'
}

fn is_sigil_char(c: char) -> (r: bool)
    ensures
        r == is_sigil(c),
{
    c == '!' || c == '?' || c == ':' || c == '@'
}

fn is_ident_start_char(c: char) -> (r: bool)
    ensures
        r == is_ident_start(c),
{
    let u = c as u32;
    (0x61 <= u && u <= 0x7A) || (0x41 <= u && u <= 0x5A) || u == 0x5F
}

fn is_ident_char_exec(c: char) -> (r: bool)
    ensures
        r == is_ident_char(c),
{
    let u = c as u32;
    is_ident_start_char(c) || (0x30 <= u && u <= 0x39)
}

fn ident_end_exec(cs: &Vec<char>, i: usize) -> (r: usize)
    requires
        i <= cs.len(),
    ensures
        r == ident_end(cs@, i as int),
{
    let mut j = i;
    while j < cs.len() && is_ident_char_exec(cs[j])
        invariant
            i <= j <= cs.len(),
            ident_end(cs@, i as int) == ident_end(cs@, j as int),
        decreases cs.len() - j,
    {
        j = j + 1;
    }
    j
}

fn tick_from_exec(cs: &Vec<char>, i: usize) -> (r: usize)
    requires
        i <= cs.len(),
    ensures
        r == tick_from(cs@, i as int),
{
    let mut j = i;
    while j < cs.len() && cs[j] != '`'
        invariant
            i <= j <= cs.len(),
            tick_from(cs@, i as int) == tick_from(cs@, j as int),
        decreases cs.len() - j,
    {
        j = j + 1;
    }
    j
}

fn word_token_exec(cs: &Vec<char>, i: usize, k: usize) -> (r: Token)
    requires
        i <= k <= cs.len(),
    ensures
        r@ == word_token(cs@.subrange(i as int, k as int)),
{
    let ghost w = cs@.subrange(i as int, k as int);
    let n = k - i;
    if n == 4 && cs[i] == 't' && cs[i + 1] == 'r' && cs[i + 2] == 'u' && cs[i + 3] == 'e' {
        assert(w =~= seq!['t', 'r', 'u', 'e']);
        Token::True
    } else if n == 5 && cs[i] == 'f' && cs[i + 1] == 'a' && cs[i + 2] == 'l' && cs[i + 3] == 's' && cs[i + 4] == 'e' {
        assert(w =~= seq!['f', 'a', 'l', 's', 'e']);
        Token::False
    } else {
        proof {
            if w == seq!['t', 'r', 'u', 'e'] {
                assert(w.len() == 4);
                assert(w[0] == cs@[i as int] && w[1] == cs@[i + 1] && w[2] == cs@[i + 2] && w[3] == cs@[i + 3]);
            }
            if w == seq!['f', 'a', 'l', 's', 'e'] {
                assert(w.len() == 5);
                assert(w[0] == cs@[i as int] && w[1] == cs@[i + 1] && w[2] == cs@[i + 2] && w[3] == cs@[i + 3] && w[4] == cs@[i + 4]);
            }
        }
        Token::Identifier(string_from_chars(cs, i, k))
    }
}

/// Yields the tokens of a source text one at a time.
pub struct Lexer {
    chars: Vec<char>,
    pos: usize,
    byte: usize,
}

impl Lexer {
    /// The source text being lexed.
    pub closed spec fn source(&self) -> Seq<char> {
        self.chars@
    }

    /// The items still to come.
    pub closed spec fn remaining(&self) -> Seq<LexItemM> {
        lex_from(self.chars@, self.pos as int)
    }

    /// The position reached, in characters.
    pub closed spec fn position(&self) -> int {
        self.pos as int
    }

    /// The lexer's fields agree: the byte offset is that of the position, and
    /// every byte offset of the source fits a `usize`.
    pub closed spec fn wf(&self) -> bool {
        &&& self.pos <= self.chars.len()
        &&& self.byte == byte_offset(self.chars@, self.pos as int)
        &&& encode_utf8(self.chars@).len() <= usize::MAX
    }

    /// A lexer at the start of `source`.
    pub fn new(source: &str) -> (r: Self)
        ensures
            r.wf(),
            r.source() == source@,
            r.remaining() == lex_spec(source@),
            r.position() == 0,
    {
        let chars = chars_of(source);
        let bytes = source.as_bytes();
        let total = bytes.len();
        assert(total == encode_utf8(source@).len());
        proof {
            lemma_byte_offset_zero(chars@);
        }
        Lexer { chars, pos: 0, byte: 0 }
    }

    /// Moves the position to `j`, keeping the byte offset in step.
    fn advance(&mut self, j: usize)
        requires
            old(self).wf(),
            old(self).pos <= j <= old(self).chars.len(),
        ensures
            final(self).wf(),
            final(self).chars@ == old(self).chars@,
            final(self).pos == j,
    {
        while self.pos < j
            invariant
                self.wf(),
                self.chars@ == old(self).chars@,
                self.pos <= j <= self.chars.len(),
            decreases j - self.pos,
        {
            let w = char_width(self.chars[self.pos]);
            proof {
                lemma_byte_offset_step(self.chars@, self.pos as int);
            }
            self.byte = self.byte + w;
            self.pos = self.pos + 1;
        }
    }

    /// The next item: a token with its byte span, or an invalid token error;
    /// `None` at the end of the source.
    pub fn next(&mut self) -> (r: Option<LexItem>)
        requires
            old(self).wf(),
        ensures
            final(self).wf(),
            final(self).source() == old(self).source(),
            match r {
                None => old(self).remaining() == Seq::<LexItemM>::empty(),
                Some(item) => old(self).remaining() == seq![lex_item_view(item)] + final(self).remaining()
                    && final(self).position() > old(self).position(),
            },
    {
        let ghost cs = self.chars@;
        let ghost p0 = self.pos as int;
        while self.pos < self.chars.len() && is_skipped_char(self.chars[self.pos])
            invariant
                self.wf(),
                self.chars@ == cs,
                p0 <= self.pos,
                lex_from(cs, p0) == lex_from(cs, self.pos as int),
            decreases self.chars.len() - self.pos,
        {
            let p = self.pos + 1;
            self.advance(p);
        }
        if self.pos >= self.chars.len() {
            return None;
        }
        let i = self.pos;
        let start = self.byte;
        let c = self.chars[i];
        proof {
            lemma_token_at_advances(cs, i as int);
            lemma_tick_from(cs, i + 1);
            lemma_ident_end(cs, i + 1);
        }
        let (tok, j): (Option<Token>, usize) = if c == '(' {
            (Some(Token::LParan), i + 1)
        } else if c == ')' {
            (Some(Token::RParan), i + 1)
        } else if c == '`' {
            let k = tick_from_exec(&self.chars, i + 1);
            if k < self.chars.len() {
                (Some(Token::String(string_from_chars(&self.chars, i + 1, k))), k + 1)
            } else {
                (None, self.chars.len())
            }
        } else if is_ident_start_char(c) || (is_sigil_char(c) && i + 1 < self.chars.len()
            && is_ident_start_char(self.chars[i + 1])) {
            let k = ident_end_exec(&self.chars, i + 1);
            (Some(word_token_exec(&self.chars, i, k)), k)
        } else {
            (None, i + 1)
        };
        assert(j == token_at(cs, i as int).1);
        self.advance(j);
        match tok {
            Some(t) => {
                assert(Some(t@) == token_at(cs, i as int).0);
                Some(Ok((start, t, self.byte)))
            },
            None => {
                assert(token_at(cs, i as int).0 is None);
                Some(Err((ExprError::LexError(LexicalError::InvalidToken), 0..0)))
            },
        }
    }
}

/// Every item of `source`, in order.
pub fn lex(source: &str) -> (r: Vec<LexItem>)
    ensures
        lex_items_view(r@) == lex_spec(source@),
{
    let mut lexer = Lexer::new(source);
    let mut r: Vec<LexItem> = Vec::new();
    assert(lex_items_view(r@) =~= Seq::<LexItemM>::empty());
    assert(Seq::<LexItemM>::empty() + lexer.remaining() =~= lexer.remaining());
    loop
        invariant_except_break
            lex_items_view(r@) + lexer.remaining() == lex_spec(source@),
        invariant
            lexer.wf(),
            lexer.source() == source@,
        ensures
            lex_items_view(r@) == lex_spec(source@),
        decreases source@.len() - lexer.position(),
    {
        let ghost before = r@;
        match lexer.next() {
            None => {
                assert(lex_items_view(r@) + Seq::<LexItemM>::empty() =~= lex_items_view(r@));
                break;
            },
            Some(item) => {
                r.push(item);
                assert(lex_items_view(r@) =~= lex_items_view(before).push(lex_item_view(item)));
                assert(lex_items_view(before) + (seq![lex_item_view(item)] + lexer.remaining())
                    =~= lex_items_view(r@) + lexer.remaining());
            },
        }
    }
    r
}


/// The text of the source between two byte offsets, as slicing the source
/// there gives it.
pub open spec fn source_text(source: Seq<char>, a: int, b: int) -> Seq<char> {
    decode_utf8(encode_utf8(source).subrange(a, b))
}

/// The text a token is written as.
pub open spec fn token_text(t: TokenM) -> Seq<char> {
    match t {
        TokenM::LParan => seq!['('],
        TokenM::RParan => seq![')'],
        TokenM::Str(s) => seq!['`'] + s + seq!['`'],
        TokenM::Ident(w) => w,
        TokenM::True => seq!['t', 'r', 'u', 'e'],
        TokenM::False => seq!['f', 'a', 'l', 's', 'e'],
    }
}

/// Each token item from position `i` on spans characters `k..j` whose text
/// is the token's.
proof fn lemma_lex_from_item(cs: Seq<char>, i: int, n: int)
    requires
        0 <= i,
        0 <= n < lex_from(cs, i).len(),
        lex_from(cs, i)[n] is Ok,
    ensures
        exists|k: int, j: int|
            i <= k < j <= cs.len() && lex_from(cs, i)[n]->Ok_0.0 == byte_offset(cs, k)
                && lex_from(cs, i)[n]->Ok_0.2 == byte_offset(cs, j) && #[trigger] cs.subrange(k, j)
                == token_text(lex_from(cs, i)[n]->Ok_0.1),
    decreases cs.len() - i,
{
    if i < cs.len() {
        if is_skipped(cs[i]) {
            lemma_lex_from_item(cs, i + 1, n);
            let (k, j) = choose|k: int, j: int|
                i + 1 <= k < j <= cs.len() && lex_from(cs, i + 1)[n]->Ok_0.0 == byte_offset(cs, k)
                    && lex_from(cs, i + 1)[n]->Ok_0.2 == byte_offset(cs, j) && #[trigger] cs.subrange(k, j)
                    == token_text(lex_from(cs, i + 1)[n]->Ok_0.1);
            assert(i <= k < j <= cs.len());
        } else {
            lemma_token_at_advances(cs, i);
            lemma_tick_from(cs, i + 1);
            lemma_ident_end(cs, i + 1);
            let j = token_at(cs, i).1;
            let rest = lex_from(cs, j);
            let item = lex_from(cs, i)[0];
            assert(lex_from(cs, i) == seq![item] + rest);
            if n == 0 {
                let c = cs[i];
                let t = item->Ok_0.1;
                if c == '(' || c == ')' {
                    assert(cs.subrange(i, j) =~= token_text(t));
                } else if c == '`' {
                    let k = tick_from(cs, i + 1);
                    assert(cs.subrange(i, j) =~= seq!['`'] + cs.subrange(i + 1, k) + seq!['`']);
                } else {
                    let w = cs.subrange(i, j);
                    assert(token_text(word_token(w)) =~= w);
                }
                assert(cs.subrange(i, j) == token_text(t));
            } else {
                assert(lex_from(cs, i)[n] == rest[n - 1]);
                lemma_lex_from_item(cs, j, n - 1);
                let (k2, j2) = choose|k: int, j2: int|
                    j <= k < j2 <= cs.len() && rest[n - 1]->Ok_0.0 == byte_offset(cs, k)
                        && rest[n - 1]->Ok_0.2 == byte_offset(cs, j2) && #[trigger] cs.subrange(k, j2)
                        == token_text(rest[n - 1]->Ok_0.1);
                assert(i <= k2 < j2 <= cs.len());
            }
        }
    }
}

/// Every token the lexer yields spans a non-empty piece of the source's
/// bytes, and the source text there is the text the token is written as.
pub proof fn lexed_token_spans_its_text(source: Seq<char>, n: int)
    requires
        0 <= n < lex_spec(source).len(),
        lex_spec(source)[n] is Ok,
    ensures
        ({
            let (a, t, b) = lex_spec(source)[n]->Ok_0;
            &&& 0 <= a < b <= encode_utf8(source).len()
            &&& source_text(source, a, b) == token_text(t)
        }),
{
    lemma_lex_from_item(source, 0, n);
    let item = lex_spec(source)[n]->Ok_0;
    let (k, j) = choose|k: int, j: int|
        0 <= k < j <= source.len() && item.0 == byte_offset(source, k) && item.2 == byte_offset(source, j)
            && #[trigger] source.subrange(k, j) == token_text(item.1);
    lemma_encode_subrange(source, k, j);
    let m = source.subrange(k, j);
    encode_utf8_decode_utf8(m);
    assert(m.drop_first().len() + 1 == m.len());
    assert(encode_utf8(m).len() >= 1);
}


/// An identifier item starts with a one byte character.
pub open spec fn ident_head_ok(item: LexItemM) -> bool {
    match item {
        Ok((_, TokenM::Ident(w), _)) => has_ascii_head(w),
        _ => true,
    }
}

/// Every identifier among `toks` starts with a one byte character.
pub open spec fn idents_have_heads(toks: Seq<LexItemM>) -> bool {
    forall|n: int| 0 <= n < toks.len() ==> ident_head_ok(#[trigger] toks[n])
}

/// Identifiers the lexer yields start with their sigil or an ASCII letter.
pub proof fn lemma_lex_from_idents(cs: Seq<char>, i: int)
    requires
        0 <= i,
    ensures
        idents_have_heads(lex_from(cs, i)),
    decreases cs.len() - i,
{
    if i < cs.len() {
        if is_skipped(cs[i]) {
            lemma_lex_from_idents(cs, i + 1);
        } else {
            lemma_token_at_advances(cs, i);
            lemma_ident_end(cs, i + 1);
            let j = token_at(cs, i).1;
            lemma_lex_from_idents(cs, j);
            let rest = lex_from(cs, j);
            let item = lex_from(cs, i)[0];
            assert(lex_from(cs, i) == seq![item] + rest);
            let c = cs[i];
            if c != '(' && c != ')' && c != '`' && (is_ident_start(c) || (is_sigil(c) && i + 1 < cs.len()
                && is_ident_start(cs[i + 1]))) {
                let w = cs.subrange(i, j);
                assert(w[0] == c);
            }
            assert(ident_head_ok(item));
            assert forall|n: int| 0 <= n < lex_from(cs, i).len() implies ident_head_ok(#[trigger] lex_from(cs, i)[n]) by {
                if n > 0 {
                    assert(lex_from(cs, i)[n] == rest[n - 1]);
                }
            }
        }
    }
}

/// The bounds of every token item of `source` are character boundaries of
/// its bytes, in order and within them.
pub proof fn lemma_lex_token_bounds(source: Seq<char>, n: int)
    requires
        0 <= n < lex_spec(source).len(),
        lex_spec(source)[n] is Ok,
    ensures
        ({
            let (a, t, b) = lex_spec(source)[n]->Ok_0;
            &&& 0 <= a <= b <= encode_utf8(source).len()
            &&& is_char_boundary(encode_utf8(source), a)
            &&& is_char_boundary(encode_utf8(source), b)
        }),
{
    lemma_lex_from_item(source, 0, n);
    let item = lex_spec(source)[n]->Ok_0;
    let (k, j) = choose|k: int, j: int|
        0 <= k < j <= source.len() && item.0 == byte_offset(source, k) && item.2 == byte_offset(source, j)
            && #[trigger] source.subrange(k, j) == token_text(item.1);
    lemma_encode_subrange(source, k, j);
    lemma_byte_offset_boundary(source, k);
    lemma_byte_offset_boundary(source, j);
}


/// Every token item from position `i` on starts at or after the byte offset of `i`.
proof fn lemma_lex_from_after(cs: Seq<char>, i: int, n: int)
    requires
        0 <= i <= cs.len(),
        0 <= n < lex_from(cs, i).len(),
        lex_from(cs, i)[n] is Ok,
    ensures
        byte_offset(cs, i) <= lex_from(cs, i)[n]->Ok_0.0,
{
    lemma_lex_from_item(cs, i, n);
    let item = lex_from(cs, i)[n]->Ok_0;
    let (k, j) = choose|k: int, j: int|
        i <= k < j <= cs.len() && item.0 == byte_offset(cs, k) && item.2 == byte_offset(cs, j)
            && #[trigger] cs.subrange(k, j) == token_text(item.1);
    lemma_encode_subrange(cs, i, k);
}

proof fn lemma_lex_from_in_order(cs: Seq<char>, i: int, n: int, m: int)
    requires
        0 <= i <= cs.len(),
        0 <= n < m < lex_from(cs, i).len(),
        lex_from(cs, i)[n] is Ok,
        lex_from(cs, i)[m] is Ok,
    ensures
        lex_from(cs, i)[n]->Ok_0.2 <= lex_from(cs, i)[m]->Ok_0.0,
    decreases cs.len() - i,
{
    if i < cs.len() {
        if is_skipped(cs[i]) {
            lemma_lex_from_in_order(cs, i + 1, n, m);
        } else {
            lemma_token_at_advances(cs, i);
            let j = token_at(cs, i).1;
            let rest = lex_from(cs, j);
            let item = lex_from(cs, i)[0];
            assert(lex_from(cs, i) == seq![item] + rest);
            assert(lex_from(cs, i)[m] == rest[m - 1]);
            if n == 0 {
                lemma_lex_from_after(cs, j, m - 1);
            } else {
                assert(lex_from(cs, i)[n] == rest[n - 1]);
                lemma_lex_from_in_order(cs, j, n - 1, m - 1);
            }
        }
    }
}

/// The tokens the lexer yields come in the order of the source and do not
/// overlap: each ends at or before the start of every later one.
pub proof fn lexed_tokens_are_in_order(source: Seq<char>, n: int, m: int)
    requires
        0 <= n < m < lex_spec(source).len(),
        lex_spec(source)[n] is Ok,
        lex_spec(source)[m] is Ok,
    ensures
        lex_spec(source)[n]->Ok_0.2 <= lex_spec(source)[m]->Ok_0.0,
{
    lemma_lex_from_in_order(source, 0, n, m);
}


/// Every error item the lexer yields is an invalid token at the empty span.
pub proof fn lemma_lex_from_errors(cs: Seq<char>, i: int, n: int)
    requires
        0 <= i,
        0 <= n < lex_from(cs, i).len(),
        lex_from(cs, i)[n] is Err,
    ensures
        lex_from(cs, i)[n] == Err::<(int, TokenM, int), ErrorSM>((ErrorM::Lex, 0usize, 0usize)),
    decreases cs.len() - i,
{
    if i < cs.len() {
        if is_skipped(cs[i]) {
            lemma_lex_from_errors(cs, i + 1, n);
        } else {
            lemma_token_at_advances(cs, i);
            let j = token_at(cs, i).1;
            let rest = lex_from(cs, j);
            let item = lex_from(cs, i)[0];
            assert(lex_from(cs, i) == seq![item] + rest);
            if n > 0 {
                assert(lex_from(cs, i)[n] == rest[n - 1]);
                lemma_lex_from_errors(cs, j, n - 1);
            }
        }
    }
}


/// An ASCII letter or `_`, by character range.
pub open spec fn word_head_char(c: char) -> bool {
    ('a' <= c && c <= 'z') || ('A' <= c && c <= 'Z') || c == '_'
}

/// An ASCII letter, an ASCII digit or `_`, by character range.
pub open spec fn word_tail_char(c: char) -> bool {
    word_head_char(c) || ('0' <= c && c <= '9')
}

/// `w` without its sigil, where it starts with one of `!`, `?`, `:`, `@`.
pub open spec fn without_sigil(w: Seq<char>) -> Seq<char> {
    if w.len() > 0 && (w[0] == '!' || w[0] == '?' || w[0] == ':' || w[0] == '@') {
        w.drop_first()
    } else {
        w
    }
}

/// Whether `w` is an identifier as written: `[!?:@]?[a-zA-Z_][a-zA-Z0-9_]*`.
pub open spec fn is_identifier_word(w: Seq<char>) -> bool {
    &&& without_sigil(w).len() > 0
    &&& word_head_char(without_sigil(w)[0])
    &&& forall|k: int| 1 <= k < without_sigil(w).len() ==> word_tail_char(#[trigger] without_sigil(w)[k])
}

proof fn lemma_ident_end_all(cs: Seq<char>, i: int)
    requires
        0 <= i <= cs.len(),
        forall|k: int| i <= k < cs.len() ==> is_ident_char(#[trigger] cs[k]),
    ensures
        ident_end(cs, i) == cs.len(),
    decreases cs.len() - i,
{
    if i < cs.len() {
        lemma_ident_end_all(cs, i + 1);
    }
}

/// A source that is one identifier word, other than `true` and `false`,
/// lexes to exactly one identifier token that holds the whole word and spans
/// all of its bytes.
pub proof fn identifier_word_lexes_whole(w: Seq<char>)
    requires
        is_identifier_word(w),
        w != seq!['t', 'r', 'u', 'e'],
        w != seq!['f', 'a', 'l', 's', 'e'],
    ensures
        lex_spec(w).len() == 1,
        lex_spec(w)[0] == Ok::<(int, TokenM, int), ErrorSM>((0int, TokenM::Ident(w), encode_utf8(w).len() as int)),
{
    let sigil = w[0] == '!' || w[0] == '?' || w[0] == ':' || w[0] == '@';
    let start: int = if sigil { 1 } else { 0 };
    let body = without_sigil(w);
    assert(w.len() > 0);
    assert(body.len() == w.len() - start);
    assert forall|k: int| start <= k < w.len() implies body[k - start] == #[trigger] w[k] by {}
    assert forall|k: int| 1 <= k < w.len() implies is_ident_char(#[trigger] w[k]) by {
        assert(body[k - start] == w[k]);
        if k - start >= 1 {
            assert(word_tail_char(body[k - start]));
        } else {
            assert(word_head_char(body[0]));
        }
    }
    lemma_ident_end_all(w, 1);
    assert(!is_skipped(w[0]));
    lemma_token_at_advances(w, 0);
    assert(w.subrange(0, w.len() as int) =~= w);
    assert(token_at(w, 0) == (Some(TokenM::Ident(w)), w.len() as int));
    lemma_byte_offset_zero(w);
    assert(w.take(w.len() as int) =~= w);
    assert(lex_from(w, w.len() as int) =~= Seq::<LexItemM>::empty());
    assert(lex_from(w, 0) =~= seq![Ok((byte_offset(w, 0), TokenM::Ident(w), byte_offset(w, w.len() as int)))] + lex_from(w, w.len() as int));
}

} // verus!
