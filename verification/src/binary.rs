//! The binary encoding: a stream of tokens, each two bytes of an id and what
//! the id calls for. All numbers are little-endian.

use crate::errors::{ImperatorError, ImperatorErrorKind};
use vstd::prelude::*;
use vstd::slice::slice_subrange;

verus! {

/// The id of `=`.
pub const EQUAL: u16 = 0x0001;

/// The id of `{`.
pub const OPEN: u16 = 0x0003;

/// The id of `}`.
pub const CLOSE: u16 = 0x0004;

/// The id of a signed 32-bit integer.
pub const I32: u16 = 0x000c;

/// The id of 32 bits of floating point data.
pub const F32: u16 = 0x000d;

/// The id of a boolean.
pub const BOOL: u16 = 0x000e;

/// The id of a string that is typically quoted.
pub const QUOTED: u16 = 0x000f;

/// The id of an unsigned 32-bit integer.
pub const U32: u16 = 0x0014;

/// The id of a string that is typically without quotes.
pub const UNQUOTED: u16 = 0x0017;

/// The id of 64 bits of floating point data.
pub const F64: u16 = 0x0167;

/// The id of a colour.
pub const RGB: u16 = 0x0243;

/// The id of an unsigned 64-bit integer.
pub const U64: u16 = 0x029c;

/// The id of a signed 64-bit integer.
pub const I64: u16 = 0x0317;

/// Extracted color info.
#[derive(Debug, Clone, Copy, PartialEq, Eq, Structural)]
pub struct Rgb {
    /// Red channel
    pub r: u32,
    /// Green channel
    pub g: u32,
    /// Blue channel
    pub b: u32,
    /// Optional alpha channel
    pub a: Option<u32>,
}

/// One token of the binary encoding. Strings borrow from the data.
#[derive(Debug, Clone, Copy, PartialEq, Eq)]
pub enum Token<'a> {
    /// '{'
    Open,
    /// '}'
    Close,
    /// '='
    Equal,
    /// 32bit unsigned integer
    U32(u32),
    /// 64bit unsigned integer
    U64(u64),
    /// 32bit signed integer
    I32(i32),
    /// boolean
    Bool(bool),
    /// quoted text
    Quoted(&'a [u8]),
    /// text that is not quoted
    Unquoted(&'a [u8]),
    /// 32bits of floating point data
    F32([u8; 4]),
    /// 64bits of floating point data
    F64([u8; 8]),
    /// Rgb data
    Rgb(Rgb),
    /// 64bit signed integer
    I64(i64),
    /// token id that can be resolved to a string via a resolver
    Id(u16),
}

/// What a token is, its strings as sequences of bytes.
pub enum TokenView {
    Open,
    Close,
    Equal,
    U32(u32),
    U64(u64),
    I32(i32),
    Bool(bool),
    Quoted(Seq<u8>),
    Unquoted(Seq<u8>),
    F32(Seq<u8>),
    F64(Seq<u8>),
    Rgb(Rgb),
    I64(i64),
    Id(u16),
}

impl<'a> View for Token<'a> {
    type V = TokenView;

    open spec fn view(&self) -> TokenView {
        match *self {
            Token::Open => TokenView::Open,
            Token::Close => TokenView::Close,
            Token::Equal => TokenView::Equal,
            Token::U32(x) => TokenView::U32(x),
            Token::U64(x) => TokenView::U64(x),
            Token::I32(x) => TokenView::I32(x),
            Token::Bool(x) => TokenView::Bool(x),
            Token::Quoted(x) => TokenView::Quoted(x@),
            Token::Unquoted(x) => TokenView::Unquoted(x@),
            Token::F32(x) => TokenView::F32(x@),
            Token::F64(x) => TokenView::F64(x@),
            Token::Rgb(x) => TokenView::Rgb(x),
            Token::I64(x) => TokenView::I64(x),
            Token::Id(x) => TokenView::Id(x),
        }
    }
}

/// The number that bytes denote, the least significant byte first.
pub open spec fn le_value(s: Seq<u8>) -> nat
    decreases s.len(),
{
    if s.len() == 0 {
        0
    } else {
        s[0] as nat + 256 * le_value(s.skip(1))
    }
}

/// The signed number of `bits` bits that an unsigned one stands for in two's
/// complement.
pub open spec fn signed(value: nat, half: nat) -> int {
    if value >= half {
        value - 2 * half
    } else {
        value as int
    }
}

/// What stands at the start of binary data.
pub enum Lexed {
    /// A token, and the number of bytes that it takes.
    Token(TokenView, nat),
    /// Nothing: the data is empty.
    End,
    /// Part of a token: the data ends inside it.
    Truncated,
    /// The id of a colour that is not followed by three or four numbers in
    /// braces.
    Invalid,
}

/// A token of an id alone.
pub open spec fn lex_plain(token: TokenView) -> Lexed {
    Lexed::Token(token, 2)
}

/// The colour that follows the id of a colour: `{`, three or four unsigned
/// 32-bit numbers with their ids, and `}`.
pub open spec fn lex_color(s: Seq<u8>) -> Lexed {
    if s.len() < 24 {
        Lexed::Truncated
    } else if le_value(s.subrange(2, 4)) == OPEN && le_value(s.subrange(4, 6)) == U32 && le_value(
        s.subrange(10, 12),
    ) == U32 && le_value(s.subrange(16, 18)) == U32 {
        let r = le_value(s.subrange(6, 10)) as u32;
        let g = le_value(s.subrange(12, 16)) as u32;
        let b = le_value(s.subrange(18, 22)) as u32;
        if le_value(s.subrange(22, 24)) == CLOSE {
            Lexed::Token(TokenView::Rgb(Rgb { r, g, b, a: None }), 24)
        } else if le_value(s.subrange(22, 24)) == U32 {
            if s.len() < 30 {
                Lexed::Truncated
            } else if le_value(s.subrange(28, 30)) == CLOSE {
                Lexed::Token(
                    TokenView::Rgb(Rgb { r, g, b, a: Some(le_value(s.subrange(24, 28)) as u32) }),
                    30,
                )
            } else {
                Lexed::Invalid
            }
        } else {
            Lexed::Invalid
        }
    } else {
        Lexed::Invalid
    }
}

/// A string: two bytes of its length, then its bytes.
pub open spec fn lex_string(s: Seq<u8>, quoted: bool) -> Lexed {
    if s.len() < 4 {
        Lexed::Truncated
    } else {
        let len = le_value(s.subrange(2, 4));
        if s.len() < 4 + len {
            Lexed::Truncated
        } else {
            let text = s.subrange(4, 4 + len as int);
            Lexed::Token(
                if quoted {
                    TokenView::Quoted(text)
                } else {
                    TokenView::Unquoted(text)
                },
                4 + len,
            )
        }
    }
}

/// The first token of binary data. Every id that is none of the thirteen of
/// the encoding is the id of a name.
pub open spec fn lex(s: Seq<u8>) -> Lexed {
    if s.len() == 0 {
        Lexed::End
    } else if s.len() < 2 {
        Lexed::Truncated
    } else {
        let id = le_value(s.subrange(0, 2)) as u16;
        if id == OPEN {
            lex_plain(TokenView::Open)
        } else if id == CLOSE {
            lex_plain(TokenView::Close)
        } else if id == EQUAL {
            lex_plain(TokenView::Equal)
        } else if id == U32 || id == I32 || id == F32 {
            if s.len() < 6 {
                Lexed::Truncated
            } else if id == U32 {
                Lexed::Token(TokenView::U32(le_value(s.subrange(2, 6)) as u32), 6)
            } else if id == I32 {
                Lexed::Token(
                    TokenView::I32(signed(le_value(s.subrange(2, 6)), 0x8000_0000) as i32),
                    6,
                )
            } else {
                Lexed::Token(TokenView::F32(s.subrange(2, 6)), 6)
            }
        } else if id == U64 || id == I64 || id == F64 {
            if s.len() < 10 {
                Lexed::Truncated
            } else if id == U64 {
                Lexed::Token(TokenView::U64(le_value(s.subrange(2, 10)) as u64), 10)
            } else if id == I64 {
                Lexed::Token(
                    TokenView::I64(
                        signed(le_value(s.subrange(2, 10)), 0x8000_0000_0000_0000) as i64,
                    ),
                    10,
                )
            } else {
                Lexed::Token(TokenView::F64(s.subrange(2, 10)), 10)
            }
        } else if id == BOOL {
            if s.len() < 3 {
                Lexed::Truncated
            } else {
                Lexed::Token(TokenView::Bool(s[2] != 0), 3)
            }
        } else if id == QUOTED {
            lex_string(s, true)
        } else if id == UNQUOTED {
            lex_string(s, false)
        } else if id == RGB {
            lex_color(s)
        } else {
            lex_plain(TokenView::Id(id))
        }
    }
}

/// A token takes at least two bytes, and no more than there are.
pub proof fn lemma_lex_len(s: Seq<u8>)
    ensures
        lex(s) matches Lexed::Token(_, n) ==> 2 <= n <= s.len(),
{
}

/// The error that stands for what is no token.
pub open spec fn lex_error(l: Lexed) -> ImperatorErrorKind {
    if l is Invalid {
        ImperatorErrorKind::InvalidToken
    } else {
        ImperatorErrorKind::Truncated
    }
}

/// How many bytes a container takes that is open `depth` levels deep at the
/// start of `s`: up to and with the `}` that closes the outermost of these
/// levels. Where the data ends before that, or holds what is no token, the
/// error that says so.
pub open spec fn container_end(s: Seq<u8>, depth: nat) -> Result<nat, ImperatorErrorKind>
    decreases s.len(),
{
    match lex(s) {
        Lexed::Token(t, n) => {
            if n < 2 || n > s.len() {
                Err(ImperatorErrorKind::Truncated)
            } else if t is Close && depth <= 1 {
                Ok(n)
            } else {
                let inner = if t is Close {
                    (depth - 1) as nat
                } else if t is Open {
                    depth + 1
                } else {
                    depth
                };
                match container_end(s.skip(n as int), inner) {
                    Ok(k) => Ok(n + k),
                    Err(e) => Err(e),
                }
            }
        },
        other => Err(lex_error(other)),
    }
}

/// A container ends within the data, after two bytes at least; where it does
/// not end, the data is cut short or holds a broken colour.
pub proof fn lemma_container_end(s: Seq<u8>, depth: nat)
    ensures
        match container_end(s, depth) {
            Ok(k) => 2 <= k <= s.len(),
            Err(e) => e is Truncated || e is InvalidToken,
        },
    decreases s.len(),
{
    if let Lexed::Token(t, n) = lex(s) {
        if n < 2 || n > s.len() {
        } else if t is Close && depth <= 1 {
        } else {
            let inner = if t is Close {
                (depth - 1) as nat
            } else if t is Open {
                depth + 1
            } else {
                depth
            };
            lemma_container_end(s.skip(n as int), inner);
        }
    }
}

/// The tokens at the start of `s` that lie within its first `len` bytes.
pub open spec fn tokens_within(s: Seq<u8>, len: nat) -> Seq<TokenView>
    decreases len,
{
    match lex(s) {
        Lexed::Token(t, n) => if 2 <= n <= len && n <= s.len() {
            seq![t] + tokens_within(s.skip(n as int), (len - n) as nat)
        } else {
            Seq::empty()
        },
        _ => Seq::empty(),
    }
}

/// How many containers more are open than closed after the tokens.
pub open spec fn net_depth(tokens: Seq<TokenView>) -> int
    decreases tokens.len(),
{
    if tokens.len() == 0 {
        0
    } else {
        net_depth(tokens.skip(1)) + if tokens[0] is Open {
            1int
        } else if tokens[0] is Close {
            -1int
        } else {
            0int
        }
    }
}

/// What `skip_container` skips is the shortest run of whole tokens that closes
/// the levels that were open: it ends in a `}`, it closes `depth` containers
/// more than it opens, and no shorter run of its tokens does.
pub proof fn container_end_is_the_matching_close(s: Seq<u8>, depth: nat)
    requires
        depth >= 1,
        container_end(s, depth) is Ok,
    ensures
        ({
            let tokens = tokens_within(s, container_end(s, depth)->Ok_0);
            &&& tokens.len() >= 1
            &&& tokens.last() is Close
            &&& net_depth(tokens) == -depth
            &&& forall|j: int| 0 <= j < tokens.len() ==> net_depth(#[trigger] tokens.take(j)) > -depth
        }),
    decreases s.len(),
{
    let k = container_end(s, depth)->Ok_0;
    let tokens = tokens_within(s, k);
    lemma_container_end(s, depth);
    if let Lexed::Token(t, n) = lex(s) {
        if t is Close && depth <= 1 {
            assert(tokens_within(s.skip(n as int), 0) =~= Seq::<TokenView>::empty());
            assert(tokens =~= seq![t]);
            assert(tokens.skip(1) =~= Seq::<TokenView>::empty());
            assert(tokens[0] == t);
            assert(net_depth(tokens.skip(1)) == 0);
            assert(net_depth(tokens) == -1);
            assert forall|j: int| 0 <= j < tokens.len() implies net_depth(
                #[trigger] tokens.take(j),
            ) > -depth by {
                assert(tokens.take(0) =~= Seq::<TokenView>::empty());
            }
        } else {
            let inner = if t is Close {
                (depth - 1) as nat
            } else if t is Open {
                depth + 1
            } else {
                depth
            };
            let rest = s.skip(n as int);
            lemma_container_end(rest, inner);
            container_end_is_the_matching_close(rest, inner);
            let tail = tokens_within(rest, (k - n) as nat);
            assert(tokens =~= seq![t] + tail);
            assert(tokens.skip(1) =~= tail);
            assert(tokens.last() == tail.last());
            assert(tokens[0] == t);
            assert(net_depth(tail) == -inner);
            assert(net_depth(tokens) == -depth);
            assert forall|j: int| 0 <= j < tokens.len() implies net_depth(
                #[trigger] tokens.take(j),
            ) > -depth by {
                if j == 0 {
                    assert(tokens.take(0) =~= Seq::<TokenView>::empty());
                } else {
                    assert(tokens.take(j).skip(1) =~= tail.take(j - 1));
                    assert(tokens.take(j)[0] == t);
                    assert(net_depth(tail.take(j - 1)) > -inner);
                }
            }
        }
    }
}

/// Two bytes, read as little-endian numbers do.
pub proof fn lemma_le_value_2(s: Seq<u8>)
    requires
        s.len() == 2,
    ensures
        le_value(s) == s[0] + 256 * s[1],
{
    reveal_with_fuel(le_value, 3);
    assert(s.skip(1)[0] == s[1]);
    assert(s.skip(1).skip(1).len() == 0);
}

/// Four bytes, read as little-endian numbers do.
pub proof fn lemma_le_value_4(s: Seq<u8>)
    requires
        s.len() == 4,
    ensures
        le_value(s) == s[0] + 256 * s[1] + 65536 * s[2] + 16777216 * s[3],
{
    lemma_le_value_2(s.skip(2));
    assert(s.skip(1).skip(1) =~= s.skip(2));
    assert(s.skip(1)[0] == s[1]);
    assert(s.skip(2)[0] == s[2]);
    assert(s.skip(2)[1] == s[3]);
    assert(le_value(s) == s[0] + 256 * le_value(s.skip(1)));
    assert(le_value(s.skip(1)) == s[1] + 256 * le_value(s.skip(2)));
}

/// Eight bytes, read as little-endian numbers do.
pub proof fn lemma_le_value_8(s: Seq<u8>)
    requires
        s.len() == 8,
    ensures
        le_value(s) == le_value(s.take(4)) + 0x1_0000_0000 * le_value(s.skip(4)),
        le_value(s) < 0x1_0000_0000_0000_0000,
{
    lemma_le_value_4(s.take(4));
    lemma_le_value_4(s.skip(4));
    let t = s.skip(4);
    assert(s.skip(1).skip(1) =~= s.skip(2));
    assert(s.skip(2).skip(1) =~= s.skip(3));
    assert(s.skip(3).skip(1) =~= s.skip(4));
    assert(le_value(s) == s[0] + 256 * le_value(s.skip(1)));
    assert(le_value(s.skip(1)) == s[1] + 256 * le_value(s.skip(2)));
    assert(le_value(s.skip(2)) == s[2] + 256 * le_value(s.skip(3)));
    assert(le_value(s.skip(3)) == s[3] + 256 * le_value(s.skip(4)));
    assert(s.skip(1)[0] == s[1]);
    assert(s.skip(2)[0] == s[2]);
    assert(s.skip(3)[0] == s[3]);
}

/// The number of two bytes.
fn read_u16(data: &[u8], at: usize) -> (r: u16)
    requires
        at + 2 <= data@.len(),
    ensures
        r == le_value(data@.subrange(at as int, at + 2)),
{
    proof {
        lemma_le_value_2(data@.subrange(at as int, at + 2));
    }
    data[at] as u16 + (data[at + 1] as u16) * 256
}

/// The number of four bytes.
fn read_u32(data: &[u8], at: usize) -> (r: u32)
    requires
        at + 4 <= data@.len(),
    ensures
        r == le_value(data@.subrange(at as int, at + 4)),
{
    proof {
        lemma_le_value_4(data@.subrange(at as int, at + 4));
    }
    data[at] as u32 + (data[at + 1] as u32) * 256 + (data[at + 2] as u32) * 65536 + (data[at
        + 3] as u32) * 16777216
}

/// The number of eight bytes.
fn read_u64(data: &[u8], at: usize) -> (r: u64)
    requires
        at + 8 <= data@.len(),
    ensures
        r == le_value(data@.subrange(at as int, at + 8)),
{
    let total: usize = data.len();
    assert(at + 8 <= total);
    let low: u32 = read_u32(data, at);
    let high: u32 = read_u32(data, at + 4);
    proof {
        let s = data@.subrange(at as int, at + 8);
        lemma_le_value_8(s);
        assert(s.take(4) =~= data@.subrange(at as int, at + 4));
        assert(s.skip(4) =~= data@.subrange(at + 4, at + 8));
    }
    low as u64 + (high as u64) * 0x1_0000_0000
}

/// The signed number that 32 bits stand for.
pub fn signed_32(value: u32) -> (r: i32)
    ensures
        r == signed(value as nat, 0x8000_0000),
{
    if value >= 0x8000_0000 {
        ((value - 0x8000_0000) as i32) + i32::MIN
    } else {
        value as i32
    }
}

/// The signed number that 64 bits stand for.
pub fn signed_64(value: u64) -> (r: i64)
    ensures
        r == signed(value as nat, 0x8000_0000_0000_0000),
{
    if value >= 0x8000_0000_0000_0000 {
        ((value - 0x8000_0000_0000_0000) as i64) + i64::MIN
    } else {
        value as i64
    }
}

/// A lexer that hands out the tokens of binary data one at a time.
#[derive(Debug, Clone, Copy)]
pub struct TokenReader<'a> {
    data: &'a [u8],
    position: usize,
}

impl<'a> TokenReader<'a> {
    /// The position never leaves the data.
    #[verifier::type_invariant]
    closed spec fn in_bounds(self) -> bool {
        self.position <= self.data@.len()
    }

    /// The data that the reader was made for.
    pub closed spec fn data(&self) -> Seq<u8> {
        self.data@
    }

    /// The number of bytes that have been consumed.
    pub closed spec fn consumed(&self) -> nat {
        self.position as nat
    }

    /// The bytes that have not been consumed yet.
    pub open spec fn remaining(&self) -> Seq<u8> {
        self.data().skip(self.consumed() as int)
    }

    /// A reader at the start of the data.
    pub fn from_slice(data: &'a [u8]) -> (r: Self)
        ensures
            r.data() == data@,
            r.consumed() == 0,
            r.remaining() == data@,
    {
        assert(data@.skip(0) =~= data@);
        TokenReader { data, position: 0 }
    }

    /// Returns the byte position of the data stream that has been processed.
    pub fn position(&self) -> (r: usize)
        ensures
            r == self.consumed(),
            r <= self.data().len(),
    {
        proof {
            use_type_invariant(self);
        }
        self.position
    }

    /// The colour that follows the id of a colour.
    fn next_color(&mut self) -> (r: Result<Token<'a>, ImperatorError>)
        requires
            old(self).remaining().len() >= 2,
        ensures
            final(self).data() == old(self).data(),
            match lex_color(old(self).remaining()) {
                Lexed::Token(t, n) => r matches Ok(token) && token@ == t && final(self).consumed()
                    == old(self).consumed() + n,
                other => r matches Err(e) && e@ == lex_error(other) && final(self).consumed()
                    == old(self).consumed(),
            },
    {
        proof {
            use_type_invariant(&*self);
        }
        let data: &[u8] = self.data;
        let at: usize = self.position;
        let left: usize = data.len() - at;
        let ghost s = self.remaining();
        if left < 24 {
            return Err(ImperatorError::new(ImperatorErrorKind::Truncated));
        }
        proof {
            assert(s.subrange(2, 4) =~= data@.subrange(at + 2, at + 4));
            assert(s.subrange(4, 6) =~= data@.subrange(at + 4, at + 6));
            assert(s.subrange(6, 10) =~= data@.subrange(at + 6, at + 10));
            assert(s.subrange(10, 12) =~= data@.subrange(at + 10, at + 12));
            assert(s.subrange(12, 16) =~= data@.subrange(at + 12, at + 16));
            assert(s.subrange(16, 18) =~= data@.subrange(at + 16, at + 18));
            assert(s.subrange(18, 22) =~= data@.subrange(at + 18, at + 22));
            assert(s.subrange(22, 24) =~= data@.subrange(at + 22, at + 24));
        }
        let start: u16 = read_u16(data, at + 2);
        let red_id: u16 = read_u16(data, at + 4);
        let r: u32 = read_u32(data, at + 6);
        let green_id: u16 = read_u16(data, at + 10);
        let g: u32 = read_u32(data, at + 12);
        let blue_id: u16 = read_u16(data, at + 16);
        let b: u32 = read_u32(data, at + 18);
        let after: u16 = read_u16(data, at + 22);
        if !(start == OPEN && red_id == U32 && green_id == U32 && blue_id == U32) {
            return Err(ImperatorError::new(ImperatorErrorKind::InvalidToken));
        }
        if after == CLOSE {
            self.position = at + 24;
            Ok(Token::Rgb(Rgb { r, g, b, a: None }))
        } else if after == U32 {
            if left < 30 {
                return Err(ImperatorError::new(ImperatorErrorKind::Truncated));
            }
            proof {
                assert(s.subrange(24, 28) =~= data@.subrange(at + 24, at + 28));
                assert(s.subrange(28, 30) =~= data@.subrange(at + 28, at + 30));
            }
            let a: u32 = read_u32(data, at + 24);
            let end: u16 = read_u16(data, at + 28);
            if end == CLOSE {
                self.position = at + 30;
                Ok(Token::Rgb(Rgb { r, g, b, a: Some(a) }))
            } else {
                Err(ImperatorError::new(ImperatorErrorKind::InvalidToken))
            }
        } else {
            Err(ImperatorError::new(ImperatorErrorKind::InvalidToken))
        }
    }

    /// Read a token, returning none when all the data has been consumed.
    /// Where the data ends inside a token or holds a broken colour, the reader
    /// stays where it is.
    pub fn next(&mut self) -> (r: Result<Option<Token<'a>>, ImperatorError>)
        ensures
            final(self).data() == old(self).data(),
            match lex(old(self).remaining()) {
                Lexed::Token(t, n) => r matches Ok(Some(token)) && token@ == t && final(self).consumed() == old(self).consumed() + n && final(self).remaining() == old(self).remaining().skip(n as int),
                Lexed::End => r matches Ok(None) && final(self).consumed() == old(self).consumed(),
                other => r matches Err(e) && e@ == lex_error(other) && final(self).consumed()
                    == old(self).consumed(),
            },
    {
        proof {
            use_type_invariant(&*self);
        }
        let data: &[u8] = self.data;
        let at: usize = self.position;
        let left: usize = data.len() - at;
        let ghost s = self.remaining();
        if left == 0 {
            return Ok(None);
        }
        if left < 2 {
            return Err(ImperatorError::new(ImperatorErrorKind::Truncated));
        }
        assert(s.subrange(0, 2) =~= data@.subrange(at as int, at + 2));
        let id: u16 = read_u16(data, at);
        let result: Result<Token<'a>, ImperatorError> = if id == OPEN {
            self.position = at + 2;
            Ok(Token::Open)
        } else if id == CLOSE {
            self.position = at + 2;
            Ok(Token::Close)
        } else if id == EQUAL {
            self.position = at + 2;
            Ok(Token::Equal)
        } else if id == U32 || id == I32 || id == F32 {
            if left < 6 {
                Err(ImperatorError::new(ImperatorErrorKind::Truncated))
            } else {
                assert(s.subrange(2, 6) =~= data@.subrange(at + 2, at + 6));
                self.position = at + 6;
                if id == U32 {
                    Ok(Token::U32(read_u32(data, at + 2)))
                } else if id == I32 {
                    Ok(Token::I32(signed_32(read_u32(data, at + 2))))
                } else {
                    let bytes: [u8; 4] = [data[at + 2], data[at + 3], data[at + 4], data[at + 5]];
                    assert(bytes@ =~= s.subrange(2, 6));
                    Ok(Token::F32(bytes))
                }
            }
        } else if id == U64 || id == I64 || id == F64 {
            if left < 10 {
                Err(ImperatorError::new(ImperatorErrorKind::Truncated))
            } else {
                assert(s.subrange(2, 10) =~= data@.subrange(at + 2, at + 10));
                self.position = at + 10;
                if id == U64 {
                    Ok(Token::U64(read_u64(data, at + 2)))
                } else if id == I64 {
                    Ok(Token::I64(signed_64(read_u64(data, at + 2))))
                } else {
                    let bytes: [u8; 8] = [
                        data[at + 2],
                        data[at + 3],
                        data[at + 4],
                        data[at + 5],
                        data[at + 6],
                        data[at + 7],
                        data[at + 8],
                        data[at + 9],
                    ];
                    assert(bytes@ =~= s.subrange(2, 10));
                    Ok(Token::F64(bytes))
                }
            }
        } else if id == BOOL {
            if left < 3 {
                Err(ImperatorError::new(ImperatorErrorKind::Truncated))
            } else {
                self.position = at + 3;
                Ok(Token::Bool(data[at + 2] != 0))
            }
        } else if id == QUOTED || id == UNQUOTED {
            if left < 4 {
                Err(ImperatorError::new(ImperatorErrorKind::Truncated))
            } else {
                assert(s.subrange(2, 4) =~= data@.subrange(at + 2, at + 4));
                let len: usize = read_u16(data, at + 2) as usize;
                if left - 4 < len {
                    Err(ImperatorError::new(ImperatorErrorKind::Truncated))
                } else {
                    let text: &'a [u8] = slice_subrange(data, at + 4, at + 4 + len);
                    assert(text@ =~= s.subrange(4, 4 + len));
                    self.position = at + 4 + len;
                    if id == QUOTED {
                        Ok(Token::Quoted(text))
                    } else {
                        Ok(Token::Unquoted(text))
                    }
                }
            }
        } else if id == RGB {
            self.next_color()
        } else {
            self.position = at + 2;
            Ok(Token::Id(id))
        };
        proof {
            lemma_lex_len(s);
            if let Lexed::Token(t, n) = lex(s) {
                assert(self.data@.skip(self.position as int) =~= s.skip(n as int));
            }
        }
        match result {
            Ok(token) => Ok(Some(token)),
            Err(e) => Err(e),
        }
    }

    /// Read the next token in the stream. Will error if not enough data
    /// remains to decode a token.
    pub fn read(&mut self) -> (r: Result<Token<'a>, ImperatorError>)
        ensures
            final(self).data() == old(self).data(),
            match lex(old(self).remaining()) {
                Lexed::Token(t, n) => r matches Ok(token) && token@ == t && final(self).consumed()
                    == old(self).consumed() + n && final(self).remaining() == old(self).remaining().skip(n as int),
                other => r matches Err(e) && e@ == lex_error(other) && final(self).consumed()
                    == old(self).consumed(),
            },
    {
        match self.next() {
            Ok(Some(token)) => Ok(token),
            Ok(None) => Err(ImperatorError::new(ImperatorErrorKind::Truncated)),
            Err(e) => Err(e),
        }
    }

    /// Advance through the containing block until the closing token is
    /// consumed: the next token is then the one that follows the `}` that
    /// matches the `{` which the caller has read.
    pub fn skip_container(&mut self) -> (r: Result<(), ImperatorError>)
        ensures
            final(self).data() == old(self).data(),
            match container_end(old(self).remaining(), 1) {
                Ok(n) => r is Ok && final(self).consumed() == old(self).consumed() + n && final(self).remaining() == old(self).remaining().skip(n as int),
                Err(kind) => r matches Err(e) && e@ == kind,
            },
    {
        let ghost start = self.remaining();
        let ghost start_consumed = self.consumed();
        let ghost mut skipped: nat = 0;
        let mut depth: usize = 1;
        let total: usize = self.data.len();
        proof {
            use_type_invariant(&*self);
            assert(start.skip(0) =~= start);
            assert(start.len() <= total);
        }
        loop
            invariant
                self.data() == old(self).data(),
                start == old(self).remaining(),
                start_consumed == old(self).consumed(),
                depth >= 1,
                2 * (depth - 1) <= skipped,
                start.len() <= usize::MAX,
                skipped <= start.len(),
                self.consumed() == start_consumed + skipped,
                self.remaining() == start.skip(skipped as int),
                match container_end(self.remaining(), depth as nat) {
                    Ok(k) => container_end(start, 1) == Ok::<nat, ImperatorErrorKind>(skipped + k),
                    Err(kind) => container_end(start, 1) == Err::<nat, ImperatorErrorKind>(kind),
                },
            decreases start.len() - skipped,
        {
            let ghost before = self.remaining();
            proof {
                lemma_lex_len(before);
                use_type_invariant(&*self);
            }
            let token = match self.read() {
                Ok(token) => token,
                Err(e) => {
                    return Err(e);
                },
            };
            proof {
                if let Lexed::Token(t, n) = lex(before) {
                    assert(start.skip(skipped as int).skip(n as int) =~= start.skip(
                        (skipped + n) as int,
                    ));
                    skipped = skipped + n;
                }
            }
            match token {
                Token::Close => {
                    depth = depth - 1;
                    if depth == 0 {
                        return Ok(());
                    }
                },
                Token::Open => {
                    depth = depth + 1;
                },
                _ => {},
            }
        }
    }
}

} // verus!
