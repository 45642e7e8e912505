//! The first line of a save: what kind of save follows, and how long its
//! metadata is.

use crate::date::find_byte;
use crate::digits::{
    digits, lemma_digits_len, lemma_digits_len_bound, padded, push_number, zeros,
};
use crate::errors::{ImperatorError, ImperatorErrorKind};
use vstd::prelude::*;
use vstd::slice::slice_subrange;

verus! {

/// Carriage return.
pub const CR: u8 = 13;

/// Line feed, which ends the header.
pub const LF: u8 = 10;

/// The greatest number that stands for a kind of save.
pub const LAST_KIND: u16 = 5;

/// The greatest number of a kind that a header can state: two hexadecimal
/// digits.
pub const MAX_KIND: u16 = 0xff;

/// The greatest length of the metadata that a header can state: eight
/// hexadecimal digits.
pub const MAX_METADATA_LEN: u64 = 0xffff_ffff;

/// The three bytes `SAV` that every header starts with.
pub open spec fn magic() -> Seq<u8> {
    seq![83u8, 65u8, 86u8]
}

/// The kind of save file.
#[derive(Debug, Clone, Copy, PartialEq, Eq, Structural)]
pub enum SaveHeaderKind {
    /// uncompressed text
    Text,
    /// uncompressed binary
    Binary,
    /// uncompressed text metadata header with compressed text gamestate
    UnifiedText,
    /// uncompressed binary metadata header with compressed binary gamestate
    UnifiedBinary,
    /// metadata is stored within the zip file
    SplitText,
    /// metadata is stored within the zip file
    SplitBinary,
    /// An unknown type
    Other(u16),
}

/// The kind that a number of the header stands for.
pub open spec fn kind_of_value(kind: u16) -> SaveHeaderKind {
    if kind == 0 {
        SaveHeaderKind::Text
    } else if kind == 1 {
        SaveHeaderKind::Binary
    } else if kind == 2 {
        SaveHeaderKind::UnifiedText
    } else if kind == 3 {
        SaveHeaderKind::UnifiedBinary
    } else if kind == 4 {
        SaveHeaderKind::SplitText
    } else if kind == 5 {
        SaveHeaderKind::SplitBinary
    } else {
        SaveHeaderKind::Other(kind)
    }
}

/// The number that stands for a kind in the header.
pub open spec fn value_of_kind(kind: SaveHeaderKind) -> u16 {
    match kind {
        SaveHeaderKind::Text => 0,
        SaveHeaderKind::Binary => 1,
        SaveHeaderKind::UnifiedText => 2,
        SaveHeaderKind::UnifiedBinary => 3,
        SaveHeaderKind::SplitText => 4,
        SaveHeaderKind::SplitBinary => 5,
        SaveHeaderKind::Other(x) => x,
    }
}

impl SaveHeaderKind {
    /// Creates a SaveHeaderKind from a numeric value.
    pub fn new(kind: u16) -> (r: SaveHeaderKind)
        ensures
            r == kind_of_value(kind),
            value_of_kind(r) == kind,
    {
        if kind == 0 {
            SaveHeaderKind::Text
        } else if kind == 1 {
            SaveHeaderKind::Binary
        } else if kind == 2 {
            SaveHeaderKind::UnifiedText
        } else if kind == 3 {
            SaveHeaderKind::UnifiedBinary
        } else if kind == 4 {
            SaveHeaderKind::SplitText
        } else if kind == 5 {
            SaveHeaderKind::SplitBinary
        } else {
            SaveHeaderKind::Other(kind)
        }
    }

    /// Returns the numeric value of this header kind.
    pub fn value(&self) -> (r: u16)
        ensures
            r == value_of_kind(*self),
    {
        match self {
            SaveHeaderKind::Text => 0,
            SaveHeaderKind::Binary => 1,
            SaveHeaderKind::UnifiedText => 2,
            SaveHeaderKind::UnifiedBinary => 3,
            SaveHeaderKind::SplitText => 4,
            SaveHeaderKind::SplitBinary => 5,
            SaveHeaderKind::Other(x) => *x,
        }
    }

    /// Returns true if this header kind indicates binary encoding.
    pub fn is_binary(&self) -> (r: bool)
        ensures
            r == (value_of_kind(*self) == 1 || value_of_kind(*self) == 3 || value_of_kind(*self)
                == 5),
    {
        match self {
            SaveHeaderKind::Binary | SaveHeaderKind::UnifiedBinary | SaveHeaderKind::SplitBinary => true,
            SaveHeaderKind::Other(x) => *x == 1 || *x == 3 || *x == 5,
            _ => false,
        }
    }

    /// Returns true if this header kind indicates text encoding.
    pub fn is_text(&self) -> (r: bool)
        ensures
            r == (value_of_kind(*self) == 0 || value_of_kind(*self) == 2 || value_of_kind(*self)
                == 4),
    {
        match self {
            SaveHeaderKind::Text | SaveHeaderKind::UnifiedText | SaveHeaderKind::SplitText => true,
            SaveHeaderKind::Other(x) => *x == 0 || *x == 2 || *x == 4,
            _ => false,
        }
    }
}

/// What a header says.
pub struct HeaderView {
    /// The version of the header's own layout.
    pub version: u16,
    /// The number of the kind of save.
    pub kind: u16,
    /// Eight bytes that the game draws for each save.
    pub random: Seq<u8>,
    /// The length of the metadata in bytes.
    pub metadata_len: u64,
    /// Eight bytes of padding in the long layout, none in the short one.
    pub padding: Seq<u8>,
    /// Whether the line ends in a carriage return and a line feed.
    pub carriage_return: bool,
}

/// Whether the parts of a header have the lengths and widths of a header.
pub open spec fn well_formed(h: HeaderView) -> bool {
    &&& h.version <= 0xff
    &&& h.random.len() == 8
    &&& (h.padding.len() == 0 || h.padding.len() == 8)
}

/// Whether the numbers of a header fill their fields and no more, so that
/// the header can be written.
pub open spec fn fits(h: HeaderView) -> bool {
    h.kind <= MAX_KIND && h.metadata_len <= MAX_METADATA_LEN
}

/// The length of the line that a header was read from.
pub open spec fn line_len(h: HeaderView) -> nat {
    (24 + h.padding.len() + if h.carriage_return {
        1nat
    } else {
        0nat
    }) as nat
}

/// The end of a header line.
pub open spec fn line_end(carriage_return: bool) -> Seq<u8> {
    if carriage_return {
        seq![CR, LF]
    } else {
        seq![LF]
    }
}

/// The line that a header is written as: the magic, version and kind in two
/// hexadecimal digits each, the random bytes, the metadata length in eight
/// hexadecimal digits, the padding, and the end of the line.
pub open spec fn header_line(h: HeaderView) -> Seq<u8> {
    magic() + padded(h.version as nat, 16, 2) + padded(h.kind as nat, 16, 2) + h.random + padded(
        h.metadata_len as nat,
        16,
        8,
    ) + h.padding + line_end(h.carriage_return)
}

/// The value of a hexadecimal digit, in either case.
pub open spec fn hex_digit(b: u8) -> Option<nat> {
    if 48 <= b <= 57 {
        Some((b - 48) as nat)
    } else if 97 <= b <= 102 {
        Some((b - 87) as nat)
    } else if 65 <= b <= 70 {
        Some((b - 55) as nat)
    } else {
        None
    }
}

/// Whether every byte is a hexadecimal digit.
pub open spec fn all_hex(s: Seq<u8>) -> bool {
    forall|i: int| 0 <= i < s.len() ==> (#[trigger] hex_digit(s[i])) is Some
}

/// The number that a run of hexadecimal digits denotes.
pub open spec fn hex_number(s: Seq<u8>) -> nat
    decreases s.len(),
{
    if s.len() == 0 {
        0
    } else {
        hex_number(s.drop_last()) * 16 + hex_digit(s.last()).unwrap()
    }
}

/// The number that a field of the header denotes: hexadecimal digits, at
/// least one, which a `+` may precede.
pub open spec fn hex_field(s: Seq<u8>) -> Option<nat> {
    let body = if s.len() > 0 && s[0] == 43 {
        s.skip(1)
    } else {
        s
    };
    if body.len() > 0 && all_hex(body) {
        Some(hex_number(body))
    } else {
        None
    }
}

/// The part of the data in which the end of the header line is looked for.
pub open spec fn search_window(data: Seq<u8>) -> Seq<u8> {
    if data.len() < 33 {
        data
    } else {
        data.take(33)
    }
}

/// What the start of a save says as a header, if it is one: it starts with the
/// magic, its three numbers are hexadecimal, its kind is one of the six that
/// are known, and its first line feed stands where the short or the long
/// layout ends, after a carriage return or not.
pub open spec fn parse_header(data: Seq<u8>) -> Option<HeaderView> {
    let window = search_window(data);
    let newline = find_byte(window, LF);
    let carriage_return = newline > 0 && newline < window.len() && data[newline - 1] == CR;
    let padding_end = if carriage_return {
        newline - 1
    } else {
        newline
    };
    if data.len() >= 24 && data.take(3) == magic() && hex_field(data.subrange(3, 5)) is Some
        && hex_field(data.subrange(5, 7)) is Some && hex_field(data.subrange(5, 7)).unwrap()
        <= LAST_KIND && hex_field(data.subrange(15, 23)) is Some && newline < window.len() && (
    padding_end == 23 || padding_end == 31) {
        Some(
            HeaderView {
                version: hex_field(data.subrange(3, 5)).unwrap() as u16,
                kind: hex_field(data.subrange(5, 7)).unwrap() as u16,
                random: data.subrange(7, 15),
                metadata_len: hex_field(data.subrange(15, 23)).unwrap() as u64,
                padding: if padding_end == 31 {
                    data.subrange(23, 31)
                } else {
                    Seq::empty()
                },
                carriage_return,
            },
        )
    } else {
        None
    }
}

/// Sixteen to the power of `n`.
pub open spec fn sixteen_to(n: nat) -> nat
    decreases n,
{
    if n == 0 {
        1
    } else {
        16 * sixteen_to((n - 1) as nat)
    }
}

/// A run of `n` hexadecimal digits denotes a number below sixteen to the `n`.
pub proof fn lemma_hex_number_bound(s: Seq<u8>)
    requires
        all_hex(s),
    ensures
        hex_number(s) < sixteen_to(s.len()),
    decreases s.len(),
{
    if s.len() == 0 {
    } else {
        let t = s.drop_last();
        assert forall|i: int| 0 <= i < t.len() implies (#[trigger] hex_digit(t[i])) is Some by {
            assert(t[i] == s[i]);
        }
        lemma_hex_number_bound(t);
        assert(hex_digit(s.last()) is Some);
    }
}

/// A number below 256 fills two hexadecimal digits, and one below two to the
/// 32 fills eight.
pub proof fn lemma_hex_widths(n: nat)
    ensures
        n <= 0xff ==> padded(n, 16, 2).len() == 2,
        n <= 0xffff_ffff ==> padded(n, 16, 8).len() == 8,
        padded(n, 16, 2).len() >= 2,
        padded(n, 16, 8).len() >= 8,
{
    lemma_digits_len(n, 16);
    if n <= 0xff {
        assert(vstd::arithmetic::power::pow(16, 2) == 256) by {
            reveal_with_fuel(vstd::arithmetic::power::pow, 3);
        }
        lemma_digits_len_bound(n, 16, 2, 256);
    }
    if n <= 0xffff_ffff {
        assert(vstd::arithmetic::power::pow(16, 8) == 0x1_0000_0000) by {
            reveal_with_fuel(vstd::arithmetic::power::pow, 9);
        }
        lemma_digits_len_bound(n, 16, 8, 0x1_0000_0000);
    }
}

/// The line of a header is as long as the line it was read from, as long as
/// its kind fills two digits and its metadata length eight; it is never shorter.
pub proof fn lemma_header_line_len(h: HeaderView)
    requires
        well_formed(h),
    ensures
        header_line(h).len() >= line_len(h),
        h.kind <= 0xff && h.metadata_len <= 0xffff_ffff ==> header_line(h).len() == line_len(h),
{
    lemma_hex_widths(h.version as nat);
    lemma_hex_widths(h.kind as nat);
    lemma_hex_widths(h.metadata_len as nat);
}

/// A run of zeros denotes zero in hexadecimal too.
pub proof fn lemma_hex_number_zeros(count: nat)
    ensures
        hex_number(zeros(count)) == 0,
        all_hex(zeros(count)),
    decreases count,
{
    if count == 0 {
    } else {
        assert(zeros(count).drop_last() =~= zeros((count - 1) as nat));
        lemma_hex_number_zeros((count - 1) as nat);
    }
}

/// Leading zeros do not change the value of a run of hexadecimal digits.
pub proof fn lemma_hex_number_leading_zeros(count: nat, s: Seq<u8>)
    requires
        all_hex(s),
    ensures
        hex_number(zeros(count) + s) == hex_number(s),
        all_hex(zeros(count) + s),
    decreases s.len(),
{
    let t = zeros(count) + s;
    lemma_hex_number_zeros(count);
    assert forall|i: int| 0 <= i < t.len() implies (#[trigger] hex_digit(t[i])) is Some by {
        if i < count {
            assert(t[i] == zeros(count)[i]);
        } else {
            assert(t[i] == s[i - count]);
            assert(hex_digit(s[i - count]) is Some);
        }
    }
    if s.len() == 0 {
        assert(t =~= zeros(count));
    } else {
        assert(t.drop_last() =~= zeros(count) + s.drop_last());
        assert forall|i: int| 0 <= i < s.drop_last().len() implies (#[trigger] hex_digit(
            s.drop_last()[i],
        )) is Some by {
            assert(s.drop_last()[i] == s[i]);
        }
        lemma_hex_number_leading_zeros(count, s.drop_last());
    }
}

/// The hexadecimal digits of a number are read back as the number.
pub proof fn lemma_hex_number_of_digits(n: nat)
    ensures
        all_hex(digits(n, 16)),
        hex_number(digits(n, 16)) == n,
    decreases n,
{
    let s = digits(n, 16);
    if n < 16 {
        assert(s.drop_last() =~= Seq::<u8>::empty());
        assert(hex_number(s.drop_last()) == 0);
    } else {
        lemma_hex_number_of_digits(n / 16);
        assert(s.drop_last() =~= digits(n / 16, 16));
        assert forall|i: int| 0 <= i < s.len() implies (#[trigger] hex_digit(s[i])) is Some by {
            if i < s.len() - 1 {
                assert(s[i] == digits(n / 16, 16)[i]);
            }
        }
    }
}

/// A number that is written as a field of the header is read back as
/// itself, and the field holds hexadecimal digits only.
pub proof fn lemma_hex_field_of_padded(n: nat, width: nat)
    ensures
        hex_field(padded(n, 16, width)) == Some(n),
        all_hex(padded(n, 16, width)),
{
    lemma_hex_number_of_digits(n);
    lemma_digits_len(n, 16);
    let d = digits(n, 16);
    if d.len() < width {
        lemma_hex_number_leading_zeros((width - d.len()) as nat, d);
    }
    let s = padded(n, 16, width);
    assert(hex_digit(s[0]) is Some);
}

/// Whether a header can be told from the line that it is written as: its
/// numbers fill their fields, its line holds one line feed, and nothing but
/// the end of the line makes it end in a carriage return.
pub open spec fn canonical(h: HeaderView) -> bool {
    &&& well_formed(h)
    &&& h.kind <= LAST_KIND
    &&& h.metadata_len <= 0xffff_ffff
    &&& forall|i: int| 0 <= i < h.random.len() ==> h.random[i] != LF
    &&& forall|i: int| 0 <= i < h.padding.len() ==> h.padding[i] != LF
    &&& h.padding.len() == 8 && !h.carriage_return ==> h.padding[7] != CR
}

/// The line that a header is written as is read back as the header, whatever
/// follows the line.
pub proof fn header_line_is_read_back(h: HeaderView, rest: Seq<u8>)
    requires
        canonical(h),
    ensures
        parse_header(header_line(h) + rest) == Some(h),
{
    let version = padded(h.version as nat, 16, 2);
    let kind = padded(h.kind as nat, 16, 2);
    let meta = padded(h.metadata_len as nat, 16, 8);
    lemma_hex_widths(h.version as nat);
    lemma_hex_widths(h.kind as nat);
    lemma_hex_widths(h.metadata_len as nat);
    lemma_hex_field_of_padded(h.version as nat, 2);
    lemma_hex_field_of_padded(h.kind as nat, 2);
    lemma_hex_field_of_padded(h.metadata_len as nat, 8);
    let line = header_line(h);
    let data = line + rest;
    let len = line_len(h) as int;
    assert(line.len() == len);
    assert(data.take(3) =~= magic());
    assert(data.subrange(3, 5) =~= version);
    assert(data.subrange(5, 7) =~= kind);
    assert(data.subrange(7, 15) =~= h.random);
    assert(data.subrange(15, 23) =~= meta);
    let window = search_window(data);
    let newline = len - 1;
    assert(window[newline] == LF);
    assert forall|k: int| 0 <= k < newline implies window[k] != LF by {
        assert(window[k] == line[k]);
        if k < 3 {
        } else if k < 5 {
            assert(line[k] == version[k - 3]);
            assert(hex_digit(version[k - 3]) is Some);
        } else if k < 7 {
            assert(line[k] == kind[k - 5]);
            assert(hex_digit(kind[k - 5]) is Some);
        } else if k < 15 {
            assert(line[k] == h.random[k - 7]);
        } else if k < 23 {
            assert(line[k] == meta[k - 15]);
            assert(hex_digit(meta[k - 15]) is Some);
        } else if k < 23 + h.padding.len() {
            assert(line[k] == h.padding[k - 23]);
        } else {
            assert(line[k] == CR);
        }
    }
    crate::date::lemma_find_byte(window, LF, newline);
    if h.carriage_return {
        assert(data[newline - 1] == CR);
    } else if h.padding.len() == 8 {
        assert(data[newline - 1] == h.padding[7]);
    } else {
        assert(data[newline - 1] == meta[7]);
        assert(hex_digit(meta[7]) is Some);
    }
    if h.padding.len() == 8 {
        assert(data.subrange(23, 31) =~= h.padding);
    } else {
        assert(h.padding =~= Seq::<u8>::empty());
    }
}

/// The header that is read from a save can be told from its line.
pub proof fn parsed_header_is_canonical(data: Seq<u8>)
    requires
        parse_header(data) is Some,
    ensures
        canonical(parse_header(data)->Some_0),
{
    let h = parse_header(data)->Some_0;
    let window = search_window(data);
    let newline = find_byte(window, LF);
    lemma_first_byte(window, LF);
    let version = data.subrange(3, 5);
    let kind = data.subrange(5, 7);
    let meta = data.subrange(15, 23);
    lemma_hex_field_bound(version);
    lemma_hex_field_bound(meta);
    assert(sixteen_to(2) == 256 && sixteen_to(1) == 16 && sixteen_to(8) == 0x1_0000_0000
        && sixteen_to(7) == 0x1000_0000) by {
        reveal_with_fuel(sixteen_to, 10);
    }
    assert forall|i: int| 0 <= i < h.random.len() implies h.random[i] != LF by {
        assert(h.random[i] == window[7 + i]);
    }
    assert forall|i: int| 0 <= i < h.padding.len() implies h.padding[i] != LF by {
        assert(h.padding[i] == window[23 + i]);
    }
}

/// No byte before the first `b` is `b`.
pub proof fn lemma_first_byte(s: Seq<u8>, b: u8)
    ensures
        0 <= find_byte(s, b) <= s.len(),
        forall|k: int| 0 <= k < find_byte(s, b) ==> s[k] != b,
        find_byte(s, b) < s.len() ==> s[find_byte(s, b)] == b,
    decreases s.len(),
{
    if s.len() == 0 || s[0] == b {
    } else {
        let t = s.skip(1);
        lemma_first_byte(t, b);
        assert forall|k: int| 0 <= k < find_byte(s, b) implies s[k] != b by {
            if k > 0 {
                assert(s[k] == t[k - 1]);
            }
        }
    }
}

/// A field of the header denotes a number below sixteen to the number of
/// its bytes.
pub proof fn lemma_hex_field_bound(s: Seq<u8>)
    requires
        hex_field(s) is Some,
    ensures
        hex_field(s)->Some_0 < sixteen_to(s.len()),
{
    let body = if s.len() > 0 && s[0] == 43 {
        s.skip(1)
    } else {
        s
    };
    lemma_hex_number_bound(body);
    if body.len() < s.len() {
        assert(sixteen_to(s.len()) == 16 * sixteen_to(body.len()));
    }
}

/// The value of one hexadecimal digit.
fn hex_digit_value(b: u8) -> (r: Option<u8>)
    ensures
        match hex_digit(b) {
            Some(v) => r == Some(v as u8),
            None => r is None,
        },
{
    if 48 <= b && b <= 57 {
        Some(b - 48)
    } else if 97 <= b && b <= 102 {
        Some(b - 87)
    } else if 65 <= b && b <= 70 {
        Some(b - 55)
    } else {
        None
    }
}

/// The number of a field of at most eight bytes.
fn parse_hex_field(field: &[u8]) -> (r: Option<u64>)
    requires
        field@.len() <= 8,
    ensures
        match hex_field(field@) {
            Some(v) => r == Some(v as u64) && v <= 0xffff_ffff && (field@.len() <= 2 ==> v <= 0xff),
            None => r is None,
        },
{
    let start: usize = if field.len() > 0 && field[0] == 43 {
        1
    } else {
        0
    };
    let body: &[u8] = slice_subrange(field, start, field.len());
    proof {
        if start == 1 {
            assert(body@ =~= field@.skip(1));
        } else {
            assert(body@ =~= field@);
        }
    }
    if body.len() == 0 {
        return None;
    }
    let mut value: u64 = 0;
    let mut i: usize = 0;
    while i < body.len()
        invariant
            i <= body.len(),
            body@.len() <= 8,
            body@.len() > 0,
            hex_field(field@) == (if all_hex(body@) {
                Some(hex_number(body@))
            } else {
                None
            }),
            all_hex(body@.take(i as int)),
            value == hex_number(body@.take(i as int)),
            value < sixteen_to(i as nat),
        decreases body.len() - i,
    {
        proof {
            reveal_with_fuel(sixteen_to, 10);
        }
        let ghost before = body@.take(i as int);
        match hex_digit_value(body[i]) {
            Some(d) => {
                value = value * 16 + d as u64;
            },
            None => {
                proof {
                    assert(!all_hex(body@)) by {
                        assert(hex_digit(body@[i as int]) is None);
                    }
                }
                return None;
            },
        }
        i = i + 1;
        proof {
            let now = body@.take(i as int);
            assert(now.drop_last() =~= before);
            assert(now.last() == body@[i - 1]);
            assert forall|k: int| 0 <= k < now.len() implies (#[trigger] hex_digit(now[k])) is Some by {
                if k < i - 1 {
                    assert(now[k] == before[k]);
                }
            }
        }
    }
    proof {
        assert(body@.take(i as int) =~= body@);
        reveal_with_fuel(sixteen_to, 10);
    }
    Some(value)
}

/// The first line of the save file.
#[derive(Debug, Clone, Copy, PartialEq, Eq)]
pub struct SaveHeader {
    version: u16,
    kind: SaveHeaderKind,
    random: [u8; 8],
    meta_len: u64,
    unknown: [u8; 8],
    unknown_len: usize,
    carriage_return: bool,
}

impl View for SaveHeader {
    type V = HeaderView;

    closed spec fn view(&self) -> HeaderView {
        HeaderView {
            version: self.version,
            kind: value_of_kind(self.kind),
            random: self.random@,
            metadata_len: self.meta_len,
            padding: self.unknown@.take(self.unknown_len as int),
            carriage_return: self.carriage_return,
        }
    }
}

impl SaveHeader {
    /// Every header has the lengths and widths of a header.
    #[verifier::type_invariant]
    closed spec fn lengths_fit(self) -> bool {
        &&& self.version <= 0xff
        &&& (self.unknown_len == 0 || self.unknown_len == 8)
    }

    /// Creates a SaveHeader by parsing from a byte slice.
    pub fn from_slice(data: &[u8]) -> (r: Result<Self, ImperatorError>)
        ensures
            match parse_header(data@) {
                Some(v) => r matches Ok(h) && h@ == v && well_formed(v) && line_len(v)
                    <= data@.len() && v.kind <= LAST_KIND && v.metadata_len <= 0xffff_ffff,
                None => r matches Err(e) && e@ == ImperatorErrorKind::InvalidHeader,
            },
    {
        if data.len() < 24 {
            return Err(ImperatorError::new(ImperatorErrorKind::InvalidHeader));
        }
        if !(data[0] == 83 && data[1] == 65 && data[2] == 86) {
            proof {
                assert(data@.take(3) != magic()) by {
                    if data@.take(3) == magic() {
                        assert(data@.take(3)[0] == 83u8);
                        assert(data@.take(3)[1] == 65u8);
                        assert(data@.take(3)[2] == 86u8);
                    }
                }
            }
            return Err(ImperatorError::new(ImperatorErrorKind::InvalidHeader));
        }
        assert(data@.take(3) =~= magic());
        let version: u64 = match parse_hex_field(slice_subrange(data, 3, 5)) {
            Some(v) => v,
            None => { return Err(ImperatorError::new(ImperatorErrorKind::InvalidHeader)); },
        };
        let kind: u64 = match parse_hex_field(slice_subrange(data, 5, 7)) {
            Some(v) => v,
            None => { return Err(ImperatorError::new(ImperatorErrorKind::InvalidHeader)); },
        };
        if kind > LAST_KIND as u64 {
            return Err(ImperatorError::new(ImperatorErrorKind::InvalidHeader));
        }
        let meta_len: u64 = match parse_hex_field(slice_subrange(data, 15, 23)) {
            Some(v) => v,
            None => { return Err(ImperatorError::new(ImperatorErrorKind::InvalidHeader)); },
        };
        let window_len: usize = if data.len() < 33 {
            data.len()
        } else {
            33
        };
        let window: &[u8] = slice_subrange(data, 0, window_len);
        assert(window@ =~= search_window(data@));
        let mut newline: usize = 0;
        while newline < window_len && data[newline] != LF
            invariant
                newline <= window_len <= data@.len(),
                window@ == search_window(data@),
                window@.len() == window_len,
                forall|k: int| 0 <= k < newline ==> window@[k] != LF,
            decreases window_len - newline,
        {
            assert(window@[newline as int] == data@[newline as int]);
            newline = newline + 1;
        }
        proof {
            if newline < window_len {
                assert(window@[newline as int] == data@[newline as int]);
            }
            crate::date::lemma_find_byte(window@, LF, newline as int);
        }
        if newline >= window_len {
            return Err(ImperatorError::new(ImperatorErrorKind::InvalidHeader));
        }
        let carriage_return: bool = newline > 0 && data[newline - 1] == CR;
        let padding_end: usize = if carriage_return {
            newline - 1
        } else {
            newline
        };
        let mut random: [u8; 8] = [0u8; 8];
        let mut unknown: [u8; 8] = [0u8; 8];
        let mut i: usize = 0;
        while i < 8
            invariant
                i <= 8,
                data@.len() >= 24,
                forall|k: int| 0 <= k < i ==> random@[k] == data@[7 + k],
            decreases 8 - i,
        {
            random[i] = data[7 + i];
            i = i + 1;
        }
        assert(random@ =~= data@.subrange(7, 15));
        let unknown_len: usize = if padding_end == 23 {
            0
        } else if padding_end == 31 {
            let mut j: usize = 0;
            while j < 8
                invariant
                    j <= 8,
                    data@.len() >= 32,
                    forall|k: int| 0 <= k < j ==> unknown@[k] == data@[23 + k],
                decreases 8 - j,
            {
                unknown[j] = data[23 + j];
                j = j + 1;
            }
            assert(unknown@.take(8) =~= data@.subrange(23, 31));
            8
        } else {
            return Err(ImperatorError::new(ImperatorErrorKind::InvalidHeader));
        };
        proof {
            if unknown_len == 0 {
                assert(unknown@.take(0) =~= Seq::<u8>::empty());
            }
        }
        let header = SaveHeader {
            version: version as u16,
            kind: SaveHeaderKind::new(kind as u16),
            random,
            meta_len,
            unknown,
            unknown_len,
            carriage_return,
        };
        Ok(header)
    }

    /// Returns the save file kind (text/binary and compression info).
    pub fn kind(&self) -> (r: SaveHeaderKind)
        ensures
            value_of_kind(r) == self@.kind,
    {
        self.kind
    }

    /// Sets the save file kind.
    pub fn set_kind(&mut self, kind: SaveHeaderKind)
        ensures
            final(self)@ == (HeaderView { kind: value_of_kind(kind), ..old(self)@ }),
    {
        proof {
            use_type_invariant(&*self);
        }
        self.kind = kind;
    }

    /// Returns the save file format version.
    pub fn version(&self) -> (r: u16)
        ensures
            r == self@.version,
    {
        self.version
    }

    /// Returns the length of the header line in bytes.
    pub fn header_len(&self) -> (r: usize)
        ensures
            r == line_len(self@),
            24 <= r <= 33,
            well_formed(self@),
    {
        proof {
            use_type_invariant(self);
            assert(self.unknown@.take(self.unknown_len as int).len() == self.unknown_len);
        }
        let cr: usize = if self.carriage_return {
            1
        } else {
            0
        };
        24 + self.unknown_len + cr
    }

    /// Returns the length of the metadata section in bytes.
    pub fn metadata_len(&self) -> (r: u64)
        ensures
            r == self@.metadata_len,
    {
        self.meta_len
    }

    /// Sets the metadata section length in bytes.
    pub fn set_metadata_len(&mut self, len: u64)
        ensures
            final(self)@ == (HeaderView { metadata_len: len, ..old(self)@ }),
    {
        proof {
            use_type_invariant(&*self);
        }
        self.meta_len = len;
    }

    /// Whether the save that follows is binary.
    pub fn is_binary(&self) -> (r: bool)
        ensures
            r == (self@.kind == 1 || self@.kind == 3 || self@.kind == 5),
    {
        self.kind.is_binary()
    }

    /// Writes the header as its line, at the end of `out`. The line is as
    /// long as the line that the header was read from. A header whose kind
    /// or metadata length is too great for its field cannot be written:
    /// nothing is written then.
    pub fn write(&self, out: &mut Vec<u8>) -> (r: Result<(), ImperatorError>)
        ensures
            fits(self@) ==> r is Ok && final(out)@ == old(out)@ + header_line(self@)
                && header_line(self@).len() == line_len(self@),
            !fits(self@) ==> (r matches Err(e) && e@ == ImperatorErrorKind::InvalidHeader)
                && final(out)@ == old(out)@,
    {
        if self.kind.value() > MAX_KIND || self.meta_len > MAX_METADATA_LEN {
            return Err(ImperatorError::new(ImperatorErrorKind::InvalidHeader));
        }
        self.write_line(out);
        proof {
            lemma_header_line_len(self@);
        }
        Ok(())
    }

    /// Writes the line of the header, whatever its length.
    fn write_line(&self, out: &mut Vec<u8>)
        ensures
            final(out)@ == old(out)@ + header_line(self@),
            well_formed(self@),
    {
        proof {
            use_type_invariant(self);
            assert(self.unknown@.take(self.unknown_len as int).len() == self.unknown_len);
        }
        let ghost start = out@;
        out.push(83);
        out.push(65);
        out.push(86);
        assert(out@ =~= start + magic());
        push_number(out, self.version as u64, 16, 2);
        push_number(out, self.kind.value() as u64, 16, 2);
        let ghost before_random = out@;
        let mut i: usize = 0;
        while i < 8
            invariant
                i <= 8,
                out@ == before_random + self.random@.take(i as int),
            decreases 8 - i,
        {
            out.push(self.random[i]);
            i = i + 1;
            assert(out@ =~= before_random + self.random@.take(i as int));
        }
        assert(self.random@.take(8) =~= self.random@);
        push_number(out, self.meta_len, 16, 8);
        let ghost before_padding = out@;
        let mut j: usize = 0;
        while j < self.unknown_len
            invariant
                j <= self.unknown_len <= 8,
                out@ == before_padding + self.unknown@.take(j as int),
            decreases self.unknown_len - j,
        {
            out.push(self.unknown[j]);
            j = j + 1;
            assert(out@ =~= before_padding + self.unknown@.take(j as int));
        }
        if self.carriage_return {
            out.push(CR);
        }
        out.push(LF);
        assert(out@ =~= start + header_line(self@));
    }
}

/// What `update_header` makes of a header: the kind is text, and the metadata
/// is as long as what follows the header line in `len` bytes, and one more.
pub open spec fn melted_header(h: HeaderView, len: nat) -> HeaderView {
    HeaderView { kind: 0, metadata_len: ((len + 1 - line_len(h)) as nat) as u64, ..h }
}

/// Rewrites the header line at the start of `data` in place: as the header of
/// a text save whose metadata is all that follows the line in `data`, and the
/// line feed that will follow it. The new line is as long as the one that it
/// replaces. Where the metadata is too long for the header to state its
/// length, `data` is left as it was.
pub fn update_header(data: &mut Vec<u8>, header: SaveHeader) -> (r: Result<(), ImperatorError>)
    requires
        old(data)@.len() >= line_len(header@),
    ensures
        old(data)@.len() + 1 - line_len(header@) <= MAX_METADATA_LEN ==> r is Ok && final(data)@
            == header_line(melted_header(header@, old(data)@.len())) + old(data)@.skip(
            line_len(header@) as int,
        ) && header_line(melted_header(header@, old(data)@.len())).len() == line_len(header@),
        old(data)@.len() + 1 - line_len(header@) > MAX_METADATA_LEN ==> (r matches Err(e) && e@
            == ImperatorErrorKind::InvalidHeader) && final(data)@ == old(data)@,
{
    let ghost original = header@;
    let mut rewritten = header;
    let header_len: usize = rewritten.header_len();
    let len: u64 = (data.len() - header_len) as u64;
    if len >= MAX_METADATA_LEN {
        return Err(ImperatorError::new(ImperatorErrorKind::InvalidHeader));
    }
    rewritten.set_kind(SaveHeaderKind::Text);
    rewritten.set_metadata_len(len + 1);
    let mut line: Vec<u8> = Vec::new();
    match rewritten.write(&mut line) {
        Ok(()) => {},
        Err(e) => {
            return Err(e);
        },
    }
    proof {
        assert(rewritten@ == melted_header(original, old(data)@.len()));
        assert(line@ =~= header_line(rewritten@));
    }
    let mut i: usize = 0;
    while i < header_len
        invariant
            i <= header_len == line@.len(),
            header_len <= data@.len(),
            data@.len() == old(data)@.len(),
            data@ == line@.take(i as int) + old(data)@.skip(i as int),
        decreases header_len - i,
    {
        data.set(i, line[i]);
        i = i + 1;
        assert(data@ =~= line@.take(i as int) + old(data)@.skip(i as int));
    }
    proof {
        assert(line@.take(header_len as int) =~= line@);
    }
    Ok(())
}

} // verus!
