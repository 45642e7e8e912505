//! The text encoding is written by `jomini::TextWriter`. This module states
//! what the library relies on: what the writer is asked to do, one request
//! after another, decides what it has written.

use crate::binary::Rgb;
use jomini::text::Operator;
use jomini::{TextWriter, TextWriterBuilder};
use vstd::prelude::*;

verus! {

/// `jomini::TextWriter`. Of a writer the library knows what the functions of
/// this module state, and no more.
#[verifier::external_type_specification]
#[verifier::external_body]
#[verifier::reject_recursive_types(W)]
pub struct ExTextWriter<W>(TextWriter<W>);

/// One request to the writer.
pub enum WriteOp {
    /// The writer is made, with the byte to indent with and the number of
    /// them for each level.
    Setup(u8, u8),
    /// `{`
    Start,
    /// `}`
    End,
    /// `=`
    Equal,
    /// Text as it is.
    Unquoted(Seq<u8>),
    /// Text in quotes.
    Quoted(Seq<u8>),
    /// `yes` or `no`.
    Bool(bool),
    /// A number.
    I32(i32),
    /// A number.
    U32(u32),
    /// A number.
    U64(u64),
    /// A number.
    I64(i64),
    /// A colour.
    Rgb(Rgb),
}

/// The requests that a writer has carried out since it was made, the making
/// first.
pub uninterp spec fn written(writer: TextWriter<Vec<u8>>) -> Seq<WriteOp>;

/// The bytes that `jomini::TextWriter` has written after carrying out the
/// requests.
pub uninterp spec fn rendered(ops: Seq<WriteOp>) -> Seq<u8>;

/// Whether `jomini::TextWriter` takes what is written next for a key, after
/// carrying out the requests.
pub uninterp spec fn key_expected(ops: Seq<WriteOp>) -> bool;

/// The number of containers that are open after the requests.
pub open spec fn depth_after(ops: Seq<WriteOp>) -> nat
    decreases ops.len(),
{
    if ops.len() == 0 {
        0
    } else {
        let before = depth_after(ops.drop_last());
        match ops.last() {
            WriteOp::Start => before + 1,
            WriteOp::End => if before > 0 {
                (before - 1) as nat
            } else {
                0
            },
            _ => before,
        }
    }
}

/// Whether the last request opened a container.
pub open spec fn at_start(ops: Seq<WriteOp>) -> bool {
    ops.len() > 0 && ops.last() is Start
}

/// Calls `TextWriterBuilder::from_writer` on an empty vector. Nothing has been
/// asked of the new writer but that it be made.
#[verifier::external_body]
pub(crate) fn new_writer(indent_char: u8, indent_factor: u8) -> (w: TextWriter<Vec<u8>>)
    ensures
        written(w) == seq![WriteOp::Setup(indent_char, indent_factor)],
{
    TextWriterBuilder::new().indent_char(indent_char).indent_factor(indent_factor).from_writer(
        Vec::new(),
    )
}

/// Calls `TextWriter::into_inner`: the vector holds what the writer has
/// written for its requests.
#[verifier::external_body]
pub(crate) fn into_bytes(w: TextWriter<Vec<u8>>) -> (r: Vec<u8>)
    ensures
        r@ == rendered(written(w)),
{
    w.into_inner()
}

/// Calls `TextWriter::expecting_key`.
#[verifier::external_body]
pub(crate) fn expecting_key(w: &TextWriter<Vec<u8>>) -> (r: bool)
    ensures
        r == key_expected(written(*w)),
{
    w.expecting_key()
}

/// Calls `TextWriter::at_unknown_start`, which is true from a `write_start`
/// to the next request that the writer carries out.
#[verifier::external_body]
pub(crate) fn at_unknown_start(w: &TextWriter<Vec<u8>>) -> (r: bool)
    ensures
        r == at_start(written(*w)),
{
    w.at_unknown_start()
}

/// Calls `TextWriter::depth`: one more for each `write_start`, one less for
/// each `write_end` that was carried out.
#[verifier::external_body]
pub(crate) fn depth(w: &TextWriter<Vec<u8>>) -> (r: usize)
    ensures
        r == depth_after(written(*w)),
{
    w.depth()
}

/// Calls `TextWriter::write_start`. The writer writes to a vector in memory,
/// which takes every write, so the call does not fail.
#[verifier::external_body]
pub(crate) fn write_start(w: &mut TextWriter<Vec<u8>>) -> (r: Result<(), jomini::Error>)
    ensures
        r is Ok,
        written(*final(w)) == written(*old(w)).push(WriteOp::Start),
{
    w.write_start()
}

/// Calls `TextWriter::write_end`, which fails where no container is open, and
/// then leaves the writer as it was.
#[verifier::external_body]
pub(crate) fn write_end(w: &mut TextWriter<Vec<u8>>) -> (r: Result<(), jomini::Error>)
    ensures
        r is Ok <==> depth_after(written(*old(w))) > 0,
        r is Ok ==> written(*final(w)) == written(*old(w)).push(WriteOp::End),
        r is Err ==> written(*final(w)) == written(*old(w)),
{
    w.write_end()
}

/// Calls `TextWriter::write_operator` with `=`. It does not fail: see
/// `write_start`.
#[verifier::external_body]
pub(crate) fn write_equal(w: &mut TextWriter<Vec<u8>>) -> (r: Result<(), jomini::Error>)
    ensures
        r is Ok,
        written(*final(w)) == written(*old(w)).push(WriteOp::Equal),
{
    w.write_operator(Operator::Equal)
}

/// Calls `TextWriter::write_unquoted`. It does not fail: see `write_start`.
#[verifier::external_body]
pub(crate) fn write_unquoted(w: &mut TextWriter<Vec<u8>>, data: &[u8]) -> (r: Result<
    (),
    jomini::Error,
>)
    ensures
        r is Ok,
        written(*final(w)) == written(*old(w)).push(WriteOp::Unquoted(data@)),
{
    w.write_unquoted(data)
}

/// Calls `TextWriter::write_quoted`. It does not fail: see `write_start`.
#[verifier::external_body]
pub(crate) fn write_quoted(w: &mut TextWriter<Vec<u8>>, data: &[u8]) -> (r: Result<
    (),
    jomini::Error,
>)
    ensures
        r is Ok,
        written(*final(w)) == written(*old(w)).push(WriteOp::Quoted(data@)),
{
    w.write_quoted(data)
}

/// Calls `TextWriter::write_bool`. It does not fail: see `write_start`.
#[verifier::external_body]
pub(crate) fn write_bool(w: &mut TextWriter<Vec<u8>>, data: bool) -> (r: Result<(), jomini::Error>)
    ensures
        r is Ok,
        written(*final(w)) == written(*old(w)).push(WriteOp::Bool(data)),
{
    w.write_bool(data)
}

/// Calls `TextWriter::write_i32`. It does not fail: see `write_start`.
#[verifier::external_body]
pub(crate) fn write_i32(w: &mut TextWriter<Vec<u8>>, data: i32) -> (r: Result<(), jomini::Error>)
    ensures
        r is Ok,
        written(*final(w)) == written(*old(w)).push(WriteOp::I32(data)),
{
    w.write_i32(data)
}

/// Calls `TextWriter::write_u32`. It does not fail: see `write_start`.
#[verifier::external_body]
pub(crate) fn write_u32(w: &mut TextWriter<Vec<u8>>, data: u32) -> (r: Result<(), jomini::Error>)
    ensures
        r is Ok,
        written(*final(w)) == written(*old(w)).push(WriteOp::U32(data)),
{
    w.write_u32(data)
}

/// Calls `TextWriter::write_u64`. It does not fail: see `write_start`.
#[verifier::external_body]
pub(crate) fn write_u64(w: &mut TextWriter<Vec<u8>>, data: u64) -> (r: Result<(), jomini::Error>)
    ensures
        r is Ok,
        written(*final(w)) == written(*old(w)).push(WriteOp::U64(data)),
{
    w.write_u64(data)
}

/// Calls `TextWriter::write_i64`. It does not fail: see `write_start`.
#[verifier::external_body]
pub(crate) fn write_i64(w: &mut TextWriter<Vec<u8>>, data: i64) -> (r: Result<(), jomini::Error>)
    ensures
        r is Ok,
        written(*final(w)) == written(*old(w)).push(WriteOp::I64(data)),
{
    w.write_i64(data)
}

/// Calls `TextWriter::write_rgb`, which opens and closes a container of its
/// own. It does not fail: see `write_start`.
#[verifier::external_body]
pub(crate) fn write_rgb(w: &mut TextWriter<Vec<u8>>, color: Rgb) -> (r: Result<(), jomini::Error>)
    ensures
        r is Ok,
        written(*final(w)) == written(*old(w)).push(WriteOp::Rgb(color)),
{
    w.write_rgb(&jomini::binary::Rgb { r: color.r, g: color.g, b: color.b, a: color.a })
}

} // verus!
