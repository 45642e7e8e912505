//! What melting is: the requests that the tokens of a binary save make of the
//! text writer, one token after another.

use crate::binary::{container_end, lex, Lexed, TokenView};
use crate::date::{decode_heuristic, game_text};
use crate::digits::digits;
use crate::flavor::{f32_pattern, f64_scaled};
use crate::header::{header_line, HeaderView, LF, MAX_METADATA_LEN};
use crate::writer::{at_start, depth_after, key_expected, rendered, WriteOp};
use vstd::prelude::*;
use vstd::string::StringSliceAdditionalSpecFns;

verus! {

/// The byte that the melted text is indented with.
pub const INDENT_CHAR: u8 = 9;

/// The number of indent bytes for each level.
pub const INDENT_FACTOR: u8 = 1;

/// The name of the field with which the gamestate starts; what comes before
/// it is metadata.
pub const START_OF_GAMESTATE_FIELD: &'static str = "speed";

/// The name of the field that marks a save as ironman.
pub const IRONMAN_FIELD: &'static str = "is_ironman";

/// The name of the field whose value is a number that looks like a date.
pub const SEED_FIELD: &'static str = "seed";

/// With what the text for a token without a name starts.
pub const UNKNOWN_PREFIX: &'static str = "__unknown_0x";

/// Customize how the melter reacts when a token can't be resolved
#[derive(Debug, PartialEq, Eq, Clone, Copy, Structural)]
pub enum FailedResolveStrategy {
    /// Stop and return an error
    Error,
    /// Stringify the token as hexadecimal
    Stringify,
    /// Ignore the token
    Ignore,
}

/// What melting goes by, besides the tokens.
pub struct MeltEnv {
    /// The names of the tokens.
    pub names: Map<u16, Seq<u8>>,
    /// Whether the tokens are written as they are, with no regard to what
    /// their names mean.
    pub verbatim: bool,
    /// What is done with a token without a name.
    pub on_failed_resolve: FailedResolveStrategy,
    /// The text of a 32-bit floating point number, by its bit pattern.
    pub f32_text: spec_fn(u32) -> Seq<u8>,
    /// The text of a 64-bit floating point number, by its hundred-thousandths.
    pub f64_text: spec_fn(i64) -> Seq<u8>,
}

/// Where the melter stands between two tokens.
pub struct MeltState {
    /// What has been asked of the writer.
    pub ops: Seq<WriteOp>,
    /// Whether the next 32-bit integer is a plain number, whatever it looks like.
    pub known_number: bool,
    /// A quoted text right behind `{` that has not been written yet: the next
    /// token tells whether it is a key.
    pub pending: Option<Seq<u8>>,
    /// Whether the next container, or the next value if that comes first, is
    /// written without quotes.
    pub queued: bool,
    /// For each open container, whether the quoted values in it are written
    /// without quotes.
    pub modes: Seq<bool>,
    /// The tokens met so far that have no name.
    pub unknown: Set<u16>,
}

/// Why melting stops short.
pub enum MeltError {
    /// The data ends inside a token, or where a field is to be left out.
    Truncated,
    /// A colour is broken.
    InvalidToken,
    /// A `}` with no `{` before it.
    Writer,
    /// A token without a name, where that is an error.
    UnknownToken(u16),
    /// The metadata is longer than the header can state.
    Header,
}

/// How a section ends.
pub enum MeltOutcome {
    /// With the data.
    Eof,
    /// Before the field with which the gamestate starts.
    Gamestate,
    /// With an error.
    Failed(MeltError),
}

/// What melting a section comes to.
pub struct MeltEnd {
    /// How the section ends.
    pub outcome: MeltOutcome,
    /// Where the melter stands then.
    pub state: MeltState,
    /// The data that is left.
    pub rest: Seq<u8>,
}

/// What one token does.
pub enum Step {
    /// The melter goes on to the next token.
    Next(MeltState),
    /// The field that the token is the key of is left out.
    Elide(MeltState),
    /// The section ends before the token.
    Gamestate(MeltState),
    /// Melting fails.
    Fail(MeltError),
}

/// The melter at the start of a section.
pub open spec fn start_state(write_prefix: bool, unknown: Set<u16>) -> MeltState {
    let made = seq![WriteOp::Setup(INDENT_CHAR, INDENT_FACTOR)];
    MeltState {
        ops: if write_prefix {
            made.push(WriteOp::Unquoted(START_OF_GAMESTATE_FIELD.spec_bytes()))
        } else {
            made
        },
        known_number: false,
        pending: None,
        queued: false,
        modes: Seq::empty(),
        unknown,
    }
}

/// Whether a quoted value is written without quotes where the melter stands.
pub open spec fn unquotes(st: MeltState) -> bool {
    st.queued || (st.modes.len() > 0 && st.modes.last())
}

/// What the melter does with a quoted text.
#[derive(Debug, Clone, Copy, PartialEq, Eq, Structural)]
pub enum QuotedAction {
    /// It waits for the next token, which tells whether the text is a key.
    Defer,
    /// It writes the text without quotes.
    Unquoted,
    /// It writes the text in quotes.
    Quoted,
}

/// What the melter does with a quoted text. Right behind `{` (`at_start`)
/// nothing tells a key from a value, so the text waits. A key (`key`) is
/// written without quotes. A value keeps its quotes unless the values of its
/// container are to lose them (`unquote`).
pub open spec fn quoted_action(at_start: bool, key: bool, unquote: bool) -> QuotedAction {
    if at_start {
        QuotedAction::Defer
    } else if key || unquote {
        QuotedAction::Unquoted
    } else {
        QuotedAction::Quoted
    }
}

/// The request that writes a quoted text that is known to be a key or not.
pub open spec fn quoted_op(st: MeltState, text: Seq<u8>, key: bool) -> WriteOp {
    if quoted_action(false, key, unquotes(st)) == QuotedAction::Unquoted {
        WriteOp::Unquoted(text)
    } else {
        WriteOp::Quoted(text)
    }
}

/// The melter after a request that writes a value or a key.
pub open spec fn wrote(st: MeltState, op: WriteOp) -> MeltState {
    MeltState { ops: st.ops.push(op), queued: false, ..st }
}

/// The melter after it has written the text that was pending, now that the
/// next token is known: the text is a key if `=` follows it, else a value.
pub open spec fn flush(st: MeltState, next: TokenView) -> MeltState {
    match st.pending {
        Some(text) => MeltState { pending: None, ..wrote(st, quoted_op(st, text, next is Equal)) },
        None => st,
    }
}

/// The melter after it has written the text that was pending, where the data
/// ends: nothing follows the text, so it is a value.
pub open spec fn finish(st: MeltState) -> MeltState {
    match st.pending {
        Some(text) => MeltState { pending: None, ..wrote(st, quoted_op(st, text, false)) },
        None => st,
    }
}

/// Whether a key calls for the quoted values of its container to be written
/// without quotes.
pub open spec fn unquotes_container(name: Seq<u8>, depth: nat) -> bool {
    name == "event_targets".spec_bytes() || name == "historical_regnal_numbers".spec_bytes() || (
    name == "technology".spec_bytes() && depth != 2)
}

/// The text for a token without a name.
pub open spec fn unknown_text(token: u16) -> Seq<u8> {
    UNKNOWN_PREFIX.spec_bytes() + digits(token as nat, 16)
}

/// What a 32-bit integer is written as: the date that it denotes, unless it
/// is known to be a number or denotes no plausible date.
pub open spec fn integer_op(known_number: bool, value: i32) -> WriteOp {
    if known_number {
        WriteOp::I32(value)
    } else {
        match decode_heuristic(value as int) {
            Some(date) => WriteOp::Unquoted(game_text(date)),
            None => WriteOp::I32(value),
        }
    }
}

/// What the melter does with a token that has a name.
#[derive(Debug, Clone, Copy, PartialEq, Eq, Structural)]
pub enum NameAction {
    /// It leaves out the field that the name is the key of.
    Elide,
    /// It ends the metadata: the gamestate starts with this name.
    Gamestate,
    /// It writes the name.
    Write {
        /// Whether the next 32-bit integer is a plain number.
        known_number: bool,
        /// Whether the container or value that follows is written without
        /// quotes.
        unquote: bool,
    },
}

/// What the melter does with a name. A name means something only where the
/// writer expects a key (`key`): there the field that marks an ironman save
/// is left out, the field that starts the gamestate ends the metadata, the
/// seed is followed by a number, and the values of three fields lose their
/// quotes, `depth` containers deep. Of these rules only the second holds when
/// melting is `verbatim`.
pub open spec fn name_action(
    name: Seq<u8>,
    key: bool,
    depth: nat,
    verbatim: bool,
    split: bool,
) -> NameAction {
    if key && !verbatim && name == IRONMAN_FIELD.spec_bytes() {
        NameAction::Elide
    } else if key && split && name == START_OF_GAMESTATE_FIELD.spec_bytes() {
        NameAction::Gamestate
    } else {
        NameAction::Write {
            known_number: key && !verbatim && name == SEED_FIELD.spec_bytes(),
            unquote: key && !verbatim && unquotes_container(name, depth),
        }
    }
}

/// What a token with a name does.
pub open spec fn step_name(st: MeltState, name: Seq<u8>, env: MeltEnv, split: bool) -> Step {
    match name_action(name, key_expected(st.ops), depth_after(st.ops), env.verbatim, split) {
        NameAction::Elide => Step::Elide(st),
        NameAction::Gamestate => Step::Gamestate(st),
        NameAction::Write { known_number, unquote } => Step::Next(
            MeltState {
                ops: st.ops.push(WriteOp::Unquoted(name)),
                known_number,
                queued: unquote,
                ..st
            },
        ),
    }
}

/// What the melter does with a token that has no name.
#[derive(Debug, Clone, Copy, PartialEq, Eq, Structural)]
pub enum UnknownAction {
    /// It gives up.
    Fail,
    /// It leaves out the field that the token is the key of.
    Elide,
    /// It writes the number of the token.
    Stringify,
}

/// What the melter does with a token that has no name, where the writer
/// expects a key (`key`) or a value: it fails where that was asked for; a key
/// is left out with its field where tokens without a name are to be ignored;
/// everything else is written as the number of the token.
pub open spec fn unknown_action(strategy: FailedResolveStrategy, key: bool) -> UnknownAction {
    match strategy {
        FailedResolveStrategy::Error => UnknownAction::Fail,
        FailedResolveStrategy::Ignore => if key {
            UnknownAction::Elide
        } else {
            UnknownAction::Stringify
        },
        FailedResolveStrategy::Stringify => UnknownAction::Stringify,
    }
}

/// What a token without a name does. It is noted in every case.
pub open spec fn step_unknown(st: MeltState, token: u16, env: MeltEnv) -> Step {
    let noted = MeltState { unknown: st.unknown.insert(token), ..st };
    match unknown_action(env.on_failed_resolve, key_expected(st.ops)) {
        UnknownAction::Fail => Step::Fail(MeltError::UnknownToken(token)),
        UnknownAction::Elide => Step::Elide(noted),
        UnknownAction::Stringify => Step::Next(
            wrote(noted, WriteOp::Unquoted(unknown_text(token))),
        ),
    }
}

/// What one token does, once what was pending has been written.
pub open spec fn step(st: MeltState, token: TokenView, env: MeltEnv, split: bool) -> Step {
    match token {
        TokenView::Open => Step::Next(
            MeltState {
                ops: st.ops.push(WriteOp::Start),
                modes: st.modes.push(st.queued),
                queued: false,
                ..st
            },
        ),
        TokenView::Close => if depth_after(st.ops) == 0 {
            Step::Fail(MeltError::Writer)
        } else {
            Step::Next(
                MeltState {
                    ops: st.ops.push(WriteOp::End),
                    modes: if st.modes.len() > 0 {
                        st.modes.drop_last()
                    } else {
                        st.modes
                    },
                    ..st
                },
            )
        },
        TokenView::Equal => Step::Next(MeltState { ops: st.ops.push(WriteOp::Equal), ..st }),
        TokenView::I32(x) => Step::Next(
            MeltState { known_number: false, ..wrote(st, integer_op(st.known_number, x)) },
        ),
        TokenView::Quoted(text) => match quoted_action(
            at_start(st.ops),
            key_expected(st.ops),
            unquotes(st),
        ) {
            QuotedAction::Defer => Step::Next(
                MeltState { pending: Some(text), queued: false, ..st },
            ),
            QuotedAction::Unquoted => Step::Next(wrote(st, WriteOp::Unquoted(text))),
            QuotedAction::Quoted => Step::Next(wrote(st, WriteOp::Quoted(text))),
        },
        TokenView::Unquoted(text) => Step::Next(wrote(st, WriteOp::Unquoted(text))),
        TokenView::F32(data) => Step::Next(
            wrote(st, WriteOp::Unquoted((env.f32_text)(f32_pattern(data)))),
        ),
        TokenView::F64(data) => Step::Next(
            wrote(st, WriteOp::Unquoted((env.f64_text)(f64_scaled(data)))),
        ),
        TokenView::U32(x) => Step::Next(wrote(st, WriteOp::U32(x))),
        TokenView::U64(x) => Step::Next(wrote(st, WriteOp::U64(x))),
        TokenView::I64(x) => Step::Next(wrote(st, WriteOp::I64(x))),
        TokenView::Bool(x) => Step::Next(wrote(st, WriteOp::Bool(x))),
        TokenView::Rgb(x) => Step::Next(wrote(st, WriteOp::Rgb(x))),
        TokenView::Id(x) => if env.names.contains_key(x) {
            step_name(st, env.names[x], env, split)
        } else {
            step_unknown(st, x, env)
        },
    }
}

/// The error of data that holds no whole token where one is needed.
pub open spec fn melt_error(l: Lexed) -> MeltError {
    if l is Invalid {
        MeltError::InvalidToken
    } else {
        MeltError::Truncated
    }
}

/// The error of a container without an end.
pub open spec fn melt_error_of(kind: crate::errors::ImperatorErrorKind) -> MeltError {
    if kind is InvalidToken {
        MeltError::InvalidToken
    } else {
        MeltError::Truncated
    }
}

/// How many bytes the value of a field takes that is left out, the `=`
/// before it, if there is one, with it: one token, or a whole container.
pub open spec fn elided_len(s: Seq<u8>) -> Result<nat, MeltError> {
    match lex(s) {
        Lexed::Token(first, n) => {
            if first is Equal {
                match lex(s.skip(n as int)) {
                    Lexed::Token(second, m) => if second is Open {
                        match container_end(s.skip(n as int).skip(m as int), 1) {
                            Ok(k) => Ok(n + m + k),
                            Err(e) => Err(melt_error_of(e)),
                        }
                    } else {
                        Ok(n + m)
                    },
                    other => Err(melt_error(other)),
                }
            } else if first is Open {
                match container_end(s.skip(n as int), 1) {
                    Ok(k) => Ok(n + k),
                    Err(e) => Err(melt_error_of(e)),
                }
            } else {
                Ok(n)
            }
        },
        other => Err(melt_error(other)),
    }
}

/// A section that has failed.
pub open spec fn failed(error: MeltError, st: MeltState, rest: Seq<u8>) -> MeltEnd {
    MeltEnd { outcome: MeltOutcome::Failed(error), state: st, rest }
}

/// Melts a section: the tokens of `s` from the first on, until the data ends,
/// the gamestate starts (where `split` says to look for that) or melting
/// fails. A quoted text that is still pending when the data ends is written
/// as a value.
pub open spec fn melt_section(s: Seq<u8>, env: MeltEnv, split: bool, st: MeltState) -> MeltEnd
    decreases s.len(),
{
    match lex(s) {
        Lexed::Token(token, n) => {
            if n < 2 || n > s.len() {
                failed(MeltError::Truncated, st, s)
            } else {
                let rest = s.skip(n as int);
                match step(flush(st, token), token, env, split) {
                    Step::Next(next) => melt_section(rest, env, split, next),
                    Step::Elide(next) => match elided_len(rest) {
                        Ok(k) => if k > rest.len() {
                            failed(MeltError::Truncated, next, rest)
                        } else {
                            melt_section(rest.skip(k as int), env, split, next)
                        },
                        Err(e) => failed(e, next, rest),
                    },
                    Step::Gamestate(next) => MeltEnd {
                        outcome: MeltOutcome::Gamestate,
                        state: next,
                        rest,
                    },
                    Step::Fail(e) => failed(e, flush(st, token), rest),
                }
            }
        },
        Lexed::End => MeltEnd { outcome: MeltOutcome::Eof, state: finish(st), rest: s },
        other => failed(melt_error(other), st, s),
    }
}

/// What a melted save consists of.
pub struct Melted {
    /// The text save.
    pub text: Seq<u8>,
    /// The tokens without a name that were met.
    pub unknown: Set<u16>,
}

/// The header of a melted save: that of a text save whose metadata is
/// `len` bytes long and is followed by a line feed.
pub open spec fn text_header(header: HeaderView, len: nat) -> HeaderView {
    HeaderView { kind: 0, metadata_len: (len + 1) as u64, ..header }
}

/// The first part of a melted save: the header line, rewritten for the text
/// of the metadata that follows it, that text, and a line feed.
pub open spec fn melted_metadata(header: HeaderView, text: Seq<u8>) -> Seq<u8> {
    header_line(text_header(header, text.len())) + text + seq![LF]
}

/// The melted save of binary data: the metadata under its rewritten header,
/// and the gamestate, if there is one, from the field that starts it. Where
/// the metadata is too long for the header to state its length, there is no
/// melted save.
pub open spec fn melt_save(input: Seq<u8>, env: MeltEnv, header: HeaderView) -> Result<
    Melted,
    MeltError,
> {
    let meta = melt_section(input, env, true, start_state(false, Set::empty()));
    let text = rendered(meta.state.ops);
    let first = melted_metadata(header, text);
    match meta.outcome {
        MeltOutcome::Failed(e) => Err(e),
        _ => if text.len() + 1 > MAX_METADATA_LEN {
            Err(MeltError::Header)
        } else if meta.outcome is Eof {
            Ok(Melted { text: first, unknown: meta.state.unknown })
        } else {
            let game = melt_section(meta.rest, env, false, start_state(true, meta.state.unknown));
            match game.outcome {
                MeltOutcome::Failed(e) => Err(e),
                _ => Ok(
                    Melted {
                        text: first + rendered(game.state.ops) + seq![LF],
                        unknown: game.state.unknown,
                    },
                ),
            }
        },
    }
}

} // verus!
