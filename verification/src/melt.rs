//! Melting: a binary save becomes the text save that the game would have
//! written.

use crate::binary::{
    container_end, lemma_container_end, lemma_lex_len, lex, Lexed, Token, TokenReader,
};
use crate::date::ImperatorDate;
use crate::digits::push_number;
use crate::errors::{ImperatorError, ImperatorErrorKind};
use crate::flavor::ImperatorFlavor;
use crate::header::{
    header_line, line_len, update_header, HeaderView, SaveHeader, SaveHeaderKind, LF,
    MAX_METADATA_LEN,
};
use crate::melt_spec::{
    elided_len, finish, flush, integer_op, melt_save, melt_section, name_action, quoted_action,
    quoted_op, start_state, step, unknown_action, unknown_text, unquotes, FailedResolveStrategy,
    MeltEnv, MeltError, MeltOutcome, MeltState, NameAction, QuotedAction, UnknownAction,
    INDENT_CHAR, INDENT_FACTOR, IRONMAN_FIELD, SEED_FIELD, START_OF_GAMESTATE_FIELD,
    UNKNOWN_PREFIX,
};
use crate::tokens::TokenResolver;
use crate::writer::{
    at_unknown_start, depth, expecting_key, into_bytes, new_writer, rendered, write_bool,
    write_end, write_equal, write_i32, write_i64, write_quoted, write_rgb, write_start,
    write_u32, write_u64, write_unquoted, written, WriteOp,
};
use jomini::TextWriter;
use std::collections::HashSet;
use vstd::prelude::*;
use vstd::slice::slice_to_vec;
use vstd::string::StringSliceAdditionalSpecFns;

verus! {

broadcast use vstd::std_specs::hash::group_hash_axioms;

/// Output from melting a binary save to plaintext
#[derive(Debug)]
pub struct MeltedDocument {
    unknown_tokens: HashSet<u16>,
}

impl View for MeltedDocument {
    type V = Set<u16>;

    closed spec fn view(&self) -> Set<u16> {
        self.unknown_tokens@
    }
}

impl MeltedDocument {
    /// The outcome of melting in which every token had a name.
    pub fn new() -> (r: Self)
        ensures
            r@ == Set::<u16>::empty(),
    {
        MeltedDocument { unknown_tokens: HashSet::new() }
    }

    /// The list of unknown tokens that the provided resolver accumulated
    pub fn unknown_tokens(&self) -> (r: &HashSet<u16>)
        ensures
            r@ == self@,
    {
        &self.unknown_tokens
    }
}

/// How to melt.
#[derive(Debug, Clone, Copy, PartialEq, Eq)]
pub struct MeltOptions {
    verbatim: bool,
    on_failed_resolve: FailedResolveStrategy,
}

impl Default for MeltedDocument {
    fn default() -> (r: Self)
        ensures
            r@ == Set::<u16>::empty(),
    {
        MeltedDocument::new()
    }
}

impl MeltOptions {
    /// Whether the tokens are written with no regard to what their names mean.
    pub closed spec fn is_verbatim(&self) -> bool {
        self.verbatim
    }

    /// What is done with a token without a name.
    pub closed spec fn strategy(&self) -> FailedResolveStrategy {
        self.on_failed_resolve
    }

    /// The options to start from: the rules for names hold, and tokens
    /// without a name are ignored.
    pub fn new() -> (r: Self)
        ensures
            !r.is_verbatim(),
            r.strategy() == FailedResolveStrategy::Ignore,
    {
        MeltOptions { verbatim: false, on_failed_resolve: FailedResolveStrategy::Ignore }
    }

    /// These options, but for whether melting is verbatim.
    pub fn verbatim(self, verbatim: bool) -> (r: Self)
        ensures
            r.is_verbatim() == verbatim,
            r.strategy() == self.strategy(),
    {
        MeltOptions { verbatim, on_failed_resolve: self.on_failed_resolve }
    }

    /// These options, but for what is done with a token without a name.
    pub fn on_failed_resolve(self, on_failed_resolve: FailedResolveStrategy) -> (r: Self)
        ensures
            r.is_verbatim() == self.is_verbatim(),
            r.strategy() == on_failed_resolve,
    {
        MeltOptions { verbatim: self.verbatim, on_failed_resolve }
    }
}

impl Default for MeltOptions {
    fn default() -> (r: Self)
        ensures
            !r.is_verbatim(),
            r.strategy() == FailedResolveStrategy::Ignore,
    {
        MeltOptions::new()
    }
}

/// The text that a function gives for a number, if it gives one text only.
pub open spec fn text_of<A, F: Fn(A) -> Vec<u8>>(f: F, x: A) -> Seq<u8> {
    (choose|r: Vec<u8>| call_ensures(f, (x,), r))@
}

/// Whether a function gives a text for every number, and always the same.
pub open spec fn renders<A, F: Fn(A) -> Vec<u8>>(f: F) -> bool {
    &&& forall|x: A| #[trigger] call_requires(f, (x,))
    &&& forall|x: A, r1: Vec<u8>, r2: Vec<u8>|
        #[trigger] call_ensures(f, (x,), r1) && #[trigger] call_ensures(f, (x,), r2) ==> r1@
            == r2@
}

/// What melting goes by: the names of a resolver, the options, and the texts
/// that two functions give for floating point numbers.
pub open spec fn env_of<F4: Fn(u32) -> Vec<u8>, F8: Fn(i64) -> Vec<u8>>(
    names: Map<u16, Seq<u8>>,
    options: MeltOptions,
    f32_text: F4,
    f64_text: F8,
) -> MeltEnv {
    MeltEnv {
        names,
        verbatim: options.is_verbatim(),
        on_failed_resolve: options.strategy(),
        f32_text: |x: u32| text_of(f32_text, x),
        f64_text: |x: i64| text_of(f64_text, x),
    }
}

/// Whether an error is of the kind that the melter is to fail with.
pub open spec fn is_error(kind: ImperatorErrorKind, error: MeltError) -> bool {
    match error {
        MeltError::Truncated => kind is Truncated,
        MeltError::InvalidToken => kind is InvalidToken,
        MeltError::Writer => kind is Writer,
        MeltError::UnknownToken(token) => kind == (ImperatorErrorKind::UnknownToken {
            token_id: token,
        }),
        MeltError::Header => kind is InvalidHeader,
    }
}

/// What a function gives for a number is the text of that number.
proof fn lemma_text_of<A, F: Fn(A) -> Vec<u8>>(f: F, x: A, r: Vec<u8>)
    requires
        renders(f),
        call_ensures(f, (x,), r),
    ensures
        r@ == text_of(f, x),
{
    let r0 = choose|r0: Vec<u8>| call_ensures(f, (x,), r0);
    assert(call_ensures(f, (x,), r0));
}

/// Whether two texts are the same.
pub fn same_bytes(a: &[u8], b: &[u8]) -> (r: bool)
    ensures
        r == (a@ == b@),
{
    if a.len() != b.len() {
        return false;
    }
    let mut i: usize = 0;
    while i < a.len()
        invariant
            i <= a@.len(),
            a@.len() == b@.len(),
            forall|k: int| 0 <= k < i ==> a@[k] == b@[k],
        decreases a.len() - i,
    {
        if a[i] != b[i] {
            return false;
        }
        i = i + 1;
    }
    assert(a@ =~= b@);
    true
}

/// Decides what to do with a token that has the name `name`, where the
/// writer expects a key (`key`) or a value, `depth` containers deep.
pub fn decide_name(name: &[u8], key: bool, depth: usize, verbatim: bool, split: bool) -> (r:
    NameAction)
    ensures
        r == name_action(name@, key, depth as nat, verbatim, split),
{
    if key && !verbatim && same_bytes(name, IRONMAN_FIELD.as_bytes()) {
        NameAction::Elide
    } else if key && split && same_bytes(name, START_OF_GAMESTATE_FIELD.as_bytes()) {
        NameAction::Gamestate
    } else {
        let rules: bool = key && !verbatim;
        let known_number: bool = rules && same_bytes(name, SEED_FIELD.as_bytes());
        let unquote: bool = rules && (same_bytes(name, "event_targets".as_bytes()) || same_bytes(
            name,
            "historical_regnal_numbers".as_bytes(),
        ) || (same_bytes(name, "technology".as_bytes()) && depth != 2));
        NameAction::Write { known_number, unquote }
    }
}

/// Decides what to do with a quoted text: right behind `{` (`at_start`),
/// where the writer expects a key (`key`), or as a value, in a container
/// whose values are to lose their quotes (`unquote`) or not.
pub fn decide_quoted(at_start: bool, key: bool, unquote: bool) -> (r: QuotedAction)
    ensures
        r == quoted_action(at_start, key, unquote),
{
    if at_start {
        QuotedAction::Defer
    } else if key || unquote {
        QuotedAction::Unquoted
    } else {
        QuotedAction::Quoted
    }
}

/// Decides what to do with a token that has no name.
pub fn decide_unknown(strategy: FailedResolveStrategy, key: bool) -> (r: UnknownAction)
    ensures
        r == unknown_action(strategy, key),
{
    match strategy {
        FailedResolveStrategy::Error => UnknownAction::Fail,
        FailedResolveStrategy::Ignore => if key {
            UnknownAction::Elide
        } else {
            UnknownAction::Stringify
        },
        FailedResolveStrategy::Stringify => UnknownAction::Stringify,
    }
}

/// The text that stands for a token without a name: `__unknown_0x` and the
/// token in hexadecimal.
pub fn stringify_token(token: u16) -> (r: Vec<u8>)
    ensures
        r@ == unknown_text(token),
{
    let mut text: Vec<u8> = slice_to_vec(UNKNOWN_PREFIX.as_bytes());
    push_number(&mut text, token as u64, 16, 0);
    proof {
        crate::digits::lemma_digits_len(token as nat, 16);
    }
    text
}

/// An error of the writer as an error of this library.
fn written_or(result: Result<(), jomini::Error>) -> (r: Result<(), ImperatorError>)
    ensures
        r is Ok <==> result is Ok,
        r matches Err(e) ==> e@ is Writer,
{
    match result {
        Ok(()) => Ok(()),
        Err(e) => Err(ImperatorError::new(ImperatorErrorKind::Writer(e))),
    }
}

/// Leaves out the value of a field: the `=` before it, if there is one, and
/// then one token, or a whole container.
fn skip_field(reader: &mut TokenReader<'_>) -> (r: Result<(), ImperatorError>)
    ensures
        final(reader).data() == old(reader).data(),
        match elided_len(old(reader).remaining()) {
            Ok(k) => r is Ok && k <= old(reader).remaining().len() && final(reader).remaining()
                == old(reader).remaining().skip(k as int),
            Err(e) => r matches Err(err) && is_error(err@, e),
        },
{
    let ghost start = reader.remaining();
    proof {
        lemma_lex_len(start);
    }
    let mut next = match reader.read() {
        Ok(token) => token,
        Err(e) => {
            return Err(e);
        },
    };
    let ghost n: nat = match lex(start) {
        Lexed::Token(_, n) => n,
        _ => 0,
    };
    let ghost mut m: nat = 0;
    assert(reader.remaining() == start.skip(n as int));
    if let Token::Equal = next {
        let ghost second = reader.remaining();
        proof {
            lemma_lex_len(second);
        }
        next = match reader.read() {
            Ok(token) => token,
            Err(e) => {
                return Err(e);
            },
        };
        proof {
            m = match lex(second) {
                Lexed::Token(_, m) => m,
                _ => 0,
            };
            assert(start.skip(n as int).skip(m as int) =~= start.skip((n + m) as int));
        }
        if let Token::Open = next {
            let ghost inside = reader.remaining();
            proof {
                lemma_container_end(inside, 1);
            }
            match reader.skip_container() {
                Ok(()) => {},
                Err(e) => {
                    return Err(e);
                },
            }
            proof {
                let k = container_end(inside, 1)->Ok_0;
                assert(start.skip((n + m) as int).skip(k as int) =~= start.skip(
                    (n + m + k) as int,
                ));
            }
        }
    } else if let Token::Open = next {
        let ghost inside = reader.remaining();
        proof {
            lemma_container_end(inside, 1);
        }
        match reader.skip_container() {
            Ok(()) => {},
            Err(e) => {
                return Err(e);
            },
        }
        proof {
            let k = container_end(inside, 1)->Ok_0;
            assert(start.skip(n as int).skip(k as int) =~= start.skip((n + k) as int));
        }
    }
    Ok(())
}

/// Writes a quoted text of which it is known whether it is a key: without
/// quotes then, and also as a value where values are to lose their quotes.
fn write_settled(w: &mut TextWriter<Vec<u8>>, text: &[u8], key: bool, unquote: bool) -> (r: Result<
    (),
    jomini::Error,
>)
    ensures
        r is Ok,
        written(*final(w)) == written(*old(w)).push(
            if quoted_action(false, key, unquote) == QuotedAction::Unquoted {
                WriteOp::Unquoted(text@)
            } else {
                WriteOp::Quoted(text@)
            },
        ),
{
    match decide_quoted(false, key, unquote) {
        QuotedAction::Quoted => write_quoted(w, text),
        _ => write_unquoted(w, text),
    }
}

/// Writes a 32-bit integer: as the date that it denotes, unless it is known
/// to be a number or denotes no plausible date.
fn write_integer(w: &mut TextWriter<Vec<u8>>, known_number: bool, value: i32) -> (r: Result<
    (),
    jomini::Error,
>)
    ensures
        r is Ok,
        written(*final(w)) == written(*old(w)).push(integer_op(known_number, value)),
{
    if known_number {
        write_i32(w, value)
    } else {
        match ImperatorDate::from_binary_heuristic(value) {
            Some(date) => {
                let text: Vec<u8> = date.game_fmt();
                write_unquoted(w, text.as_slice())
            },
            None => write_i32(w, value),
        }
    }
}

/// How a section ended.
#[derive(Debug, Clone, Copy, PartialEq, Eq, Structural)]
pub enum MelterReturn {
    /// With the data.
    Eof,
    /// Before the field with which the gamestate starts, which has been read.
    StartOfGamestateField,
}

/// The state of the melter, as the melter holds it.
pub open spec fn state_of(
    ops: Seq<WriteOp>,
    known_number: bool,
    pending: Option<&[u8]>,
    queued: bool,
    modes: Seq<bool>,
    unknown: Set<u16>,
) -> MeltState {
    MeltState {
        ops,
        known_number,
        pending: match pending {
            Some(text) => Some(text@),
            None => None,
        },
        queued,
        modes,
        unknown,
    }
}

/// Melts one section of a save: all of what the reader has left, or, where
/// `split` is set, what stands before the field with which the gamestate
/// starts. Returns the text of the section. With `write_prefix` the text
/// starts with the name of that field, which the section before has read.
#[verifier::rlimit(40)]
pub fn melt_inner<'a, R: TokenResolver, F4: Fn(u32) -> Vec<u8>, F8: Fn(i64) -> Vec<u8>>(
    reader: &mut TokenReader<'a>,
    resolver: &R,
    f32_text: &F4,
    f64_text: &F8,
    options: MeltOptions,
    split: bool,
    write_prefix: bool,
    unknown_tokens: &mut HashSet<u16>,
) -> (r: Result<(MelterReturn, Vec<u8>), ImperatorError>)
    requires
        renders(*f32_text),
        renders(*f64_text),
    ensures
        final(reader).data() == old(reader).data(),
        ({
            let end = melt_section(
                old(reader).remaining(),
                env_of(resolver.names(), options, *f32_text, *f64_text),
                split,
                start_state(write_prefix, old(unknown_tokens)@),
            );
            match end.outcome {
                MeltOutcome::Failed(e) => r matches Err(err) && is_error(err@, e),
                MeltOutcome::Eof => r matches Ok((how, text)) && how == MelterReturn::Eof
                    && text@ == rendered(end.state.ops) && final(unknown_tokens)@
                    == end.state.unknown && final(reader).remaining() == end.rest,
                MeltOutcome::Gamestate => r matches Ok((how, text)) && how
                    == MelterReturn::StartOfGamestateField && text@ == rendered(end.state.ops)
                    && final(unknown_tokens)@ == end.state.unknown && final(reader).remaining()
                    == end.rest,
            }
        }),
{
    let flavor = ImperatorFlavor::new();
    let ghost env = env_of(resolver.names(), options, *f32_text, *f64_text);
    let ghost goal = melt_section(
        reader.remaining(),
        env,
        split,
        start_state(write_prefix, unknown_tokens@),
    );
    let mut wtr = new_writer(INDENT_CHAR, INDENT_FACTOR);
    if write_prefix {
        match written_or(write_unquoted(&mut wtr, START_OF_GAMESTATE_FIELD.as_bytes())) {
            Ok(()) => {},
            Err(e) => {
                return Err(e);
            },
        }
    }
    let mut known_number: bool = false;
    let mut pending: Option<&'a [u8]> = None;
    let mut queued: bool = false;
    let mut modes: Vec<bool> = Vec::new();
    assert(state_of(written(wtr), known_number, pending, queued, modes@, unknown_tokens@)
        == start_state(write_prefix, unknown_tokens@));
    loop
        invariant
            renders(*f32_text),
            renders(*f64_text),
            reader.data() == old(reader).data(),
            env == env_of(resolver.names(), options, *f32_text, *f64_text),
            goal == melt_section(
                old(reader).remaining(),
                env,
                split,
                start_state(write_prefix, old(unknown_tokens)@),
            ),
            goal == melt_section(
                reader.remaining(),
                env,
                split,
                state_of(written(wtr), known_number, pending, queued, modes@, unknown_tokens@),
            ),
        decreases reader.remaining().len(),
    {
        let ghost before = reader.remaining();
        let ghost st0 = state_of(
            written(wtr),
            known_number,
            pending,
            queued,
            modes@,
            unknown_tokens@,
        );
        proof {
            lemma_lex_len(before);
        }
        let token = match reader.next() {
            Ok(Some(token)) => token,
            Ok(None) => {
                if let Some(text) = pending {
                    let unquote: bool = queued || (modes.len() > 0 && modes[modes.len() - 1]);
                    match written_or(write_settled(&mut wtr, text, false, unquote)) {
                        Ok(()) => {},
                        Err(e) => {
                            return Err(e);
                        },
                    }
                }
                return Ok((MelterReturn::Eof, into_bytes(wtr)));
            },
            Err(e) => {
                return Err(e);
            },
        };
        if let Some(text) = pending {
            let key: bool = match token {
                Token::Equal => true,
                _ => false,
            };
            let unquote: bool = queued || (modes.len() > 0 && modes[modes.len() - 1]);
            match written_or(write_settled(&mut wtr, text, key, unquote)) {
                Ok(()) => {},
                Err(e) => {
                    return Err(e);
                },
            }
            pending = None;
            queued = false;
        }
        let ghost st1 = state_of(
            written(wtr),
            known_number,
            pending,
            queued,
            modes@,
            unknown_tokens@,
        );
        assert(st1 == flush(st0, token@));
        let mut elide: bool = false;
        let result: Result<(), jomini::Error> = match token {
            Token::Open => {
                modes.push(queued);
                queued = false;
                write_start(&mut wtr)
            },
            Token::Close => {
                match written_or(write_end(&mut wtr)) {
                    Ok(()) => {},
                    Err(e) => {
                        return Err(e);
                    },
                }
                if modes.len() > 0 {
                    modes.pop();
                }
                Ok(())
            },
            Token::Equal => write_equal(&mut wtr),
            Token::I32(x) => {
                let known: bool = known_number;
                known_number = false;
                queued = false;
                write_integer(&mut wtr, known, x)
            },
            Token::Quoted(text) => {
                let unquote: bool = queued || (modes.len() > 0 && modes[modes.len() - 1]);
                queued = false;
                match decide_quoted(at_unknown_start(&wtr), expecting_key(&wtr), unquote) {
                    QuotedAction::Defer => {
                        pending = Some(text);
                        Ok(())
                    },
                    QuotedAction::Unquoted => write_unquoted(&mut wtr, text),
                    QuotedAction::Quoted => write_quoted(&mut wtr, text),
                }
            },
            Token::Unquoted(text) => {
                queued = false;
                write_unquoted(&mut wtr, text)
            },
            Token::F32(data) => {
                let bits: u32 = flavor.visit_f32_bits(data);
                let text: Vec<u8> = f32_text(bits);
                proof {
                    lemma_text_of(*f32_text, bits, text);
                }
                queued = false;
                write_unquoted(&mut wtr, text.as_slice())
            },
            Token::F64(data) => {
                let scaled: i64 = flavor.visit_f64_scaled(data);
                let text: Vec<u8> = f64_text(scaled);
                proof {
                    lemma_text_of(*f64_text, scaled, text);
                }
                queued = false;
                write_unquoted(&mut wtr, text.as_slice())
            },
            Token::U32(x) => {
                queued = false;
                write_u32(&mut wtr, x)
            },
            Token::U64(x) => {
                queued = false;
                write_u64(&mut wtr, x)
            },
            Token::I64(x) => {
                queued = false;
                write_i64(&mut wtr, x)
            },
            Token::Bool(x) => {
                queued = false;
                write_bool(&mut wtr, x)
            },
            Token::Rgb(x) => {
                queued = false;
                write_rgb(&mut wtr, x)
            },
            Token::Id(x) => match resolver.resolve(x) {
                Some(name) => {
                    let key: bool = expecting_key(&wtr);
                    let level: usize = depth(&wtr);
                    match decide_name(name, key, level, options.verbatim, split) {
                        NameAction::Elide => {
                            elide = true;
                            Ok(())
                        },
                        NameAction::Gamestate => {
                            return Ok((MelterReturn::StartOfGamestateField, into_bytes(wtr)));
                        },
                        NameAction::Write { known_number: known, unquote } => {
                            known_number = known;
                            queued = unquote;
                            write_unquoted(&mut wtr, name)
                        },
                    }
                },
                None => {
                    let key: bool = expecting_key(&wtr);
                    match decide_unknown(options.on_failed_resolve, key) {
                        UnknownAction::Fail => {
                            return Err(
                                ImperatorError::new(
                                    ImperatorErrorKind::UnknownToken { token_id: x },
                                ),
                            );
                        },
                        UnknownAction::Elide => {
                            unknown_tokens.insert(x);
                            elide = true;
                            Ok(())
                        },
                        UnknownAction::Stringify => {
                            unknown_tokens.insert(x);
                            let text: Vec<u8> = stringify_token(x);
                            queued = false;
                            write_unquoted(&mut wtr, text.as_slice())
                        },
                    }
                },
            },
        };
        match written_or(result) {
            Ok(()) => {},
            Err(e) => {
                return Err(e);
            },
        }
        let ghost st2 = state_of(
            written(wtr),
            known_number,
            pending,
            queued,
            modes@,
            unknown_tokens@,
        );
        if elide {
            assert(step(st1, token@, env, split) == crate::melt_spec::Step::Elide(st2));
            match skip_field(reader) {
                Ok(()) => {},
                Err(e) => {
                    return Err(e);
                },
            }
        } else {
            assert(step(st1, token@, env, split) == crate::melt_spec::Step::Next(st2));
        }
    }
}

/// Melts binary data into the text save that it stands for, and appends that
/// to `output`: the header, rewritten as that of a text save with the length
/// of the melted metadata, the metadata, and the gamestate from the field
/// that starts it, each with a line feed after it. The header line is as long
/// as the line of the header that was given, of which only the layout, the
/// version and the random bytes are kept.
///
/// Melting fails where the data is cut short or holds a broken colour, where
/// a `}` closes nothing, where a token has no name and that was to be an
/// error, and where the metadata is too long for the header to state its
/// length. `output` is then left as it was.
///
/// The two functions give the text of a 32-bit floating point number, by its
/// bit pattern, and of a 64-bit one, by the number of its hundred-thousandths.
pub fn melt<R: TokenResolver, F4: Fn(u32) -> Vec<u8>, F8: Fn(i64) -> Vec<u8>>(
    input: &[u8],
    output: &mut Vec<u8>,
    resolver: &R,
    f32_text: &F4,
    f64_text: &F8,
    options: MeltOptions,
    header: SaveHeader,
) -> (r: Result<MeltedDocument, ImperatorError>)
    requires
        renders(*f32_text),
        renders(*f64_text),
    ensures
        match melt_save(
            input@,
            env_of(resolver.names(), options, *f32_text, *f64_text),
            header@,
        ) {
            Ok(melted) => r matches Ok(document) && document@ == melted.unknown && final(output)@
                == old(output)@ + melted.text,
            Err(e) => r matches Err(err) && is_error(err@, e) && final(output)@ == old(output)@,
        },
{
    let mut unknown_tokens: HashSet<u16> = HashSet::new();
    let mut reader = TokenReader::from_slice(input);
    let mut metadata: Vec<u8> = Vec::new();
    let mut draft = header;
    draft.set_kind(SaveHeaderKind::Text);
    draft.set_metadata_len(0);
    match draft.write(&mut metadata) {
        Ok(()) => {},
        Err(e) => {
            return Err(e);
        },
    }
    let (melter_return, text) = match melt_inner(
        &mut reader,
        resolver,
        f32_text,
        f64_text,
        options,
        true,
        false,
        &mut unknown_tokens,
    ) {
        Ok(done) => done,
        Err(e) => {
            return Err(e);
        },
    };
    let ghost draft_line = metadata@;
    let mut text = text;
    metadata.append(&mut text);
    proof {
        assert(line_len(draft@) == line_len(header@));
        assert(metadata@.skip(line_len(header@) as int) =~= metadata@.skip(draft_line.len() as int));
    }
    match update_header(&mut metadata, header) {
        Ok(()) => {},
        Err(e) => {
            return Err(e);
        },
    }
    metadata.push(LF);
    if let MelterReturn::StartOfGamestateField = melter_return {
        let (_, gamestate) = match melt_inner(
            &mut reader,
            resolver,
            f32_text,
            f64_text,
            options,
            false,
            true,
            &mut unknown_tokens,
        ) {
            Ok(done) => done,
            Err(e) => {
                return Err(e);
            },
        };
        let mut gamestate = gamestate;
        metadata.append(&mut gamestate);
        metadata.push(LF);
    }
    output.append(&mut metadata);
    Ok(MeltedDocument { unknown_tokens })
}

/// The text save that a text save stands for: the save itself, under a
/// header that says so. It is appended to `output`. A header whose metadata
/// length is too great for its field cannot be written: `output` is left as
/// it was then.
pub fn melt_text(body: &[u8], output: &mut Vec<u8>, header: SaveHeader) -> (r: Result<
    MeltedDocument,
    ImperatorError,
>)
    ensures
        header@.metadata_len <= MAX_METADATA_LEN ==> (r matches Ok(document) && document@
            == Set::<u16>::empty()) && final(output)@ == old(output)@ + header_line(
            (HeaderView { kind: 0, ..header@ }),
        ) + body@,
        header@.metadata_len > MAX_METADATA_LEN ==> (r matches Err(e) && e@
            == ImperatorErrorKind::InvalidHeader) && final(output)@ == old(output)@,
{
    let mut new_header = header;
    new_header.set_kind(SaveHeaderKind::Text);
    match new_header.write(output) {
        Ok(()) => {},
        Err(e) => {
            return Err(e);
        },
    }
    output.extend_from_slice(body);
    Ok(MeltedDocument::new())
}

} // verus!
