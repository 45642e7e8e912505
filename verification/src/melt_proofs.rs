//! What holds of every melted save.

use crate::binary::{container_end, lemma_container_end, lex, Lexed, TokenView};
use crate::header::{
    canonical, fits, header_line, header_line_is_read_back, lemma_header_line_len, line_len,
    parse_header, well_formed, HeaderView, LF, MAX_METADATA_LEN,
};
use crate::melt_spec::{
    elided_len, finish, flush, melt_save, melt_section, melted_metadata, start_state, step,
    text_header, FailedResolveStrategy, MeltEnv, MeltError, MeltOutcome, MeltState, Melted,
    Step, IRONMAN_FIELD, START_OF_GAMESTATE_FIELD, UNKNOWN_PREFIX,
};
use crate::writer::{depth_after, key_expected, rendered, WriteOp};
use vstd::prelude::*;
use vstd::string::StringSliceAdditionalSpecFns;

verus! {

/// Whether a token is among the tokens of the data.
pub open spec fn occurs(s: Seq<u8>, token: TokenView) -> bool
    decreases s.len(),
{
    match lex(s) {
        Lexed::Token(t, n) => 2 <= n <= s.len() && (t == token || occurs(s.skip(n as int), token)),
        _ => false,
    }
}

/// The header line of a melted save is as long as the line of the header
/// that was given, and it states how long the rest of the first part of the
/// save is: the text of the metadata and a line feed.
pub proof fn melted_metadata_layout(header: HeaderView, text: Seq<u8>)
    requires
        well_formed(header),
        text.len() + 1 <= MAX_METADATA_LEN,
    ensures
        header_line(text_header(header, text.len())).len() == line_len(header),
        text_header(header, text.len()).metadata_len == melted_metadata(header, text).len()
            - line_len(header),
        fits(text_header(header, text.len())),
{
    lemma_header_line_len(text_header(header, text.len()));
}

/// A save is melted unless a section fails or the metadata is too long for
/// the header: then, and only then, the header line could not be as long as
/// the line it replaces.
pub proof fn melted_save_fits_its_header(input: Seq<u8>, env: MeltEnv, header: HeaderView)
    requires
        well_formed(header),
    ensures
        ({
            let meta = melt_section(input, env, true, start_state(false, Set::empty()));
            let text = rendered(meta.state.ops);
            &&& melt_save(input, env, header) is Ok ==> header_line(
                text_header(header, text.len()),
            ).len() == line_len(header)
            &&& melt_save(input, env, header) == Err::<Melted, MeltError>(MeltError::Header)
                <==> !(meta.outcome is Failed) && text.len() + 1 > MAX_METADATA_LEN
        }),
{
    let meta = melt_section(input, env, true, start_state(false, Set::empty()));
    let text = rendered(meta.state.ops);
    if melt_save(input, env, header) is Ok {
        melted_metadata_layout(header, text);
    }
    lemma_no_section_fails_for_the_header(input, env, true, start_state(false, Set::empty()));
    lemma_no_section_fails_for_the_header(
        meta.rest,
        env,
        false,
        start_state(true, meta.state.unknown),
    );
}

/// No section fails for the header: that is found when the sections are put
/// together.
pub proof fn lemma_no_section_fails_for_the_header(
    s: Seq<u8>,
    env: MeltEnv,
    split: bool,
    st: MeltState,
)
    ensures
        melt_section(s, env, split, st).outcome != MeltOutcome::Failed(MeltError::Header),
    decreases s.len(),
{
    if let Lexed::Token(t, n) = lex(s) {
        if n < 2 || n > s.len() {
        } else {
            let rest = s.skip(n as int);
            match step(flush(st, t), t, env, split) {
                Step::Next(next) => {
                    lemma_no_section_fails_for_the_header(rest, env, split, next);
                },
                Step::Elide(next) => {
                    match elided_len(rest) {
                        Ok(k) => {
                            if k <= rest.len() {
                                lemma_no_section_fails_for_the_header(
                                    rest.skip(k as int),
                                    env,
                                    split,
                                    next,
                                );
                            }
                        },
                        Err(e) => {},
                    }
                },
                Step::Gamestate(next) => {},
                Step::Fail(e) => {},
            }
        }
    }
}

/// A melted save starts with a header line that is read back as the header
/// of a text save, with the length of the metadata that follows it: the text
/// of the metadata and a line feed. Behind the metadata stands the gamestate,
/// if there is one. This holds of every header that was read from a save.
pub proof fn melted_save_starts_with_its_header(input: Seq<u8>, env: MeltEnv, header: HeaderView)
    requires
        canonical(header),
        melt_save(input, env, header) is Ok,
    ensures
        ({
            let melted = melt_save(input, env, header)->Ok_0;
            let meta = melt_section(input, env, true, start_state(false, Set::empty()));
            let game = melt_section(meta.rest, env, false, start_state(true, meta.state.unknown));
            let text = rendered(meta.state.ops);
            let rewritten = text_header(header, text.len());
            let start = line_len(header) as int;
            let end = start + rewritten.metadata_len;
            &&& parse_header(melted.text) == Some(rewritten)
            &&& line_len(rewritten) == line_len(header)
            &&& header_line(rewritten).len() == line_len(header)
            &&& end <= melted.text.len()
            &&& melted.text.subrange(start, end) == text + seq![LF]
            &&& meta.outcome is Eof ==> end == melted.text.len()
            &&& meta.outcome is Gamestate ==> melted.text.skip(end) == rendered(game.state.ops)
                + seq![LF]
        }),
{
    let melted = melt_save(input, env, header)->Ok_0;
    let meta = melt_section(input, env, true, start_state(false, Set::empty()));
    let game = melt_section(meta.rest, env, false, start_state(true, meta.state.unknown));
    let text = rendered(meta.state.ops);
    let rewritten = text_header(header, text.len());
    let start = line_len(header) as int;
    let end = start + rewritten.metadata_len;
    melted_metadata_layout(header, text);
    let line = header_line(rewritten);
    let tail = if meta.outcome is Eof {
        Seq::<u8>::empty()
    } else {
        rendered(game.state.ops) + seq![LF]
    };
    let behind = text + seq![LF] + tail;
    assert(melted.text =~= line + behind);
    assert(canonical(rewritten));
    header_line_is_read_back(rewritten, behind);
    assert((line + behind).subrange(start, end) =~= text + seq![LF]);
    assert((line + behind).skip(end) =~= tail);
}

/// A token behind a container is a token of the data that the container
/// stands in.
pub proof fn lemma_occurs_behind_container(s: Seq<u8>, depth: nat, token: TokenView)
    requires
        container_end(s, depth) is Ok,
        occurs(s.skip(container_end(s, depth)->Ok_0 as int), token),
    ensures
        occurs(s, token),
    decreases s.len(),
{
    let k = container_end(s, depth)->Ok_0;
    if let Lexed::Token(t, n) = lex(s) {
        if t is Close && depth <= 1 {
        } else {
            let inner = if t is Close {
                (depth - 1) as nat
            } else if t is Open {
                depth + 1
            } else {
                depth
            };
            let rest = s.skip(n as int);
            lemma_container_end(rest, inner);
            assert(rest.skip((k - n) as int) =~= s.skip(k as int));
            lemma_occurs_behind_container(rest, inner, token);
        }
    }
}

/// A token behind a field that was left out is a token of the data that the
/// field stands in.
pub proof fn lemma_occurs_behind_field(s: Seq<u8>, token: TokenView)
    requires
        elided_len(s) is Ok,
        elided_len(s)->Ok_0 <= s.len(),
        occurs(s.skip(elided_len(s)->Ok_0 as int), token),
    ensures
        occurs(s, token),
{
    let k = elided_len(s)->Ok_0;
    if let Lexed::Token(first, n) = lex(s) {
        crate::binary::lemma_lex_len(s);
        let rest = s.skip(n as int);
        if first is Equal {
            if let Lexed::Token(second, m) = lex(rest) {
                crate::binary::lemma_lex_len(rest);
                let inside = rest.skip(m as int);
                if second is Open {
                    lemma_container_end(inside, 1);
                    let c = container_end(inside, 1)->Ok_0;
                    assert(inside.skip(c as int) =~= s.skip(k as int));
                    lemma_occurs_behind_container(inside, 1, token);
                } else {
                    assert(inside =~= s.skip(k as int));
                }
                assert(occurs(inside, token));
                assert(occurs(rest, token));
            }
        } else if first is Open {
            lemma_container_end(rest, 1);
            let c = container_end(rest, 1)->Ok_0;
            assert(rest.skip(c as int) =~= s.skip(k as int));
            lemma_occurs_behind_container(rest, 1, token);
        } else {
            assert(rest =~= s.skip(k as int));
        }
        assert(occurs(rest, token));
    }
}

/// Every token that melting a section notes as unknown was noted before, or
/// is a token of the data that has no name.
pub proof fn unknown_tokens_have_no_name(
    s: Seq<u8>,
    env: MeltEnv,
    split: bool,
    st: MeltState,
    token: u16,
)
    requires
        melt_section(s, env, split, st).state.unknown.contains(token),
    ensures
        st.unknown.contains(token) || (occurs(s, TokenView::Id(token)) && !env.names.contains_key(
            token,
        )),
    decreases s.len(),
{
    if let Lexed::Token(t, n) = lex(s) {
        if n < 2 || n > s.len() {
        } else {
            let rest = s.skip(n as int);
            let flushed = flush(st, t);
            assert(flushed.unknown == st.unknown);
            match step(flushed, t, env, split) {
                Step::Next(next) => {
                    unknown_tokens_have_no_name(rest, env, split, next, token);
                },
                Step::Elide(next) => {
                    match elided_len(rest) {
                        Ok(k) => {
                            if k <= rest.len() {
                                unknown_tokens_have_no_name(
                                    rest.skip(k as int),
                                    env,
                                    split,
                                    next,
                                    token,
                                );
                                if occurs(rest.skip(k as int), TokenView::Id(token)) {
                                    lemma_occurs_behind_field(rest, TokenView::Id(token));
                                }
                            }
                        },
                        Err(_) => {},
                    }
                },
                Step::Gamestate(next) => {},
                Step::Fail(e) => {},
            }
        }
    }
}

/// Melting a section does not fail for a token without a name unless it was
/// asked to.
pub proof fn unknown_tokens_fail_on_demand_only(
    s: Seq<u8>,
    env: MeltEnv,
    split: bool,
    st: MeltState,
)
    requires
        env.on_failed_resolve != FailedResolveStrategy::Error,
    ensures
        !(melt_section(s, env, split, st).outcome matches MeltOutcome::Failed(
            MeltError::UnknownToken(_),
        )),
    decreases s.len(),
{
    if let Lexed::Token(t, n) = lex(s) {
        if n < 2 || n > s.len() {
        } else {
            let rest = s.skip(n as int);
            match step(flush(st, t), t, env, split) {
                Step::Next(next) => {
                    unknown_tokens_fail_on_demand_only(rest, env, split, next);
                },
                Step::Elide(next) => {
                    match elided_len(rest) {
                        Ok(k) => {
                            if k <= rest.len() {
                                unknown_tokens_fail_on_demand_only(
                                    rest.skip(k as int),
                                    env,
                                    split,
                                    next,
                                );
                            }
                        },
                        Err(e) => {},
                    }
                },
                Step::Gamestate(next) => {},
                Step::Fail(e) => {},
            }
        }
    }
}

/// The tokens that a melted save reports as unknown are tokens of the data
/// that have no name, and a save is not refused for them unless that was
/// asked for.
pub proof fn melted_save_reports_tokens_without_a_name(
    input: Seq<u8>,
    env: MeltEnv,
    header: HeaderView,
)
    ensures
        melt_save(input, env, header) matches Ok(melted) ==> forall|token: u16|
            melted.unknown.contains(token) ==> occurs(input, TokenView::Id(token))
                && !env.names.contains_key(token),
        env.on_failed_resolve != FailedResolveStrategy::Error ==> !(melt_save(input, env, header)
            matches Err(MeltError::UnknownToken(_))),
{
    let first = start_state(false, Set::empty());
    let meta = melt_section(input, env, true, first);
    let second = start_state(true, meta.state.unknown);
    let game = melt_section(meta.rest, env, false, second);
    if env.on_failed_resolve != FailedResolveStrategy::Error {
        unknown_tokens_fail_on_demand_only(input, env, true, first);
        unknown_tokens_fail_on_demand_only(meta.rest, env, false, second);
    }
    if let Ok(melted) = melt_save(input, env, header) {
        assert forall|token: u16| melted.unknown.contains(token) implies occurs(
            input,
            TokenView::Id(token),
        ) && !env.names.contains_key(token) by {
            if meta.outcome is Gamestate {
                unknown_tokens_have_no_name(meta.rest, env, false, second, token);
                if !meta.state.unknown.contains(token) {
                    lemma_rest_is_behind(input, env, first, TokenView::Id(token));
                }
            }
            if meta.state.unknown.contains(token) {
                unknown_tokens_have_no_name(input, env, true, first, token);
            }
        }
    }
}

/// A token of what a section leaves is a token of the data of the section.
pub proof fn lemma_rest_is_behind(s: Seq<u8>, env: MeltEnv, st: MeltState, token: TokenView)
    requires
        melt_section(s, env, true, st).outcome is Gamestate,
        occurs(melt_section(s, env, true, st).rest, token),
    ensures
        occurs(s, token),
    decreases s.len(),
{
    if let Lexed::Token(t, n) = lex(s) {
        if n < 2 || n > s.len() {
        } else {
            let rest = s.skip(n as int);
            match step(flush(st, t), t, env, true) {
                Step::Next(next) => {
                    lemma_rest_is_behind(rest, env, next, token);
                },
                Step::Elide(next) => {
                    match elided_len(rest) {
                        Ok(k) => {
                            if k <= rest.len() {
                                lemma_rest_is_behind(rest.skip(k as int), env, next, token);
                                lemma_occurs_behind_field(rest, token);
                            }
                        },
                        Err(e) => {},
                    }
                },
                Step::Gamestate(next) => {},
                Step::Fail(e) => {},
            }
        }
    }
}

/// Whether the request at `i` writes `name` where the writer expects a key.
pub open spec fn writes_key(ops: Seq<WriteOp>, i: int, name: Seq<u8>) -> bool {
    0 <= i < ops.len() && ops[i] == WriteOp::Unquoted(name) && key_expected(ops.take(i))
}

/// Whether no request writes `name` where the writer expects a key.
pub open spec fn writes_no_key(ops: Seq<WriteOp>, name: Seq<u8>) -> bool {
    forall|i: int| !#[trigger] writes_key(ops, i, name)
}

/// Whether the data holds a text token that spells `name`.
pub open spec fn holds_text(s: Seq<u8>, name: Seq<u8>) -> bool {
    occurs(s, TokenView::Quoted(name)) || occurs(s, TokenView::Unquoted(name))
}

/// The bytes of the names that the melter knows.
pub proof fn lemma_field_names()
    ensures
        IRONMAN_FIELD.spec_bytes().len() == 10,
        IRONMAN_FIELD.spec_bytes()[0] == 105,
        START_OF_GAMESTATE_FIELD.spec_bytes().len() == 5,
        UNKNOWN_PREFIX.spec_bytes().len() == 12,
        UNKNOWN_PREFIX.spec_bytes()[0] == 95,
{
    reveal_strlit("is_ironman");
    reveal_strlit("speed");
    reveal_strlit("__unknown_0x");
    vstd::utf8::is_ascii_chars_encode_utf8("is_ironman"@);
    vstd::utf8::is_ascii_chars_encode_utf8("speed"@);
    vstd::utf8::is_ascii_chars_encode_utf8("__unknown_0x"@);
}

/// A request that writes no key `name` keeps the requests free of such keys.
pub proof fn lemma_push_writes_no_key(ops: Seq<WriteOp>, op: WriteOp, name: Seq<u8>)
    requires
        writes_no_key(ops, name),
        !(op == WriteOp::Unquoted(name) && key_expected(ops)),
    ensures
        writes_no_key(ops.push(op), name),
{
    let after = ops.push(op);
    assert forall|i: int| !#[trigger] writes_key(after, i, name) by {
        if 0 <= i < ops.len() {
            assert(after.take(i) =~= ops.take(i));
            assert(!writes_key(ops, i, name));
        } else if i == ops.len() {
            assert(after.take(i) =~= ops);
        }
    }
}

/// Whether nothing but a name can make the melter write the field that
/// marks an ironman save: no text token spells it, and no floating point
/// number is written like it.
pub open spec fn spells_no_ironman(s: Seq<u8>, env: MeltEnv) -> bool {
    &&& !holds_text(s, IRONMAN_FIELD.spec_bytes())
    &&& forall|x: u32| #[trigger] (env.f32_text)(x) != IRONMAN_FIELD.spec_bytes()
    &&& forall|x: i64| #[trigger] (env.f64_text)(x) != IRONMAN_FIELD.spec_bytes()
}

/// Writing the text that was pending where the data ends makes no ironman key.
proof fn lemma_finish_writes_no_ironman_key(st: MeltState)
    requires
        st.pending != Some(IRONMAN_FIELD.spec_bytes()),
        writes_no_key(st.ops, IRONMAN_FIELD.spec_bytes()),
    ensures
        writes_no_key(finish(st).ops, IRONMAN_FIELD.spec_bytes()),
{
    let done = finish(st);
    if st.pending is Some {
        lemma_push_writes_no_key(st.ops, done.ops.last(), IRONMAN_FIELD.spec_bytes());
        assert(done.ops =~= st.ops.push(done.ops.last()));
    }
}

/// One token makes the melter write no ironman key.
proof fn lemma_step_writes_no_ironman_key(
    st: MeltState,
    token: TokenView,
    env: MeltEnv,
    split: bool,
)
    requires
        !env.verbatim,
        token != TokenView::Quoted(IRONMAN_FIELD.spec_bytes()),
        token != TokenView::Unquoted(IRONMAN_FIELD.spec_bytes()),
        forall|x: u32| #[trigger] (env.f32_text)(x) != IRONMAN_FIELD.spec_bytes(),
        forall|x: i64| #[trigger] (env.f64_text)(x) != IRONMAN_FIELD.spec_bytes(),
        st.pending != Some(IRONMAN_FIELD.spec_bytes()),
        writes_no_key(st.ops, IRONMAN_FIELD.spec_bytes()),
    ensures
        ({
            let next = match step(flush(st, token), token, env, split) {
                Step::Next(next) => next,
                Step::Elide(next) => next,
                Step::Gamestate(next) => next,
                Step::Fail(_) => flush(st, token),
            };
            &&& next.pending != Some(IRONMAN_FIELD.spec_bytes())
            &&& writes_no_key(next.ops, IRONMAN_FIELD.spec_bytes())
        }),
{
    let name = IRONMAN_FIELD.spec_bytes();
    lemma_field_names();
    let flushed = flush(st, token);
    if let Some(text) = st.pending {
        lemma_push_writes_no_key(st.ops, flushed.ops.last(), name);
        assert(flushed.ops =~= st.ops.push(flushed.ops.last()));
    }
    assert(writes_no_key(flushed.ops, name));
    match step(flushed, token, env, split) {
        Step::Next(next) => {
            if next.ops != flushed.ops {
                let op = next.ops.last();
                assert(next.ops =~= flushed.ops.push(op));
                match token {
                    TokenView::I32(x) => {
                        if let Some(date) = crate::date::decode_heuristic(x as int) {
                            crate::digits::lemma_decimal_digits_are_digits(date.year as nat);
                            crate::digits::lemma_digits_len(date.year as nat, 10);
                            let text = crate::date::game_text(date);
                            assert(text[0] == crate::digits::digits(date.year as nat, 10)[0]);
                            assert(crate::digits::is_digit(
                                crate::digits::digits(date.year as nat, 10)[0],
                            ));
                        }
                    },
                    TokenView::Id(x) => {
                        if !env.names.contains_key(x) {
                            let text = crate::melt_spec::unknown_text(x);
                            assert(text[0] == UNKNOWN_PREFIX.spec_bytes()[0]);
                        }
                    },
                    _ => {},
                }
                lemma_push_writes_no_key(flushed.ops, op, name);
            }
        },
        _ => {},
    }
}

/// Melting a section leaves out the field that marks an ironman save:
/// unless melting is verbatim, no request writes its name where the writer
/// expects a key, as long as nothing but a name can spell it.
pub proof fn ironman_key_is_left_out(s: Seq<u8>, env: MeltEnv, split: bool, st: MeltState)
    requires
        !env.verbatim,
        spells_no_ironman(s, env),
        st.pending != Some(IRONMAN_FIELD.spec_bytes()),
        writes_no_key(st.ops, IRONMAN_FIELD.spec_bytes()),
    ensures
        writes_no_key(melt_section(s, env, split, st).state.ops, IRONMAN_FIELD.spec_bytes()),
    decreases s.len(),
{
    let name = IRONMAN_FIELD.spec_bytes();
    if let Lexed::Token(t, n) = lex(s) {
        if n < 2 || n > s.len() {
        } else {
            let rest = s.skip(n as int);
            lemma_step_writes_no_ironman_key(st, t, env, split);
            assert(!holds_text(rest, name));
            match step(flush(st, t), t, env, split) {
                Step::Next(next) => {
                    ironman_key_is_left_out(rest, env, split, next);
                },
                Step::Elide(next) => {
                    match elided_len(rest) {
                        Ok(k) => {
                            if k <= rest.len() {
                                let behind = rest.skip(k as int);
                                if occurs(behind, TokenView::Quoted(name)) {
                                    lemma_occurs_behind_field(rest, TokenView::Quoted(name));
                                }
                                if occurs(behind, TokenView::Unquoted(name)) {
                                    lemma_occurs_behind_field(rest, TokenView::Unquoted(name));
                                }
                                ironman_key_is_left_out(behind, env, split, next);
                            }
                        },
                        Err(e) => {},
                    }
                },
                Step::Gamestate(next) => {},
                Step::Fail(e) => {},
            }
        }
    } else {
        lemma_finish_writes_no_ironman_key(st);
    }
}

/// A melted save holds no field that marks it as ironman: unless melting is
/// verbatim, neither its metadata nor its gamestate is asked to write that
/// name where the writer expects a key, as long as nothing but a name can
/// spell it.
pub proof fn melted_save_is_not_ironman(input: Seq<u8>, env: MeltEnv)
    requires
        !env.verbatim,
        spells_no_ironman(input, env),
    ensures
        ({
            let meta = melt_section(input, env, true, start_state(false, Set::empty()));
            let game = melt_section(meta.rest, env, false, start_state(true, meta.state.unknown));
            &&& writes_no_key(meta.state.ops, IRONMAN_FIELD.spec_bytes())
            &&& meta.outcome is Gamestate ==> writes_no_key(
                game.state.ops,
                IRONMAN_FIELD.spec_bytes(),
            )
        }),
{
    let name = IRONMAN_FIELD.spec_bytes();
    lemma_field_names();
    let first = start_state(false, Set::empty());
    let meta = melt_section(input, env, true, first);
    let second = start_state(true, meta.state.unknown);
    assert(writes_no_key(first.ops, name));
    ironman_key_is_left_out(input, env, true, first);
    if meta.outcome is Gamestate {
        if occurs(meta.rest, TokenView::Quoted(name)) {
            lemma_rest_is_behind(input, env, first, TokenView::Quoted(name));
        }
        if occurs(meta.rest, TokenView::Unquoted(name)) {
            lemma_rest_is_behind(input, env, first, TokenView::Unquoted(name));
        }
        assert(writes_no_key(second.ops, name));
        ironman_key_is_left_out(meta.rest, env, false, second);
    }
}

/// What one more request does to the number of open containers.
pub proof fn lemma_depth_after_push(ops: Seq<WriteOp>, op: WriteOp)
    ensures
        depth_after(ops.push(op)) == match op {
            WriteOp::Start => depth_after(ops) + 1,
            WriteOp::End => if depth_after(ops) > 0 {
                (depth_after(ops) - 1) as nat
            } else {
                0
            },
            _ => depth_after(ops),
        },
{
    assert(ops.push(op).drop_last() =~= ops);
}

/// Whether the melter holds one quoting mode for each open container.
pub open spec fn modes_follow_depth(st: MeltState) -> bool {
    st.modes.len() == depth_after(st.ops)
}

/// One token keeps one quoting mode for each open container.
proof fn lemma_step_keeps_modes(st: MeltState, token: TokenView, env: MeltEnv, split: bool)
    requires
        modes_follow_depth(st),
    ensures
        modes_follow_depth(flush(st, token)),
        match step(flush(st, token), token, env, split) {
            Step::Next(next) => modes_follow_depth(next),
            Step::Elide(next) => modes_follow_depth(next),
            Step::Gamestate(next) => modes_follow_depth(next),
            Step::Fail(_) => true,
        },
{
    let flushed = flush(st, token);
    if st.pending is Some {
        lemma_depth_after_push(st.ops, flushed.ops.last());
        assert(flushed.ops =~= st.ops.push(flushed.ops.last()));
    }
    match step(flushed, token, env, split) {
        Step::Next(next) => {
            if next.ops != flushed.ops {
                assert(next.ops =~= flushed.ops.push(next.ops.last()));
                lemma_depth_after_push(flushed.ops, next.ops.last());
            }
        },
        _ => {},
    }
}

/// The melter holds one quoting mode for each container that is open: a
/// mode more after each `{`, one less after each `}`.
pub proof fn melting_keeps_modes(s: Seq<u8>, env: MeltEnv, split: bool, st: MeltState)
    requires
        modes_follow_depth(st),
    ensures
        modes_follow_depth(melt_section(s, env, split, st).state),
    decreases s.len(),
{
    if let Lexed::Token(t, n) = lex(s) {
        if n < 2 || n > s.len() {
        } else {
            let rest = s.skip(n as int);
            lemma_step_keeps_modes(st, t, env, split);
            match step(flush(st, t), t, env, split) {
                Step::Next(next) => {
                    melting_keeps_modes(rest, env, split, next);
                },
                Step::Elide(next) => {
                    match elided_len(rest) {
                        Ok(k) => {
                            if k <= rest.len() {
                                melting_keeps_modes(rest.skip(k as int), env, split, next);
                            }
                        },
                        Err(e) => {},
                    }
                },
                Step::Gamestate(next) => {},
                Step::Fail(e) => {},
            }
        }
    } else {
        let done = finish(st);
        if st.pending is Some {
            lemma_depth_after_push(st.ops, done.ops.last());
            assert(done.ops =~= st.ops.push(done.ops.last()));
        }
    }
}

/// Whether a run of the melter leaves no field out: melting is verbatim, so
/// no name is skipped, and tokens without a name are written.
pub open spec fn elides_nothing(env: MeltEnv) -> bool {
    env.verbatim && env.on_failed_resolve == FailedResolveStrategy::Stringify
}

/// Where the melter leaves no field out and reaches the end of the data, the
/// tokens that it notes as unknown are those that were noted before and all
/// the tokens of the data that have no name.
pub proof fn every_token_without_a_name_is_noted(
    s: Seq<u8>,
    env: MeltEnv,
    split: bool,
    st: MeltState,
    token: u16,
)
    requires
        elides_nothing(env),
        melt_section(s, env, split, st).outcome is Eof,
        occurs(s, TokenView::Id(token)),
        !env.names.contains_key(token),
    ensures
        melt_section(s, env, split, st).state.unknown.contains(token),
    decreases s.len(),
{
    if let Lexed::Token(t, n) = lex(s) {
        if n < 2 || n > s.len() {
        } else {
            let rest = s.skip(n as int);
            match step(flush(st, t), t, env, split) {
                Step::Next(next) => {
                    if t == TokenView::Id(token) {
                        assert(next.unknown.contains(token));
                        lemma_unknown_grows(rest, env, split, next, token);
                    } else {
                        every_token_without_a_name_is_noted(rest, env, split, next, token);
                    }
                },
                _ => {},
            }
        }
    }
}

/// What the melter has noted as unknown stays noted.
pub proof fn lemma_unknown_grows(s: Seq<u8>, env: MeltEnv, split: bool, st: MeltState, token: u16)
    requires
        st.unknown.contains(token),
    ensures
        melt_section(s, env, split, st).state.unknown.contains(token),
    decreases s.len(),
{
    if let Lexed::Token(t, n) = lex(s) {
        if n < 2 || n > s.len() {
        } else {
            let rest = s.skip(n as int);
            match step(flush(st, t), t, env, split) {
                Step::Next(next) => {
                    lemma_unknown_grows(rest, env, split, next, token);
                },
                Step::Elide(next) => {
                    match elided_len(rest) {
                        Ok(k) => {
                            if k <= rest.len() {
                                lemma_unknown_grows(rest.skip(k as int), env, split, next, token);
                            }
                        },
                        Err(e) => {},
                    }
                },
                Step::Gamestate(next) => {},
                Step::Fail(e) => {},
            }
        }
    }
}

} // verus!
