use imperator_save::melt::{melt, MeltOptions};
use imperator_save::melt_spec::FailedResolveStrategy;
use imperator_save::tokens::TokenTable;
use imperator_save::{ImperatorErrorKind, SaveHeader};

fn id(token: u16) -> Vec<u8> {
    token.to_le_bytes().to_vec()
}

fn open_token() -> Vec<u8> {
    id(0x0003)
}

fn close_token() -> Vec<u8> {
    id(0x0004)
}

fn equal_token() -> Vec<u8> {
    id(0x0001)
}

fn i32_token(value: i32) -> Vec<u8> {
    let mut out = id(0x000c);
    out.extend_from_slice(&value.to_le_bytes());
    out
}

fn u32_token(value: u32) -> Vec<u8> {
    let mut out = id(0x0014);
    out.extend_from_slice(&value.to_le_bytes());
    out
}

fn quoted(text: &str) -> Vec<u8> {
    let mut out = id(0x000f);
    out.extend_from_slice(&(text.len() as u16).to_le_bytes());
    out.extend_from_slice(text.as_bytes());
    out
}

fn unquoted(text: &str) -> Vec<u8> {
    let mut out = id(0x0017);
    out.extend_from_slice(&(text.len() as u16).to_le_bytes());
    out.extend_from_slice(text.as_bytes());
    out
}

fn join(parts: &[Vec<u8>]) -> Vec<u8> {
    parts.concat()
}

const VERSION: u16 = 0x1000;
const SPEED: u16 = 0x1001;
const IRONMAN: u16 = 0x1002;
const SEED: u16 = 0x1003;
const DATE: u16 = 0x1004;
const TARGETS: u16 = 0x1005;
const NAME: u16 = 0x1006;
const TECHNOLOGY: u16 = 0x1007;

fn names() -> TokenTable {
    let mut table = TokenTable::new();
    table.insert(VERSION, "version");
    table.insert(SPEED, "speed");
    table.insert(IRONMAN, "is_ironman");
    table.insert(SEED, "seed");
    table.insert(DATE, "date");
    table.insert(TARGETS, "event_targets");
    table.insert(NAME, "name");
    table.insert(TECHNOLOGY, "technology");
    table
}

fn f32_text(bits: u32) -> Vec<u8> {
    format!("{}", f32::from_bits(bits)).into_bytes()
}

fn f64_text(scaled: i64) -> Vec<u8> {
    format!("{}", scaled as f64 / 100000.0).into_bytes()
}

fn header() -> SaveHeader {
    SaveHeader::from_slice(b"SAV0103a40f789f000067c4\n").unwrap()
}

fn melted(input: &[u8], options: MeltOptions) -> Result<(String, Vec<u16>), String> {
    let mut out = Vec::new();
    match melt(input, &mut out, &names(), &f32_text, &f64_text, options, header()) {
        Ok(document) => {
            let mut unknown: Vec<u16> = document.unknown_tokens().iter().copied().collect();
            unknown.sort();
            Ok((String::from_utf8(out).unwrap(), unknown))
        }
        Err(e) => {
            assert!(out.is_empty());
            Err(match e.kind() {
                ImperatorErrorKind::Truncated => String::from("truncated"),
                ImperatorErrorKind::InvalidToken => String::from("invalid token"),
                ImperatorErrorKind::InvalidHeader => String::from("invalid header"),
                ImperatorErrorKind::UnknownToken { token_id } => format!("unknown {:#x}", token_id),
                ImperatorErrorKind::Writer(_) => String::from("writer"),
            })
        }
    }
}

fn text_of(input: &[u8]) -> String {
    melted(input, MeltOptions::new()).unwrap().0
}

#[test]
fn melt_splits_metadata_and_gamestate() {
    let input = join(&[
        id(VERSION),
        equal_token(),
        quoted("1.5.3"),
        id(SPEED),
        equal_token(),
        i32_token(2),
    ]);
    assert_eq!(
        text_of(&input),
        "SAV0100a40f789f00000010\nversion=\"1.5.3\"\nspeed=2\n"
    );
}

#[test]
fn melt_of_metadata_alone_has_no_gamestate() {
    let input = join(&[id(VERSION), equal_token(), quoted("1.5.3")]);
    assert_eq!(text_of(&input), "SAV0100a40f789f00000010\nversion=\"1.5.3\"\n");
}

#[test]
fn melt_of_nothing_is_a_header() {
    assert_eq!(text_of(&[]), "SAV0100a40f789f00000001\n\n");
}

fn bool_token(value: bool) -> Vec<u8> {
    let mut out = id(0x000e);
    out.push(if value { 1 } else { 0 });
    out
}

fn f32_token(value: f32) -> Vec<u8> {
    let mut out = id(0x000d);
    out.extend_from_slice(&value.to_bits().to_le_bytes());
    out
}

fn f64_token(scaled: i64) -> Vec<u8> {
    let mut out = id(0x0167);
    out.extend_from_slice(&scaled.to_le_bytes());
    out
}

fn u64_token(value: u64) -> Vec<u8> {
    let mut out = id(0x029c);
    out.extend_from_slice(&value.to_le_bytes());
    out
}

fn i64_token(value: i64) -> Vec<u8> {
    let mut out = id(0x0317);
    out.extend_from_slice(&value.to_le_bytes());
    out
}

fn rgb_token(channels: &[u32]) -> Vec<u8> {
    let mut out = id(0x0243);
    out.extend_from_slice(&open_token());
    for channel in channels {
        out.extend_from_slice(&u32_token(*channel));
    }
    out.extend_from_slice(&close_token());
    out
}

/// The text of the metadata that the tokens melt to, without the header line
/// and the line feed at the end.
fn body_of(input: &[u8], options: MeltOptions) -> String {
    let text = melted(input, options).unwrap().0;
    let body = text.strip_prefix("SAV0100a40f789f").unwrap();
    let body = &body[9..];
    body.strip_suffix("\n").unwrap().to_string()
}

fn body(input: &[u8]) -> String {
    body_of(input, MeltOptions::new())
}

#[test]
fn melt_rewrites_the_length_of_the_metadata() {
    let input = join(&[id(NAME), equal_token(), unquoted("abc")]);
    let text = text_of(&input);
    assert_eq!(text, "SAV0100a40f789f00000009\nname=abc\n");
    let header = SaveHeader::from_slice(text.as_bytes()).unwrap();
    assert_eq!(header.header_len(), 24);
    assert_eq!(header.metadata_len() as usize, text.len() - header.header_len());
}

#[test]
fn melt_leaves_out_the_ironman_field() {
    let input = join(&[
        id(VERSION),
        equal_token(),
        quoted("1.5.3"),
        id(IRONMAN),
        equal_token(),
        bool_token(true),
        id(NAME),
        equal_token(),
        quoted("x"),
    ]);
    assert_eq!(body(&input), "version=\"1.5.3\"\nname=\"x\"");
}

#[test]
fn melt_leaves_out_an_ironman_container() {
    let input = join(&[
        id(IRONMAN),
        equal_token(),
        open_token(),
        i32_token(1),
        open_token(),
        i32_token(2),
        close_token(),
        close_token(),
        id(NAME),
        equal_token(),
        quoted("x"),
    ]);
    assert_eq!(body(&input), "name=\"x\"");
}

#[test]
fn melt_keeps_the_ironman_field_as_a_value() {
    let input = join(&[id(NAME), equal_token(), id(IRONMAN)]);
    assert_eq!(body(&input), "name=is_ironman");
}

#[test]
fn verbatim_melt_keeps_the_ironman_field() {
    let input = join(&[id(IRONMAN), equal_token(), bool_token(true)]);
    assert_eq!(
        body_of(&input, MeltOptions::new().verbatim(true)),
        "is_ironman=yes"
    );
}

#[test]
fn melt_writes_plausible_dates() {
    let input = join(&[
        id(DATE),
        equal_token(),
        i32_token(56379360),
        id(NAME),
        equal_token(),
        i32_token(2),
        id(VERSION),
        equal_token(),
        i32_token(-56379360),
    ]);
    assert_eq!(body(&input), "date=1436.1.1\nname=2\nversion=-56379360");
}

#[test]
fn melt_writes_the_seed_as_a_number() {
    let input = join(&[
        id(SEED),
        equal_token(),
        i32_token(56379360),
        id(DATE),
        equal_token(),
        i32_token(56379360),
    ]);
    assert_eq!(body(&input), "seed=56379360\ndate=1436.1.1");
}

#[test]
fn verbatim_melt_takes_the_seed_for_a_date() {
    let input = join(&[id(SEED), equal_token(), i32_token(56379360)]);
    assert_eq!(
        body_of(&input, MeltOptions::new().verbatim(true)),
        "seed=1436.1.1"
    );
}

#[test]
fn melt_fails_on_an_unknown_token_where_asked_to() {
    let input = join(&[id(0x2000), equal_token(), i32_token(1)]);
    let options = MeltOptions::new().on_failed_resolve(FailedResolveStrategy::Error);
    assert_eq!(melted(&input, options), Err(String::from("unknown 0x2000")));
}

#[test]
fn melt_ignores_the_field_of_an_unknown_key() {
    let input = join(&[
        id(0x2000),
        equal_token(),
        open_token(),
        id(0x2001),
        close_token(),
        id(NAME),
        equal_token(),
        id(0x2002),
    ]);
    let (text, unknown) = melted(&input, MeltOptions::new()).unwrap();
    assert_eq!(text, "SAV0100a40f789f00000016\nname=__unknown_0x2002\n");
    assert_eq!(unknown, vec![0x2000, 0x2002]);
}

#[test]
fn melt_stringifies_unknown_tokens() {
    let input = join(&[id(0x2000), equal_token(), i32_token(1), id(0x00ab), equal_token(), i32_token(2)]);
    let options = MeltOptions::new().on_failed_resolve(FailedResolveStrategy::Stringify);
    let (text, unknown) = melted(&input, options).unwrap();
    assert_eq!(
        text,
        "SAV0100a40f789f00000024\n__unknown_0x2000=1\n__unknown_0xab=2\n"
    );
    assert_eq!(unknown, vec![0x00ab, 0x2000]);
}

#[test]
fn melt_fails_on_data_that_is_cut_short() {
    let mut input = join(&[id(NAME), equal_token(), quoted("abc")]);
    input.pop();
    assert_eq!(melted(&input, MeltOptions::new()), Err(String::from("truncated")));
    assert_eq!(melted(&[0x0c], MeltOptions::new()), Err(String::from("truncated")));
    let cut = join(&[id(IRONMAN), equal_token(), open_token(), i32_token(1)]);
    assert_eq!(melted(&cut, MeltOptions::new()), Err(String::from("truncated")));
    let key_alone = id(IRONMAN);
    assert_eq!(melted(&key_alone, MeltOptions::new()), Err(String::from("truncated")));
}

#[test]
fn melt_fails_on_a_close_without_an_open() {
    let input = join(&[id(NAME), equal_token(), i32_token(1), close_token()]);
    assert_eq!(melted(&input, MeltOptions::new()), Err(String::from("writer")));
}

#[test]
fn melt_fails_on_a_broken_colour() {
    let mut input = join(&[id(NAME), equal_token()]);
    input.extend_from_slice(&id(0x0243));
    input.extend_from_slice(&[0u8; 30]);
    assert_eq!(melted(&input, MeltOptions::new()), Err(String::from("invalid token")));
}

#[test]
fn melt_writes_numbers_of_every_width() {
    let input = join(&[
        id(NAME),
        equal_token(),
        open_token(),
        u32_token(4000000000),
        u64_token(18446744073709551615),
        i64_token(-9223372036854775808),
        bool_token(false),
        close_token(),
    ]);
    assert_eq!(
        body(&input),
        "name={\n\t4000000000 18446744073709551615 -9223372036854775808 no\n}"
    );
}

#[test]
fn melt_writes_floating_point_numbers_with_the_text_it_is_given() {
    let input = join(&[
        id(NAME),
        equal_token(),
        f32_token(4.566),
        id(VERSION),
        equal_token(),
        f64_token(123456),
        id(DATE),
        equal_token(),
        f64_token(-100000),
    ]);
    assert_eq!(body(&input), "name=4.566\nversion=1.23456\ndate=-1");
}

#[test]
fn melt_writes_colours() {
    let input = join(&[
        id(NAME),
        equal_token(),
        rgb_token(&[110, 28, 27]),
        id(VERSION),
        equal_token(),
        rgb_token(&[1, 2, 3, 128]),
    ]);
    assert_eq!(
        body(&input),
        "name=rgb {\n\t110 28 27\n}\nversion=rgb {\n\t1 2 3 128\n}"
    );
}

#[test]
fn melt_writes_a_quoted_key_without_quotes() {
    let input = join(&[
        id(NAME),
        equal_token(),
        open_token(),
        quoted("a"),
        equal_token(),
        quoted("b"),
        quoted("c"),
        equal_token(),
        i32_token(1),
        close_token(),
    ]);
    assert_eq!(body(&input), "name={\n\ta=\"b\"\n\tc=1\n}");
}

#[test]
fn melt_keeps_the_quotes_of_values() {
    let input = join(&[
        id(NAME),
        equal_token(),
        open_token(),
        quoted("a"),
        quoted("b"),
        unquoted("c"),
        close_token(),
    ]);
    assert_eq!(body(&input), "name={\n\t\"a\" \"b\" c\n}");
}

#[test]
fn melt_drops_the_quotes_in_event_targets() {
    let input = join(&[
        id(TARGETS),
        equal_token(),
        open_token(),
        quoted("a"),
        quoted("b"),
        open_token(),
        quoted("c"),
        quoted("d"),
        close_token(),
        close_token(),
        id(NAME),
        equal_token(),
        quoted("e"),
    ]);
    assert_eq!(
        body(&input),
        "event_targets={\n\ta b {\n\t\t\"c\" \"d\"\n\t}\n}\nname=\"e\""
    );
}

#[test]
fn melt_drops_the_quotes_of_a_scalar_event_target() {
    let input = join(&[id(TARGETS), equal_token(), quoted("a"), id(NAME), equal_token(), quoted("b")]);
    assert_eq!(body(&input), "event_targets=a\nname=\"b\"");
}

#[test]
fn verbatim_melt_keeps_the_quotes_in_event_targets() {
    let input = join(&[id(TARGETS), equal_token(), open_token(), quoted("a"), quoted("b"), close_token()]);
    assert_eq!(
        body_of(&input, MeltOptions::new().verbatim(true)),
        "event_targets={\n\t\"a\" \"b\"\n}"
    );
}

#[test]
fn melt_drops_the_quotes_in_technology_but_two_levels_deep() {
    let shallow = join(&[id(TECHNOLOGY), equal_token(), open_token(), quoted("a"), quoted("b"), close_token()]);
    assert_eq!(body(&shallow), "technology={\n\ta b\n}");
    let deep = join(&[
        id(NAME),
        equal_token(),
        open_token(),
        id(NAME),
        equal_token(),
        open_token(),
        id(TECHNOLOGY),
        equal_token(),
        open_token(),
        quoted("a"),
        quoted("b"),
        close_token(),
        close_token(),
        close_token(),
    ]);
    assert_eq!(
        body(&deep),
        "name={\n\tname={\n\t\ttechnology={\n\t\t\t\"a\" \"b\"\n\t\t}\n\t}\n}"
    );
}

#[test]
fn melt_ends_the_metadata_at_the_first_key_speed() {
    let input = join(&[
        id(NAME),
        equal_token(),
        id(SPEED),
        id(NAME),
        equal_token(),
        open_token(),
        id(SPEED),
        equal_token(),
        i32_token(1),
        close_token(),
        id(SPEED),
        equal_token(),
        i32_token(2),
        id(SPEED),
        equal_token(),
        i32_token(3),
    ]);
    assert_eq!(
        text_of(&input),
        "SAV0100a40f789f0000001d\nname=speed\nname={\n\tspeed=1\n}\nspeed=2\nspeed=3\n"
    );
}

#[test]
fn melt_ends_the_metadata_at_a_key_in_a_container() {
    let input = join(&[
        id(NAME),
        equal_token(),
        open_token(),
        id(VERSION),
        equal_token(),
        i32_token(1),
        id(SPEED),
        equal_token(),
        i32_token(2),
        close_token(),
    ]);
    assert_eq!(melted(&input, MeltOptions::new()), Err(String::from("writer")));
}

#[test]
fn melt_takes_a_seed_that_is_a_value_for_a_name() {
    let input = join(&[
        id(NAME),
        equal_token(),
        id(SEED),
        id(DATE),
        equal_token(),
        i32_token(56379360),
    ]);
    assert_eq!(body(&input), "name=seed\ndate=1436.1.1");
}

#[test]
fn melt_appends_to_what_the_output_holds() {
    let input = join(&[id(NAME), equal_token(), unquoted("abc")]);
    let mut out = b"before".to_vec();
    melt(
        &input,
        &mut out,
        &names(),
        &f32_text,
        &f64_text,
        MeltOptions::new(),
        header(),
    )
    .unwrap();
    assert_eq!(out, b"beforeSAV0100a40f789f00000009\nname=abc\n".to_vec());
}

/// The fields of a text save at the top level, as jomini reads them: name
/// and value, where the value is a scalar.
fn fields_of(text: &str) -> Vec<(String, String)> {
    let header = SaveHeader::from_slice(text.as_bytes()).unwrap();
    let tape = jomini::TextTape::from_slice(&text.as_bytes()[header.header_len()..]).unwrap();
    let reader = tape.utf8_reader();
    let mut fields = Vec::new();
    for (key, _op, value) in reader.fields() {
        let value = match value.read_str() {
            Ok(x) => x.to_string(),
            Err(_) => String::from("{}"),
        };
        fields.push((key.read_str().to_string(), value));
    }
    fields
}

fn pair(name: &str, value: &str) -> (String, String) {
    (name.to_string(), value.to_string())
}

#[test]
fn melted_save_reads_back_field_by_field() {
    let input = join(&[
        id(VERSION),
        equal_token(),
        quoted("1.5.3"),
        id(DATE),
        equal_token(),
        i32_token(56379360),
        id(NAME),
        equal_token(),
        open_token(),
        quoted("a"),
        equal_token(),
        i32_token(1),
        close_token(),
        id(SPEED),
        equal_token(),
        i32_token(2),
        id(SEED),
        equal_token(),
        i32_token(56379360),
    ]);
    let text = text_of(&input);
    assert_eq!(
        fields_of(&text),
        vec![
            pair("version", "1.5.3"),
            pair("date", "1436.1.1"),
            pair("name", "{}"),
            pair("speed", "2"),
            pair("seed", "56379360"),
        ]
    );
    let header = SaveHeader::from_slice(text.as_bytes()).unwrap();
    let gamestate = header.header_len() + header.metadata_len() as usize;
    assert!(text[gamestate..].starts_with("speed=2"));
    assert_eq!(&text[gamestate - 1..gamestate], "\n");
}

#[test]
fn melted_text_save_is_the_save_under_a_text_header() {
    let header = SaveHeader::from_slice(b"SAV0102a40f789f000067c4\n").unwrap();
    let mut out = Vec::new();
    let document =
        imperator_save::melt::melt_text(b"version=\"1.4.2\"\nspeed=2\n", &mut out, header).unwrap();
    assert!(document.unknown_tokens().is_empty());
    assert_eq!(
        out,
        b"SAV0100a40f789f000067c4\nversion=\"1.4.2\"\nspeed=2\n".to_vec()
    );
}

#[test]
fn melt_escapes_what_it_quotes() {
    let input = join(&[id(NAME), equal_token(), quoted("captain \"joe\" rogers")]);
    assert_eq!(body(&input), "name=\"captain \\\"joe\\\" rogers\"");
}

#[test]
fn melt_keeps_bytes_that_are_not_ascii() {
    let input = join(&[id(NAME), equal_token(), quoted("Jåhkåmåhkke")]);
    assert_eq!(body(&input), "name=\"Jåhkåmåhkke\"");
}

#[test]
fn melted_text_save_needs_a_header_that_can_be_written() {
    let mut header = SaveHeader::from_slice(b"SAV0102a40f789f000067c4\n").unwrap();
    header.set_metadata_len(0x1_0000_0000);
    let mut out = b"before".to_vec();
    let error = imperator_save::melt::melt_text(b"speed=2\n", &mut out, header).unwrap_err();
    assert!(matches!(error.kind(), ImperatorErrorKind::InvalidHeader));
    assert_eq!(out, b"before".to_vec());
}

#[test]
fn melt_takes_nothing_but_the_layout_from_the_header() {
    let mut odd = header();
    odd.set_kind(imperator_save::SaveHeaderKind::Other(0x1234));
    odd.set_metadata_len(u64::MAX);
    let input = join(&[id(NAME), equal_token(), unquoted("abc")]);
    let mut out = Vec::new();
    melt(
        &input,
        &mut out,
        &names(),
        &f32_text,
        &f64_text,
        MeltOptions::new(),
        odd,
    )
    .unwrap();
    assert_eq!(out, b"SAV0100a40f789f00000009\nname=abc\n".to_vec());
}

#[test]
fn melt_writes_a_quoted_text_that_the_data_ends_with() {
    let input = join(&[id(NAME), equal_token(), open_token(), quoted("a")]);
    assert_eq!(body(&input), "name={\n\t\"a\"");
    let input = join(&[id(TARGETS), equal_token(), open_token(), quoted("a")]);
    assert_eq!(body(&input), "event_targets={\n\ta");
    let input = join(&[id(NAME), equal_token(), open_token(), quoted("a"), equal_token()]);
    assert_eq!(body(&input), "name={\n\ta=");
}

#[test]
fn melt_writes_a_quoted_text_that_the_gamestate_ends_with() {
    let input = join(&[
        id(SPEED),
        equal_token(),
        open_token(),
        quoted("a"),
    ]);
    assert_eq!(
        text_of(&input),
        "SAV0100a40f789f00000001\n\nspeed={\n\t\"a\"\n"
    );
}
