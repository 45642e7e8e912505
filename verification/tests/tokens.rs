use imperator_save::flavor::ImperatorFlavor;
use imperator_save::melt::{
    decide_name, decide_quoted, decide_unknown, same_bytes, stringify_token,
};
use imperator_save::melt_spec::{
    FailedResolveStrategy, NameAction, QuotedAction, UnknownAction,
};
use imperator_save::tokens::{EnvTokens, TokenResolver, TokenTable};

#[test]
fn env_tokens_know_nothing() {
    assert!(EnvTokens.is_empty());
    assert_eq!(EnvTokens.resolve(0x2d82), None);
}

#[test]
fn token_table_resolves_what_was_inserted() {
    let mut table = TokenTable::new();
    assert!(table.is_empty());
    table.insert(0x2d82, "field1");
    table.insert(0x2d83, "field2");
    table.insert(0x2d82, "renamed");
    assert_eq!(table.len(), 2);
    assert!(!table.is_empty());
    assert_eq!(table.resolve(0x2d82), Some(&b"renamed"[..]));
    assert_eq!(table.resolve(0x2d83), Some(&b"field2"[..]));
    assert_eq!(table.resolve(0x0000), None);
}

#[test]
fn flavor_reads_bytes_little_endian() {
    let flavor = ImperatorFlavor::new();
    assert_eq!(flavor.visit_f32_bits([0x8f, 0xc2, 0x75, 0x3e]), 0x3e75c28f);
    assert_eq!(f32::from_bits(flavor.visit_f32_bits(4.566f32.to_le_bytes())), 4.566);
    assert_eq!(flavor.visit_f64_scaled([0xc7, 0xe4, 0, 0, 0, 0, 0, 0]), 58567);
    assert_eq!(flavor.visit_f64_scaled((-100000i64).to_le_bytes()), -100000);
    assert_eq!(flavor.visit_f64_scaled(i64::MIN.to_le_bytes()), i64::MIN);
    assert_eq!(flavor.visit_f64_scaled(i64::MAX.to_le_bytes()), i64::MAX);
}

#[test]
fn names_with_a_rule() {
    assert_eq!(decide_name(b"is_ironman", true, 0, false, true), NameAction::Elide);
    assert_eq!(
        decide_name(b"is_ironman", false, 0, false, true),
        NameAction::Write {
            known_number: false,
            unquote: false
        }
    );
    assert_eq!(
        decide_name(b"is_ironman", true, 0, true, true),
        NameAction::Write {
            known_number: false,
            unquote: false
        }
    );
    assert_eq!(decide_name(b"speed", true, 0, false, true), NameAction::Gamestate);
    assert_eq!(decide_name(b"speed", true, 3, true, true), NameAction::Gamestate);
    assert_eq!(
        decide_name(b"speed", false, 0, false, true),
        NameAction::Write {
            known_number: false,
            unquote: false
        }
    );
    assert_eq!(
        decide_name(b"speed", true, 0, false, false),
        NameAction::Write {
            known_number: false,
            unquote: false
        }
    );
    assert_eq!(
        decide_name(b"seed", true, 0, false, true),
        NameAction::Write {
            known_number: true,
            unquote: false
        }
    );
    assert_eq!(
        decide_name(b"seed", true, 0, true, true),
        NameAction::Write {
            known_number: false,
            unquote: false
        }
    );
    assert_eq!(
        decide_name(b"seed", false, 0, false, true),
        NameAction::Write {
            known_number: false,
            unquote: false
        }
    );
    for name in [&b"event_targets"[..], &b"historical_regnal_numbers"[..]] {
        for depth in 0..4 {
            assert_eq!(
                decide_name(name, true, depth, false, true),
                NameAction::Write {
                    known_number: false,
                    unquote: true
                }
            );
        }
        assert_eq!(
            decide_name(name, false, 0, false, true),
            NameAction::Write {
                known_number: false,
                unquote: false
            }
        );
    }
    for depth in 0..4 {
        assert_eq!(
            decide_name(b"technology", true, depth, false, true),
            NameAction::Write {
                known_number: false,
                unquote: depth != 2
            }
        );
    }
    assert_eq!(
        decide_name(b"name", true, 0, false, true),
        NameAction::Write {
            known_number: false,
            unquote: false
        }
    );
}

#[test]
fn tokens_without_a_name() {
    assert_eq!(decide_unknown(FailedResolveStrategy::Error, true), UnknownAction::Fail);
    assert_eq!(decide_unknown(FailedResolveStrategy::Error, false), UnknownAction::Fail);
    assert_eq!(decide_unknown(FailedResolveStrategy::Ignore, true), UnknownAction::Elide);
    assert_eq!(
        decide_unknown(FailedResolveStrategy::Ignore, false),
        UnknownAction::Stringify
    );
    assert_eq!(
        decide_unknown(FailedResolveStrategy::Stringify, true),
        UnknownAction::Stringify
    );
    assert_eq!(stringify_token(0x2d82), b"__unknown_0x2d82".to_vec());
    assert_eq!(stringify_token(0), b"__unknown_0x0".to_vec());
    assert_eq!(stringify_token(0xffff), b"__unknown_0xffff".to_vec());
}

#[test]
fn same_bytes_compares_texts() {
    assert!(same_bytes(b"", b""));
    assert!(same_bytes(b"speed", b"speed"));
    assert!(!same_bytes(b"speed", b"seed"));
    assert!(!same_bytes(b"speed", b"speex"));
    assert!(!same_bytes(b"speed", b"speeds"));
}

#[test]
fn quoted_texts() {
    for key in [false, true] {
        for unquote in [false, true] {
            assert_eq!(decide_quoted(true, key, unquote), QuotedAction::Defer);
        }
    }
    assert_eq!(decide_quoted(false, true, false), QuotedAction::Unquoted);
    assert_eq!(decide_quoted(false, true, true), QuotedAction::Unquoted);
    assert_eq!(decide_quoted(false, false, true), QuotedAction::Unquoted);
    assert_eq!(decide_quoted(false, false, false), QuotedAction::Quoted);
}
