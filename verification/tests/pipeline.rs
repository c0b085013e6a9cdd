//! The pipeline end to end: parsing, reassembly, and set building on
//! concrete invocations.

use flags_dsl::builder::DefaultSet;
use flags_dsl::elements::{build_sequence, qualified_name, set_array};
use flags_dsl::expand::{flags, lookup};
use flags_dsl::parse::{FlagsError, parse};
use flags_dsl::token::Token;

fn ident(s: &str) -> Token {
    Token::Ident(s.to_string())
}

/// Tokens of `Test::{...}` with the given interior.
fn test_invocation(interior: Vec<Token>) -> Vec<Token> {
    let mut toks = vec![ident("Test"), Token::PathSep, Token::OpenBrace];
    toks.extend(interior);
    toks.push(Token::CloseBrace);
    toks
}

/// `Test` as a two-flag bitmask type: `A` is bit 0, `B` is bit 1.
fn test_bindings() -> Vec<(String, u64)> {
    vec![("Test::A".to_string(), 0b01), ("Test::B".to_string(), 0b10)]
}

/// Bindings for the two-segment path `ponydom::Flags`.
fn pony_bindings() -> Vec<(String, u32)> {
    vec![
        ("ponydom::Flags::Winged".to_string(), 0b01),
        ("ponydom::Flags::Horned".to_string(), 0b10),
    ]
}

#[test]
fn deeper_path() {
    let toks = vec![
        ident("ponydom"),
        Token::PathSep,
        ident("Flags"),
        Token::PathSep,
        Token::OpenBrace,
        ident("Winged"),
        Token::Pipe,
        ident("Horned"),
        Token::CloseBrace,
    ];
    let alicorn = flags(&toks, &pony_bindings());
    assert_eq!(alicorn, Ok(0b01 | 0b10));
}

#[test]
fn empty_list_yields_empty_set() {
    let toks = test_invocation(vec![]);
    assert_eq!(flags(&toks, &test_bindings()), Ok(0));
}

#[test]
fn single_item_yields_singleton() {
    let toks = test_invocation(vec![ident("A")]);
    assert_eq!(flags(&toks, &test_bindings()), Ok(0b01));
}

#[test]
fn two_items_yield_union() {
    let toks = test_invocation(vec![ident("A"), Token::Pipe, ident("B")]);
    assert_eq!(flags(&toks, &test_bindings()), Ok(0b11));
}

#[test]
fn comma_and_pipe_forms_agree() {
    let piped = test_invocation(vec![ident("A"), Token::Pipe, ident("B")]);
    let commaed = test_invocation(vec![ident("A"), Token::Comma, ident("B")]);
    let r1 = flags(&piped, &test_bindings());
    let r2 = flags(&commaed, &test_bindings());
    assert_eq!(r1, r2);
    assert_eq!(r1, Ok(0b11));
}

#[test]
fn listing_order_never_shows() {
    let ab = test_invocation(vec![ident("A"), Token::Pipe, ident("B")]);
    let ba = test_invocation(vec![ident("B"), Token::Pipe, ident("A")]);
    assert_eq!(flags(&ab, &test_bindings()), flags(&ba, &test_bindings()));
}

#[test]
fn mixed_separators_accepted() {
    // The grammar matches one separator at a time, so `|` and `,` may mix
    // within one list.
    let toks = test_invocation(vec![ident("A"), Token::Pipe, ident("B"), Token::Comma, ident("A")]);
    assert_eq!(flags(&toks, &test_bindings()), Ok(0b11));
}

#[test]
fn empty_path_rejected() {
    let toks = vec![Token::OpenBrace, ident("A"), Token::CloseBrace];
    assert_eq!(flags(&toks, &test_bindings()), Err(FlagsError::EmptyPathError));
}

#[test]
fn empty_path_rejected_for_empty_list() {
    let toks = vec![Token::OpenBrace, Token::CloseBrace];
    assert_eq!(flags(&toks, &test_bindings()), Err(FlagsError::EmptyPathError));
}

#[test]
fn trailing_separator_rejected() {
    let toks = test_invocation(vec![ident("A"), Token::Pipe]);
    assert_eq!(flags(&toks, &test_bindings()), Err(FlagsError::MalformedListError));
}

#[test]
fn doubled_separator_rejected() {
    let toks = test_invocation(vec![ident("A"), Token::Pipe, Token::Pipe, ident("B")]);
    assert_eq!(flags(&toks, &test_bindings()), Err(FlagsError::MalformedListError));
}

#[test]
fn missing_braces_rejected() {
    let toks = vec![ident("Test"), Token::PathSep, ident("A")];
    assert_eq!(flags(&toks, &test_bindings()), Err(FlagsError::MalformedListError));
}

#[test]
fn tokens_after_braces_rejected() {
    let mut toks = test_invocation(vec![ident("A")]);
    toks.push(ident("B"));
    assert_eq!(flags(&toks, &test_bindings()), Err(FlagsError::MalformedListError));
}

#[test]
fn path_without_braces_rejected() {
    let toks = vec![ident("Test"), Token::PathSep];
    assert_eq!(flags(&toks, &test_bindings()), Err(FlagsError::MalformedListError));
}

#[test]
fn nested_path_in_list_rejected() {
    let toks = test_invocation(vec![ident("A"), Token::PathSep, ident("B")]);
    assert_eq!(flags(&toks, &test_bindings()), Err(FlagsError::MalformedListError));
}

#[test]
fn empty_input_rejected() {
    let toks: Vec<Token> = vec![];
    assert_eq!(flags(&toks, &test_bindings()), Err(FlagsError::MalformedListError));
}

#[test]
fn unresolved_element_reported() {
    let toks = test_invocation(vec![ident("C")]);
    assert_eq!(flags(&toks, &test_bindings()), Err(FlagsError::UnresolvedElementError));
}

#[test]
fn parse_returns_path_and_items() {
    let toks = vec![
        ident("Mod"),
        Token::PathSep,
        ident("Sub"),
        Token::PathSep,
        ident("Type"),
        Token::PathSep,
        Token::OpenBrace,
        ident("A"),
        Token::Pipe,
        ident("B"),
        Token::CloseBrace,
    ];
    let inv = parse(&toks).unwrap();
    assert_eq!(
        inv.path,
        vec!["Mod".to_string(), "Sub".to_string(), "Type".to_string()]
    );
    assert_eq!(inv.items, vec!["A".to_string(), "B".to_string()]);
}

#[test]
fn build_sequence_qualifies_each_item() {
    let path = vec!["Mod".to_string(), "Sub".to_string(), "Type".to_string()];
    let items = vec!["A".to_string(), "B".to_string()];
    assert_eq!(
        build_sequence(&path, &items),
        vec!["Mod::Sub::Type::A".to_string(), "Mod::Sub::Type::B".to_string()]
    );
}

#[test]
fn qualified_name_joins_segments() {
    let path = vec!["ponydom".to_string(), "Flags".to_string()];
    let name = qualified_name(&path, &"Winged".to_string());
    assert_eq!(name, "ponydom::Flags::Winged".to_string());
}

#[test]
fn set_array_lists_qualified_names() {
    let toks = vec![
        ident("ponydom"),
        Token::PathSep,
        ident("Flags"),
        Token::PathSep,
        Token::OpenBrace,
        ident("Winged"),
        Token::Pipe,
        ident("Horned"),
        Token::CloseBrace,
    ];
    assert_eq!(
        set_array(&toks),
        Ok(vec![
            "ponydom::Flags::Winged".to_string(),
            "ponydom::Flags::Horned".to_string(),
        ])
    );
}

#[test]
fn first_stage_matches_full_pipeline() {
    let toks = test_invocation(vec![ident("B"), Token::Comma, ident("A")]);
    let env = test_bindings();
    let names = set_array(&toks).unwrap();
    let mut vals: Vec<u64> = Vec::new();
    for name in &names {
        vals.push(lookup(&env, name).unwrap());
    }
    assert_eq!(flags(&toks, &env), Ok(u64::set_from_iter(vals)));
}

#[test]
fn re_expansion_is_identical() {
    let toks = test_invocation(vec![ident("A"), Token::Pipe, ident("B")]);
    let env = test_bindings();
    let first = flags(&toks, &env);
    for _ in 0..5 {
        assert_eq!(flags(&toks, &env), first);
    }
}

#[test]
fn lookup_takes_first_binding() {
    let env = vec![("Test::A".to_string(), 7u64), ("Test::A".to_string(), 9u64)];
    assert_eq!(lookup(&env, &"Test::A".to_string()), Some(7));
    assert_eq!(lookup(&env, &"Test::B".to_string()), None);
}
