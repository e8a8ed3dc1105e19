use printv::evaluator::{evaluate_tokens, join_fragments};
use printv::index::split_array_access;
use printv::lexer::tokenize;
use printv::numeral::usize_to_decimal;
use printv::token::Token;
use printv::vartable::VariableTable;

fn eval_str(input: &str) -> String {
    let tokens = tokenize(input);
    let table = VariableTable::new();
    let fragments = evaluate_tokens(&tokens, &table);
    join_fragments(&fragments)
}

#[test]
fn plain_text_single_token() {
    let tokens = tokenize("hello world");
    assert_eq!(tokens, vec![Token::PlainText("hello world".to_string())]);
    let table = VariableTable::new();
    let fragments = evaluate_tokens(&tokens, &table);
    assert_eq!(fragments, vec!["hello world".to_string()]);
}

#[test]
fn tokenize_empty_input() {
    assert_eq!(tokenize(""), Vec::<Token>::new());
}

#[test]
fn tokenize_only_brackets() {
    assert_eq!(
        tokenize("[]{}"),
        vec![Token::BracketOpen, Token::BracketClose, Token::BraceClose]
    );
}

#[test]
fn tokenize_unbalanced() {
    assert_eq!(
        tokenize("{{{[[["),
        vec![Token::BracketOpen, Token::BracketOpen, Token::BracketOpen]
    );
    assert_eq!(
        tokenize("}}}"),
        vec![Token::BraceClose, Token::BraceClose, Token::BraceClose]
    );
}

#[test]
fn tokenize_template() {
    assert_eq!(
        tokenize("{a} is {c} {sans}"),
        vec![
            Token::Variable("a".to_string()),
            Token::BraceClose,
            Token::PlainText(" is ".to_string()),
            Token::Variable("c".to_string()),
            Token::BraceClose,
            Token::PlainText(" ".to_string()),
            Token::Variable("sans".to_string()),
            Token::BraceClose,
        ]
    );
}

#[test]
fn tokenize_nested_open_brace() {
    // A second `{` while inside a variable flushes the pending word as a
    // variable (the flag is still raised) and closes nothing.
    assert_eq!(
        tokenize("{ab{cd}"),
        vec![
            Token::Variable("ab".to_string()),
            Token::Variable("cd".to_string()),
            Token::BraceClose,
        ]
    );
}

#[test]
fn tokenize_index_brackets() {
    // Index brackets flush as plain text even inside a `{...}` span.
    assert_eq!(
        tokenize("{items[2]}"),
        vec![
            Token::PlainText("items".to_string()),
            Token::BracketOpen,
            Token::PlainText("2".to_string()),
            Token::BracketClose,
            Token::BraceClose,
        ]
    );
}

#[test]
fn evaluate_empty_tokens() {
    let table = VariableTable::new();
    let fragments = evaluate_tokens(&Vec::new(), &table);
    assert_eq!(fragments, Vec::<String>::new());
}

#[test]
fn evaluate_template() {
    assert_eq!(eval_str("{a} is {c} {sans}"), "a is c sans");
}

#[test]
fn evaluate_plain_passthrough() {
    assert_eq!(eval_str("plain text only"), "plain text only");
}

#[test]
fn evaluate_empty_input() {
    assert_eq!(eval_str(""), "");
}

#[test]
fn evaluate_unmatched_close() {
    let tokens = tokenize("}");
    assert_eq!(tokens, vec![Token::BraceClose]);
    let table = VariableTable::new();
    let fragments = evaluate_tokens(&tokens, &table);
    assert_eq!(fragments, Vec::<String>::new());
    assert_eq!(eval_str("}"), "");
}

#[test]
fn evaluate_indexed_variable_token() {
    // A hand-built indexed variable: the base is buffered and the index
    // becomes pending, but only a BracketClose moves it into the index
    // list — alone, no trailing fragment appears.
    let tokens = vec![Token::Variable("items[2]".to_string())];
    let table = VariableTable::new();
    let fragments = evaluate_tokens(&tokens, &table);
    assert_eq!(fragments, vec!["items".to_string()]);

    // With a closing bracket the pending index is recorded and reported.
    let tokens = vec![
        Token::Variable("items[2]".to_string()),
        Token::BracketClose,
    ];
    let fragments = evaluate_tokens(&tokens, &table);
    assert_eq!(fragments, vec!["items]".to_string(), "[2]".to_string()]);
}

#[test]
fn evaluate_non_numeric_index_token() {
    // A non-numeric index is not an array access: the name passes through
    // untouched and no index is recorded.
    let tokens = vec![Token::Variable("items[x]".to_string())];
    let table = VariableTable::new();
    let fragments = evaluate_tokens(&tokens, &table);
    assert_eq!(fragments, vec!["items[x]".to_string()]);
}

#[test]
fn evaluate_end_to_end_indexed() {
    assert_eq!(eval_str("{items[2]}"), "items[2]");
}

#[test]
fn evaluate_round_trip_plaintext() {
    let tokens = vec![
        Token::PlainText("ab".to_string()),
        Token::PlainText("cd".to_string()),
    ];
    let table = VariableTable::new();
    let fragments = evaluate_tokens(&tokens, &table);
    assert_eq!(join_fragments(&fragments), "abcd");
}

#[test]
fn evaluate_brace_open_flushes_unconditionally() {
    // BraceOpen flushes even an empty buffer, producing an empty fragment.
    let table = VariableTable::new();
    let fragments = evaluate_tokens(&vec![Token::BraceOpen], &table);
    assert_eq!(fragments, vec![String::new()]);

    let tokens = vec![
        Token::PlainText("x".to_string()),
        Token::BraceOpen,
        Token::PlainText("y".to_string()),
    ];
    let fragments = evaluate_tokens(&tokens, &table);
    assert_eq!(fragments, vec!["x".to_string(), "y".to_string()]);
}

#[test]
fn evaluate_bracket_open_clears_pending_index() {
    let tokens = vec![
        Token::Variable("a[1]".to_string()),
        Token::BracketOpen,
        Token::BracketClose,
    ];
    let table = VariableTable::new();
    let fragments = evaluate_tokens(&tokens, &table);
    // The pending index 1 was cleared by BracketOpen, so no index list
    // appears; the brackets themselves were buffered literally.
    assert_eq!(fragments, vec!["a[]".to_string()]);
}

#[test]
fn evaluate_indices_accumulate() {
    let tokens = vec![
        Token::Variable("a[1]".to_string()),
        Token::BracketClose,
        Token::Variable("b[2]".to_string()),
        Token::BracketClose,
    ];
    let table = VariableTable::new();
    let fragments = evaluate_tokens(&tokens, &table);
    assert_eq!(fragments, vec!["a]b]".to_string(), "[1,2]".to_string()]);
}

#[test]
fn array_access_detected() {
    let split = split_array_access("items[2]");
    assert_eq!(split, Some(("items".to_string(), 2)));
}

#[test]
fn array_access_non_numeric() {
    assert_eq!(split_array_access("items[x]"), None);
}

#[test]
fn array_access_malformed() {
    assert_eq!(split_array_access("items2]"), None);
    assert_eq!(split_array_access("items[2"), None);
    assert_eq!(split_array_access("items[]"), None);
    assert_eq!(split_array_access(""), None);
    assert_eq!(split_array_access("]"), None);
}

#[test]
fn array_access_leading_zeros() {
    assert_eq!(split_array_access("a[007]"), Some(("a".to_string(), 7)));
}

#[test]
fn array_access_empty_base() {
    assert_eq!(split_array_access("[3]"), Some((String::new(), 3)));
}

#[test]
fn array_access_overflowing_index() {
    assert_eq!(split_array_access("a[99999999999999999999999999]"), None);
}

#[test]
fn array_access_second_bracket_in_index() {
    // The text between the first `[` and the final `]` is "1][2", which is
    // not a digit string.
    assert_eq!(split_array_access("a[1][2]"), None);
}

#[test]
fn tokens_reconstruct_input() {
    // Concatenating each token's text (payload or marker character)
    // reconstructs the input with every `{` removed.
    let input = "a{b}[c]d";
    let tokens = tokenize(input);
    let mut rebuilt = String::new();
    for t in &tokens {
        match t {
            Token::Variable(p) => rebuilt.push_str(p),
            Token::PlainText(p) => rebuilt.push_str(p),
            Token::BraceOpen => rebuilt.push('{'),
            Token::BraceClose => rebuilt.push('}'),
            Token::BracketOpen => rebuilt.push('['),
            Token::BracketClose => rebuilt.push(']'),
        }
    }
    let expected: String = input.chars().filter(|c| *c != '{').collect();
    assert_eq!(rebuilt, expected);
}

#[test]
fn decimal_rendering() {
    assert_eq!(usize_to_decimal(0), "0");
    assert_eq!(usize_to_decimal(7), "7");
    assert_eq!(usize_to_decimal(10), "10");
    assert_eq!(usize_to_decimal(90210), "90210");
}

#[test]
fn vartable_lookup() {
    let mut table = VariableTable::new();
    assert_eq!(table.lookup("a"), None);
    table.insert("a".to_string(), "1".to_string());
    assert_eq!(table.lookup("a"), Some("1".to_string()));
    table.insert("a".to_string(), "2".to_string());
    assert_eq!(table.lookup("a"), Some("2".to_string()));
    assert_eq!(table.lookup("b"), None);
}

#[test]
fn join_fragments_concatenates() {
    assert_eq!(join_fragments(&Vec::new()), "");
    let frags = vec!["a".to_string(), String::new(), "bc".to_string()];
    assert_eq!(join_fragments(&frags), "abc");
}
