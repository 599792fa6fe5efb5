use slug::error::ErrorKind;
use slug::lexer::{chars_of, lex, scan_line, split_lines, Token, TokenType};

fn children(t: Token) -> Vec<Token> {
    match t.token_type {
        TokenType::Block(c) => c,
        other => panic!("not a block: {:?}", other),
    }
}

fn kinds(toks: &[Token]) -> Vec<String> {
    toks.iter().map(|t| format!("{:?}", t.token_type).split('(').next().unwrap().to_string()).collect()
}

#[test]
fn tokens_of_one_line() {
    let toks = children(lex("fun x num.. and 1.5 \"s t\" true >= ! 12", 4).unwrap());
    assert_eq!(
        kinds(&toks),
        vec!["Keyword", "Identifier", "Type", "Symbol", "Operator", "FloatLiteral", "StringLiteral", "BoolLiteral", "Operator", "Symbol", "IntLiteral", "EOL"]
    );
    let texts: Vec<&str> = toks.iter().map(|t| t.content.as_str()).collect();
    assert_eq!(texts, vec!["fun", "x", "num", "..", "and", "1.5", "s t", "true", ">=", "!", "12", "\n"]);
    let cols: Vec<usize> = toks.iter().map(|t| t.position.col).collect();
    assert_eq!(cols, vec![1, 5, 7, 10, 13, 17, 21, 27, 32, 35, 37, 38]);
}

#[test]
fn indented_lines_form_a_block() {
    let toks = children(lex("a = 1\n  b = 2\n  c\nd", 4).unwrap());
    assert_eq!(kinds(&toks), vec!["Identifier", "Symbol", "IntLiteral", "EOL", "Block", "Identifier", "EOL"]);
    assert_eq!((toks[4].position.line, toks[4].position.col), (2, 3));
    let inner = children(toks.into_iter().nth(4).unwrap());
    assert_eq!(kinds(&inner), vec!["Identifier", "Symbol", "IntLiteral", "EOL", "Identifier", "EOL"]);
    assert_eq!(inner[4].position.line, 3);
}

#[test]
fn blank_lines_are_skipped_and_blocks_close_at_the_end() {
    let toks = children(lex("a\n\n    b\n        c\n\n", 4).unwrap());
    assert_eq!(kinds(&toks), vec!["Identifier", "EOL", "Block"]);
    let inner = children(toks.into_iter().nth(2).unwrap());
    assert_eq!(kinds(&inner), vec!["Identifier", "EOL", "Block"]);
}

#[test]
fn tabs_count_as_tab_width_spaces() {
    let toks = children(lex("a\n\tb\n    c", 4).unwrap());
    assert_eq!(kinds(&toks), vec!["Identifier", "EOL", "Block"]);
    let inner = children(toks.into_iter().nth(2).unwrap());
    assert_eq!(kinds(&inner), vec!["Identifier", "EOL", "Identifier", "EOL"]);
}

#[test]
fn empty_source_is_an_empty_block() {
    assert!(children(lex("", 4).unwrap()).is_empty());
}

#[test]
fn invalid_character_has_its_position() {
    let e = lex("a = 1\nb = $", 4).unwrap_err();
    assert_eq!(e.kind, ErrorKind::InvalidCharacter);
    assert_eq!(e.position.map(|p| (p.line, p.col)), Some((2, 5)));
}

#[test]
fn unterminated_string_points_at_its_quote() {
    let e = lex("s = \"abc", 4).unwrap_err();
    assert_eq!(e.kind, ErrorKind::UnterminatedString);
    assert_eq!(e.position.map(|p| (p.line, p.col)), Some((1, 5)));
}

#[test]
fn dedent_to_an_unknown_level_is_bad_indent() {
    let e = lex("a\n    b\n  c", 4).unwrap_err();
    assert_eq!(e.kind, ErrorKind::BadIndent);
    assert_eq!(e.position.map(|p| (p.line, p.col)), Some((3, 3)));
}

#[test]
fn error_positions_lie_in_the_source() {
    for src in ["x = @", "\n\n  y = \"", "a\n    b\n  c", "q ?"] {
        let e = lex(src, 4).unwrap_err();
        let p = e.position.unwrap();
        let lines: Vec<&str> = src.split('\n').collect();
        assert!(p.line >= 1 && p.line <= lines.len());
        assert!(p.col >= 1 && p.col <= lines[p.line - 1].chars().count());
    }
}

#[test]
fn split_and_scan_helpers() {
    let chars = chars_of("ab\n\ncd");
    assert_eq!(chars.len(), 6);
    let lines = split_lines(&chars);
    assert_eq!(lines, vec![vec!['a', 'b'], vec![], vec!['c', 'd']]);
    let toks = scan_line(&vec!['x', ' ', '=', '=', ' ', '7'], 0, 9).unwrap();
    assert_eq!(kinds(&toks), vec!["Identifier", "Operator", "IntLiteral"]);
    assert_eq!(toks[1].content, "==");
    assert_eq!(toks[2].position.line, 9);
}
