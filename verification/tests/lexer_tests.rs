use phoenix_shell::diagnostics::DiagnosticKind;
use phoenix_shell::input_lexer::{InputLexer, LexerConfig, Token, TokenType};

fn lex_with(src: &str, config: LexerConfig) -> (Vec<Token>, Option<phoenix_shell::diagnostics::Diagnostic>) {
    let mut lx = InputLexer::new(src.as_bytes().to_vec(), config);
    let mut toks = Vec::new();
    while let Some(t) = lx.next_token() {
        toks.push(t);
    }
    (toks, lx.error)
}

fn lex(src: &str) -> (Vec<Token>, Option<phoenix_shell::diagnostics::Diagnostic>) {
    lex_with(src, LexerConfig::unix())
}

fn kinds(toks: &[Token]) -> Vec<TokenType> {
    toks.iter().map(|t| t.typ).collect()
}

#[test]
fn empty_input_yields_eof_then_nothing() {
    let mut lx = InputLexer::new(Vec::new(), LexerConfig::unix());
    let t = lx.next_token().unwrap();
    assert_eq!(t.typ, TokenType::EOF);
    assert_eq!((t.start, t.end), (0, 0));
    assert!(lx.next_token().is_none());
    assert!(lx.error.is_none());
}

#[test]
fn identifier_then_eof() {
    let (toks, err) = lex("ls");
    assert!(err.is_none());
    assert_eq!(kinds(&toks), vec![TokenType::Identifier, TokenType::EOF]);
    assert_eq!((toks[0].start, toks[0].end), (0, 2));
}

#[test]
fn word_with_dot_is_reclassified_as_path() {
    let (toks, err) = lex("out.txt");
    assert!(err.is_none());
    assert_eq!(toks[0].typ, TokenType::Path);
    assert_eq!((toks[0].start, toks[0].end), (0, 7));
}

#[test]
fn number_stops_at_first_nondigit() {
    let (toks, err) = lex("42x");
    assert!(err.is_none());
    assert_eq!(kinds(&toks), vec![TokenType::Number, TokenType::Identifier, TokenType::EOF]);
    assert_eq!((toks[0].start, toks[0].end), (0, 2));
    assert_eq!((toks[1].start, toks[1].end), (2, 3));
}

// Relative path tokens `./x` and `../x` each produce a single Path token
// whose span covers the complete expression, leading dots and separator
// included.
#[test]
fn relative_forward_path_is_one_token() {
    let (toks, err) = lex("./x");
    assert!(err.is_none());
    assert_eq!(toks[0].typ, TokenType::Path);
    assert_eq!((toks[0].start, toks[0].end), (0, 3));
    assert_eq!(&"./x"[toks[0].start..toks[0].end], "./x");
}

#[test]
fn relative_backward_path_is_one_token() {
    let (toks, err) = lex("../x");
    assert!(err.is_none());
    assert_eq!(toks[0].typ, TokenType::Path);
    assert_eq!((toks[0].start, toks[0].end), (0, 4));
    assert_eq!(&"../x"[toks[0].start..toks[0].end], "../x");
}

#[test]
fn absolute_path_consumes_separators() {
    let (toks, err) = lex("/usr/bin");
    assert!(err.is_none());
    assert_eq!(toks[0].typ, TokenType::Path);
    assert_eq!((toks[0].start, toks[0].end), (0, 8));
}

#[test]
fn forward_path_with_inner_separators() {
    let (toks, err) = lex("./a/b");
    assert!(err.is_none());
    assert_eq!(toks[0].typ, TokenType::Path);
    assert_eq!((toks[0].start, toks[0].end), (0, 5));
}

#[test]
fn lone_dot_is_a_malformed_relative_path() {
    let (toks, err) = lex(".");
    assert!(toks.is_empty());
    let d = err.unwrap();
    assert_eq!(d.kind, DiagnosticKind::MalformedRelativePath);
    assert_eq!((d.span.start, d.span.end), (0, 1));
}

#[test]
fn dot_before_letter_is_a_malformed_relative_path() {
    let (_, err) = lex(".x");
    let d = err.unwrap();
    assert_eq!(d.kind, DiagnosticKind::MalformedRelativePath);
    assert_eq!((d.span.start, d.span.end), (0, 2));
}

#[test]
fn two_dots_without_separator_expect_one() {
    let (_, err) = lex("..x");
    let d = err.unwrap();
    assert_eq!(d.kind, DiagnosticKind::ExpectedSeparator);
    assert_eq!((d.span.start, d.span.end), (2, 3));
}

#[test]
fn string_token_spans_both_quotes() {
    let (toks, err) = lex("'abc'");
    assert!(err.is_none());
    assert_eq!(toks[0].typ, TokenType::String);
    assert_eq!((toks[0].start, toks[0].end), (0, 5));
}

#[test]
fn escaped_quote_does_not_close_the_string() {
    let src = r"'a\'b'";
    let (toks, err) = lex(src);
    assert!(err.is_none());
    assert_eq!(toks[0].typ, TokenType::String);
    assert_eq!((toks[0].start, toks[0].end), (0, 6));
}

#[test]
fn mismatched_quote_kinds_do_not_close() {
    let (_, err) = lex("\"abc'");
    let d = err.unwrap();
    assert_eq!(d.kind, DiagnosticKind::UnterminatedString);
    assert_eq!((d.span.start, d.span.end), (0, 5));
}

// `echo "abc` (unterminated string) yields a lexical error whose span covers
// from the opening quote to the end of the input.
#[test]
fn unterminated_string_spans_quote_to_end() {
    let src = "echo \"abc";
    let (toks, err) = lex(src);
    assert_eq!(kinds(&toks), vec![TokenType::Identifier, TokenType::Whitespace]);
    let d = err.unwrap();
    assert_eq!(d.kind, DiagnosticKind::UnterminatedString);
    assert_eq!((d.span.start, d.span.end), (5, src.len()));
}

#[test]
fn operators_are_one_byte_tokens() {
    let (toks, err) = lex("|<>&");
    assert!(err.is_none());
    assert_eq!(
        kinds(&toks),
        vec![TokenType::Pipe, TokenType::RedirIn, TokenType::RedirOut, TokenType::And, TokenType::EOF]
    );
    for (k, t) in toks.iter().take(4).enumerate() {
        assert_eq!((t.start, t.end), (k, k + 1));
    }
}

#[test]
fn whitespace_tokens_are_not_merged() {
    let (toks, err) = lex("a  b");
    assert!(err.is_none());
    assert_eq!(
        kinds(&toks),
        vec![
            TokenType::Identifier,
            TokenType::Whitespace,
            TokenType::Whitespace,
            TokenType::Identifier,
            TokenType::EOF
        ]
    );
    assert_eq!((toks[1].start, toks[1].end), (1, 2));
    assert_eq!((toks[2].start, toks[2].end), (2, 3));
}

#[test]
fn unclassifiable_byte_is_reported() {
    let (_, err) = lex(":");
    let d = err.unwrap();
    assert_eq!(d.kind, DiagnosticKind::UnclassifiableCharacter);
    assert_eq!((d.span.start, d.span.end), (0, 1));
}

// For every token produced, slicing the source buffer at
// `[token.start, token.end)` exactly reproduces the substring the lexer
// consumed for it: tokens tile the input without gap or overlap.
#[test]
fn token_spans_tile_the_input_exactly() {
    let inputs = [
        "echo -n ./a/b 12 'x y' | cat > out.txt",
        "ls -l /usr/bin & wc",
        "a|b|c",
        "  prog < in.txt  ",
        "x 1 2 3 ../up/dir",
    ];
    for src in inputs {
        let (toks, err) = lex(src);
        assert!(err.is_none(), "unexpected error for {:?}", src);
        let mut pos = 0;
        for t in &toks {
            if t.typ == TokenType::EOF {
                assert_eq!((t.start, t.end), (src.len(), src.len()));
                continue;
            }
            assert_eq!(t.start, pos, "gap before token in {:?}", src);
            assert!(t.end <= src.len());
            pos = t.end;
        }
        assert_eq!(pos, src.len(), "input not fully consumed: {:?}", src);
    }
}

// The same tiling property over pseudo-random inputs: every produced token
// begins where the previous one ended, and its span slices cleanly out of
// the buffer; on a lexical error the diagnostic's span stays in bounds.
#[test]
fn fuzzed_inputs_have_exact_spans() {
    let alphabet = b"ab1 ./|<>&'\"x-";
    let mut state: u64 = 0x9E3779B97F4A7C15;
    for trial in 0..500 {
        let mut src = String::new();
        for _ in 0..(trial % 23) {
            state = state
                .wrapping_mul(6364136223846793005)
                .wrapping_add(1442695040888963407);
            src.push(alphabet[(state >> 33) as usize % alphabet.len()] as char);
        }
        let (toks, err) = lex(&src);
        let mut pos = 0;
        for t in &toks {
            if t.typ == TokenType::EOF {
                assert_eq!((t.start, t.end), (src.len(), src.len()));
                continue;
            }
            assert_eq!(t.start, pos, "gap before token in {:?}", src);
            assert!(t.start < t.end && t.end <= src.len());
            let _consumed = &src[t.start..t.end];
            pos = t.end;
        }
        match err {
            None => assert_eq!(pos, src.len(), "input not fully consumed: {:?}", src),
            Some(d) => assert!(d.span.start <= d.span.end && d.span.end <= src.len()),
        }
    }
}

#[test]
fn expected_lexeme_for_each_token() {
    let src = "cat ./notes | wc -l > count.txt";
    let (toks, err) = lex(src);
    assert!(err.is_none());
    let words: Vec<&str> = toks
        .iter()
        .filter(|t| t.typ != TokenType::Whitespace && t.typ != TokenType::EOF)
        .map(|t| &src[t.start..t.end])
        .collect();
    assert_eq!(words, vec!["cat", "./notes", "|", "wc", "-l", ">", "count.txt"]);
}

#[test]
fn windows_drive_path_is_one_token() {
    let (toks, err) = lex_with("c:\\users", LexerConfig::windows());
    assert!(err.is_none());
    assert_eq!(toks[0].typ, TokenType::Path);
    assert_eq!((toks[0].start, toks[0].end), (0, 8));
}

#[test]
fn windows_drive_without_separator_is_an_error() {
    let (_, err) = lex_with("c:x", LexerConfig::windows());
    let d = err.unwrap();
    assert_eq!(d.kind, DiagnosticKind::ExpectedSeparator);
    assert_eq!((d.span.start, d.span.end), (2, 3));
}

#[test]
fn windows_slash_flag_is_a_bare_word() {
    let (toks, err) = lex_with("/?", LexerConfig::windows());
    assert!(err.is_none());
    assert_eq!(toks[0].typ, TokenType::Identifier);
    assert_eq!((toks[0].start, toks[0].end), (0, 2));
}

#[test]
fn error_leaves_scan_position_and_returns_nothing_after() {
    let mut lx = InputLexer::new("..x".as_bytes().to_vec(), LexerConfig::unix());
    assert!(lx.next_token().is_none());
    assert!(lx.error.is_some());
    // after an error the lexer keeps returning nothing
    assert!(lx.next_token().is_none());
    assert!(lx.next_token().is_none());
}
