use kakpipe::escape::{EscapeIterator, Mode, Token};

#[test]
fn empty() {
    let tokens: Vec<_> = EscapeIterator::new("", Mode::Block).collect();
    assert_eq!(tokens, &[]);
}

#[test]
fn percent() {
    let tokens: Vec<_> = EscapeIterator::new("%", Mode::Block).collect();
    assert_eq!(tokens, vec![Token::Percent]);
}

#[test]
fn string() {
    let tokens: Vec<_> = EscapeIterator::new("hello world !", Mode::Block).collect();
    assert_eq!(tokens, vec![Token::Str("hello world !")]);
}

#[test]
fn opt() {
    let tokens: Vec<_> = EscapeIterator::new("%opt{filetype}", Mode::Block).collect();
    assert_eq!(tokens, vec![Token::Block("%opt{filetype}")]);
}

#[test]
fn val() {
    let tokens: Vec<_> = EscapeIterator::new("%val{session}", Mode::Block).collect();
    assert_eq!(tokens, vec![Token::Block("%val{session}")]);
}

#[test]
fn sh() {
    let tokens: Vec<_> = EscapeIterator::new("%sh{basename \"$kak_file\"}", Mode::Block).collect();
    assert_eq!(tokens, vec![Token::Block("%sh{basename \"$kak_file\"}")]);
}

#[test]
fn expansion() {
    let tokens: Vec<_> = EscapeIterator::new("%{echo %opt{filetype}}", Mode::Block).collect();
    assert_eq!(tokens, vec![Token::Block("%{echo %opt{filetype}}")]);
}

#[test]
fn mixed() {
    let tokens: Vec<_> =
        EscapeIterator::new("%opt{filetype} 98% %val{session}", Mode::Block).collect();
    assert_eq!(
        tokens,
        vec![
            Token::Block("%opt{filetype}"),
            Token::Str(" 98"),
            Token::Percent,
            Token::Str(" "),
            Token::Block("%val{session}")
        ]
    );
}

#[test]
fn noescape_inside_block() {
    let tokens: Vec<_> = EscapeIterator::new("%{date +%T}", Mode::Block).collect();
    assert_eq!(tokens, vec![Token::Block("%{date +%T}")]);
}

#[test]
fn brace_mode_cuts_at_braces() {
    let tokens: Vec<_> = EscapeIterator::new("a{b}{", Mode::Brace).collect();
    assert_eq!(
        tokens,
        vec![Token::Str("a"), Token::OpenBrace, Token::Str("b}"), Token::OpenBrace]
    );
}

#[test]
fn brace_mode_leaves_percent_alone() {
    let tokens: Vec<_> = EscapeIterator::new("%opt{x} 5%", Mode::Brace).collect();
    assert_eq!(
        tokens,
        vec![Token::Str("%opt"), Token::OpenBrace, Token::Str("x} 5%")]
    );
}

#[test]
fn unbalanced_block_takes_the_rest() {
    let tokens: Vec<_> = EscapeIterator::new("%sh{ echo {a} % b", Mode::Block).collect();
    assert_eq!(tokens, vec![Token::Block("%sh{ echo {a} % b")]);
}

#[test]
fn block_without_body() {
    let tokens: Vec<_> = EscapeIterator::new("%{", Mode::Block).collect();
    assert_eq!(tokens, vec![Token::Block("%{")]);
}

#[test]
fn block_then_text() {
    let tokens: Vec<_> = EscapeIterator::new("%reg{a}%arg{1}%file{x}y", Mode::Block).collect();
    assert_eq!(
        tokens,
        vec![
            Token::Block("%reg{a}"),
            Token::Block("%arg{1}"),
            Token::Block("%file{x}"),
            Token::Str("y")
        ]
    );
}

#[test]
fn unknown_name_is_a_percent() {
    let tokens: Vec<_> = EscapeIterator::new("%foo{a}", Mode::Block).collect();
    assert_eq!(tokens, vec![Token::Percent, Token::Str("foo{a}")]);
}

#[test]
fn block_with_wide_characters() {
    let tokens: Vec<_> = EscapeIterator::new("é%{héé}ü%", Mode::Block).collect();
    assert_eq!(
        tokens,
        vec![
            Token::Str("é"),
            Token::Block("%{héé}"),
            Token::Str("ü"),
            Token::Percent
        ]
    );
}

#[test]
fn next_is_restartable() {
    let mut scanner = EscapeIterator::new("a%b", Mode::Block);
    assert_eq!(scanner.next(), Some(Token::Str("a")));
    assert_eq!(scanner.next(), Some(Token::Percent));
    assert_eq!(scanner.next(), Some(Token::Str("b")));
    assert_eq!(scanner.next(), None);
    assert_eq!(scanner.next(), None);
}

#[test]
fn yield_functions_cut_where_told() {
    let mut scanner = EscapeIterator::new("%{a{b}c}d{e", Mode::Block);
    assert_eq!(scanner.yield_block(2), Some(Token::Block("%{a{b}c}")));
    assert_eq!(scanner.yield_chunk(1), Some(Token::Str("d")));
    assert_eq!(scanner.yield_openbrace(), Some(Token::OpenBrace));
    assert_eq!(scanner.yield_remainder(), Some(Token::Str("e")));
    assert_eq!(scanner.yield_remainder(), Some(Token::Str("")));
    let mut scanner = EscapeIterator::new("%x", Mode::Block);
    assert_eq!(scanner.yield_percent(), Some(Token::Percent));
    assert_eq!(scanner.next(), Some(Token::Str("x")));
}

#[test]
fn tokens_put_together_give_the_text() {
    let text = "%opt{filetype} 98% {x} %val{session} %{";
    for mode in [Mode::Block, Mode::Brace] {
        let mut joined = String::new();
        for token in EscapeIterator::new(text, mode).collect() {
            match token {
                Token::Percent => joined.push('%'),
                Token::OpenBrace => joined.push('{'),
                Token::Str(t) => joined.push_str(t),
                Token::Block(t) => joined.push_str(t),
            }
        }
        assert_eq!(joined, text);
    }
}
