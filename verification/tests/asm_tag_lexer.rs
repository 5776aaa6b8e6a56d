use lovm::assembler::lexer::{lex, try_lex, Lex, LexTokenTag};

fn tags(l: &Lex) -> Vec<((usize, usize, usize), LexTokenTag)> {
    l.tokens.iter().map(|t| (t.loc, t.tag)).collect()
}

#[test]
fn lex_mov_two_registers() {
    let l = lex("mov A, B");
    assert_eq!(l.src, "mov A, B");
    assert_eq!(
        tags(&l),
        vec![((0, 0, 4), LexTokenTag::Mov), ((0, 4, 6), LexTokenTag::RegA), ((0, 6, 8), LexTokenTag::RegB)]
    );
}

#[test]
fn lex_several_lines() {
    let l = lex("push A\nret");
    assert_eq!(
        tags(&l),
        vec![((0, 0, 5), LexTokenTag::Push), ((0, 5, 6), LexTokenTag::RegA), ((1, 0, 3), LexTokenTag::Ret)]
    );
}

#[test]
fn lex_constants_labels_and_the_inc_quirk() {
    let l = lex("main: inc #3");
    assert_eq!(
        tags(&l),
        vec![((0, 0, 6), LexTokenTag::Label), ((0, 6, 10), LexTokenTag::RegD), ((0, 10, 12), LexTokenTag::Numc)]
    );
}

#[test]
fn lex_comment_is_dropped() {
    let l = lex("ret;done");
    assert_eq!(tags(&l), vec![((0, 0, 3), LexTokenTag::Ret)]);
}

#[test]
fn try_lex_rejects_unknown_words() {
    assert!(try_lex("foo").is_none());
    assert!(try_lex("mov X, A").is_none());
    // a trailing space before a comment leaves an empty last word
    assert!(try_lex("ret ; done").is_none());
    // an empty line has an empty word
    assert!(try_lex("ret\n\nret").is_none());
}

#[test]
fn try_lex_agrees_with_lex() {
    let a = try_lex("pop C").unwrap();
    let b = lex("pop C");
    assert_eq!(tags(&a), tags(&b));
    assert_eq!(tags(&a), vec![((0, 0, 4), LexTokenTag::Pop), ((0, 4, 5), LexTokenTag::RegC)]);
}

#[test]
fn lex_empty_source() {
    let l = lex("");
    assert!(l.tokens.is_empty());
}

#[test]
fn lex_read_locations() {
    let l = lex("push A\nret");
    assert_eq!(l.read((1, 0, 3)), Some("ret"));
    assert_eq!(l.read((0, 5, 6)), Some("A"));
    assert_eq!(l.read((0, 0, 0)), Some(""));
    assert_eq!(l.read((2, 0, 0)), None);
}

#[test]
fn lex_new_is_empty() {
    let l = Lex::new("x".to_string());
    assert_eq!(l.src, "x");
    assert!(l.tokens.is_empty());
}
