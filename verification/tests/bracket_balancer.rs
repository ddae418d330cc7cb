use ravel::parser::bracket_balancer::rebalance_brackets;
use ravel::parser::lexer::{TokKind, Token, lex};

fn kinds(tokens: &[Token]) -> Vec<TokKind> {
    tokens.iter().map(|t| t.kind).collect()
}

fn text_total(tokens: &[Token]) -> String {
    tokens.iter().map(|t| t.text.clone()).collect()
}

#[test]
fn splits_double_close_when_inner_is_single_bracket() {
    let input = "df[, map[x]]";
    let toks = rebalance_brackets(lex(input));
    assert_eq!(text_total(&toks), input);
    let closes: Vec<_> = toks
        .iter()
        .filter(|t| matches!(t.kind, TokKind::RBrack | TokKind::RBrack2))
        .map(|t| t.kind)
        .collect();
    assert_eq!(closes, vec![TokKind::RBrack, TokKind::RBrack]);
}

#[test]
fn preserves_double_close_when_inner_is_double_bracket() {
    let input = "x[[1]]";
    let toks = rebalance_brackets(lex(input));
    assert_eq!(text_total(&toks), input);
    assert!(toks.iter().any(|t| t.kind == TokKind::RBrack2));
    assert!(!toks.iter().any(|t| t.kind == TokKind::RBrack));
}

#[test]
fn merges_then_splits_for_outer_double_inner_single() {
    let input = "f[[g[h]]]";
    let toks = rebalance_brackets(lex(input));
    assert_eq!(text_total(&toks), input);
    let closes: Vec<_> = toks
        .iter()
        .filter(|t| matches!(t.kind, TokKind::RBrack | TokKind::RBrack2))
        .map(|t| t.kind)
        .collect();
    assert_eq!(closes, vec![TokKind::RBrack, TokKind::RBrack2]);
}

#[test]
fn pass_is_idempotent() {
    let input = "df[df$col > 7, map[names(df)]]";
    let once = rebalance_brackets(lex(input));
    let twice = rebalance_brackets(once.clone());
    assert_eq!(kinds(&once), kinds(&twice));
}

#[test]
fn leaves_input_untouched_without_double_close() {
    let input = "x[1] + y[2]";
    let lexed = lex(input);
    let rebalanced = rebalance_brackets(lexed.clone());
    assert_eq!(kinds(&lexed), kinds(&rebalanced));
}

#[test]
fn rebalanced_tokens_keep_offsets_chained() {
    let input = "a[[b[c]]]";
    let toks = rebalance_brackets(lex(input));
    let mut pos = 0;
    for tok in &toks {
        assert_eq!(tok.start, pos);
        assert_eq!(tok.end, pos + tok.text.chars().count());
        pos = tok.end;
    }
    assert_eq!(pos, input.chars().count());
}
