use nemotron_mlx::tokenizer::{Tokenizer, TokenizerError};

fn tokenizer() -> Tokenizer {
    Tokenizer::from_parts(
        "BPE",
        "Metaspace",
        vec![("▁hello".to_string(), 0), ("世".to_string(), 1), ("界".to_string(), 2)],
        vec![
            (3, "<en-US>".to_string(), true),
            (4, "<pad>".to_string(), true),
            (5, "<blank>".to_string(), true),
        ],
        "▁".to_string(),
        4,
        5,
    )
    .unwrap()
}

#[test]
fn decodes_bpe_metaspace_and_strips_model_control_ids() {
    let tokenizer = tokenizer();
    assert_eq!(
        tokenizer.decode(&[3, 0, 1, 2, 4, 5], true).unwrap(),
        "hello世界"
    );
    assert_eq!(
        tokenizer.decode(&[3, 0, 1, 2, 4, 5], false).unwrap(),
        "<en-US> hello世界"
    );
    assert!(tokenizer.decode(&[99], true).is_err());
}

#[test]
fn the_first_unknown_id_is_reported() {
    let tokenizer = tokenizer();
    assert_eq!(tokenizer.decode(&[0, 77, 88], true), Err(TokenizerError::UnknownToken(77)));
    assert_eq!(tokenizer.decode(&[], true).unwrap(), "");
}

#[test]
fn only_bpe_with_metaspace_is_supported() {
    let error = Tokenizer::from_parts("WordPiece", "Metaspace", vec![], vec![], "▁".to_string(), 0, 1)
        .unwrap_err();
    assert_eq!(error, TokenizerError::Unsupported("WordPiece + Metaspace".to_string()));
}

#[test]
fn added_tokens_override_the_vocabulary() {
    let tokenizer = Tokenizer::from_parts(
        "BPE",
        "Metaspace",
        vec![("▁a".to_string(), 0), ("b".to_string(), 1)],
        vec![(1, "▁▁c".to_string(), false)],
        "▁".to_string(),
        9,
        9,
    )
    .unwrap();
    assert_eq!(tokenizer.decode(&[1, 0], true).unwrap(), "c a");
}
