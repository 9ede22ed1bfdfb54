use kan_tts::json;
use kan_tts::json::Json;
use kan_tts::tokenizer::{
    default_true, has_non_roman_characters, tok_str, TokenizerConfigRaw, TokenizerError,
    VitsTokenizer,
};

const VOCAB: &str = r#"{"_": 0, "a": 1, "b": 2, " ": 3, "ab": 4, "K": 5, "<unk>": 6, "é": 7}"#;

fn raw(add_blank: bool, normalize: bool) -> TokenizerConfigRaw {
    TokenizerConfigRaw { add_blank, normalize, ..TokenizerConfigRaw::default() }
}

fn tokenizer(add_blank: bool, normalize: bool) -> VitsTokenizer {
    VitsTokenizer::from_pretrained(raw(add_blank, normalize), VOCAB).unwrap()
}

fn text(s: &str) -> Option<Json> {
    Some(json::parse(s).unwrap())
}

#[test]
fn missing_configuration_switches_everything_off() {
    let r = TokenizerConfigRaw::default();
    assert!(!r.add_blank && !r.normalize && !r.phonemize && !r.is_uroman);
    assert!(r.pad_token.is_none() && r.unk_token.is_none() && r.language.is_none());
    assert!(default_true());
}

#[test]
fn special_tokens_come_from_strings_and_objects() {
    assert_eq!(tok_str(&text(r#""<p>""#), "d"), "<p>");
    assert_eq!(tok_str(&text(r#"{"content": "<q>", "x": 1}"#), "d"), "<q>");
    assert_eq!(tok_str(&text(r#"{"content": 3}"#), "d"), "d");
    assert_eq!(tok_str(&text(r#"{"other": "<q>"}"#), "d"), "d");
    assert_eq!(tok_str(&text("17"), "d"), "d");
    assert_eq!(tok_str(&text("null"), "d"), "d");
    assert_eq!(tok_str(&None, "d"), "d");
}

#[test]
fn non_roman_characters_are_found() {
    assert!(!has_non_roman_characters(""));
    assert!(!has_non_roman_characters("plain ~\u{7f}"));
    assert!(has_non_roman_characters("ab\u{80}"));
    assert!(has_non_roman_characters("ನ"));
}

#[test]
fn unsupported_configurations_are_refused() {
    let mut r = raw(true, true);
    r.phonemize = true;
    r.is_uroman = true;
    assert_eq!(
        VitsTokenizer::from_pretrained(r, "no json").unwrap_err(),
        TokenizerError::Phonemize
    );
    let mut r = raw(true, true);
    r.is_uroman = true;
    assert_eq!(VitsTokenizer::from_pretrained(r, VOCAB).unwrap_err(), TokenizerError::Uroman);
    for vocab in [
        "no json",
        "[1]",
        r#"{"a": 1.5}"#,
        r#"{"a": "1"}"#,
        r#"{"a": 9223372036854775808}"#,
        r#"{"a": "x", "a": 1}"#,
        r#"{"a": 1, "b": null, "b": 2}"#,
    ] {
        assert_eq!(
            VitsTokenizer::from_pretrained(raw(true, true), vocab).unwrap_err(),
            TokenizerError::Vocabulary
        );
    }
}

#[test]
fn vocabulary_counts_every_token_once() {
    assert_eq!(tokenizer(true, true).vocab_size(), 8);
    let t = VitsTokenizer::from_pretrained(raw(false, false), r#"{"a": 1, "b": 2, "a": 9}"#).unwrap();
    assert_eq!(t.vocab_size(), 2);
    assert_eq!(t.convert_token_to_id("a"), 9);
    let t = VitsTokenizer::from_pretrained(raw(false, false), "{}").unwrap();
    assert_eq!(t.vocab_size(), 0);
    assert_eq!(t.convert_token_to_id("a"), 0);
}

#[test]
fn normalization_keeps_tokens_and_lowers_the_rest() {
    let t = tokenizer(false, true);
    assert_eq!(t.normalize_text("AbK"), "abK");
    assert_eq!(t.normalize_text("ABÉ"), "abé");
    assert_eq!(t.normalize_text(""), "");
    // A character can have more than one lowercase letter.
    assert_eq!(t.normalize_text("İ"), "i\u{307}");
}

#[test]
fn first_token_of_the_vocabulary_wins() {
    // "A" stands before "AB": only "A" is taken over as it is, and "B" is lowered.
    let t = VitsTokenizer::from_pretrained(raw(false, true), r#"{"A": 1, "AB": 2}"#).unwrap();
    assert_eq!(t.normalize_text("AB"), "Ab");
    let t = VitsTokenizer::from_pretrained(raw(false, true), r#"{"AB": 2, "A": 1}"#).unwrap();
    assert_eq!(t.normalize_text("AB"), "AB");
}

#[test]
fn romanian_text_is_respelled() {
    let mut r = raw(false, false);
    r.language = Some("ron".to_string());
    let t = VitsTokenizer::from_pretrained(r, VOCAB).unwrap();
    assert_eq!(t.preprocess_char("aț".to_string()), "aţ");
    assert_eq!(t.prepare_text("ȚțX").unwrap(), "ȚţX");
    assert_eq!(tokenizer(false, false).preprocess_char("aț".to_string()), "aț");
}

#[test]
fn prepared_text_holds_tokens_only_and_is_trimmed() {
    let t = tokenizer(false, true);
    assert_eq!(t.prepare_text("  a?B !z\t").unwrap(), "ab");
    assert_eq!(t.prepare_text("a b").unwrap(), "a b");
    assert_eq!(t.prepare_text("?!").unwrap(), "");
    let once = t.prepare_text(" Éa  b,K ").unwrap();
    assert_eq!(once, "éa  bK");
    assert_eq!(t.prepare_text(&once).unwrap(), once);
    assert_eq!(tokenizer(false, false).prepare_text(" a?B ").unwrap(), " a?B ");
}

#[test]
fn blanks_stand_around_every_token() {
    let t = tokenizer(true, false);
    assert_eq!(t.tokenize("ab"), vec!["_", "a", "_", "b", "_"]);
    assert_eq!(t.tokenize(""), vec!["_"]);
    assert_eq!(tokenizer(false, false).tokenize("ab"), vec!["a", "b"]);
    assert!(tokenizer(false, false).tokenize("").is_empty());
}

#[test]
fn blank_is_the_last_token_with_identifier_zero_or_the_padding() {
    let t = VitsTokenizer::from_pretrained(raw(true, false), r#"{"x": 0, "y": 0, "a": 1}"#).unwrap();
    assert_eq!(t.tokenize("a"), vec!["y", "a", "y"]);
    let t = VitsTokenizer::from_pretrained(raw(true, false), r#"{"a": 1}"#).unwrap();
    assert_eq!(t.tokenize("a"), vec!["<pad>", "a", "<pad>"]);
    let mut r = raw(true, false);
    r.pad_token = text(r#"{"content": "|"}"#);
    let t = VitsTokenizer::from_pretrained(r, r#"{"a": 1}"#).unwrap();
    assert_eq!(t.tokenize("a"), vec!["|", "a", "|"]);
}

#[test]
fn blank_has_identifier_zero() {
    for vocab in [VOCAB, r#"{"a": 0}"#, r#"{"x": 0, "y": 0, "a": 1}"#, r#"{"b": 1, "b": 0}"#] {
        let t = VitsTokenizer::from_pretrained(raw(true, false), vocab).unwrap();
        let blank = t.tokenize("").remove(0);
        assert_eq!(t.convert_token_to_id(&blank), 0, "{vocab}");
        assert_eq!(t.encode("").unwrap(), vec![0]);
    }
}

#[test]
fn unknown_tokens_get_the_unknown_identifier() {
    let t = tokenizer(false, false);
    assert_eq!(t.convert_token_to_id("ab"), 4);
    assert_eq!(t.convert_token_to_id("?"), 6);
    let mut r = raw(false, false);
    r.unk_token = text(r#""b""#);
    let t = VitsTokenizer::from_pretrained(r, VOCAB).unwrap();
    assert_eq!(t.convert_token_to_id("?"), 2);
}

#[test]
fn text_is_encoded_with_blanks() {
    let t = tokenizer(true, true);
    assert_eq!(t.encode("Ba!").unwrap(), vec![0, 2, 0, 1, 0]);
    assert_eq!(t.encode("").unwrap(), vec![0]);
    let t = tokenizer(false, false);
    assert_eq!(t.encode("Ba!").unwrap(), vec![6, 1, 6]);
}

#[test]
fn mask_is_one_for_every_token() {
    let t = tokenizer(true, true);
    let (ids, mask) = t.call("K a").unwrap();
    assert_eq!(ids, vec![0, 5, 0, 3, 0, 1, 0]);
    assert_eq!(mask, vec![1; 7]);
    let (ids, mask) = tokenizer(false, true).call("").unwrap();
    assert!(ids.is_empty() && mask.is_empty());
}

#[test]
fn tokenizer_from_a_document() {
    let vocab = json::parse(VOCAB).unwrap();
    let t = VitsTokenizer::from_vocab(raw(false, true), &vocab).unwrap();
    assert_eq!(t.encode("ab").unwrap(), vec![1, 2]);
    assert_eq!(
        VitsTokenizer::from_vocab(raw(false, true), &Json::Null).unwrap_err(),
        TokenizerError::Vocabulary
    );
}
