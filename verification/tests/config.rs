use kan_tts::config::{merge_field, Field, VitsConfig};
use kan_tts::json;
use kan_tts::json::{Json, JsonError};
use kan_tts::tensor::scalar::Real;

fn number(x: Real) -> f64 {
    f64::from_bits(x.bits)
}

#[test]
fn defaults_are_those_of_the_voices() {
    let c = VitsConfig::default();
    assert_eq!(c.vocab_size, 38);
    assert_eq!(c.hidden_size, 192);
    assert_eq!(c.num_hidden_layers, 6);
    assert_eq!(c.num_attention_heads, 2);
    assert_eq!(c.window_size, 4);
    assert!(c.use_bias);
    assert_eq!(c.ffn_dim, 768);
    assert_eq!(c.ffn_kernel_size, 3);
    assert_eq!(c.flow_size, 192);
    assert_eq!(c.spectrogram_bins, 513);
    assert_eq!(c.hidden_act, "relu");
    assert_eq!(number(c.hidden_dropout), 0.1);
    assert_eq!(number(c.attention_dropout), 0.1);
    assert_eq!(number(c.activation_dropout), 0.1);
    assert_eq!(number(c.layer_norm_eps), 1e-5);
    assert!(c.use_stochastic_duration_prediction);
    assert_eq!(c.num_speakers, 1);
    assert_eq!(c.speaker_embedding_size, 0);
    assert_eq!(c.upsample_initial_channel, 512);
    assert_eq!(c.upsample_rates, vec![8, 8, 2, 2]);
    assert_eq!(c.upsample_kernel_sizes, vec![16, 16, 4, 4]);
    assert_eq!(c.resblock_kernel_sizes, vec![3, 7, 11]);
    assert_eq!(c.resblock_dilation_sizes, vec![vec![1, 3, 5]; 3]);
    assert_eq!(number(c.leaky_relu_slope), 0.1);
    assert_eq!(c.depth_separable_channels, 2);
    assert_eq!(c.depth_separable_num_layers, 3);
    assert_eq!(c.duration_predictor_flow_bins, 10);
    assert_eq!(number(c.duration_predictor_tail_bound), 5.0);
    assert_eq!(c.duration_predictor_kernel_size, 3);
    assert_eq!(number(c.duration_predictor_dropout), 0.5);
    assert_eq!(c.duration_predictor_num_flows, 4);
    assert_eq!(c.duration_predictor_filter_channels, 256);
    assert_eq!(c.prior_encoder_num_flows, 4);
    assert_eq!(c.prior_encoder_num_wavenet_layers, 4);
    assert_eq!(c.wavenet_kernel_size, 5);
    assert_eq!(c.wavenet_dilation_rate, 1);
    assert_eq!(number(c.wavenet_dropout), 0.0);
    assert_eq!(number(c.speaking_rate), 1.0);
    assert_eq!(number(c.noise_scale), 0.667);
    assert_eq!(number(c.noise_scale_duration), 0.8);
    assert_eq!(c.sampling_rate, 16_000);
    assert_eq!(c.pad_token_id, None);
}

#[test]
fn members_replace_defaults() {
    let c = VitsConfig::from_pretrained(
        r#"{
            "vocab_size": 75, "use_bias": false, "hidden_act": "gelu", "noise_scale": 0.5,
            "speaking_rate": 2, "layer_norm_eps": -1.5e-3, "sampling_rate": 22050,
            "upsample_rates": [4, 2], "resblock_dilation_sizes": [[1], [], [2, 3]],
            "pad_token_id": 7, "architectures": ["VitsModel"], "model_type": "vits"
        }"#,
    )
    .unwrap();
    assert_eq!(c.vocab_size, 75);
    assert!(!c.use_bias);
    assert_eq!(c.hidden_act, "gelu");
    assert_eq!(number(c.noise_scale), 0.5);
    assert_eq!(number(c.speaking_rate), 2.0);
    assert_eq!(number(c.layer_norm_eps), -1.5e-3);
    assert_eq!(c.sampling_rate, 22050);
    assert_eq!(c.upsample_rates, vec![4, 2]);
    assert_eq!(c.resblock_dilation_sizes, vec![vec![1], vec![], vec![2, 3]]);
    assert_eq!(c.pad_token_id, Some(7));
    assert_eq!(c.hidden_size, 192);
}

#[test]
fn members_of_the_wrong_kind_are_ignored() {
    let c = VitsConfig::from_pretrained(
        r#"{
            "vocab_size": -1, "hidden_size": 1.0, "window_size": "4", "use_bias": 0,
            "hidden_act": null, "noise_scale": "x", "sampling_rate": 4294967296,
            "upsample_rates": [4, -2], "resblock_dilation_sizes": [1, 2], "pad_token_id": false
        }"#,
    )
    .unwrap();
    assert_eq!(c.vocab_size, 38);
    assert_eq!(c.hidden_size, 192);
    assert_eq!(c.window_size, 4);
    assert!(c.use_bias);
    assert_eq!(c.hidden_act, "relu");
    assert_eq!(number(c.noise_scale), 0.667);
    assert_eq!(c.sampling_rate, 16_000);
    assert_eq!(c.upsample_rates, vec![8, 8, 2, 2]);
    assert_eq!(c.resblock_dilation_sizes, vec![vec![1, 3, 5]; 3]);
    assert_eq!(c.pad_token_id, None);
}

#[test]
fn documents_without_members_give_the_default() {
    for text in ["{}", "[]", "3", "null", r#"{"unknown": 1}"#] {
        let c = VitsConfig::from_pretrained(text).unwrap();
        assert_eq!(c.vocab_size, 38);
        assert_eq!(c.upsample_rates, vec![8, 8, 2, 2]);
    }
}

#[test]
fn text_that_is_no_document_is_refused() {
    assert_eq!(VitsConfig::from_pretrained("{").unwrap_err(), JsonError::Syntax);
    assert_eq!(VitsConfig::from_pretrained("").unwrap_err(), JsonError::Syntax);
}

#[test]
fn last_member_of_a_name_counts() {
    let c = VitsConfig::from_pretrained(r#"{"vocab_size": 1, "vocab_size": 2}"#).unwrap();
    assert_eq!(c.vocab_size, 2);
}

#[test]
fn null_takes_an_optional_field_away() {
    let mut field = Some(3usize);
    merge_field(&json::parse(r#"{"k": null}"#).unwrap(), "k", &mut field);
    assert_eq!(field, None);
    let mut field = Some(3usize);
    merge_field(&json::parse(r#"{"k": "x"}"#).unwrap(), "k", &mut field);
    assert_eq!(field, Some(3));
    merge_field(&json::parse(r#"{"other": 4}"#).unwrap(), "k", &mut field);
    assert_eq!(field, Some(3));
}

#[test]
fn documents_are_read() {
    let j = json::parse(r#" {"b": [1, -2, 2.5, 18446744073709551615], "a": {"x": "y\n"}, "n": null, "t": true} "#)
        .unwrap();
    let Json::Object(members) = &j else { panic!("no object") };
    let names: Vec<&str> = members.iter().map(|m| m.0.as_str()).collect();
    assert_eq!(names, vec!["b", "a", "n", "t"]);
    let Some(Json::Array(items)) = j.get("b") else { panic!("no array") };
    let Json::Number(n) = &items[0] else { panic!("no number") };
    assert_eq!((n.unsigned, n.signed, n.real.map(number)), (Some(1), Some(1), Some(1.0)));
    let Json::Number(n) = &items[1] else { panic!("no number") };
    assert_eq!((n.unsigned, n.signed, n.real.map(number)), (None, Some(-2), Some(-2.0)));
    let Json::Number(n) = &items[2] else { panic!("no number") };
    assert_eq!((n.unsigned, n.signed, n.real.map(number)), (None, None, Some(2.5)));
    let Json::Number(n) = &items[3] else { panic!("no number") };
    assert_eq!((n.unsigned, n.signed), (Some(u64::MAX), None));
    let Some(Json::Text(s)) = j.get("a").and_then(|a| a.get("x")) else { panic!("no text") };
    assert_eq!(s, "y\n");
    assert!(matches!(j.get("n"), Some(Json::Null)));
    assert!(matches!(j.get("t"), Some(Json::Bool(true))));
    assert!(j.get("z").is_none());
    assert!(Json::Null.get("z").is_none());
}

#[test]
fn fields_are_read_from_documents() {
    let j = json::parse("[3, 4]").unwrap();
    assert_eq!(<Vec<usize> as Field>::from_json(&j), Some(vec![3, 4]));
    assert_eq!(<usize as Field>::from_json(&j), None);
    let j = json::parse("4294967295").unwrap();
    assert_eq!(<u32 as Field>::from_json(&j), Some(u32::MAX));
    assert_eq!(<usize as Field>::from_json(&j), Some(4294967295));
    assert_eq!(<bool as Field>::from_json(&j), None);
    assert_eq!(<String as Field>::from_json(&j), None);
}
