use kan_tts::cli::{model_ids, output_file_name, select_language, voice_for};
use kan_tts::download::{
    bar, file_url, model_files, plan, voice_dir, Progress, BAR_WIDTH, LOG_STEP, TTS_MODEL_FILE,
};
use kan_tts::text;
use kan_tts::wav::encode_wav;

#[test]
fn sound_file_is_framed() {
    let bytes = encode_wav(&vec![0, 1, -1, i16::MAX, i16::MIN], 16000).unwrap();
    assert_eq!(bytes.len(), 54);
    assert_eq!(&bytes[0..4], b"RIFF");
    assert_eq!(u32::from_le_bytes([bytes[4], bytes[5], bytes[6], bytes[7]]), 46);
    assert_eq!(&bytes[8..16], b"WAVEfmt ");
    assert_eq!(&bytes[16..24], &[16, 0, 0, 0, 1, 0, 1, 0]);
    assert_eq!(u32::from_le_bytes([bytes[24], bytes[25], bytes[26], bytes[27]]), 16000);
    assert_eq!(u32::from_le_bytes([bytes[28], bytes[29], bytes[30], bytes[31]]), 32000);
    assert_eq!(&bytes[32..40], &[2, 0, 16, 0, b'd', b'a', b't', b'a']);
    assert_eq!(u32::from_le_bytes([bytes[40], bytes[41], bytes[42], bytes[43]]), 10);
    assert_eq!(&bytes[44..], &[0, 0, 1, 0, 255, 255, 255, 127, 0, 128]);
}

#[test]
fn samples_are_read_back() {
    let samples: Vec<i16> = (0..1000).map(|i| ((i * 7919) % 65536 - 32768) as i16).collect();
    let bytes = encode_wav(&samples, 22050).unwrap();
    let read: Vec<i16> =
        bytes[44..].chunks(2).map(|c| i16::from_le_bytes([c[0], c[1]])).collect();
    assert_eq!(read, samples);
}

#[test]
fn empty_sound_file_is_a_header() {
    let bytes = encode_wav(&vec![], u32::MAX / 2).unwrap();
    assert_eq!(bytes.len(), 44);
    assert_eq!(&bytes[4..8], &[36, 0, 0, 0]);
    assert_eq!(&bytes[28..32], &[254, 255, 255, 255]);
}

#[test]
fn sample_rate_out_of_range_is_refused() {
    assert!(encode_wav(&vec![1], u32::MAX / 2 + 1).is_none());
}

#[test]
fn files_of_a_voice() {
    assert_eq!(
        model_files(),
        vec!["model.safetensors", "config.json", "tokenizer_config.json", "vocab.json"]
    );
    assert_eq!(TTS_MODEL_FILE, "model.safetensors");
    assert_eq!(voice_dir("kan"), "mms-tts-kan");
    assert_eq!(
        file_url("tam", "vocab.json"),
        "https://huggingface.co/facebook/mms-tts-tam/resolve/main/vocab.json"
    );
}

#[test]
fn missing_files_are_fetched_in_order() {
    let fetches = plan("eng", &vec![false, true, false, true]);
    let names: Vec<&str> = fetches.iter().map(|f| f.name.as_str()).collect();
    assert_eq!(names, vec!["model.safetensors", "tokenizer_config.json"]);
    assert_eq!(
        fetches[1].url,
        "https://huggingface.co/facebook/mms-tts-eng/resolve/main/tokenizer_config.json"
    );
    assert!(plan("eng", &vec![true; 4]).is_empty());
    assert_eq!(plan("eng", &vec![false; 4]).len(), 4);
}

#[test]
fn progress_is_shown_every_eight_megabytes() {
    let mut p = Progress::start();
    assert_eq!(LOG_STEP, 8 * 1024 * 1024);
    assert!(!p.advance(LOG_STEP - 1));
    assert_eq!((p.copied, p.last_logged), (LOG_STEP - 1, 0));
    assert!(p.advance(1));
    assert_eq!((p.copied, p.last_logged), (LOG_STEP, LOG_STEP));
    assert!(!p.advance(5));
    assert!(p.advance(3 * LOG_STEP));
    assert_eq!(p.last_logged, 4 * LOG_STEP + 5);
}

#[test]
fn bar_fills_up() {
    let cells = |p: usize| bar(p).chars().filter(|&c| c == '█').count();
    assert_eq!(cells(0), 0);
    assert_eq!(cells(3), 0);
    assert_eq!(cells(4), 1);
    assert_eq!(cells(50), 15);
    assert_eq!(cells(99), 29);
    assert_eq!(cells(100), 30);
    assert_eq!(cells(usize::MAX), 30);
    for p in [0, 33, 100, 500] {
        assert_eq!(bar(p).chars().count(), BAR_WIDTH);
    }
    assert_eq!(bar(10), "███░░░░░░░░░░░░░░░░░░░░░░░░░░░");
}

#[test]
fn language_is_told_by_its_first_letter() {
    assert_eq!(select_language("kan").as_deref(), Some("kan"));
    assert_eq!(select_language("  Tamil").as_deref(), Some("tam"));
    assert_eq!(select_language("E").as_deref(), Some("eng"));
    assert_eq!(select_language("\u{212A}elvin").as_deref(), Some("kan"));
    assert_eq!(select_language("fra"), None);
    assert_eq!(select_language(""), None);
    assert_eq!(select_language(" \t\u{a0}"), None);
    assert_eq!(select_language("İ"), None);
    assert_eq!(voice_for(&"k".to_string()).as_deref(), Some("kan"));
    assert_eq!(voice_for(&"K".to_string()), None);
}

#[test]
fn output_file_is_named_after_language_and_time() {
    assert_eq!(output_file_name("kan", "20240102-030405"), "kan-20240102-030405.wav");
}

#[test]
fn identifiers_keep_their_lower_bits() {
    assert_eq!(
        model_ids(&vec![0, 74, -1, 1 << 32, i64::MAX, i64::MIN, -(1 << 32) - 2]),
        vec![0, 74, u32::MAX, 0, u32::MAX, 0, u32::MAX - 1]
    );
}

#[test]
fn strings_are_built() {
    assert_eq!(text::decimal(0), "0");
    assert_eq!(text::decimal(907), "907");
    assert_eq!(text::decimal(usize::MAX), usize::MAX.to_string());
    assert_eq!(text::join("a", "bé"), "abé");
    assert!(text::same(&"ನ".to_string(), "ನ"));
    assert!(!text::same(&"a".to_string(), "A"));
    assert_eq!(text::chars_of("aé"), vec!['a', 'é']);
    assert_eq!(text::string_of(&vec!['x', 'ನ']), "xನ");
    assert_eq!(text::single('q'), "q");
    let trimmed = |s: &str| text::string_of(&text::trim(&text::chars_of(s)));
    assert_eq!(trimmed("\u{2003} a b\n\u{3000}"), "a b");
    assert_eq!(trimmed(" \t "), "");
}

#[test]
fn white_characters_are_those_of_unicode() {
    let white: Vec<char> = (0..=0x10FFFFu32)
        .filter_map(char::from_u32)
        .filter(|&c| text::trim(&vec![c]).is_empty())
        .collect();
    let mut expected: Vec<char> = "\t\n\u{B}\u{C}\r \u{85}\u{A0}\u{1680}".chars().collect();
    expected.extend('\u{2000}'..='\u{200A}');
    expected.extend("\u{2028}\u{2029}\u{202F}\u{205F}\u{3000}".chars());
    assert_eq!(white, expected);
}
