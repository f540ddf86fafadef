//! Segmentation tests: the fixed three-alphabet variant and the
//! scheme-driven segmenter.

use chinfusor::config::Config;
use chinfusor::fixed_alphabets;
use chinfusor::text_processor::{identify_character, parse_text, LanguageChunk};

#[test]
fn lib_chinese_test() {
    let text = "Hello, this is an experimental test. 你好，我是人。 There is also some mixed 过 text. Hmm, I must refresh my Chinese, as I don't remember a word. :D Here is also a test question: 他又妈妈？";
    let expected_result: Vec<fixed_alphabets::LanguageChunk> = vec![
        fixed_alphabets::LanguageChunk::Latin("Hello, this is an experimental test.".to_string()),
        fixed_alphabets::LanguageChunk::Chinese("你好，我是人。".to_string()),
        fixed_alphabets::LanguageChunk::Latin("There is also some mixed".to_string()),
        fixed_alphabets::LanguageChunk::Chinese("过".to_string()),
        fixed_alphabets::LanguageChunk::Latin(
            "text. Hmm, I must refresh my Chinese, as I don't remember a word. :D Here is also a test question:".to_string(),
        ),
        fixed_alphabets::LanguageChunk::Chinese("他又妈妈？".to_string()),
    ];

    assert_eq!(expected_result, fixed_alphabets::parse_text(text, false));
}

#[test]
fn lib_cyrillic_test() {
    let text = "This is a Katyusha test. It consists of writing Катюша and seeing, whether this thing can parse it, as I don't have a cyrillic keyboard.";
    let expected_result: Vec<fixed_alphabets::LanguageChunk> = vec![
        fixed_alphabets::LanguageChunk::Latin(
            "This is a Katyusha test. It consists of writing".to_string(),
        ),
        fixed_alphabets::LanguageChunk::Cyrillic("Катюша".to_string()),
        fixed_alphabets::LanguageChunk::Latin(
            "and seeing, whether this thing can parse it, as I don't have a cyrillic keyboard.".to_string(),
        ),
    ];

    assert_eq!(expected_result, fixed_alphabets::parse_text(text, false));
}

fn three_engine_config() -> Config {
    let mut config = Config::new();
    config.load_alphabets_from_string("latin,*,/usr/lib/speech-dispatcher-modules/sd_espeak-ng,/etc/speech-dispatcher/modules/espeak-ng.conf,sk,male1,some,10,50,2,100,no\nchinese,u0x4E00-u0x9FA5,/usr/lib/speech-dispatcher-modules/sd_espeak-ng,/etc/speech-dispatcher/modules/espeak-ng.conf,cmn,male1,some,10,50,2,100,no\ncyrillic,u0x400-u0x52F,/usr/lib/speech-dispatcher-modules/sd_espeak-ng,/etc/speech-dispatcher/modules/espeak-ng.conf,ru,male1,some,10,50,2,100,no");
    config.load_configuration_from_string("punctuation_characters: ,.?，。？- :()");
    config
}

#[test]
fn text_processor_chinese_test() {
    let config = three_engine_config();

    let text = "Hello, this is an experimental test. 你好，我是人。 There is also some mixed 过 text. Hmm, I must refresh my Chinese, as I don't remember a word. :D Here is also a test question: 他又妈妈？";
    let expected_result: Vec<LanguageChunk> = vec![
        LanguageChunk(0, "Hello, this is an experimental test.".to_string()),
        LanguageChunk(1, "你好，我是人。".to_string()),
        LanguageChunk(0, "There is also some mixed".to_string()),
        LanguageChunk(1, "过".to_string()),
        LanguageChunk(0, "text. Hmm, I must refresh my Chinese, as I don't remember a word. :D Here is also a test question:".to_string()),
        LanguageChunk(1, "他又妈妈？".to_string()),
    ];

    assert_eq!(
        expected_result,
        parse_text(
            text,
            &config.generate_alphabets_scheme(),
            &config.punctuation_characters,
            false
        )
    );
}

#[test]
fn text_processor_cyrillic_test() {
    let config = three_engine_config();

    let text = "This is a Katyusha test. It consists of writing Катюша and seeing, whether this thing can parse it, as I don't have a cyrillic keyboard.";
    let expected_result: Vec<LanguageChunk> = vec![
        LanguageChunk(0, "This is a Katyusha test. It consists of writing".to_string()),
        LanguageChunk(2, "Катюша".to_string()),
        LanguageChunk(0, "and seeing, whether this thing can parse it, as I don't have a cyrillic keyboard.".to_string()),
    ];

    assert_eq!(
        expected_result,
        parse_text(
            text,
            &config.generate_alphabets_scheme(),
            &config.punctuation_characters,
            false
        )
    );
}

#[test]
fn default_punctuation_segmentation() {
    // the scheme of scenario 1 with the stock punctuation set
    let config = {
        let mut c = Config::new();
        c.load_alphabets_from_string("latin,*,/bin/a,x,en,male1,some,10,50,2,100,no\nchinese,u0x4E00-u0x9FA5,/bin/b,y,cmn,male1,some,10,50,2,100,no\ncyrillic,u0x400-u0x52F,/bin/c,z,ru,male1,some,10,50,2,100,no");
        c
    };
    let chunks = parse_text(
        "Hello, this is a test. 你好。",
        &config.generate_alphabets_scheme(),
        &config.punctuation_characters,
        false,
    );
    assert_eq!(
        chunks,
        vec![
            LanguageChunk(0, "Hello, this is a test.".to_string()),
            LanguageChunk(1, "你好。".to_string()),
        ]
    );
}

#[test]
fn empty_scheme_single_chunk() {
    // an empty scheme yields the whole text as one fallback chunk
    let scheme: Vec<u32> = Vec::new();
    let punctuation: Vec<char> = vec![' '];
    let chunks = parse_text("abc", &scheme, &punctuation, false);
    assert_eq!(chunks, vec![LanguageChunk(0, "abc".to_string())]);
}

#[test]
fn empty_text_no_chunks() {
    let scheme: Vec<u32> = vec![0x400, 0x52F, 1];
    let punctuation: Vec<char> = vec![' '];
    let chunks = parse_text("", &scheme, &punctuation, false);
    assert!(chunks.is_empty());
}

#[test]
fn ssml_tag_contents_do_not_split() {
    // tag contents are excluded from classification but stay in the text
    let scheme: Vec<u32> = vec![0x4E00, 0x9FA5, 1];
    let punctuation: Vec<char> = vec![' '];
    let chunks = parse_text("<p attr=\"你\">hi</p>", &scheme, &punctuation, true);
    assert_eq!(chunks, vec![LanguageChunk(0, "<p attr=\"你\">hi</p>".to_string())]);
}

#[test]
fn classify_boundaries_inclusive() {
    let scheme: Vec<u32> = vec![0x400, 0x52F, 2, 0x4E00, 0x9FA5, 1];
    assert_eq!(identify_character('\u{400}', &scheme), 2);
    assert_eq!(identify_character('\u{52F}', &scheme), 2);
    assert_eq!(identify_character('\u{4E00}', &scheme), 1);
    assert_eq!(identify_character('\u{9FA5}', &scheme), 1);
    assert_eq!(identify_character('\u{530}', &scheme), 0);
    assert_eq!(identify_character('A', &scheme), 0);
    assert_eq!(identify_character('\u{3FF}', &scheme), 0);
}

#[test]
fn classify_empty_scheme_is_fallback() {
    let scheme: Vec<u32> = Vec::new();
    assert_eq!(identify_character('你', &scheme), 0);
    assert_eq!(identify_character('A', &scheme), 0);
}

#[test]
fn chunk_concatenation_covers_text() {
    // ignoring trimming, the chunks cover the original text: every
    // non-space character appears in some chunk, in order
    let config = three_engine_config();
    let text = "abc 你好 где";
    let chunks = parse_text(
        text,
        &config.generate_alphabets_scheme(),
        &config.punctuation_characters,
        false,
    );
    let joined: String = chunks.iter().map(|c| c.1.as_str()).collect::<Vec<&str>>().join(" ");
    assert_eq!(joined, "abc 你好 где");
}

#[test]
fn leading_punctuation_joins_first_chunk() {
    // the first chunk's type is seeded by the first non-skipped character:
    // leading punctuation stays in the chunk of the first real character
    let config = three_engine_config();
    let chunks = parse_text(
        "，你好",
        &config.generate_alphabets_scheme(),
        &config.punctuation_characters,
        false,
    );
    assert_eq!(chunks, vec![LanguageChunk(1, "，你好".to_string())]);
}

#[test]
fn fixed_leading_punctuation_joins_first_chunk() {
    let chunks = fixed_alphabets::parse_text("，你", false);
    assert_eq!(
        chunks,
        vec![fixed_alphabets::LanguageChunk::Chinese("，你".to_string())]
    );
}

#[test]
fn all_punctuation_text_is_one_fallback_chunk() {
    // with no classified character at all, the provisional fallback stands
    let config = three_engine_config();
    let chunks = parse_text(
        "??",
        &config.generate_alphabets_scheme(),
        &config.punctuation_characters,
        false,
    );
    assert_eq!(chunks, vec![LanguageChunk(0, "??".to_string())]);
}
