//! Configuration parsing tests: engine lines, range specifications,
//! normalization, the settings file, and the derived scheme.

use chinfusor::config::{Config, SpeechEngineConfiguration};

#[test]
fn engine_line_parses_every_field() {
    let e = SpeechEngineConfiguration::load_from_string(
        "greek,u0x370-u0x3FF,/bin/mod,argv,el,female2,all,-5,70,3,90,yes",
    )
    .unwrap();
    assert_eq!(e.name, "greek");
    assert_eq!(e.unicode_ranges, vec![0x370, 0x3FF]);
    assert_eq!(e.module, "/bin/mod");
    assert_eq!(e.arg, "argv");
    assert_eq!(e.language, "el");
    assert_eq!(e.voice, "female2");
    assert_eq!(e.punctuation_mode, "all");
    assert_eq!(e.pitch, -5);
    assert_eq!(e.capitals_pitch, 70);
    assert_eq!(e.rate, 3);
    assert_eq!(e.volume, 90);
    assert!(e.firejailed);
}

#[test]
fn engine_line_wrong_field_count() {
    let r = SpeechEngineConfiguration::load_from_string("a,b,c");
    assert_eq!(r.err(), Some("Invalid number of specified options."));
}

#[test]
fn engine_line_range_overflow() {
    let r = SpeechEngineConfiguration::load_from_string(
        "x,u0x100000000-u1,/bin/mod,a,en,male1,some,10,50,2,100,no",
    );
    assert_eq!(r.err(), Some("Invalid unicode ranges"));
}

#[test]
fn engine_line_no_ranges() {
    let r = SpeechEngineConfiguration::load_from_string(
        "x,whatever,/bin/mod,a,en,male1,some,10,50,2,100,no",
    );
    assert_eq!(r.err(), Some("No unicode ranges specified"));
}

#[test]
fn engine_line_swapped_range_bounds() {
    // a range written high-low is stored low-high
    let e = SpeechEngineConfiguration::load_from_string(
        "x,u0x52F-u0x400,/bin/mod,a,ru,male1,some,10,50,2,100,no",
    )
    .unwrap();
    assert_eq!(e.unicode_ranges, vec![0x400, 0x52F]);
}

#[test]
fn engine_line_decimal_and_multiple_ranges() {
    let e = SpeechEngineConfiguration::load_from_string(
        "x,u1024-u1327 u0x2DE0-u0x2DFF,/bin/mod,a,ru,male1,some,10,50,2,100,no",
    )
    .unwrap();
    assert_eq!(e.unicode_ranges, vec![1024, 1327, 0x2DE0, 0x2DFF]);
}

#[test]
fn engine_line_numeric_fields_fall_back() {
    // out-of-range and unparsable numbers keep the defaults
    let e = SpeechEngineConfiguration::load_from_string(
        "x,*,/bin/mod,a,en,male1,weird,200,abc,-101,12,maybe",
    )
    .unwrap();
    assert_eq!(e.punctuation_mode, "some");
    assert_eq!(e.pitch, 10);
    assert_eq!(e.capitals_pitch, 50);
    assert_eq!(e.rate, 2);
    assert_eq!(e.volume, 12);
    assert!(!e.firejailed);
}

#[test]
fn alphabets_table_keeps_fallback_first() {
    let mut c = Config::new();
    c.load_alphabets_from_string(
        "chinese,u0x4E00-u0x9FA5,/bin/b,y,cmn,male1,some,10,50,2,100,no\nlatin,*,/bin/a,x,en,male1,some,10,50,2,100,no",
    );
    assert_eq!(c.engines.len(), 2);
    assert_eq!(c.engines[0].name, "latin");
    assert!(c.engines[0].unicode_ranges.is_empty());
    assert_eq!(c.engines[1].name, "chinese");
}

#[test]
fn alphabets_table_synthesizes_missing_fallback() {
    let mut c = Config::new();
    c.load_alphabets_from_string("chinese,u0x4E00-u0x9FA5,/bin/b,y,cmn,male1,some,10,50,2,100,no");
    assert_eq!(c.engines.len(), 2);
    assert_eq!(c.engines[0].name, "latin");
    assert!(c.engines[0].unicode_ranges.is_empty());
}

#[test]
fn alphabets_table_discards_duplicate_fallbacks() {
    let mut c = Config::new();
    c.load_alphabets_from_string(
        "one,*,/bin/a,x,en,male1,some,10,50,2,100,no\ntwo,*,/bin/b,y,de,male1,some,10,50,2,100,no",
    );
    assert_eq!(c.engines.len(), 1);
    assert_eq!(c.engines[0].name, "one");
}

#[test]
fn alphabets_table_skips_comments_and_bad_lines() {
    let mut c = Config::new();
    c.load_alphabets_from_string(
        "# a comment line\nnot a valid line\nlatin,*,/bin/a,x,en,male1,some,10,50,2,100,no",
    );
    assert_eq!(c.engines.len(), 1);
    assert_eq!(c.engines[0].name, "latin");
}

#[test]
fn settings_file_replaces_punctuation() {
    let mut c = Config::new();
    c.load_configuration_from_string("punctuation_characters: ;!");
    assert!(c.punctuation_characters.contains(&';'));
    assert!(c.punctuation_characters.contains(&'!'));
    assert!(c.punctuation_characters.contains(&'\n'));
    assert!(c.punctuation_characters.contains(&'\r'));
    assert!(!c.punctuation_characters.contains(&','));
}

#[test]
fn settings_file_ignores_unknown_keys() {
    let mut c = Config::new();
    c.load_configuration_from_string("some_other_key: value\nno colon here");
    assert!(c.punctuation_characters.contains(&','));
}

#[test]
fn scheme_is_sorted_by_range_start() {
    let mut c = Config::new();
    c.load_alphabets_from_string(
        "latin,*,/bin/a,x,en,male1,some,10,50,2,100,no\nchinese,u0x4E00-u0x9FA5,/bin/b,y,cmn,male1,some,10,50,2,100,no\ncyrillic,u0x400-u0x52F,/bin/c,z,ru,male1,some,10,50,2,100,no",
    );
    let scheme = c.generate_alphabets_scheme();
    assert_eq!(scheme, vec![0x400, 0x52F, 2, 0x4E00, 0x9FA5, 1]);
}

#[test]
fn scheme_of_fallback_only_is_empty() {
    let c = Config::new();
    let scheme = c.generate_alphabets_scheme();
    assert!(scheme.is_empty());
}

#[test]
fn reload_with_identical_content_is_idempotent() {
    let table = "latin,*,/bin/a,x,en,male1,some,10,50,2,100,no\ncyrillic,u0x400-u0x52F,/bin/c,z,ru,male1,some,10,50,2,100,no";
    let mut c1 = Config::new();
    c1.load_alphabets_from_string(table);
    let scheme1 = c1.generate_alphabets_scheme();
    c1.load_alphabets_from_string(table);
    let scheme2 = c1.generate_alphabets_scheme();
    assert_eq!(scheme1, scheme2);
    assert_eq!(c1.engines.len(), 2);
    assert_eq!(c1.engines[1].name, "cyrillic");
    assert_eq!(c1.engines[1].language, "ru");
}

#[test]
fn fixed_config_loads_by_prefix() {
    let mut c = chinfusor::fixed_alphabets::Config::new();
    assert_eq!(c.latin.language, "en");
    assert_eq!(c.chinese.language, "cmn");
    assert_eq!(c.cyrillic.language, "ru");
    c.load_from_string("chinese,/bin/mod,arg,zh,male2,all,20,60,1,80,yes");
    assert_eq!(c.chinese.module, "/bin/mod");
    assert_eq!(c.chinese.language, "zh");
    assert_eq!(c.chinese.pitch, 20);
    assert!(c.chinese.firejailed);
    assert_eq!(c.latin.language, "en");
}

#[test]
fn fixed_engine_keeps_values_on_bad_numbers() {
    let mut e = chinfusor::fixed_alphabets::SpeechEngineConfiguration::new("en");
    e.load_from_string("latin,/bin/mod,arg,en,male1,some,999,xy,4,100,no");
    assert_eq!(e.pitch, 10);
    assert_eq!(e.capitals_pitch, 50);
    assert_eq!(e.rate, 4);
}
