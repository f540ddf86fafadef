//! The fixed three-alphabet variant of the adapter: Latin, Chinese and
//! Cyrillic, with the Unicode ranges and the punctuation set built in, and
//! one engine entry per alphabet.

use vstd::prelude::*;

use crate::config::spec_num_field;
use crate::text::{
    chars_of, chars_start_with, parse_i32_chars, spec_lines, spec_split, spec_trim,
    split_by_char, split_lines, string_from_chars, string_from_range_trimmed,
};

verus! {

/// The three supported alphabets.
#[derive(PartialEq, Eq, Structural)]
pub enum Alphabet {
    Latin,
    Chinese,
    Cyrillic,
}

impl View for Alphabet {
    type V = int;

    open spec fn view(&self) -> int {
        match self {
            Alphabet::Latin => 0,
            Alphabet::Chinese => 1,
            Alphabet::Cyrillic => 2,
        }
    }
}

/// One maximal run of one alphabet, with its trimmed text.
#[derive(Debug, PartialEq)]
pub enum LanguageChunk {
    Latin(String),
    Chinese(String),
    Cyrillic(String),
}

impl View for LanguageChunk {
    type V = (int, Seq<char>);

    open spec fn view(&self) -> (int, Seq<char>) {
        match self {
            LanguageChunk::Latin(s) => (0int, s@),
            LanguageChunk::Chinese(s) => (1int, s@),
            LanguageChunk::Cyrillic(s) => (2int, s@),
        }
    }
}

/// The views of a chunk sequence.
pub open spec fn fixed_chunks_view(v: Seq<LanguageChunk>) -> Seq<(int, Seq<char>)> {
    v.map_values(|c: LanguageChunk| c@)
}

/// The alphabet of a code point: Chinese on the CJK unified block, Cyrillic
/// on the Cyrillic blocks, Latin everywhere else.
pub open spec fn spec_alphabet_of(ch: char) -> int {
    if 0x4E00 <= ch as u32 && ch as u32 <= 0x9FA5 {
        1
    } else if 0x400 <= ch as u32 && ch as u32 <= 0x52F {
        2
    } else {
        0
    }
}

/// The built-in punctuation set, excluded from classification.
pub open spec fn spec_fixed_punct(c: char) -> bool {
    c == ',' || c == '.' || c == '?' || c == '，' || c == '。' || c == '？' || c == '-' || c == ' '
        || c == ':' || c == '\r' || c == '\n'
}

fn alphabet_code_of(ch: char) -> (r: u8)
    ensures
        r as int == spec_alphabet_of(ch),
{
    let u = ch as u32;
    if 0x4E00 <= u && u <= 0x9FA5 {
        1
    } else if 0x400 <= u && u <= 0x52F {
        2
    } else {
        0
    }
}

fn is_fixed_punct(c: char) -> (r: bool)
    ensures
        r == spec_fixed_punct(c),
{
    c == ',' || c == '.' || c == '?' || c == '，' || c == '。' || c == '？' || c == '-' || c == ' '
        || c == ':' || c == '\r' || c == '\n'
}

/// The alphabet a character is spoken by.
pub fn identify_character(character: char) -> (r: Alphabet)
    ensures
        r@ == spec_alphabet_of(character),
{
    let u = character as u32;
    if 0x4E00 <= u && u <= 0x9FA5 {
        Alphabet::Chinese
    } else if 0x400 <= u && u <= 0x52F {
        Alphabet::Cyrillic
    } else {
        Alphabet::Latin
    }
}

/// The running state of the fixed segmentation walk.
pub ghost struct FixedSegState {
    pub last_mark: int,
    pub type_set: bool,
    pub cur: int,
    pub in_tag: bool,
    pub chunks: Seq<(int, Seq<char>)>,
}

/// One step of the fixed walk, visiting `text[i]`.  A tag opener under
/// `ssml` starts skipping; the closing `>` stops skipping but is itself
/// still classified; built-in punctuation never flips the run.
pub open spec fn fixed_step(text: Seq<char>, ssml: bool, st: FixedSegState, i: int) -> FixedSegState {
    let ch = text[i];
    if ssml && ch == '<' {
        FixedSegState { in_tag: true, ..st }
    } else if ssml && ch == '>' && st.in_tag {
        fixed_classify_step(text, FixedSegState { in_tag: false, ..st }, i)
    } else if ssml && st.in_tag {
        st
    } else {
        fixed_classify_step(text, st, i)
    }
}

/// The punctuation check and classification of one visited character: the
/// first classified character seeds the open run's alphabet; a later
/// change of classification cuts a run at `i`.
pub open spec fn fixed_classify_step(text: Seq<char>, st: FixedSegState, i: int) -> FixedSegState {
    let ch = text[i];
    if spec_fixed_punct(ch) {
        st
    } else if !st.type_set {
        FixedSegState { type_set: true, cur: spec_alphabet_of(ch), ..st }
    } else {
        let t = spec_alphabet_of(ch);
        if t != st.cur {
            FixedSegState {
                last_mark: i,
                cur: t,
                chunks: st.chunks.push((st.cur, spec_trim(text.subrange(st.last_mark, i)))),
                ..st
            }
        } else {
            st
        }
    }
}

/// The fixed walk's state after visiting the first `i` characters: the
/// open run's alphabet starts provisional (Latin, 0) until the first
/// non-skipped, non-tag character seeds it.
pub open spec fn fixed_iter(text: Seq<char>, ssml: bool, i: int) -> FixedSegState
    decreases i,
{
    if i <= 0 {
        FixedSegState {
            last_mark: 0,
            type_set: false,
            cur: 0,
            in_tag: false,
            chunks: Seq::empty(),
        }
    } else {
        fixed_step(text, ssml, fixed_iter(text, ssml, i - 1), i - 1)
    }
}

/// What the fixed `parse_text` returns: no chunks on empty text, else the
/// completed chunks of the walk closed by the trailing slice.
pub open spec fn spec_fixed_parse_text(text: Seq<char>, ssml: bool) -> Seq<(int, Seq<char>)> {
    if text.len() == 0 {
        Seq::empty()
    } else {
        let st = fixed_iter(text, ssml, text.len() as int);
        st.chunks.push((st.cur, spec_trim(text.subrange(st.last_mark, text.len() as int))))
    }
}

fn make_chunk(class: u8, text: String) -> (r: LanguageChunk)
    requires
        class < 3,
    ensures
        r@ == (class as int, text@),
{
    if class == 1 {
        LanguageChunk::Chinese(text)
    } else if class == 2 {
        LanguageChunk::Cyrillic(text)
    } else {
        LanguageChunk::Latin(text)
    }
}

/// Splits an utterance into maximal runs of one alphabet each, with the
/// built-in ranges and punctuation set.
pub fn parse_text(text: &str, ssml: bool) -> (r: Vec<LanguageChunk>)
    ensures
        fixed_chunks_view(r@) == spec_fixed_parse_text(text@, ssml),
{
    let ghost t = text@;
    let chars = chars_of(text);
    if chars.len() == 0 {
        let r: Vec<LanguageChunk> = Vec::new();
        assert(fixed_chunks_view(r@) =~~= Seq::<(int, Seq<char>)>::empty());
        return r;
    }
    let mut result: Vec<LanguageChunk> = Vec::new();
    let mut last_mark: usize = 0;
    let mut chunk_type_set: bool = false;
    let mut current_chunk_type: u8 = 0;
    let mut in_tag: bool = false;
    let mut i: usize = 0;
    while i < chars.len()
        invariant
            chars@ == t,
            t.len() > 0,
            i <= t.len(),
            last_mark <= i,
            current_chunk_type < 3,
            ({
                let st = fixed_iter(t, ssml, i as int);
                &&& last_mark == st.last_mark
                &&& chunk_type_set == st.type_set
                &&& current_chunk_type as int == st.cur
                &&& in_tag == st.in_tag
                &&& fixed_chunks_view(result@) == st.chunks
            }),
        decreases t.len() - i,
    {
        let ch = chars[i];
        let mut skip = false;
        if ssml {
            if ch == '<' {
                in_tag = true;
                skip = true;
            } else if ch == '>' && in_tag {
                in_tag = false;
            } else if in_tag {
                skip = true;
            }
        }
        if !skip {
            if !is_fixed_punct(ch) {
                if !chunk_type_set {
                    current_chunk_type = alphabet_code_of(ch);
                    chunk_type_set = true;
                } else {
                    let new_chunk_type = alphabet_code_of(ch);
                    if new_chunk_type != current_chunk_type {
                        let collected = string_from_range_trimmed(&chars, last_mark, i);
                        let ghost prev = fixed_chunks_view(result@);
                        result.push(make_chunk(current_chunk_type, collected));
                        proof {
                            assert(fixed_chunks_view(result@) =~~= prev.push(
                                (
                                    current_chunk_type as int,
                                    spec_trim(t.subrange(last_mark as int, i as int)),
                                ),
                            ));
                        }
                        current_chunk_type = new_chunk_type;
                        last_mark = i;
                    }
                }
            }
        }
        i = i + 1;
    }
    let collected = string_from_range_trimmed(&chars, last_mark, chars.len());
    let ghost prev = fixed_chunks_view(result@);
    result.push(make_chunk(current_chunk_type, collected));
    proof {
        assert(fixed_chunks_view(result@) =~~= prev.push(
            (current_chunk_type as int, spec_trim(t.subrange(last_mark as int, t.len() as int))),
        ));
    }
    result
}

/// The mathematical content of one fixed engine entry.
pub ghost struct FixedEngineView {
    pub module: Seq<char>,
    pub arg: Seq<char>,
    pub language: Seq<char>,
    pub voice: Seq<char>,
    pub punctuation_mode: Seq<char>,
    pub pitch: int,
    pub capitals_pitch: int,
    pub rate: int,
    pub volume: int,
    pub firejailed: bool,
}

/// One alphabet's engine entry: how to launch it and its voice parameters.
pub struct SpeechEngineConfiguration {
    pub module: String,
    pub arg: String,
    pub language: String,
    pub voice: String,
    pub punctuation_mode: String,
    pub pitch: i32,
    pub capitals_pitch: i32,
    pub rate: i32,
    pub volume: i32,
    pub firejailed: bool,
}

impl View for SpeechEngineConfiguration {
    type V = FixedEngineView;

    open spec fn view(&self) -> FixedEngineView {
        FixedEngineView {
            module: self.module@,
            arg: self.arg@,
            language: self.language@,
            voice: self.voice@,
            punctuation_mode: self.punctuation_mode@,
            pitch: self.pitch as int,
            capitals_pitch: self.capitals_pitch as int,
            rate: self.rate as int,
            volume: self.volume as int,
            firejailed: self.firejailed,
        }
    }
}

/// The default entry for one language: an espeak-ng module and the stock
/// voice parameters.
pub open spec fn spec_fixed_default(language: Seq<char>) -> FixedEngineView {
    FixedEngineView {
        module: "/usr/lib/speech-dispatcher-modules/sd_espeak-ng"@,
        arg: "/etc/speech-dispatcher/modules/espeak-ng.conf"@,
        language: language,
        voice: "male1"@,
        punctuation_mode: "some"@,
        pitch: 10,
        capitals_pitch: 50,
        rate: 2,
        volume: 100,
        firejailed: false,
    }
}

/// The entry a configuration line turns an old entry into: eleven
/// comma-separated fields replace the launch and voice settings, each
/// numeric field keeping its previous value when it does not parse or
/// lies outside [-100, 100]; any other field count leaves the entry alone.
pub open spec fn spec_fixed_load(old: FixedEngineView, line: Seq<char>) -> FixedEngineView {
    let fs = spec_split(line, ',');
    if fs.len() != 11 {
        old
    } else {
        FixedEngineView {
            module: fs[1],
            arg: fs[2],
            language: fs[3],
            voice: fs[4],
            punctuation_mode: fs[5],
            pitch: spec_num_field(fs[6], old.pitch),
            capitals_pitch: spec_num_field(fs[7], old.capitals_pitch),
            rate: spec_num_field(fs[8], old.rate),
            volume: spec_num_field(fs[9], old.volume),
            firejailed: fs[10] == "yes"@ || fs[10] == "true"@,
        }
    }
}

impl SpeechEngineConfiguration {
    /// A default entry speaking the given language.
    pub fn new(language: &str) -> (r: SpeechEngineConfiguration)
        ensures
            r@ == spec_fixed_default(language@),
    {
        SpeechEngineConfiguration {
            module: "/usr/lib/speech-dispatcher-modules/sd_espeak-ng".to_owned(),
            arg: "/etc/speech-dispatcher/modules/espeak-ng.conf".to_owned(),
            language: language.to_owned(),
            voice: "male1".to_owned(),
            punctuation_mode: "some".to_owned(),
            pitch: 10,
            capitals_pitch: 50,
            rate: 2,
            volume: 100,
            firejailed: false,
        }
    }

    /// Replaces the entry's settings from one configuration line.
    pub fn load_from_string(&mut self, line: &str)
        ensures
            final(self)@ == spec_fixed_load(old(self)@, line@),
    {
        let chars = chars_of(line);
        let fields = split_by_char(&chars, ',');
        proof {
            assert(forall|i: int|
                0 <= i < fields@.len() ==> fields.deep_view()[i] =~= #[trigger] fields@[i]@);
        }
        if fields.len() != 11 {
            return ;
        }
        self.module = string_from_chars(&fields[1]);
        self.arg = string_from_chars(&fields[2]);
        self.language = string_from_chars(&fields[3]);
        self.voice = string_from_chars(&fields[4]);
        self.punctuation_mode = string_from_chars(&fields[5]);
        self.pitch = num_or(&fields[6], self.pitch);
        self.capitals_pitch = num_or(&fields[7], self.capitals_pitch);
        self.rate = num_or(&fields[8], self.rate);
        self.volume = num_or(&fields[9], self.volume);
        self.firejailed = crate::text::chars_eq(&fields[10], &chars_of("yes"))
            || crate::text::chars_eq(&fields[10], &chars_of("true"));
    }
}

fn num_or(f: &Vec<char>, dflt: i32) -> (r: i32)
    ensures
        r as int == spec_num_field(f@, dflt as int),
{
    match parse_i32_chars(f) {
        Some(n) => {
            if -100 <= n && n <= 100 {
                n
            } else {
                dflt
            }
        },
        None => dflt,
    }
}

/// The three engine entries, one per alphabet.
pub struct Config {
    pub latin: SpeechEngineConfiguration,
    pub chinese: SpeechEngineConfiguration,
    pub cyrillic: SpeechEngineConfiguration,
}

/// The configuration triple after one configuration line: the line's
/// leading word names the entry it replaces.
pub open spec fn spec_fixed_config_update(
    latin: FixedEngineView,
    chinese: FixedEngineView,
    cyrillic: FixedEngineView,
    line: Seq<char>,
) -> (FixedEngineView, FixedEngineView, FixedEngineView) {
    if line.len() >= "latin"@.len() && line.subrange(0, "latin"@.len() as int) == "latin"@ {
        (spec_fixed_load(latin, line), chinese, cyrillic)
    } else if line.len() >= "chinese"@.len() && line.subrange(0, "chinese"@.len() as int)
        == "chinese"@ {
        (latin, spec_fixed_load(chinese, line), cyrillic)
    } else if line.len() >= "cyrillic"@.len() && line.subrange(0, "cyrillic"@.len() as int)
        == "cyrillic"@ {
        (latin, chinese, spec_fixed_load(cyrillic, line))
    } else {
        (latin, chinese, cyrillic)
    }
}

/// The configuration triple after a whole configuration file.
pub open spec fn spec_fixed_config_after(
    latin: FixedEngineView,
    chinese: FixedEngineView,
    cyrillic: FixedEngineView,
    lines: Seq<Seq<char>>,
) -> (FixedEngineView, FixedEngineView, FixedEngineView)
    decreases lines.len(),
{
    if lines.len() == 0 {
        (latin, chinese, cyrillic)
    } else {
        let prev = spec_fixed_config_after(latin, chinese, cyrillic, lines.drop_last());
        spec_fixed_config_update(prev.0, prev.1, prev.2, lines.last())
    }
}

impl Config {
    /// The default triple: English, Mandarin and Russian espeak-ng entries.
    pub fn new() -> (r: Config)
        ensures
            r.latin@ == spec_fixed_default("en"@),
            r.chinese@ == spec_fixed_default("cmn"@),
            r.cyrillic@ == spec_fixed_default("ru"@),
    {
        Config {
            latin: SpeechEngineConfiguration::new("en"),
            chinese: SpeechEngineConfiguration::new("cmn"),
            cyrillic: SpeechEngineConfiguration::new("ru"),
        }
    }

    /// Replaces entries from the configuration text: each line updates the
    /// entry its leading word names.
    pub fn load_from_string(&mut self, s: &str)
        ensures
            ({
                let after = spec_fixed_config_after(
                    old(self).latin@,
                    old(self).chinese@,
                    old(self).cyrillic@,
                    spec_lines(s@),
                );
                &&& final(self).latin@ == after.0
                &&& final(self).chinese@ == after.1
                &&& final(self).cyrillic@ == after.2
            }),
    {
        let chars = chars_of(s);
        let lines = split_lines(&chars);
        let ghost lv = lines.deep_view();
        let ghost l0 = self.latin@;
        let ghost c0 = self.chinese@;
        let ghost y0 = self.cyrillic@;
        proof {
            assert(forall|i: int|
                0 <= i < lines@.len() ==> lines.deep_view()[i] =~= #[trigger] lines@[i]@);
        }
        let mut li: usize = 0;
        while li < lines.len()
            invariant
                li <= lines@.len(),
                lv == lines.deep_view(),
                lv.len() == lines@.len(),
                forall|i: int| 0 <= i < lines@.len() ==> lv[i] == #[trigger] lines@[i]@,
                ({
                    let after = spec_fixed_config_after(l0, c0, y0, lv.take(li as int));
                    self.latin@ == after.0 && self.chinese@ == after.1 && self.cyrillic@
                        == after.2
                }),
            decreases lines@.len() - li,
        {
            proof {
                assert(lv.take(li + 1).drop_last() =~= lv.take(li as int));
                assert(lv.take(li + 1).last() == lv[li as int]);
            }
            let line = &lines[li];
            let lstr = string_from_chars(line);
            if chars_start_with(line, &chars_of("latin")) {
                self.latin.load_from_string(lstr.as_str());
            } else if chars_start_with(line, &chars_of("chinese")) {
                self.chinese.load_from_string(lstr.as_str());
            } else if chars_start_with(line, &chars_of("cyrillic")) {
                self.cyrillic.load_from_string(lstr.as_str());
            }
            li = li + 1;
        }
        proof {
            assert(lv.take(lines@.len() as int) =~= lv);
        }
    }
}

} // verus!
