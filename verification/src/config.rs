//! Configuration of the engine pool: one entry per backend engine, parsed
//! from the alphabets table (one comma-separated line per engine) and the
//! settings file (`key: value` lines), and the derived alphabets scheme.

use vstd::prelude::*;

use crate::text::{
    chars_eq, chars_of, is_dec_digit, is_hex_digit, parse_i32_chars, parse_u32_dec_range,
    parse_u32_hex_range, spec_dec_val, spec_hex_val, spec_is_dec_digit, spec_is_hex_digit,
    spec_lines, spec_parse_i32, spec_split, split_by_char, split_lines, string_from_chars,
};

verus! {

/// The mathematical content of one engine's configuration.
pub ghost struct EngineView {
    pub name: Seq<char>,
    pub unicode_ranges: Seq<u32>,
    pub module: Seq<char>,
    pub arg: Seq<char>,
    pub language: Seq<char>,
    pub voice: Seq<char>,
    pub punctuation_mode: Seq<char>,
    pub pitch: int,
    pub capitals_pitch: int,
    pub rate: int,
    pub volume: int,
    pub firejailed: bool,
}

/// One backend engine's configuration: its name, the Unicode ranges it
/// speaks (empty for the fallback engine), how to launch it, and its voice
/// parameters.
pub struct SpeechEngineConfiguration {
    pub name: String,
    pub unicode_ranges: Vec<u32>,
    pub module: String,
    pub arg: String,
    pub language: String,
    pub voice: String,
    pub punctuation_mode: String,
    pub pitch: i32,
    pub capitals_pitch: i32,
    pub rate: i32,
    pub volume: i32,
    pub firejailed: bool,
}

impl View for SpeechEngineConfiguration {
    type V = EngineView;

    open spec fn view(&self) -> EngineView {
        EngineView {
            name: self.name@,
            unicode_ranges: self.unicode_ranges@,
            module: self.module@,
            arg: self.arg@,
            language: self.language@,
            voice: self.voice@,
            punctuation_mode: self.punctuation_mode@,
            pitch: self.pitch as int,
            capitals_pitch: self.capitals_pitch as int,
            rate: self.rate as int,
            volume: self.volume as int,
            firejailed: self.firejailed,
        }
    }
}

/// The default engine entry: an espeak-ng module, no ranges, and the stock
/// voice parameters.
pub open spec fn spec_default_engine(name: Seq<char>) -> EngineView {
    EngineView {
        name: name,
        unicode_ranges: Seq::empty(),
        module: "/usr/lib/speech-dispatcher-modules/sd_espeak-ng"@,
        arg: "/etc/speech-dispatcher/modules/espeak-ng.conf"@,
        language: "en"@,
        voice: "male1"@,
        punctuation_mode: "some"@,
        pitch: 10,
        capitals_pitch: 50,
        rate: 2,
        volume: 100,
        firejailed: false,
    }
}

impl SpeechEngineConfiguration {
    /// A configuration with every field at its default.
    pub fn new(name: &str) -> (r: SpeechEngineConfiguration)
        ensures
            r@ == spec_default_engine(name@),
    {
        SpeechEngineConfiguration {
            name: name.to_owned(),
            unicode_ranges: Vec::new(),
            module: "/usr/lib/speech-dispatcher-modules/sd_espeak-ng".to_owned(),
            arg: "/etc/speech-dispatcher/modules/espeak-ng.conf".to_owned(),
            language: "en".to_owned(),
            voice: "male1".to_owned(),
            punctuation_mode: "some".to_owned(),
            pitch: 10,
            capitals_pitch: 50,
            rate: 2,
            volume: 100,
            firejailed: false,
        }
    }
}

/// The end of the maximal run of decimal digits of `f` beginning at `j`.
pub open spec fn spec_dec_end(f: Seq<char>, j: int) -> int
    decreases f.len() - j,
{
    if 0 <= j < f.len() && spec_is_dec_digit(f[j]) {
        spec_dec_end(f, j + 1)
    } else {
        j
    }
}

/// The end of the maximal run of hexadecimal digits of `f` beginning at `j`.
pub open spec fn spec_hex_end(f: Seq<char>, j: int) -> int
    decreases f.len() - j,
{
    if 0 <= j < f.len() && spec_is_hex_digit(f[j]) {
        spec_hex_end(f, j + 1)
    } else {
        j
    }
}

/// A number of a range bound beginning at `j`: either `0x` followed by at
/// least one hexadecimal digit, or at least one decimal digit, the digit
/// run maximal either way.  Yields the end of the number and its unbounded
/// value.
pub open spec fn spec_num_at(f: Seq<char>, j: int) -> Option<(int, int)> {
    if 0 <= j && j + 2 <= f.len() && f[j] == '0' && f[j + 1] == 'x' && spec_hex_end(f, j + 2) > j
        + 2 {
        let end = spec_hex_end(f, j + 2);
        Some((end, spec_hex_val(f.subrange(j + 2, end))))
    } else if 0 <= j && spec_dec_end(f, j) > j {
        let end = spec_dec_end(f, j);
        Some((end, spec_dec_val(f.subrange(j, end))))
    } else {
        None
    }
}

/// A whole range specification beginning at `i`: `u`, a number, `-`, `u`,
/// a number.  Yields the end of the match and the two unbounded values.
pub open spec fn spec_match_at(f: Seq<char>, i: int) -> Option<(int, int, int)> {
    if !(0 <= i < f.len() && f[i] == 'u') {
        None
    } else {
        match spec_num_at(f, i + 1) {
            Option::None => None,
            Option::Some((j, v0)) => {
                if j + 2 <= f.len() && f[j] == '-' && f[j + 1] == 'u' {
                    match spec_num_at(f, j + 2) {
                        Option::None => None,
                        Option::Some((k, v1)) => Some((k, v0, v1)),
                    }
                } else {
                    None
                }
            },
        }
    }
}

/// The scan of a ranges field from position `i` on: each range
/// specification found left to right contributes its bounds, the smaller
/// first; a bound that does not fit in `u32` spoils the whole field.
pub open spec fn spec_scan_ranges(f: Seq<char>, i: int) -> Option<Seq<u32>>
    decreases f.len() - i,
{
    if i < 0 || i >= f.len() {
        Some(Seq::empty())
    } else {
        match spec_match_at(f, i) {
            Option::None => spec_scan_ranges(f, i + 1),
            Option::Some((end, v0, v1)) => {
                if v0 > u32::MAX || v1 > u32::MAX {
                    None
                } else {
                    let lo: u32 = if v0 <= v1 {
                        v0 as u32
                    } else {
                        v1 as u32
                    };
                    let hi: u32 = if v0 <= v1 {
                        v1 as u32
                    } else {
                        v0 as u32
                    };
                    let next = if i < end <= f.len() {
                        end
                    } else {
                        i + 1
                    };
                    match spec_scan_ranges(f, next) {
                        Option::None => None,
                        Option::Some(rest) => Some(seq![lo, hi] + rest),
                    }
                }
            },
        }
    }
}

fn dec_end(f: &Vec<char>, j: usize) -> (r: usize)
    requires
        j <= f@.len(),
    ensures
        r == spec_dec_end(f@, j as int),
        j <= r <= f@.len(),
{
    let mut k = j;
    while k < f.len() && is_dec_digit(f[k])
        invariant
            j <= k <= f@.len(),
            spec_dec_end(f@, j as int) == spec_dec_end(f@, k as int),
        decreases f@.len() - k,
    {
        k = k + 1;
    }
    k
}

fn hex_end(f: &Vec<char>, j: usize) -> (r: usize)
    requires
        j <= f@.len(),
    ensures
        r == spec_hex_end(f@, j as int),
        j <= r <= f@.len(),
{
    let mut k = j;
    while k < f.len() && is_hex_digit(f[k])
        invariant
            j <= k <= f@.len(),
            spec_hex_end(f@, j as int) == spec_hex_end(f@, k as int),
        decreases f@.len() - k,
    {
        k = k + 1;
    }
    k
}

/// The end and value of the number at `j`, or the end alone when the value
/// does not fit in `u32`, or nothing when no number begins at `j`.
fn num_at(f: &Vec<char>, j: usize) -> (r: Option<(usize, Option<u32>)>)
    requires
        j <= f@.len(),
    ensures
        match spec_num_at(f@, j as int) {
            Option::None => r is None,
            Option::Some((end, v)) => r matches Some((e, ov)) && e == end && j < e <= f@.len()
                && v >= 0 && (if v <= u32::MAX {
                ov == Some(v as u32)
            } else {
                ov is None
            }),
        },
{
    if j < f.len() && j + 1 < f.len() && f[j] == '0' && f[j + 1] == 'x' {
        let e = hex_end(f, j + 2);
        if e > j + 2 {
            proof {
                lemma_digit_run(f@, j + 2, e as int, true);
                let piece = f@.subrange(j + 2, e as int);
                assert(forall|k: int| 0 <= k < piece.len() ==> spec_is_hex_digit(piece[k]));
                crate::text::lemma_base_val_nonneg_grows(piece, 16);
            }
            let v = parse_u32_hex_range(f, j + 2, e);
            return Some((e, v));
        }
    }
    let e = dec_end(f, j);
    if e > j {
        proof {
            lemma_digit_run(f@, j as int, e as int, false);
            let piece = f@.subrange(j as int, e as int);
            assert(forall|k: int| 0 <= k < piece.len() ==> spec_is_dec_digit(piece[k]));
            crate::text::lemma_base_val_nonneg_grows(piece, 10);
        }
        let v = parse_u32_dec_range(f, j, e);
        Some((e, v))
    } else {
        None
    }
}

/// Every character of a maximal digit run is a digit of its base.
proof fn lemma_digit_run(f: Seq<char>, j: int, e: int, hex: bool)
    requires
        0 <= j <= e <= f.len(),
        hex ==> e == spec_hex_end(f, j),
        !hex ==> e == spec_dec_end(f, j),
    ensures
        hex ==> forall|k: int| j <= k < e ==> spec_is_hex_digit(f[k]),
        !hex ==> forall|k: int| j <= k < e ==> spec_is_dec_digit(f[k]),
    decreases e - j,
{
    if j < e {
        if hex {
            assert(spec_is_hex_digit(f[j]));
            if !(0 <= j < f.len() && spec_is_hex_digit(f[j])) {
                assert(spec_hex_end(f, j) == j);
            }
            lemma_digit_run(f, j + 1, e, hex);
        } else {
            assert(spec_is_dec_digit(f[j]));
            if !(0 <= j < f.len() && spec_is_dec_digit(f[j])) {
                assert(spec_dec_end(f, j) == j);
            }
            lemma_digit_run(f, j + 1, e, hex);
        }
    }
}

/// The scan of a whole ranges field: the flattened sorted bound pairs of
/// every range specification in it, or `None` when a bound overflows.
pub fn scan_ranges(f: &Vec<char>) -> (r: Option<Vec<u32>>)
    ensures
        match spec_scan_ranges(f@, 0) {
            Option::None => r is None,
            Option::Some(ps) => r matches Some(v) && v@ == ps,
        },
{
    let mut acc: Vec<u32> = Vec::new();
    let mut i: usize = 0;
    while i < f.len()
        invariant
            i <= f@.len(),
            match spec_scan_ranges(f@, i as int) {
                Option::None => spec_scan_ranges(f@, 0) is None,
                Option::Some(rest) => spec_scan_ranges(f@, 0) matches Some(all) && all == acc@
                    + rest,
            },
        decreases f@.len() - i,
    {
        if f[i] == 'u' {
            match num_at(f, i + 1) {
                Some((j, ov0)) => {
                    if j < f.len() && j + 1 < f.len() && f[j] == '-' && f[j + 1] == 'u' {
                        match num_at(f, j + 2) {
                            Some((k, ov1)) => {
                                // a whole range specification stands at `i`
                                let ghost n0 = spec_num_at(f@, i + 1);
                                let ghost n1 = spec_num_at(f@, j + 2);
                                let ghost v0s = (n0->0).1;
                                let ghost v1s = (n1->0).1;
                                proof {
                                    assert(n0 is Some && (n0->0).0 == j as int);
                                    assert(n1 is Some && (n1->0).0 == k as int);
                                    assert(spec_match_at(f@, i as int) == Some(
                                        (k as int, v0s, v1s),
                                    ));
                                }
                                match (ov0, ov1) {
                                    (Some(v0), Some(v1)) => {
                                        proof {
                                            assert(v0s <= u32::MAX && v0 == v0s as u32);
                                            assert(v1s <= u32::MAX && v1 == v1s as u32);
                                        }
                                        let lo = if v0 <= v1 {
                                            v0
                                        } else {
                                            v1
                                        };
                                        let hi = if v0 <= v1 {
                                            v1
                                        } else {
                                            v0
                                        };
                                        let ghost prev = acc@;
                                        acc.push(lo);
                                        acc.push(hi);
                                        proof {
                                            let restk = spec_scan_ranges(f@, k as int);
                                            assert(acc@ =~= prev + seq![lo, hi]);
                                            if restk is Some {
                                                assert(prev + (seq![lo, hi] + restk->0) =~= (prev
                                                    + seq![lo, hi]) + restk->0);
                                            }
                                        }
                                        i = k;
                                    },
                                    _ => {
                                        proof {
                                            assert(v0s > u32::MAX || v1s > u32::MAX);
                                            assert(spec_scan_ranges(f@, i as int) is None);
                                        }
                                        return None;
                                    },
                                }
                            },
                            None => {
                                i = i + 1;
                            },
                        }
                    } else {
                        i = i + 1;
                    }
                },
                None => {
                    i = i + 1;
                },
            }
        } else {
            i = i + 1;
        }
    }
    proof {
        assert(spec_scan_ranges(f@, i as int) == Some(Seq::<u32>::empty()));
        assert(acc@ + Seq::<u32>::empty() =~= acc@);
    }
    Some(acc)
}

/// Whether a ranges field names no range at all: empty or a single `*`.
pub open spec fn spec_wildcard(f: Seq<char>) -> bool {
    f.len() == 0 || f == seq!['*']
}

/// The comma-separated fields of one alphabets-table line.
pub open spec fn spec_engine_fields(line: Seq<char>) -> Seq<Seq<char>> {
    spec_split(line, ',')
}

/// Whether an alphabets-table line parses: exactly twelve fields, and a
/// ranges field that is either a wildcard or yields at least one range
/// without overflow.
pub open spec fn spec_engine_ok(line: Seq<char>) -> bool {
    let fs = spec_engine_fields(line);
    &&& fs.len() == 12
    &&& (spec_wildcard(fs[1]) || (spec_scan_ranges(fs[1], 0) matches Some(ps) && ps.len() > 0))
}

/// The message a rejected alphabets-table line carries.
pub open spec fn spec_engine_err(line: Seq<char>) -> Seq<char> {
    let fs = spec_engine_fields(line);
    if fs.len() != 12 {
        "Invalid number of specified options."@
    } else if spec_scan_ranges(fs[1], 0) is None {
        "Invalid unicode ranges"@
    } else {
        "No unicode ranges specified"@
    }
}

/// A numeric voice field: its value when it parses and lies in [-100, 100],
/// the default otherwise.
pub open spec fn spec_num_field(f: Seq<char>, dflt: int) -> int {
    match spec_parse_i32(f) {
        Option::Some(n) => if -100 <= n <= 100 {
            n as int
        } else {
            dflt
        },
        Option::None => dflt,
    }
}

/// The engine configuration an accepted alphabets-table line denotes.
pub open spec fn spec_engine_of(line: Seq<char>) -> EngineView {
    let fs = spec_engine_fields(line);
    EngineView {
        name: fs[0],
        unicode_ranges: if spec_wildcard(fs[1]) {
            Seq::empty()
        } else {
            spec_scan_ranges(fs[1], 0)->0
        },
        module: fs[2],
        arg: fs[3],
        language: fs[4],
        voice: fs[5],
        punctuation_mode: if fs[6] == "none"@ || fs[6] == "some"@ || fs[6] == "all"@ {
            fs[6]
        } else {
            "some"@
        },
        pitch: spec_num_field(fs[7], 10),
        capitals_pitch: spec_num_field(fs[8], 50),
        rate: spec_num_field(fs[9], 2),
        volume: spec_num_field(fs[10], 100),
        firejailed: fs[11] == "yes"@ || fs[11] == "true"@,
    }
}

fn num_field(f: &Vec<char>, dflt: i32) -> (r: i32)
    ensures
        r as int == spec_num_field(f@, dflt as int),
{
    match parse_i32_chars(f) {
        Some(n) => {
            if -100 <= n && n <= 100 {
                n
            } else {
                dflt
            }
        },
        None => dflt,
    }
}

impl SpeechEngineConfiguration {
    /// Parses one line of the alphabets table: name, Unicode ranges (or a
    /// wildcard for the fallback engine), module path and argument, and the
    /// voice parameters, each numeric field falling back to its default when
    /// it does not parse or lies outside [-100, 100].
    pub fn load_from_string(line: &str) -> (r: Result<SpeechEngineConfiguration, &str>)
        ensures
            match r {
                Result::Ok(cfg) => spec_engine_ok(line@) && cfg@ == spec_engine_of(line@),
                Result::Err(e) => !spec_engine_ok(line@) && e@ == spec_engine_err(line@),
            },
    {
        let chars = chars_of(line);
        let fields = split_by_char(&chars, ',');
        let ghost fs = spec_engine_fields(line@);
        proof {
            assert(forall|i: int|
                0 <= i < fields@.len() ==> fields.deep_view()[i] =~= #[trigger] fields@[i]@);
        }
        if fields.len() != 12 {
            return Err("Invalid number of specified options.");
        }
        let wildcard = fields[1].len() == 0 || (fields[1].len() == 1 && fields[1][0] == '*');
        proof {
            if fields[1]@.len() == 1 && fields[1]@[0] == '*' {
                assert(fields[1]@ =~= seq!['*']);
            }
            assert(wildcard == spec_wildcard(fs[1]));
        }
        let unicode_ranges: Vec<u32>;
        if wildcard {
            unicode_ranges = Vec::new();
        } else {
            match scan_ranges(&fields[1]) {
                None => {
                    return Err("Invalid unicode ranges");
                },
                Some(ps) => {
                    if ps.len() == 0 {
                        return Err("No unicode ranges specified");
                    }
                    unicode_ranges = ps;
                },
            }
        }
        let name = string_from_chars(&fields[0]);
        let module = string_from_chars(&fields[2]);
        let arg = string_from_chars(&fields[3]);
        let language = string_from_chars(&fields[4]);
        let voice = string_from_chars(&fields[5]);
        let punctuation_mode = if chars_eq(&fields[6], &chars_of("none")) || chars_eq(
            &fields[6],
            &chars_of("some"),
        ) || chars_eq(&fields[6], &chars_of("all")) {
            string_from_chars(&fields[6])
        } else {
            "some".to_owned()
        };
        let pitch = num_field(&fields[7], 10);
        let capitals_pitch = num_field(&fields[8], 50);
        let rate = num_field(&fields[9], 2);
        let volume = num_field(&fields[10], 100);
        let firejailed = chars_eq(&fields[11], &chars_of("yes")) || chars_eq(
            &fields[11],
            &chars_of("true"),
        );
        Ok(
            SpeechEngineConfiguration {
                name,
                unicode_ranges,
                module,
                arg,
                language,
                voice,
                punctuation_mode,
                pitch,
                capitals_pitch,
                rate,
                volume,
                firejailed,
            },
        )
    }
}

/// The views of a vector of engine configurations.
pub open spec fn engines_view(v: Seq<SpeechEngineConfiguration>) -> Seq<EngineView> {
    v.map_values(|e: SpeechEngineConfiguration| e@)
}

/// The engine entries an alphabets table yields before normalization:
/// comment lines (`#`) and lines that do not parse are dropped.
pub open spec fn spec_parsed_engines(lines: Seq<Seq<char>>) -> Seq<EngineView>
    decreases lines.len(),
{
    if lines.len() == 0 {
        Seq::empty()
    } else {
        let rest = spec_parsed_engines(lines.drop_last());
        let l = lines.last();
        if l.len() > 0 && l[0] == '#' {
            rest
        } else if spec_engine_ok(l) {
            rest.push(spec_engine_of(l))
        } else {
            rest
        }
    }
}

/// The first entry with an empty range list at or after `i`, or the length
/// when there is none.
pub open spec fn spec_first_fallback_from(es: Seq<EngineView>, i: int) -> int
    decreases es.len() - i,
{
    if i < 0 || i >= es.len() {
        es.len() as int
    } else if es[i].unicode_ranges.len() == 0 {
        i
    } else {
        spec_first_fallback_from(es, i + 1)
    }
}

/// Normalization of the parsed entries: exactly one fallback entry (empty
/// range list) stands at index 0 afterwards — the first one found is kept
/// there, any further fallback entries are discarded, and a missing one is
/// synthesized with defaults.
pub open spec fn spec_normalize(es: Seq<EngineView>) -> Seq<EngineView> {
    let i = spec_first_fallback_from(es, 0);
    if i < es.len() {
        seq![es[i]] + es.filter(|e: EngineView| e.unicode_ranges.len() > 0)
    } else {
        seq![spec_default_engine("latin"@)] + es
    }
}

/// The engine list a whole alphabets table denotes.
pub open spec fn spec_engines_of_table(s: Seq<char>) -> Seq<EngineView> {
    spec_normalize(spec_parsed_engines(spec_lines(s)))
}

/// The pieces of a settings line split at the first colon, an optional
/// single space after the colon consumed; one piece when there is no colon.
pub open spec fn spec_split_colon_from(s: Seq<char>, i: int) -> Seq<Seq<char>>
    decreases s.len() - i,
{
    if i < 0 || i >= s.len() {
        seq![s]
    } else if s[i] == ':' {
        if i + 1 < s.len() && s[i + 1] == ' ' {
            seq![s.take(i), s.skip(i + 2)]
        } else {
            seq![s.take(i), s.skip(i + 1)]
        }
    } else {
        spec_split_colon_from(s, i + 1)
    }
}

/// The key/value pieces of a settings line.
pub open spec fn spec_split_colon(s: Seq<char>) -> Seq<Seq<char>> {
    spec_split_colon_from(s, 0)
}

/// The punctuation set after one settings line: a recognized
/// `punctuation_characters` line replaces it by the line feed, the carriage
/// return, and the value's characters; every other line leaves it alone.
pub open spec fn spec_punct_update(punct: Seq<char>, line: Seq<char>) -> Seq<char> {
    if line.len() > 0 && line[0] == '#' {
        punct
    } else {
        let parts = spec_split_colon(line);
        if parts.len() == 2 && parts[0] == "punctuation_characters"@ {
            seq!['\n', '\r'] + parts[1]
        } else {
            punct
        }
    }
}

/// The punctuation set after a whole settings file.
pub open spec fn spec_punct_after(lines: Seq<Seq<char>>, init: Seq<char>) -> Seq<char>
    decreases lines.len(),
{
    if lines.len() == 0 {
        init
    } else {
        spec_punct_update(spec_punct_after(lines.drop_last(), init), lines.last())
    }
}

/// The whole configuration: the ordered engine entries (the fallback first)
/// and the punctuation characters excluded from classification.
pub struct Config {
    pub engines: Vec<SpeechEngineConfiguration>,
    pub punctuation_characters: Vec<char>,
}

proof fn lemma_first_fallback_bounds(es: Seq<EngineView>, i: int)
    requires
        0 <= i <= es.len(),
    ensures
        i <= spec_first_fallback_from(es, i) <= es.len(),
    decreases es.len() - i,
{
    if i < es.len() && es[i].unicode_ranges.len() != 0 {
        lemma_first_fallback_bounds(es, i + 1);
    }
}

proof fn lemma_first_fallback_push(es: Seq<EngineView>, x: EngineView, i: int)
    requires
        0 <= i <= es.len(),
    ensures
        spec_first_fallback_from(es.push(x), i) == if spec_first_fallback_from(es, i) < es.len() {
            spec_first_fallback_from(es, i)
        } else if x.unicode_ranges.len() == 0 {
            es.len() as int
        } else {
            es.len() + 1 as int
        },
    decreases es.len() - i,
{
    if i < es.len() {
        assert(es.push(x)[i] == es[i]);
        if es[i].unicode_ranges.len() != 0 {
            lemma_first_fallback_push(es, x, i + 1);
        }
    } else {
        assert(es.push(x)[i] == x);
        if x.unicode_ranges.len() != 0 {
            assert(spec_first_fallback_from(es.push(x), i + 1) == es.push(x).len());
        }
    }
}

proof fn lemma_filter_all(es: Seq<EngineView>)
    requires
        forall|j: int| 0 <= j < es.len() ==> es[j].unicode_ranges.len() > 0,
    ensures
        es.filter(|e: EngineView| e.unicode_ranges.len() > 0) == es,
    decreases es.len(),
{
    reveal(Seq::filter);
    if es.len() > 0 {
        assert(forall|j: int|
            0 <= j < es.drop_last().len() ==> es.drop_last()[j].unicode_ranges.len() > 0);
        lemma_filter_all(es.drop_last());
        assert(es.drop_last().push(es.last()) =~= es);
    }
}

impl Config {
    /// The configuration before any file is read: one default fallback
    /// engine and the stock punctuation characters.
    pub fn new() -> (r: Config)
        ensures
            engines_view(r.engines@) == seq![spec_default_engine("latin"@)],
            r.punctuation_characters@ == seq![
                ',',
                '.',
                '?',
                '，',
                '。',
                '？',
                '-',
                ' ',
                ':',
                '\r',
                '\n',
            ],
    {
        let mut engines: Vec<SpeechEngineConfiguration> = Vec::new();
        engines.push(SpeechEngineConfiguration::new("latin"));
        let mut punctuation_characters: Vec<char> = Vec::new();
        punctuation_characters.push(',');
        punctuation_characters.push('.');
        punctuation_characters.push('?');
        punctuation_characters.push('，');
        punctuation_characters.push('。');
        punctuation_characters.push('？');
        punctuation_characters.push('-');
        punctuation_characters.push(' ');
        punctuation_characters.push(':');
        punctuation_characters.push('\r');
        punctuation_characters.push('\n');
        proof {
            assert(engines_view(engines@) =~= seq![spec_default_engine("latin"@)]);
            assert(punctuation_characters@ =~= seq![
                ',',
                '.',
                '?',
                '，',
                '。',
                '？',
                '-',
                ' ',
                ':',
                '\r',
                '\n',
            ]);
        }
        Config { engines, punctuation_characters }
    }

    /// Replaces the engine list by what the alphabets table `s` denotes:
    /// every parsing non-comment line contributes an engine, and the list is
    /// normalized so that exactly one fallback entry stands first.
    pub fn load_alphabets_from_string(&mut self, s: &str)
        ensures
            engines_view(final(self).engines@) == spec_engines_of_table(s@),
            final(self).punctuation_characters == old(self).punctuation_characters,
    {
        let chars = chars_of(s);
        let lines = split_lines(&chars);
        let ghost lv = lines.deep_view();
        proof {
            assert(forall|i: int|
                0 <= i < lines@.len() ==> lines.deep_view()[i] =~= #[trigger] lines@[i]@);
        }
        let mut engines: Vec<SpeechEngineConfiguration> = Vec::new();
        let mut li: usize = 0;
        while li < lines.len()
            invariant
                li <= lines@.len(),
                lv == lines.deep_view(),
                lv.len() == lines@.len(),
                forall|i: int| 0 <= i < lines@.len() ==> lv[i] == #[trigger] lines@[i]@,
                engines_view(engines@) == spec_parsed_engines(lv.take(li as int)),
            decreases lines@.len() - li,
        {
            let ghost prev = engines_view(engines@);
            proof {
                assert(lv.take(li + 1).drop_last() =~= lv.take(li as int));
                assert(lv.take(li + 1).last() == lv[li as int]);
            }
            let line = &lines[li];
            if !(line.len() > 0 && line[0] == '#') {
                let lstr = string_from_chars(line);
                match SpeechEngineConfiguration::load_from_string(lstr.as_str()) {
                    Ok(e) => {
                        engines.push(e);
                        proof {
                            assert(engines_view(engines@) =~= prev.push(e@));
                        }
                    },
                    Err(_) => {},
                }
            }
            li = li + 1;
        }
        proof {
            assert(lv.take(lines@.len() as int) =~= lv);
        }
        let ghost all = engines_view(engines@);
        let mut fallback: Option<SpeechEngineConfiguration> = None;
        let mut rest: Vec<SpeechEngineConfiguration> = Vec::new();
        let mut k: usize = 0;
        let total = engines.len();
        while k < total
            invariant
                k <= total,
                total == engines@.len(),
                all == engines_view(engines@),
                all.len() == engines@.len(),
                forall|i: int| 0 <= i < engines@.len() ==> all[i] == #[trigger] engines@[i]@,
                ({
                    let prefix = all.take(k as int);
                    let ff = spec_first_fallback_from(prefix, 0);
                    &&& (match fallback {
                        Option::Some(f) => ff < prefix.len() && f@ == prefix[ff],
                        Option::None => ff == prefix.len(),
                    })
                    &&& engines_view(rest@) == prefix.filter(
                        |e: EngineView| e.unicode_ranges.len() > 0,
                    )
                }),
            decreases total - k,
        {
            let ghost prefix = all.take(k as int);
            proof {
                reveal(Seq::filter);
                assert(all.take(k + 1).drop_last() =~= prefix);
                assert(all.take(k + 1).last() == all[k as int]);
                lemma_first_fallback_push(prefix, all[k as int], 0);
            }
            let ghost rest_before = engines_view(rest@);
            let e = &engines[k];
            if e.unicode_ranges.len() == 0 {
                if fallback.is_none() {
                    fallback = Some(clone_engine(e));
                }
            } else {
                rest.push(clone_engine(e));
                proof {
                    assert(engines_view(rest@) =~= rest_before.push(all[k as int]));
                }
            }
            proof {
                reveal(Seq::filter);
                let prefix2 = all.take(k + 1);
                assert(prefix2.drop_last() =~= prefix);
                assert(prefix2.last() == all[k as int]);
                assert(prefix2 =~= prefix.push(all[k as int]));
                if all[k as int].unicode_ranges.len() > 0 {
                    assert(prefix2.filter(|e: EngineView| e.unicode_ranges.len() > 0)
                        == prefix.filter(|e: EngineView| e.unicode_ranges.len() > 0).push(
                        all[k as int],
                    ));
                } else {
                    assert(prefix2.filter(|e: EngineView| e.unicode_ranges.len() > 0)
                        == prefix.filter(|e: EngineView| e.unicode_ranges.len() > 0));
                }
                assert(engines_view(rest@) == prefix2.filter(
                    |e: EngineView| e.unicode_ranges.len() > 0,
                ));
                let ff2 = spec_first_fallback_from(prefix2, 0);
                let ff = spec_first_fallback_from(prefix, 0);
                lemma_first_fallback_bounds(prefix, 0);
                lemma_first_fallback_bounds(prefix2, 0);
                if all[k as int].unicode_ranges.len() == 0 {
                    if ff < prefix.len() {
                        assert(ff2 == ff);
                    } else {
                        assert(ff2 == prefix.len());
                        assert(prefix2[ff2] == all[k as int]);
                    }
                } else {
                    assert(ff2 == if ff < prefix.len() {
                        ff
                    } else {
                        prefix.len() + 1 as int
                    });
                }
                if fallback is Some {
                    assert(ff2 < prefix2.len());
                    assert(prefix2[ff2] == all[ff2]);
                    if ff < prefix.len() {
                        assert(prefix[ff] == all[ff]);
                        assert(fallback->0@ == prefix[ff]);
                    }
                    assert(fallback->0@ == prefix2[ff2]);
                } else {
                    assert(ff2 == prefix2.len());
                }
            }
            k = k + 1;
        }
        proof {
            assert(all.take(total as int) =~= all);
        }
        let mut result: Vec<SpeechEngineConfiguration> = Vec::new();
        match fallback {
            Some(f) => {
                result.push(f);
            },
            None => {
                proof {
                    assert forall|j: int| 0 <= j < all.len() implies (#[trigger] all[j]).unicode_ranges.len()
                        > 0 by {
                        lemma_first_fallback_at_most(all, 0, j);
                    }
                    lemma_filter_all(all);
                }
                result.push(SpeechEngineConfiguration::new("latin"));
            },
        }
        let ghost head = engines_view(result@);
        result.append(&mut rest);
        proof {
            assert(head.len() == 1);
            assert(engines_view(result@) =~= head + spec_normalize(all).drop_first());
            assert(engines_view(result@) =~= spec_normalize(all));
        }
        self.engines = result;
    }
}

impl Config {
    /// Updates the punctuation set from the settings file `s`: the last
    /// recognized `punctuation_characters` line wins; every other line and
    /// comment is ignored.  The engine list is left alone.
    pub fn load_configuration_from_string(&mut self, s: &str)
        ensures
            final(self).punctuation_characters@ == spec_punct_after(
                spec_lines(s@),
                old(self).punctuation_characters@,
            ),
            final(self).engines == old(self).engines,
    {
        let chars = chars_of(s);
        let lines = split_lines(&chars);
        let ghost lv = lines.deep_view();
        let ghost init = self.punctuation_characters@;
        proof {
            assert(forall|i: int|
                0 <= i < lines@.len() ==> lines.deep_view()[i] =~= #[trigger] lines@[i]@);
        }
        let mut li: usize = 0;
        while li < lines.len()
            invariant
                li <= lines@.len(),
                lv == lines.deep_view(),
                lv.len() == lines@.len(),
                forall|i: int| 0 <= i < lines@.len() ==> lv[i] == #[trigger] lines@[i]@,
                self.punctuation_characters@ == spec_punct_after(lv.take(li as int), init),
                self.engines == old(self).engines,
            decreases lines@.len() - li,
        {
            proof {
                assert(lv.take(li + 1).drop_last() =~= lv.take(li as int));
                assert(lv.take(li + 1).last() == lv[li as int]);
            }
            let line = &lines[li];
            if !(line.len() > 0 && line[0] == '#') {
                let lstr = string_from_chars(line);
                match Config::split_by_colon(lstr.as_str()) {
                    Ok(setting) => {
                        let key_chars = chars_of(setting[0].as_str());
                        if chars_eq(&key_chars, &chars_of("punctuation_characters")) {
                            let mut punctuation_characters: Vec<char> = Vec::new();
                            punctuation_characters.push('\n');
                            punctuation_characters.push('\r');
                            let value_chars = chars_of(setting[1].as_str());
                            let mut vi: usize = 0;
                            while vi < value_chars.len()
                                invariant
                                    vi <= value_chars@.len(),
                                    punctuation_characters@ == seq!['\n', '\r']
                                        + value_chars@.take(vi as int),
                                decreases value_chars@.len() - vi,
                            {
                                punctuation_characters.push(value_chars[vi]);
                                assert(punctuation_characters@ =~= seq!['\n', '\r']
                                    + value_chars@.take(vi + 1));
                                vi = vi + 1;
                            }
                            proof {
                                assert(value_chars@.take(value_chars@.len() as int)
                                    =~= value_chars@);
                            }
                            self.punctuation_characters = punctuation_characters;
                        }
                    },
                    Err(_) => {},
                }
            }
            li = li + 1;
        }
        proof {
            assert(lv.take(lines@.len() as int) =~= lv);
        }
    }

    /// Splits a settings line at its first colon, an optional single space
    /// after the colon consumed, into key and value; a line without a colon
    /// is rejected.
    fn split_by_colon(line: &str) -> (r: Result<Vec<String>, ()>)
        ensures
            ({
                let parts = spec_split_colon(line@);
                match r {
                    Result::Ok(v) => parts.len() == 2 && v.deep_view() == parts,
                    Result::Err(_) => parts.len() != 2,
                }
            }),
    {
        let chars = chars_of(line);
        let mut i: usize = 0;
        while i < chars.len()
            invariant
                i <= chars@.len(),
                chars@ == line@,
                spec_split_colon(line@) == spec_split_colon_from(chars@, i as int),
            decreases chars@.len() - i,
        {
            if chars[i] == ':' {
                let rest_start = if i + 1 < chars.len() && chars[i + 1] == ' ' {
                    i + 2
                } else {
                    i + 1
                };
                let key = crate::text::string_from_range(&chars, 0, i);
                let value = crate::text::string_from_range(&chars, rest_start, chars.len());
                let mut v: Vec<String> = Vec::new();
                v.push(key);
                v.push(value);
                proof {
                    assert(chars@.subrange(0, i as int) =~= chars@.take(i as int));
                    assert(chars@.subrange(rest_start as int, chars@.len() as int) =~= chars@.skip(
                        rest_start as int,
                    ));
                    assert(v.deep_view() =~~= spec_split_colon(line@));
                }
                return Ok(v);
            }
            i = i + 1;
        }
        Err(())
    }
}

/// The range triples of engine `id`: its bound pairs, each with the
/// engine's index attached.
pub open spec fn spec_engine_triples(r: Seq<u32>, id: int, i: int) -> Seq<(u32, u32, u32)>
    decreases r.len() - i,
{
    if i < 0 || i + 2 > r.len() {
        Seq::empty()
    } else {
        seq![(r[i], r[i + 1], id as u32)] + spec_engine_triples(r, id, i + 2)
    }
}

/// The range triples of every engine from index `id` on, in engine order.
pub open spec fn spec_triples_from(es: Seq<EngineView>, id: int) -> Seq<(u32, u32, u32)>
    decreases es.len() - id,
{
    if id < 0 || id >= es.len() {
        Seq::empty()
    } else {
        (if es[id].unicode_ranges.len() != 0 {
            spec_engine_triples(es[id].unicode_ranges, id, 0)
        } else {
            Seq::empty()
        }) + spec_triples_from(es, id + 1)
    }
}

/// A stable insertion by range start: the new triple goes after every
/// triple whose start is not above its own.
pub open spec fn spec_insert_triple(sorted: Seq<(u32, u32, u32)>, x: (u32, u32, u32)) -> Seq<
    (u32, u32, u32),
>
    decreases sorted.len(),
{
    if sorted.len() == 0 {
        seq![x]
    } else if x.0 < sorted.last().0 {
        spec_insert_triple(sorted.drop_last(), x).push(sorted.last())
    } else {
        sorted.push(x)
    }
}

/// The triples sorted ascending by range start, stably.
pub open spec fn spec_sort_triples(ts: Seq<(u32, u32, u32)>) -> Seq<(u32, u32, u32)>
    decreases ts.len(),
{
    if ts.len() == 0 {
        Seq::empty()
    } else {
        spec_insert_triple(spec_sort_triples(ts.drop_last()), ts.last())
    }
}

/// The triples written out flat: start, end, engine index, in order.
pub open spec fn spec_flatten_triples(ts: Seq<(u32, u32, u32)>) -> Seq<u32>
    decreases ts.len(),
{
    if ts.len() == 0 {
        Seq::empty()
    } else {
        spec_flatten_triples(ts.drop_last()) + seq![ts.last().0, ts.last().1, ts.last().2]
    }
}

/// The alphabets scheme an engine list denotes.
pub open spec fn spec_scheme_of(es: Seq<EngineView>) -> Seq<u32> {
    spec_flatten_triples(spec_sort_triples(spec_triples_from(es, 0)))
}

proof fn lemma_insert_triple_at(sorted: Seq<(u32, u32, u32)>, x: (u32, u32, u32), p: int)
    requires
        0 <= p <= sorted.len(),
        forall|k: int| p <= k < sorted.len() ==> (#[trigger] sorted[k]).0 > x.0,
        p == 0 || sorted[p - 1].0 <= x.0,
    ensures
        spec_insert_triple(sorted, x) == sorted.take(p).push(x) + sorted.skip(p),
    decreases sorted.len() - p,
{
    if p == sorted.len() {
        assert(sorted.take(p) =~= sorted);
        assert(sorted.take(p).push(x) + sorted.skip(p) =~= sorted.push(x));
    } else {
        assert(sorted.last().0 > x.0);
        lemma_insert_triple_at(sorted.drop_last(), x, p);
        assert(sorted.drop_last().take(p) =~= sorted.take(p));
        assert((sorted.drop_last().take(p).push(x) + sorted.drop_last().skip(p)).push(
            sorted.last(),
        ) =~= sorted.take(p).push(x) + sorted.skip(p));
    }
}

impl Config {
    /// Builds the alphabets scheme: the range triples of every non-fallback
    /// engine, sorted ascending by range start (stably, so triples with
    /// equal starts keep engine order), written out flat.
    pub fn generate_alphabets_scheme(&self) -> (r: Vec<u32>)
        requires
            forall|j: int|
                0 <= j < self.engines@.len() ==> (#[trigger] self.engines@[j])@.unicode_ranges.len()
                    % 2 == 0,
            self.engines@.len() <= u32::MAX,
        ensures
            r@ == spec_scheme_of(engines_view(self.engines@)),
    {
        let ghost es = engines_view(self.engines@);
        proof {
            assert(forall|i: int|
                0 <= i < self.engines@.len() ==> es[i] == (#[trigger] self.engines@[i])@);
        }
        let mut pre: Vec<(u32, u32, u32)> = Vec::new();
        let mut id: usize = 0;
        while id < self.engines.len()
            invariant
                id <= self.engines@.len(),
                es == engines_view(self.engines@),
                es.len() == self.engines@.len(),
                self.engines@.len() <= u32::MAX,
                forall|i: int| 0 <= i < es.len() ==> es[i] == (#[trigger] self.engines@[i])@,
                forall|j: int|
                    0 <= j < self.engines@.len() ==> (#[trigger] self.engines@[j])@.unicode_ranges.len()
                        % 2 == 0,
                spec_triples_from(es, 0) == pre@ + spec_triples_from(es, id as int),
            decreases self.engines@.len() - id,
        {
            let engine = &self.engines[id];
            if engine.unicode_ranges.len() != 0 {
                let ghost ranges = engine@.unicode_ranges;
                let mut i: usize = 0;
                let ghost pre_at_engine = pre@;
                while i < engine.unicode_ranges.len()
                    invariant
                        i <= engine.unicode_ranges@.len(),
                        i % 2 == 0,
                        ranges == engine.unicode_ranges@,
                        ranges.len() % 2 == 0,
                        id <= u32::MAX as usize,
                        spec_engine_triples(ranges, id as int, 0) == pre@.skip(pre_at_engine.len() as int)
                            + spec_engine_triples(ranges, id as int, i as int),
                        pre@.take(pre_at_engine.len() as int) == pre_at_engine,
                        pre@.len() >= pre_at_engine.len(),
                    decreases ranges.len() - i,
                {
                    assert(i + 1 < ranges.len());
                    pre.push((engine.unicode_ranges[i], engine.unicode_ranges[i + 1], id as u32));
                    proof {
                        let tail = pre@.skip(pre_at_engine.len() as int);
                        assert(tail =~= pre@.take(pre@.len() - 1).skip(pre_at_engine.len() as int).push(
                            (ranges[i as int], ranges[i + 1], id as u32),
                        ));
                        assert(pre@.take(pre@.len() - 1).skip(pre_at_engine.len() as int) + (seq![
                            (ranges[i as int], ranges[i + 1], id as u32),
                        ] + spec_engine_triples(ranges, id as int, i + 2)) =~= tail
                            + spec_engine_triples(ranges, id as int, i + 2));
                        assert(pre@.take(pre_at_engine.len() as int) =~= pre_at_engine);
                    }
                    i = i + 2;
                }
                proof {
                    assert(i == ranges.len());
                    assert(spec_engine_triples(ranges, id as int, i as int) =~= Seq::<
                        (u32, u32, u32),
                    >::empty());
                    assert(pre@.skip(pre_at_engine.len() as int) + Seq::<(u32, u32, u32)>::empty()
                        =~= pre@.skip(pre_at_engine.len() as int));
                    assert(pre_at_engine + pre@.skip(pre_at_engine.len() as int) =~= pre@);
                    assert(pre@ + spec_triples_from(es, id + 1) =~= pre_at_engine + (pre@.skip(
                        pre_at_engine.len() as int,
                    ) + spec_triples_from(es, id + 1)));
                }
            } else {
                proof {
                    assert(Seq::<(u32, u32, u32)>::empty() + spec_triples_from(es, id + 1)
                        =~= spec_triples_from(es, id + 1));
                }
            }
            id = id + 1;
        }
        proof {
            assert(pre@ + spec_triples_from(es, es.len() as int) =~= pre@);
        }
        let ghost all_triples = pre@;
        let mut sorted: Vec<(u32, u32, u32)> = Vec::new();
        let mut t: usize = 0;
        while t < pre.len()
            invariant
                t <= pre@.len(),
                pre@ == all_triples,
                sorted@ == spec_sort_triples(all_triples.take(t as int)),
            decreases pre@.len() - t,
        {
            let x = pre[t];
            let mut p: usize = sorted.len();
            while p > 0 && sorted[p - 1].0 > x.0
                invariant
                    p <= sorted@.len(),
                    forall|k: int| p <= k < sorted@.len() ==> (#[trigger] sorted@[k]).0 > x.0,
                decreases p,
            {
                p = p - 1;
            }
            let ghost before = sorted@;
            sorted.insert(p, x);
            proof {
                lemma_insert_triple_at(before, x, p as int);
                assert(sorted@ =~= before.take(p as int).push(x) + before.skip(p as int));
                assert(all_triples.take(t + 1).drop_last() =~= all_triples.take(t as int));
                assert(all_triples.take(t + 1).last() == all_triples[t as int]);
            }
            t = t + 1;
        }
        proof {
            assert(all_triples.take(all_triples.len() as int) =~= all_triples);
        }
        let mut result: Vec<u32> = Vec::new();
        let mut f: usize = 0;
        while f < sorted.len()
            invariant
                f <= sorted@.len(),
                sorted@ == spec_sort_triples(all_triples),
                result@ == spec_flatten_triples(sorted@.take(f as int)),
            decreases sorted@.len() - f,
        {
            let triple = sorted[f];
            result.push(triple.0);
            result.push(triple.1);
            result.push(triple.2);
            proof {
                assert(sorted@.take(f + 1).drop_last() =~= sorted@.take(f as int));
                assert(sorted@.take(f + 1).last() == sorted@[f as int]);
                assert(result@ =~= spec_flatten_triples(sorted@.take(f as int)) + seq![
                    sorted@[f as int].0,
                    sorted@[f as int].1,
                    sorted@[f as int].2,
                ]);
            }
            f = f + 1;
        }
        proof {
            assert(sorted@.take(sorted@.len() as int) =~= sorted@);
        }
        result
    }
}

proof fn lemma_first_fallback_at_most(es: Seq<EngineView>, i: int, j: int)
    requires
        0 <= i <= j < es.len(),
        spec_first_fallback_from(es, i) == es.len(),
    ensures
        es[j].unicode_ranges.len() > 0,
    decreases j - i,
{
    if i < j {
        lemma_first_fallback_at_most(es, i + 1, j);
    }
}

proof fn lemma_engine_triples_bounded(r: Seq<u32>, id: int, i: int, n: int)
    requires
        0 <= id < n <= u32::MAX + 1,
    ensures
        forall|k: int|
            0 <= k < spec_engine_triples(r, id, i).len() ==> (#[trigger] spec_engine_triples(
                r,
                id,
                i,
            )[k]).2 < n,
    decreases r.len() - i,
{
    if !(i < 0 || i + 2 > r.len()) {
        lemma_engine_triples_bounded(r, id, i + 2, n);
        let whole = spec_engine_triples(r, id, i);
        let rest = spec_engine_triples(r, id, i + 2);
        assert forall|k: int| 0 <= k < whole.len() implies (#[trigger] whole[k]).2 < n by {
            if k == 0 {
                assert(whole[0] == (r[i], r[i + 1], id as u32));
            } else {
                assert(whole[k] == rest[k - 1]);
            }
        }
    }
}

proof fn lemma_triples_from_bounded(es: Seq<EngineView>, id: int, n: int)
    requires
        es.len() <= n <= u32::MAX + 1,
        0 <= id,
    ensures
        forall|k: int|
            0 <= k < spec_triples_from(es, id).len() ==> (#[trigger] spec_triples_from(es, id)[k]).2
                < n,
    decreases es.len() - id,
{
    if !(id < 0 || id >= es.len()) {
        lemma_engine_triples_bounded(es[id].unicode_ranges, id, 0, n);
        lemma_triples_from_bounded(es, id + 1, n);
        let whole = spec_triples_from(es, id);
        let own = if es[id].unicode_ranges.len() != 0 {
            spec_engine_triples(es[id].unicode_ranges, id, 0)
        } else {
            Seq::<(u32, u32, u32)>::empty()
        };
        let rest = spec_triples_from(es, id + 1);
        assert forall|k: int| 0 <= k < whole.len() implies (#[trigger] whole[k]).2 < n by {
            if k < own.len() {
                assert(whole[k] == own[k]);
            } else {
                assert(whole[k] == rest[k - own.len()]);
            }
        }
    }
}

proof fn lemma_insert_triple_bounded(sorted: Seq<(u32, u32, u32)>, x: (u32, u32, u32), n: int)
    requires
        forall|k: int| 0 <= k < sorted.len() ==> (#[trigger] sorted[k]).2 < n,
        x.2 < n,
    ensures
        forall|k: int|
            0 <= k < spec_insert_triple(sorted, x).len() ==> (#[trigger] spec_insert_triple(
                sorted,
                x,
            )[k]).2 < n,
    decreases sorted.len(),
{
    let whole = spec_insert_triple(sorted, x);
    if sorted.len() == 0 {
        assert forall|k: int| 0 <= k < whole.len() implies (#[trigger] whole[k]).2 < n by {
            assert(whole[k] == x);
        }
    } else if x.0 < sorted.last().0 {
        assert(forall|k: int|
            0 <= k < sorted.drop_last().len() ==> (#[trigger] sorted.drop_last()[k]).2 < n);
        lemma_insert_triple_bounded(sorted.drop_last(), x, n);
        let inner = spec_insert_triple(sorted.drop_last(), x);
        assert forall|k: int| 0 <= k < whole.len() implies (#[trigger] whole[k]).2 < n by {
            if k < inner.len() {
                assert(whole[k] == inner[k]);
            } else {
                assert(whole[k] == sorted.last());
            }
        }
    } else {
        assert forall|k: int| 0 <= k < whole.len() implies (#[trigger] whole[k]).2 < n by {
            if k < sorted.len() {
                assert(whole[k] == sorted[k]);
            } else {
                assert(whole[k] == x);
            }
        }
    }
}

proof fn lemma_sort_triples_bounded(ts: Seq<(u32, u32, u32)>, n: int)
    requires
        forall|k: int| 0 <= k < ts.len() ==> (#[trigger] ts[k]).2 < n,
    ensures
        forall|k: int|
            0 <= k < spec_sort_triples(ts).len() ==> (#[trigger] spec_sort_triples(ts)[k]).2 < n,
    decreases ts.len(),
{
    if ts.len() > 0 {
        assert(forall|k: int|
            0 <= k < ts.drop_last().len() ==> (#[trigger] ts.drop_last()[k]).2 < n);
        lemma_sort_triples_bounded(ts.drop_last(), n);
        lemma_insert_triple_bounded(spec_sort_triples(ts.drop_last()), ts.last(), n);
    }
}

proof fn lemma_flatten_shape(ts: Seq<(u32, u32, u32)>)
    ensures
        spec_flatten_triples(ts).len() == 3 * ts.len(),
        forall|j: int|
            0 <= j < ts.len() ==> spec_flatten_triples(ts)[3 * j] == (#[trigger] ts[j]).0
                && spec_flatten_triples(ts)[3 * j + 1] == ts[j].1 && spec_flatten_triples(ts)[3 * j
                + 2] == ts[j].2,
    decreases ts.len(),
{
    if ts.len() > 0 {
        lemma_flatten_shape(ts.drop_last());
        assert(forall|j: int|
            0 <= j < ts.len() - 1 ==> ts.drop_last()[j] == #[trigger] ts[j]);
    }
}

/// The scheme an engine list yields is well formed: its length is a
/// multiple of three, and every stored engine index lies below the number
/// of engines it was built from — or below 1 when the list is empty, since
/// classification then always yields the fallback index 0.
pub proof fn lemma_scheme_wf(es: Seq<EngineView>, n: int)
    requires
        es.len() <= n <= u32::MAX + 1,
        1 <= n,
    ensures
        spec_scheme_of(es).len() % 3 == 0,
        forall|j: int|
            0 <= j < spec_scheme_of(es).len() && j % 3 == 2 ==> (#[trigger] spec_scheme_of(es)[j])
                < n,
{
    let ts = spec_sort_triples(spec_triples_from(es, 0));
    lemma_triples_from_bounded(es, 0, n);
    lemma_sort_triples_bounded(spec_triples_from(es, 0), n);
    lemma_flatten_shape(ts);
    assert forall|j: int|
        0 <= j < spec_scheme_of(es).len() && j % 3 == 2 implies (#[trigger] spec_scheme_of(es)[j])
        < n by {
        let q = j / 3;
        assert(j == 3 * q + 2);
        assert(0 <= q < ts.len());
        assert(spec_scheme_of(es)[3 * q + 2] == ts[q].2);
    }
}

proof fn lemma_insert_triple_le(sorted: Seq<(u32, u32, u32)>, x: (u32, u32, u32), b: u32)
    requires
        forall|k: int| 0 <= k < sorted.len() ==> (#[trigger] sorted[k]).0 <= b,
        x.0 <= b,
    ensures
        forall|k: int|
            0 <= k < spec_insert_triple(sorted, x).len() ==> (#[trigger] spec_insert_triple(
                sorted,
                x,
            )[k]).0 <= b,
    decreases sorted.len(),
{
    let whole = spec_insert_triple(sorted, x);
    if sorted.len() == 0 {
        assert(forall|k: int| 0 <= k < whole.len() ==> whole[k] == x);
    } else if x.0 < sorted.last().0 {
        assert(forall|k: int|
            0 <= k < sorted.drop_last().len() ==> (#[trigger] sorted.drop_last()[k]).0 <= b);
        lemma_insert_triple_le(sorted.drop_last(), x, b);
        let inner = spec_insert_triple(sorted.drop_last(), x);
        assert(forall|k: int|
            0 <= k < whole.len() ==> whole[k] == (if k < inner.len() {
                inner[k]
            } else {
                sorted.last()
            }));
    } else {
        assert(forall|k: int|
            0 <= k < whole.len() ==> whole[k] == (if k < sorted.len() {
                sorted[k]
            } else {
                x
            }));
    }
}

/// Whether the triples ascend by range start.
pub open spec fn spec_triples_sorted(ts: Seq<(u32, u32, u32)>) -> bool {
    forall|i: int, j: int| 0 <= i < j < ts.len() ==> (#[trigger] ts[i]).0 <= (#[trigger] ts[j]).0
}

proof fn lemma_insert_triple_sorted(sorted: Seq<(u32, u32, u32)>, x: (u32, u32, u32))
    requires
        spec_triples_sorted(sorted),
    ensures
        spec_triples_sorted(spec_insert_triple(sorted, x)),
    decreases sorted.len(),
{
    let whole = spec_insert_triple(sorted, x);
    if sorted.len() == 0 {
    } else if x.0 < sorted.last().0 {
        assert(forall|i: int, j: int|
            0 <= i < j < sorted.drop_last().len() ==> (#[trigger] sorted.drop_last()[i]).0 <= (
            #[trigger] sorted.drop_last()[j]).0);
        lemma_insert_triple_sorted(sorted.drop_last(), x);
        assert(forall|k: int|
            0 <= k < sorted.drop_last().len() ==> (#[trigger] sorted.drop_last()[k]).0
                <= sorted.last().0);
        lemma_insert_triple_le(sorted.drop_last(), x, sorted.last().0);
        let inner = spec_insert_triple(sorted.drop_last(), x);
        assert forall|i: int, j: int| 0 <= i < j < whole.len() implies (#[trigger] whole[i]).0 <= (
        #[trigger] whole[j]).0 by {
            if j < inner.len() {
                assert(whole[i] == inner[i] && whole[j] == inner[j]);
            } else {
                assert(whole[j] == sorted.last());
                assert(whole[i] == inner[i]);
            }
        }
    } else {
        assert forall|i: int, j: int| 0 <= i < j < whole.len() implies (#[trigger] whole[i]).0 <= (
        #[trigger] whole[j]).0 by {
            if j < sorted.len() {
                assert(whole[i] == sorted[i] && whole[j] == sorted[j]);
            } else {
                assert(whole[j] == x);
                assert(whole[i] == sorted[i]);
                assert(sorted[i].0 <= sorted.last().0);
            }
        }
    }
}

proof fn lemma_sort_triples_sorted(ts: Seq<(u32, u32, u32)>)
    ensures
        spec_triples_sorted(spec_sort_triples(ts)),
    decreases ts.len(),
{
    if ts.len() > 0 {
        lemma_sort_triples_sorted(ts.drop_last());
        lemma_insert_triple_sorted(spec_sort_triples(ts.drop_last()), ts.last());
    }
}

/// The scheme ascends by range start: along the flattened triples, each
/// range's start is at most the next range's start.
pub proof fn lemma_scheme_sorted(es: Seq<EngineView>)
    ensures
        forall|j: int|
            0 <= j && 3 * j + 3 < spec_scheme_of(es).len() ==> #[trigger] spec_scheme_of(es)[3
                * j] <= spec_scheme_of(es)[3 * j + 3],
{
    let ts = spec_sort_triples(spec_triples_from(es, 0));
    lemma_sort_triples_sorted(spec_triples_from(es, 0));
    lemma_flatten_shape(ts);
    assert forall|j: int|
        0 <= j && 3 * j + 3 < spec_scheme_of(es).len() implies #[trigger] spec_scheme_of(es)[3
        * j] <= spec_scheme_of(es)[3 * j + 3] by {
        assert(0 <= j < j + 1 < ts.len());
        assert(spec_scheme_of(es)[3 * j] == ts[j].0);
        assert(spec_scheme_of(es)[3 * (j + 1)] == ts[j + 1].0);
        assert(3 * (j + 1) == 3 * j + 3);
    }
}

/// Reloading with byte-identical configuration content leaves the engine
/// list, and with it the derived alphabets scheme, unchanged: the table
/// text alone determines both.
pub proof fn lemma_reload_idempotent(
    s: Seq<char>,
    e1: Seq<EngineView>,
    e2: Seq<EngineView>,
)
    requires
        e1 == spec_engines_of_table(s),
        e2 == spec_engines_of_table(s),
    ensures
        e1 == e2,
        spec_scheme_of(e1) == spec_scheme_of(e2),
{
}

/// A deep copy of one engine configuration.
fn clone_engine(e: &SpeechEngineConfiguration) -> (r: SpeechEngineConfiguration)
    ensures
        r@ == e@,
{
    let mut unicode_ranges: Vec<u32> = Vec::new();
    let mut i: usize = 0;
    while i < e.unicode_ranges.len()
        invariant
            i <= e.unicode_ranges@.len(),
            unicode_ranges@ == e.unicode_ranges@.take(i as int),
        decreases e.unicode_ranges@.len() - i,
    {
        unicode_ranges.push(e.unicode_ranges[i]);
        assert(unicode_ranges@ =~= e.unicode_ranges@.take(i + 1));
        i = i + 1;
    }
    assert(unicode_ranges@ =~= e.unicode_ranges@);
    SpeechEngineConfiguration {
        name: e.name.clone(),
        unicode_ranges,
        module: e.module.clone(),
        arg: e.arg.clone(),
        language: e.language.clone(),
        voice: e.voice.clone(),
        punctuation_mode: e.punctuation_mode.clone(),
        pitch: e.pitch,
        capitals_pitch: e.capitals_pitch,
        rate: e.rate,
        volume: e.volume,
        firejailed: e.firejailed,
    }
}

} // verus!
