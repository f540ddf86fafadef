//! The cached host settings blocks and the command strings written to the
//! backend engines.

use vstd::prelude::*;

use crate::config::{EngineView, SpeechEngineConfiguration};
use crate::text::{i32_to_string, join_with, spec_i32_string, spec_join};

verus! {

/// The wire form of a multi-line settings block: the keyword line, the
/// body lines, and the closing dot line.
pub open spec fn spec_block_command(keyword: Seq<char>, lines: Seq<Seq<char>>) -> Seq<char> {
    keyword + "\n"@ + spec_join(lines, "\n"@) + "\n.\n"@
}

/// The `SET` block carrying an engine's configured voice parameters.
pub open spec fn spec_voice_command(e: EngineView) -> Seq<char> {
    "SET\nlanguage="@ + e.language + "\nvoice="@ + e.voice + "\npunctuation_mode="@
        + e.punctuation_mode + "\npitch="@ + spec_i32_string(e.pitch) + "\nrate="@
        + spec_i32_string(e.rate) + "\nvolume="@ + spec_i32_string(e.volume) + "\n.\n"@
}

/// The `SET` block overriding an engine's pitch alone.
pub open spec fn spec_pitch_command(pitch: int) -> Seq<char> {
    "SET\npitch="@ + spec_i32_string(pitch) + "\n.\n"@
}

/// The audio settings block last received from the host, kept verbatim for
/// replay to the engines.
pub struct AudioSettings {
    lines: Vec<String>,
}

impl View for AudioSettings {
    type V = Seq<Seq<char>>;

    closed spec fn view(&self) -> Seq<Seq<char>> {
        self.lines.deep_view()
    }
}

impl AudioSettings {
    pub fn new(lines: Vec<String>) -> (r: AudioSettings)
        ensures
            r@ == lines.deep_view(),
    {
        AudioSettings { lines }
    }

    /// The `AUDIO` block as written to an engine.
    pub fn generate_sd_command(&self) -> (r: String)
        ensures
            r@ == spec_block_command("AUDIO"@, self@),
    {
        let r = join_with(&self.lines, "\n");
        let mut out = String::new();
        out.append("AUDIO");
        out.append("\n");
        out.append(r.as_str());
        out.append("\n.\n");
        assert(out@ =~= spec_block_command("AUDIO"@, self@));
        out
    }
}

/// A `SET` settings block from the host, kept verbatim.
pub struct SpeechSettings {
    lines: Vec<String>,
}

impl View for SpeechSettings {
    type V = Seq<Seq<char>>;

    closed spec fn view(&self) -> Seq<Seq<char>> {
        self.lines.deep_view()
    }
}

impl SpeechSettings {
    pub fn new(lines: Vec<String>) -> (r: SpeechSettings)
        ensures
            r@ == lines.deep_view(),
    {
        SpeechSettings { lines }
    }

    /// The `SET` block as written to an engine.
    pub fn generate_sd_command(&self) -> (r: String)
        ensures
            r@ == spec_block_command("SET"@, self@),
    {
        let r = join_with(&self.lines, "\n");
        let mut out = String::new();
        out.append("SET");
        out.append("\n");
        out.append(r.as_str());
        out.append("\n.\n");
        assert(out@ =~= spec_block_command("SET"@, self@));
        out
    }

    /// A fixed `SET` block carrying only a language, with stock volume,
    /// pitch and voice.
    pub fn generate_sd_command_parametrized(language: &str) -> (r: String)
        ensures
            r@ == "SET\nvolume=100\npitch=7\nvoice=male1\nlanguage="@ + language@ + "\n.\n"@,
    {
        let mut out = String::new();
        out.append("SET\nvolume=100\npitch=7\nvoice=male1\nlanguage=");
        out.append(language);
        out.append("\n.\n");
        out
    }

    /// The `SET` block carrying one engine's configured voice parameters.
    pub fn generate_sd_command_from_engine_configuration(
        config: &SpeechEngineConfiguration,
    ) -> (r: String)
        ensures
            r@ == spec_voice_command(config@),
    {
        let mut out = String::new();
        out.append("SET\nlanguage=");
        out.append(config.language.as_str());
        out.append("\nvoice=");
        out.append(config.voice.as_str());
        out.append("\npunctuation_mode=");
        out.append(config.punctuation_mode.as_str());
        out.append("\npitch=");
        let pitch = i32_to_string(config.pitch);
        out.append(pitch.as_str());
        out.append("\nrate=");
        let rate = i32_to_string(config.rate);
        out.append(rate.as_str());
        out.append("\nvolume=");
        let volume = i32_to_string(config.volume);
        out.append(volume.as_str());
        out.append("\n.\n");
        out
    }

    /// The `SET` block overriding an engine's pitch alone.
    pub fn generate_sd_command_from_pitch(pitch: i32) -> (r: String)
        ensures
            r@ == spec_pitch_command(pitch as int),
    {
        let mut out = String::new();
        out.append("SET\npitch=");
        let p = i32_to_string(pitch);
        out.append(p.as_str());
        out.append("\n.\n");
        out
    }
}

/// The log-level block last received from the host, kept verbatim for
/// replay to the engines.
pub struct LogLevelSettings {
    lines: Vec<String>,
}

impl View for LogLevelSettings {
    type V = Seq<Seq<char>>;

    closed spec fn view(&self) -> Seq<Seq<char>> {
        self.lines.deep_view()
    }
}

impl LogLevelSettings {
    pub fn new(lines: Vec<String>) -> (r: LogLevelSettings)
        ensures
            r@ == lines.deep_view(),
    {
        LogLevelSettings { lines }
    }

    /// The `LOGLEVEL` block as written to an engine.
    pub fn generate_sd_command(&self) -> (r: String)
        ensures
            r@ == spec_block_command("LOGLEVEL"@, self@),
    {
        let r = join_with(&self.lines, "\n");
        let mut out = String::new();
        out.append("LOGLEVEL");
        out.append("\n");
        out.append(r.as_str());
        out.append("\n.\n");
        assert(out@ =~= spec_block_command("LOGLEVEL"@, self@));
        out
    }
}

} // verus!
