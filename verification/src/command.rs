//! The host-facing command parser: a state machine fed one input line at a
//! time, producing the protocol acknowledgements to write back and the
//! typed commands to hand to the playback orchestrator.

use vstd::prelude::*;

use crate::settings::{AudioSettings, LogLevelSettings, SpeechSettings};
use crate::text::{chars_eq, chars_of, spec_trim, string_from_range, string_from_range_trimmed};

verus! {

/// Relies on `core::mem::replace`: hands back the old value and leaves the
/// new one in its place.
pub assume_specification<T>[ core::mem::replace ](dest: &mut T, src: T) -> (r: T)
    ensures
        r == *old(dest),
        *final(dest) == src,
;

/// One typed command from the host.
pub enum SdInputCommand {
    Init,
    Audio(AudioSettings),
    LogLevel(LogLevelSettings),
    SetParams(SpeechSettings),
    Speak(String),
    Char(char),
    Key(String),
    Pause,
    Stop,
    Quit,
}

/// The mathematical content of one host command.
pub ghost enum CommandView {
    Init,
    Audio(Seq<Seq<char>>),
    LogLevel(Seq<Seq<char>>),
    SetParams(Seq<Seq<char>>),
    Speak(Seq<char>),
    Char(char),
    Key(Seq<char>),
    Pause,
    Stop,
    Quit,
}

impl View for SdInputCommand {
    type V = CommandView;

    open spec fn view(&self) -> CommandView {
        match self {
            SdInputCommand::Init => CommandView::Init,
            SdInputCommand::Audio(s) => CommandView::Audio(s@),
            SdInputCommand::LogLevel(s) => CommandView::LogLevel(s@),
            SdInputCommand::SetParams(s) => CommandView::SetParams(s@),
            SdInputCommand::Speak(t) => CommandView::Speak(t@),
            SdInputCommand::Char(c) => CommandView::Char(*c),
            SdInputCommand::Key(k) => CommandView::Key(k@),
            SdInputCommand::Pause => CommandView::Pause,
            SdInputCommand::Stop => CommandView::Stop,
            SdInputCommand::Quit => CommandView::Quit,
        }
    }
}

/// Which multi-line settings block is being collected.
#[derive(Clone, Copy, PartialEq, Eq, Structural)]
pub enum BodyKind {
    Audio,
    LogLevel,
    SetParams,
}

enum ParserMode {
    Keyword,
    Body(BodyKind, Vec<String>),
    SpeakBody(String),
    CharFirst,
    CharSecond(Option<char>),
    KeyFirst,
    KeySecond(String),
}

/// What the parser awaits next: a keyword line, the body of a settings
/// block, the body of an utterance, or the argument lines of a character
/// or key command.
pub ghost enum ParserModeView {
    Keyword,
    Body(BodyKind, Seq<Seq<char>>),
    SpeakBody(Seq<char>),
    CharFirst,
    CharSecond(Option<char>),
    KeyFirst,
    KeySecond(Seq<char>),
}

impl View for ParserMode {
    type V = ParserModeView;

    closed spec fn view(&self) -> ParserModeView {
        match self {
            ParserMode::Keyword => ParserModeView::Keyword,
            ParserMode::Body(k, lines) => ParserModeView::Body(*k, lines.deep_view()),
            ParserMode::SpeakBody(t) => ParserModeView::SpeakBody(t@),
            ParserMode::CharFirst => ParserModeView::CharFirst,
            ParserMode::CharSecond(c) => ParserModeView::CharSecond(*c),
            ParserMode::KeyFirst => ParserModeView::KeyFirst,
            ParserMode::KeySecond(k) => ParserModeView::KeySecond(k@),
        }
    }
}

/// What one fed line causes: the next parser mode, the acknowledgement
/// lines to write to the host, and at most one typed command.
pub ghost struct ParserStep {
    pub mode: ParserModeView,
    pub emits: Seq<Seq<char>>,
    pub command: Option<CommandView>,
}

/// The transition of the parser on one keyword line (already trimmed).
pub open spec fn spec_keyword_step(trimmed: Seq<char>, lang: Seq<char>) -> ParserStep {
    if trimmed == "INIT"@ {
        ParserStep {
            mode: ParserModeView::Keyword,
            emits: seq![
                "299-Chinfusor: Initialized successfully."@,
                "299 OK LOADED SUCCESSFULLY"@,
            ],
            command: Some(CommandView::Init),
        }
    } else if trimmed == "AUDIO"@ {
        ParserStep {
            mode: ParserModeView::Body(BodyKind::Audio, Seq::empty()),
            emits: seq!["207 OK RECEIVING AUDIO SETTINGS"@],
            command: None,
        }
    } else if trimmed == "LOGLEVEL"@ {
        ParserStep {
            mode: ParserModeView::Body(BodyKind::LogLevel, Seq::empty()),
            emits: seq!["207 OK RECEIVING LOGLEVEL SETTINGS"@],
            command: None,
        }
    } else if trimmed == "SET"@ {
        ParserStep {
            mode: ParserModeView::Body(BodyKind::SetParams, Seq::empty()),
            emits: seq!["203 OK RECEIVING SETTINGS"@],
            command: None,
        }
    } else if trimmed == "SPEAK"@ {
        ParserStep {
            mode: ParserModeView::SpeakBody(Seq::empty()),
            emits: seq!["202 OK RECEIVING MESSAGE"@],
            command: None,
        }
    } else if trimmed == "CHAR"@ {
        ParserStep {
            mode: ParserModeView::CharFirst,
            emits: seq!["202 OK RECEIVING MESSAGE"@],
            command: None,
        }
    } else if trimmed == "KEY"@ {
        ParserStep { mode: ParserModeView::KeyFirst, emits: Seq::empty(), command: None }
    } else if trimmed == "PAUSE"@ {
        ParserStep {
            mode: ParserModeView::Keyword,
            emits: Seq::empty(),
            command: Some(CommandView::Pause),
        }
    } else if trimmed == "STOP"@ {
        ParserStep {
            mode: ParserModeView::Keyword,
            emits: Seq::empty(),
            command: Some(CommandView::Stop),
        }
    } else if trimmed == "QUIT"@ {
        ParserStep {
            mode: ParserModeView::Keyword,
            emits: Seq::empty(),
            command: Some(CommandView::Quit),
        }
    } else if trimmed == "LIST VOICES"@ {
        ParserStep {
            mode: ParserModeView::Keyword,
            emits: seq!["200-Default\t"@ + lang + "\tnone"@, "200 OK VOICE LIST SENT"@],
            command: None,
        }
    } else {
        ParserStep { mode: ParserModeView::Keyword, emits: Seq::empty(), command: None }
    }
}

/// The closing acknowledgement of each settings block.
pub open spec fn spec_body_ack(kind: BodyKind) -> Seq<char> {
    match kind {
        BodyKind::Audio => "203 OK AUDIO INITIALIZED"@,
        BodyKind::LogLevel => "203 OK LOGLEVEL SET"@,
        BodyKind::SetParams => "203 OK SETTINGS RECEIVED"@,
    }
}

/// The finished command of each settings block.
pub open spec fn spec_body_command(kind: BodyKind, lines: Seq<Seq<char>>) -> CommandView {
    match kind {
        BodyKind::Audio => CommandView::Audio(lines),
        BodyKind::LogLevel => CommandView::LogLevel(lines),
        BodyKind::SetParams => CommandView::SetParams(lines),
    }
}

/// The transition of the parser on one raw input line, in any mode.
/// Keyword and settings-block lines are matched trimmed; an utterance body
/// is kept raw and closed by a line that is exactly the dot line; the two
/// argument lines of a character or key command are taken raw, the key's
/// final character (its line break) stripped.
pub open spec fn spec_parser_step(
    mode: ParserModeView,
    lang: Seq<char>,
    line: Seq<char>,
) -> ParserStep {
    match mode {
        ParserModeView::Keyword => spec_keyword_step(spec_trim(line), lang),
        ParserModeView::Body(kind, lines) => {
            if spec_trim(line) == "."@ {
                ParserStep {
                    mode: ParserModeView::Keyword,
                    emits: seq![spec_body_ack(kind)],
                    command: Some(spec_body_command(kind, lines)),
                }
            } else {
                ParserStep {
                    mode: ParserModeView::Body(kind, lines.push(spec_trim(line))),
                    emits: Seq::empty(),
                    command: None,
                }
            }
        },
        ParserModeView::SpeakBody(text) => {
            if line == ".\n"@ {
                ParserStep {
                    mode: ParserModeView::Keyword,
                    emits: seq!["200 OK SPEAKING"@],
                    command: Some(CommandView::Speak(text)),
                }
            } else {
                ParserStep {
                    mode: ParserModeView::SpeakBody(text + line),
                    emits: Seq::empty(),
                    command: None,
                }
            }
        },
        ParserModeView::CharFirst => ParserStep {
            mode: ParserModeView::CharSecond(
                if line.len() > 0 {
                    Some(line[0])
                } else {
                    None
                },
            ),
            emits: Seq::empty(),
            command: None,
        },
        ParserModeView::CharSecond(c) => ParserStep {
            mode: ParserModeView::Keyword,
            emits: seq!["200 OK SPEAKING"@],
            command: match c {
                Option::Some(ch) => Some(CommandView::Char(ch)),
                Option::None => None,
            },
        },
        ParserModeView::KeyFirst => ParserStep {
            mode: ParserModeView::KeySecond(line.take(line.len() - 1)),
            emits: Seq::empty(),
            command: None,
        },
        ParserModeView::KeySecond(key) => ParserStep {
            mode: ParserModeView::Keyword,
            emits: seq!["200 OK SPEAKING"@],
            command: Some(CommandView::Key(key)),
        },
    }
}

/// The host command parser: holds the mode between lines and the default
/// language announced on a voice-list request.
pub struct CommandParser {
    mode: ParserMode,
    default_language: String,
}

impl View for CommandParser {
    type V = ParserModeView;

    closed spec fn view(&self) -> ParserModeView {
        self.mode@
    }
}

impl CommandParser {
    /// The language announced in the voice list.
    pub closed spec fn lang(&self) -> Seq<char> {
        self.default_language@
    }

    /// A parser awaiting its first keyword line.
    pub fn new(default_language: &str) -> (r: CommandParser)
        ensures
            r@ is Keyword,
            r.lang() == default_language@,
    {
        CommandParser { mode: ParserMode::Keyword, default_language: default_language.to_owned() }
    }

    /// Feeds one raw input line (line break included) and yields the
    /// acknowledgement lines to write to the host and at most one typed
    /// command, exactly as `spec_parser_step` lays down.
    pub fn feed_line(&mut self, line: &str) -> (r: (Vec<String>, Option<SdInputCommand>))
        requires
            old(self)@ is KeyFirst ==> line@.len() > 0,
        ensures
            ({
                let step = spec_parser_step(old(self)@, old(self).lang(), line@);
                &&& final(self)@ == step.mode
                &&& final(self).lang() == old(self).lang()
                &&& r.0.deep_view() == step.emits
                &&& (match (r.1, step.command) {
                    (Option::Some(c), Option::Some(cv)) => c@ == cv,
                    (Option::None, Option::None) => true,
                    _ => false,
                })
            }),
    {
        let ghost step = spec_parser_step(self@, self.lang(), line@);
        let mut emits: Vec<String> = Vec::new();
        let mut command: Option<SdInputCommand> = None;
        let line_chars = chars_of(line);
        let mode = core::mem::replace(&mut self.mode, ParserMode::Keyword);
        match mode {
            ParserMode::Keyword => {
                let trimmed = string_from_range_trimmed(&line_chars, 0, line_chars.len());
                proof {
                    assert(line_chars@.subrange(0, line_chars@.len() as int) =~= line@);
                }
                let trimmed_chars = chars_of(trimmed.as_str());
                if chars_eq(&trimmed_chars, &chars_of("INIT")) {
                    emits.push("299-Chinfusor: Initialized successfully.".to_owned());
                    emits.push("299 OK LOADED SUCCESSFULLY".to_owned());
                    command = Some(SdInputCommand::Init);
                } else if chars_eq(&trimmed_chars, &chars_of("AUDIO")) {
                    emits.push("207 OK RECEIVING AUDIO SETTINGS".to_owned());
                    let empty_lines: Vec<String> = Vec::new();
                    proof {
                        assert(empty_lines.deep_view() =~~= Seq::<Seq<char>>::empty());
                    }
                    self.mode = ParserMode::Body(BodyKind::Audio, empty_lines);
                } else if chars_eq(&trimmed_chars, &chars_of("LOGLEVEL")) {
                    emits.push("207 OK RECEIVING LOGLEVEL SETTINGS".to_owned());
                    let empty_lines: Vec<String> = Vec::new();
                    proof {
                        assert(empty_lines.deep_view() =~~= Seq::<Seq<char>>::empty());
                    }
                    self.mode = ParserMode::Body(BodyKind::LogLevel, empty_lines);
                } else if chars_eq(&trimmed_chars, &chars_of("SET")) {
                    emits.push("203 OK RECEIVING SETTINGS".to_owned());
                    let empty_lines: Vec<String> = Vec::new();
                    proof {
                        assert(empty_lines.deep_view() =~~= Seq::<Seq<char>>::empty());
                    }
                    self.mode = ParserMode::Body(BodyKind::SetParams, empty_lines);
                } else if chars_eq(&trimmed_chars, &chars_of("SPEAK")) {
                    emits.push("202 OK RECEIVING MESSAGE".to_owned());
                    self.mode = ParserMode::SpeakBody(String::new());
                } else if chars_eq(&trimmed_chars, &chars_of("CHAR")) {
                    emits.push("202 OK RECEIVING MESSAGE".to_owned());
                    self.mode = ParserMode::CharFirst;
                } else if chars_eq(&trimmed_chars, &chars_of("KEY")) {
                    self.mode = ParserMode::KeyFirst;
                } else if chars_eq(&trimmed_chars, &chars_of("PAUSE")) {
                    command = Some(SdInputCommand::Pause);
                } else if chars_eq(&trimmed_chars, &chars_of("STOP")) {
                    command = Some(SdInputCommand::Stop);
                } else if chars_eq(&trimmed_chars, &chars_of("QUIT")) {
                    command = Some(SdInputCommand::Quit);
                } else if chars_eq(&trimmed_chars, &chars_of("LIST VOICES")) {
                    let mut voice_line = String::new();
                    voice_line.append("200-Default\t");
                    voice_line.append(self.default_language.as_str());
                    voice_line.append("\tnone");
                    emits.push(voice_line);
                    emits.push("200 OK VOICE LIST SENT".to_owned());
                }
            },
            ParserMode::Body(kind, mut lines) => {
                let trimmed = string_from_range_trimmed(&line_chars, 0, line_chars.len());
                proof {
                    assert(line_chars@.subrange(0, line_chars@.len() as int) =~= line@);
                }
                let trimmed_chars = chars_of(trimmed.as_str());
                if chars_eq(&trimmed_chars, &chars_of(".")) {
                    match kind {
                        BodyKind::Audio => {
                            emits.push("203 OK AUDIO INITIALIZED".to_owned());
                            command = Some(SdInputCommand::Audio(AudioSettings::new(lines)));
                        },
                        BodyKind::LogLevel => {
                            emits.push("203 OK LOGLEVEL SET".to_owned());
                            command = Some(SdInputCommand::LogLevel(LogLevelSettings::new(lines)));
                        },
                        BodyKind::SetParams => {
                            emits.push("203 OK SETTINGS RECEIVED".to_owned());
                            command = Some(SdInputCommand::SetParams(SpeechSettings::new(lines)));
                        },
                    }
                } else {
                    let ghost prev = lines.deep_view();
                    lines.push(trimmed);
                    proof {
                        assert(lines.deep_view() =~~= prev.push(spec_trim(line@)));
                    }
                    self.mode = ParserMode::Body(kind, lines);
                    proof {
                        assert(self@ == step.mode);
                    }
                }
            },
            ParserMode::SpeakBody(mut text) => {
                if chars_eq(&line_chars, &chars_of(".\n")) {
                    emits.push("200 OK SPEAKING".to_owned());
                    command = Some(SdInputCommand::Speak(text));
                } else {
                    text.append(line);
                    self.mode = ParserMode::SpeakBody(text);
                }
            },
            ParserMode::CharFirst => {
                let c = if line_chars.len() > 0 {
                    Some(line_chars[0])
                } else {
                    None
                };
                self.mode = ParserMode::CharSecond(c);
            },
            ParserMode::CharSecond(c) => {
                emits.push("200 OK SPEAKING".to_owned());
                command = match c {
                    Some(ch) => Some(SdInputCommand::Char(ch)),
                    None => None,
                };
            },
            ParserMode::KeyFirst => {
                let key = string_from_range(&line_chars, 0, line_chars.len() - 1);
                proof {
                    assert(line_chars@.subrange(0, line_chars@.len() - 1) =~= line@.take(
                        line@.len() - 1,
                    ));
                }
                self.mode = ParserMode::KeySecond(key);
            },
            ParserMode::KeySecond(key) => {
                emits.push("200 OK SPEAKING".to_owned());
                command = Some(SdInputCommand::Key(key));
            },
        }
        proof {
            assert(emits.deep_view() =~~= step.emits);
            assert(self@ == step.mode);
            assert(match (command, step.command) {
                (Option::Some(c), Option::Some(cv)) => c@ == cv,
                (Option::None, Option::None) => true,
                _ => false,
            });
        }
        (emits, command)
    }
}

} // verus!
