//! The playback orchestrator: the state machine that consumes host
//! commands, drives the chunks of an utterance across the engine pool one
//! at a time, resolves pause and stop against the current engine's lines,
//! and replays cached settings after a configuration reload.
//!
//! The orchestrator itself performs no input or output: every transition
//! yields the ordered list of actions — engine writes, host emissions,
//! read activations, waits — that the caller must perform.

use vstd::prelude::*;

use crate::config::{engines_view, spec_scheme_of, Config, EngineView};
use crate::settings::{
    spec_block_command, spec_pitch_command, spec_voice_command, AudioSettings, LogLevelSettings,
    SpeechSettings,
};
use crate::text_processor::LanguageChunk;

verus! {

/// One thing the caller must do, in list order: write raw bytes to an
/// engine's input, write a line to it, print a line to the host, hand the
/// engine's output to an asynchronous reader until the next terminal line,
/// or wait for the engine process to exit.
#[derive(Debug, PartialEq)]
pub enum Action {
    EngineWrite(usize, String),
    EngineWriteLine(usize, String),
    EmitHost(String),
    ActivateRead(usize),
    EngineWait(usize),
}

/// The mathematical content of one action.
pub ghost enum ActionView {
    EngineWrite(int, Seq<char>),
    EngineWriteLine(int, Seq<char>),
    EmitHost(Seq<char>),
    ActivateRead(int),
    EngineWait(int),
}

impl View for Action {
    type V = ActionView;

    open spec fn view(&self) -> ActionView {
        match self {
            Action::EngineWrite(e, s) => ActionView::EngineWrite(*e as int, s@),
            Action::EngineWriteLine(e, s) => ActionView::EngineWriteLine(*e as int, s@),
            Action::EmitHost(s) => ActionView::EmitHost(s@),
            Action::ActivateRead(e) => ActionView::ActivateRead(*e as int),
            Action::EngineWait(e) => ActionView::EngineWait(*e as int),
        }
    }
}

/// The views of an action list.
pub open spec fn actions_view(v: Seq<Action>) -> Seq<ActionView> {
    v.map_values(|a: Action| a@)
}

proof fn lemma_actions_view_push(s: Seq<Action>, x: Action)
    ensures
        actions_view(s.push(x)) == actions_view(s).push(x@),
{
    assert(actions_view(s.push(x)) =~= actions_view(s).push(x@));
}

/// Where playback stands: nothing in flight, a chunk being spoken, or a
/// pause or stop awaiting the current engine's terminal line.
#[derive(Clone, Copy, PartialEq, Eq, Structural, Debug)]
pub enum Phase {
    Idle,
    Speaking,
    WaitingPause,
    WaitingStop,
}

/// The playback orchestrator's state.
pub struct Orchestrator {
    pub config: Config,
    pub alphabets_scheme: Vec<u32>,
    pub audio_settings: Option<AudioSettings>,
    pub log_level_settings: Option<LogLevelSettings>,
    pub currently_speaking_engine: usize,
    pub currently_spoken_text: Vec<LanguageChunk>,
    pub currently_spoken_text_position: usize,
    pub capitalized: bool,
    pub original_pitch: i32,
    pub phase: Phase,
}

impl Orchestrator {
    /// The orchestrator's structural invariant: at least one engine (the
    /// fallback), every range list of even length, the scheme derived from
    /// the engine list, the current engine a valid index, and every chunk
    /// aimed at a valid engine.
    pub open spec fn wf(&self) -> bool {
        &&& 1 <= self.config.engines@.len() <= u32::MAX
        &&& (forall|j: int|
            0 <= j < self.config.engines@.len() ==> (#[trigger] self.config.engines@[j])@.unicode_ranges.len()
                % 2 == 0)
        &&& self.alphabets_scheme@ == spec_scheme_of(engines_view(self.config.engines@))
        &&& self.currently_speaking_engine < self.config.engines@.len()
        &&& (forall|j: int|
            0 <= j < self.currently_spoken_text@.len() ==> 0 <= (
            #[trigger] self.currently_spoken_text@[j])@.0 < self.config.engines@.len())
    }

    /// An orchestrator over a configuration, idle, with the scheme built
    /// and the first engine's pitch remembered.
    pub fn new(config: Config) -> (r: Orchestrator)
        requires
            1 <= config.engines@.len() <= u32::MAX,
            forall|j: int|
                0 <= j < config.engines@.len() ==> (#[trigger] config.engines@[j])@.unicode_ranges.len()
                    % 2 == 0,
        ensures
            r.wf(),
            r.config == config,
            r.phase is Idle,
            r.audio_settings is None,
            r.log_level_settings is None,
            r.currently_speaking_engine == 0,
            r.currently_spoken_text@.len() == 0,
            r.capitalized == false,
            r.original_pitch == config.engines@[0].pitch,
    {
        let alphabets_scheme = config.generate_alphabets_scheme();
        let original_pitch = config.engines[0].pitch;
        Orchestrator {
            config,
            alphabets_scheme,
            audio_settings: None,
            log_level_settings: None,
            currently_speaking_engine: 0,
            currently_spoken_text: Vec::new(),
            currently_spoken_text_position: 0,
            capitalized: false,
            original_pitch,
            phase: Phase::Idle,
        }
    }

    /// One line written to every engine, in engine order.
    pub open spec fn spec_broadcast_line(n: int, line: Seq<char>) -> Seq<ActionView> {
        Seq::new(n as nat, |i: int| ActionView::EngineWriteLine(i, line))
    }

    /// Writes `INIT` to every engine; the state does not change.
    pub fn handle_init(&self) -> (r: Vec<Action>)
        ensures
            actions_view(r@) == Self::spec_broadcast_line(self.config.engines@.len() as int, "INIT"@),
    {
        let mut r: Vec<Action> = Vec::new();
        let mut id: usize = 0;
        while id < self.config.engines.len()
            invariant
                id <= self.config.engines@.len(),
                actions_view(r@) == Self::spec_broadcast_line(
                    self.config.engines@.len() as int,
                    "INIT"@,
                ).take(id as int),
            decreases self.config.engines@.len() - id,
        {
            let ghost prev = r@;
            let action = Action::EngineWriteLine(id, "INIT".to_owned());
            let ghost ga = action;
            r.push(action);
            proof {
                let whole = Self::spec_broadcast_line(self.config.engines@.len() as int, "INIT"@);
                lemma_actions_view_push(prev, ga);
                assert(whole[id as int] == ga@);
                assert(whole.take(id as int).push(whole[id as int]) =~= whole.take(id + 1));
            }
            id = id + 1;
        }
        proof {
            let whole = Self::spec_broadcast_line(self.config.engines@.len() as int, "INIT"@);
            assert(whole.take(whole.len() as int) =~= whole);
        }
        r
    }

    /// A settings block is received while speaking or idle: it is cached
    /// only; nothing is written anywhere.
    pub fn handle_set(&mut self, _settings: SpeechSettings) -> (r: Vec<Action>)
        ensures
            r@.len() == 0,
            *final(self) == *old(self),
    {
        Vec::new()
    }

    /// Writes `QUIT` to every engine and acknowledges the quit to the
    /// host; the caller then waits for the engines and stops its loop.
    pub fn handle_quit(&self) -> (r: Vec<Action>)
        ensures
            actions_view(r@) == Self::spec_broadcast_line(
                self.config.engines@.len() as int,
                "QUIT"@,
            ).push(ActionView::EmitHost("210 OK QUIT"@)),
    {
        let mut r: Vec<Action> = Vec::new();
        let mut id: usize = 0;
        while id < self.config.engines.len()
            invariant
                id <= self.config.engines@.len(),
                actions_view(r@) == Self::spec_broadcast_line(
                    self.config.engines@.len() as int,
                    "QUIT"@,
                ).take(id as int),
            decreases self.config.engines@.len() - id,
        {
            let ghost prev = r@;
            let action = Action::EngineWriteLine(id, "QUIT".to_owned());
            let ghost ga = action;
            r.push(action);
            proof {
                let whole = Self::spec_broadcast_line(self.config.engines@.len() as int, "QUIT"@);
                lemma_actions_view_push(prev, ga);
                assert(whole[id as int] == ga@);
                assert(whole.take(id as int).push(whole[id as int]) =~= whole.take(id + 1));
            }
            id = id + 1;
        }
        let ghost whole = Self::spec_broadcast_line(self.config.engines@.len() as int, "QUIT"@);
        proof {
            assert(whole.take(whole.len() as int) =~= whole);
        }
        let ghost prev = r@;
        let action = Action::EmitHost("210 OK QUIT".to_owned());
        let ghost ga = action;
        r.push(action);
        proof {
            lemma_actions_view_push(prev, ga);
        }
        r
    }

    /// The writes of an audio block: to each engine the block itself, then
    /// that engine's configured voice parameters.
    pub open spec fn spec_audio_actions(es: Seq<EngineView>, lines: Seq<Seq<char>>) -> Seq<
        ActionView,
    > {
        Seq::new(
            (2 * es.len()) as nat,
            |k: int|
                if k % 2 == 0 {
                    ActionView::EngineWrite(k / 2, spec_block_command("AUDIO"@, lines))
                } else {
                    ActionView::EngineWrite(k / 2, spec_voice_command(es[k / 2]))
                },
        )
    }

    /// Forwards an audio block and each engine's voice parameters to every
    /// engine, and caches the block for replay after a reload.
    pub fn handle_audio(&mut self, settings: AudioSettings) -> (r: Vec<Action>)
        requires
            old(self).wf(),
        ensures
            final(self).wf(),
            actions_view(r@) == Self::spec_audio_actions(
                engines_view(old(self).config.engines@),
                settings@,
            ),
            final(self).audio_settings matches Some(a) && a@ == settings@,
            final(self).config == old(self).config,
            final(self).alphabets_scheme == old(self).alphabets_scheme,
            final(self).log_level_settings == old(self).log_level_settings,
            final(self).currently_speaking_engine == old(self).currently_speaking_engine,
            final(self).currently_spoken_text == old(self).currently_spoken_text,
            final(self).currently_spoken_text_position == old(
                self,
            ).currently_spoken_text_position,
            final(self).capitalized == old(self).capitalized,
            final(self).original_pitch == old(self).original_pitch,
            final(self).phase == old(self).phase,
    {
        let ghost es = engines_view(self.config.engines@);
        let ghost whole = Self::spec_audio_actions(es, settings@);
        let mut r: Vec<Action> = Vec::new();
        let audio_command = settings.generate_sd_command();
        let mut id: usize = 0;
        while id < self.config.engines.len()
            invariant
                id <= self.config.engines@.len(),
                es == engines_view(self.config.engines@),
                es.len() == self.config.engines@.len(),
                audio_command@ == spec_block_command("AUDIO"@, settings@),
                whole == Self::spec_audio_actions(es, settings@),
                actions_view(r@) == whole.take(2 * id),
            decreases self.config.engines@.len() - id,
        {
            let ghost prev0 = r@;
            let action0 = Action::EngineWrite(id, audio_command.clone());
            let ghost ga0 = action0;
            r.push(action0);
            let voice = SpeechSettings::generate_sd_command_from_engine_configuration(
                &self.config.engines[id],
            );
            let ghost prev1 = r@;
            let action1 = Action::EngineWrite(id, voice);
            let ghost ga1 = action1;
            r.push(action1);
            proof {
                assert(es[id as int] == self.config.engines@[id as int]@);
                lemma_actions_view_push(prev0, ga0);
                lemma_actions_view_push(prev1, ga1);
                assert(whole[2 * id] == ga0@);
                assert(whole[2 * id + 1] == ga1@);
                assert(whole.take(2 * id as int).push(whole[2 * id]).push(whole[2 * id + 1])
                    =~= whole.take(2 * (id + 1)));
            }
            id = id + 1;
        }
        proof {
            assert(whole.take(whole.len() as int) =~= whole);
        }
        self.audio_settings = Some(settings);
        r
    }

    /// Forwards a log-level block to every engine and caches it for replay
    /// after a reload.
    pub fn handle_log_level(&mut self, settings: LogLevelSettings) -> (r: Vec<Action>)
        requires
            old(self).wf(),
        ensures
            final(self).wf(),
            actions_view(r@) == Seq::new(
                old(self).config.engines@.len(),
                |i: int|
                    ActionView::EngineWrite(i, spec_block_command("LOGLEVEL"@, settings@)),
            ),
            final(self).log_level_settings matches Some(a) && a@ == settings@,
            final(self).config == old(self).config,
            final(self).alphabets_scheme == old(self).alphabets_scheme,
            final(self).audio_settings == old(self).audio_settings,
            final(self).currently_speaking_engine == old(self).currently_speaking_engine,
            final(self).currently_spoken_text == old(self).currently_spoken_text,
            final(self).currently_spoken_text_position == old(
                self,
            ).currently_spoken_text_position,
            final(self).capitalized == old(self).capitalized,
            final(self).original_pitch == old(self).original_pitch,
            final(self).phase == old(self).phase,
    {
        let ghost whole = Seq::new(
            self.config.engines@.len(),
            |i: int| ActionView::EngineWrite(i, spec_block_command("LOGLEVEL"@, settings@)),
        );
        let mut r: Vec<Action> = Vec::new();
        let command = settings.generate_sd_command();
        let mut id: usize = 0;
        while id < self.config.engines.len()
            invariant
                id <= self.config.engines@.len(),
                command@ == spec_block_command("LOGLEVEL"@, settings@),
                whole == Seq::new(
                    self.config.engines@.len(),
                    |i: int|
                        ActionView::EngineWrite(i, spec_block_command("LOGLEVEL"@, settings@)),
                ),
                actions_view(r@) == whole.take(id as int),
            decreases self.config.engines@.len() - id,
        {
            let ghost prev = r@;
            let action = Action::EngineWrite(id, command.clone());
            let ghost ga = action;
            r.push(action);
            proof {
                lemma_actions_view_push(prev, ga);
                assert(whole[id as int] == ga@);
                assert(whole.take(id as int).push(whole[id as int]) =~= whole.take(id + 1));
            }
            id = id + 1;
        }
        proof {
            assert(whole.take(whole.len() as int) =~= whole);
        }
        self.log_level_settings = Some(settings);
        r
    }
    /// The `CHAR` directive for one character.
    pub open spec fn spec_char_command(ch: char) -> Seq<char> {
        "CHAR\n"@ + seq![ch] + "\n.\n"@
    }

    /// The `KEY` directive for one key name.
    pub open spec fn spec_key_command(key: Seq<char>) -> Seq<char> {
        "KEY\n"@ + key + "\n.\n"@
    }

    /// The `SPEAK` directive for one chunk's text, wrapped in SSML.
    pub open spec fn spec_speak_command(text: Seq<char>) -> Seq<char> {
        "SPEAK\n<speak>"@ + text + "</speak>\n.\n"@
    }

    /// Speaks one character: the character picks its engine by
    /// classification; an uppercase character first pushes the engine's
    /// configured capitals pitch, to be restored when this utterance's
    /// terminal line arrives.
    pub fn handle_char(&mut self, ch: char) -> (r: Vec<Action>)
        requires
            old(self).wf(),
        ensures
            final(self).wf(),
            ({
                let es = engines_view(old(self).config.engines@);
                let e = crate::text_processor::spec_classify(
                    old(self).alphabets_scheme@,
                    ch as u32,
                );
                &&& final(self).currently_speaking_engine as int == e
                &&& final(self).original_pitch as int == es[e].pitch
                &&& final(self).capitalized == (old(self).capitalized
                    || crate::text::uppercase_of(ch))
                &&& final(self).phase is Speaking
                &&& actions_view(r@) == (if crate::text::uppercase_of(ch) {
                    seq![
                        ActionView::EngineWrite(e, spec_pitch_command(es[e].capitals_pitch)),
                    ]
                } else {
                    Seq::<ActionView>::empty()
                }) + seq![
                    ActionView::EngineWrite(e, Self::spec_char_command(ch)),
                    ActionView::EmitHost("701 BEGIN"@),
                    ActionView::ActivateRead(e),
                ]
            }),
            final(self).config == old(self).config,
            final(self).alphabets_scheme == old(self).alphabets_scheme,
            final(self).audio_settings == old(self).audio_settings,
            final(self).log_level_settings == old(self).log_level_settings,
            final(self).currently_spoken_text == old(self).currently_spoken_text,
            final(self).currently_spoken_text_position == old(
                self,
            ).currently_spoken_text_position,
    {
        proof {
            crate::config::lemma_scheme_wf(
                engines_view(self.config.engines@),
                self.config.engines@.len() as int,
            );
            crate::text_processor::lemma_classify_in_range(
                self.alphabets_scheme@,
                ch as u32,
                self.config.engines@.len() as int,
            );
        }
        let engine = crate::text_processor::identify_character(ch, &self.alphabets_scheme);
        self.currently_speaking_engine = engine;
        self.original_pitch = self.config.engines[engine].pitch;
        let capitals_pitch = self.config.engines[engine].capitals_pitch;
        let mut r: Vec<Action> = Vec::new();
        let ghost mut expected = Seq::<ActionView>::empty();
        if crate::text::char_is_uppercase(ch) {
            let ghost prev = r@;
            let action = Action::EngineWrite(
                engine,
                SpeechSettings::generate_sd_command_from_pitch(capitals_pitch),
            );
            let ghost ga = action;
            r.push(action);
            proof {
                lemma_actions_view_push(prev, ga);
            }
            self.capitalized = true;
        }
        let ghost after_pitch = actions_view(r@);
        let mut char_command = String::new();
        char_command.append("CHAR\n");
        crate::text::push_char(&mut char_command, ch);
        char_command.append("\n.\n");
        proof {
            assert(char_command@ =~= Self::spec_char_command(ch));
        }
        let ghost prev1 = r@;
        let action1 = Action::EngineWrite(engine, char_command);
        let ghost ga1 = action1;
        r.push(action1);
        let ghost prev2 = r@;
        let action2 = Action::EmitHost("701 BEGIN".to_owned());
        let ghost ga2 = action2;
        r.push(action2);
        let ghost prev3 = r@;
        let action3 = Action::ActivateRead(engine);
        let ghost ga3 = action3;
        r.push(action3);
        self.phase = Phase::Speaking;
        proof {
            lemma_actions_view_push(prev1, ga1);
            lemma_actions_view_push(prev2, ga2);
            lemma_actions_view_push(prev3, ga3);
            assert(actions_view(r@) =~= after_pitch + seq![ga1@, ga2@, ga3@]);
            if crate::text::uppercase_of(ch) {
                assert(after_pitch =~= seq![
                    ActionView::EngineWrite(
                        engine as int,
                        spec_pitch_command(
                            engines_view(self.config.engines@)[engine as int].capitals_pitch,
                        ),
                    ),
                ]);
            } else {
                assert(after_pitch =~= Seq::<ActionView>::empty());
            }
        }
        r
    }

    /// Speaks a key name: always routed to the fallback engine, whatever
    /// the name holds.
    pub fn handle_key(&mut self, text: String) -> (r: Vec<Action>)
        requires
            old(self).wf(),
        ensures
            final(self).wf(),
            final(self).currently_speaking_engine == 0,
            final(self).phase is Speaking,
            actions_view(r@) == seq![
                ActionView::EngineWrite(0, Self::spec_key_command(text@)),
                ActionView::EmitHost("701 BEGIN"@),
                ActionView::ActivateRead(0),
            ],
            final(self).config == old(self).config,
            final(self).alphabets_scheme == old(self).alphabets_scheme,
            final(self).audio_settings == old(self).audio_settings,
            final(self).log_level_settings == old(self).log_level_settings,
            final(self).currently_spoken_text == old(self).currently_spoken_text,
            final(self).currently_spoken_text_position == old(
                self,
            ).currently_spoken_text_position,
            final(self).capitalized == old(self).capitalized,
            final(self).original_pitch == old(self).original_pitch,
    {
        self.currently_speaking_engine = 0;
        let mut key_command = String::new();
        key_command.append("KEY\n");
        key_command.append(text.as_str());
        key_command.append("\n.\n");
        proof {
            assert(key_command@ =~= Self::spec_key_command(text@));
        }
        let mut r: Vec<Action> = Vec::new();
        let ghost prev1 = r@;
        let action1 = Action::EngineWrite(0, key_command);
        let ghost ga1 = action1;
        r.push(action1);
        let ghost prev2 = r@;
        let action2 = Action::EmitHost("701 BEGIN".to_owned());
        let ghost ga2 = action2;
        r.push(action2);
        let ghost prev3 = r@;
        let action3 = Action::ActivateRead(0);
        let ghost ga3 = action3;
        r.push(action3);
        self.phase = Phase::Speaking;
        proof {
            lemma_actions_view_push(prev1, ga1);
            lemma_actions_view_push(prev2, ga2);
            lemma_actions_view_push(prev3, ga3);
            assert(actions_view(r@) =~= seq![ga1@, ga2@, ga3@]);
        }
        r
    }

    /// The text an utterance is segmented from: the raw text with the
    /// SSML wrapper tags removed.
    pub open spec fn spec_stripped(text: Seq<char>) -> Seq<char> {
        crate::text::spec_remove_all(
            crate::text::spec_remove_all(text, "<speak>"@),
            "</speak>"@,
        )
    }

    /// Starts an utterance: ignored while something is already in flight;
    /// otherwise the text, stripped of its SSML wrapper, is segmented, and
    /// either the first chunk goes to its engine and playback begins, or —
    /// with no chunks at all — the begin and end marks are emitted at once
    /// and the orchestrator stays idle.
    pub fn handle_speak(&mut self, text: String) -> (r: Vec<Action>)
        requires
            old(self).wf(),
        ensures
            final(self).wf(),
            !(old(self).phase is Idle) ==> *final(self) == *old(self) && r@.len() == 0,
            ({
                let chunks = crate::text_processor::spec_parse_text(
                    Self::spec_stripped(text@),
                    old(self).alphabets_scheme@,
                    old(self).config.punctuation_characters@,
                    true,
                );
                old(self).phase is Idle ==> {
                    &&& crate::text_processor::chunks_view(final(self).currently_spoken_text@)
                        == chunks
                    &&& (chunks.len() > 0 ==> {
                        &&& final(self).phase is Speaking
                        &&& final(self).currently_spoken_text_position == 0
                        &&& final(self).currently_speaking_engine as int == chunks[0].0
                        &&& actions_view(r@) == seq![
                            ActionView::EngineWrite(
                                chunks[0].0,
                                Self::spec_speak_command(chunks[0].1),
                            ),
                            ActionView::EmitHost("701 BEGIN"@),
                            ActionView::ActivateRead(chunks[0].0),
                        ]
                    })
                    &&& (chunks.len() == 0 ==> {
                        &&& final(self).phase is Idle
                        &&& actions_view(r@) == seq![
                            ActionView::EmitHost("701 BEGIN"@),
                            ActionView::EmitHost("702 END"@),
                        ]
                    })
                }
            }),
            final(self).config == old(self).config,
            final(self).alphabets_scheme == old(self).alphabets_scheme,
            final(self).audio_settings == old(self).audio_settings,
            final(self).log_level_settings == old(self).log_level_settings,
            final(self).capitalized == old(self).capitalized,
            final(self).original_pitch == old(self).original_pitch,
    {
        if !(matches!(self.phase, Phase::Idle)) {
            return Vec::new();
        }
        let text_chars = crate::text::chars_of(text.as_str());
        let open_tag = crate::text::chars_of("<speak>");
        let close_tag = crate::text::chars_of("</speak>");
        let stripped_once = crate::text::remove_all(&text_chars, &open_tag);
        let stripped = crate::text::remove_all(&stripped_once, &close_tag);
        let stripped_string = crate::text::string_from_chars(&stripped);
        proof {
            crate::config::lemma_scheme_wf(
                engines_view(self.config.engines@),
                self.config.engines@.len() as int,
            );
            crate::text_processor::lemma_parse_text_types_bounded(
                Self::spec_stripped(text@),
                self.alphabets_scheme@,
                self.config.punctuation_characters@,
                true,
                self.config.engines@.len() as int,
            );
        }
        let chunks = crate::text_processor::parse_text(
            stripped_string.as_str(),
            &self.alphabets_scheme,
            &self.config.punctuation_characters,
            true,
        );
        let ghost cv = crate::text_processor::chunks_view(chunks@);
        self.currently_spoken_text = chunks;
        proof {
            assert forall|j: int| 0 <= j < self.currently_spoken_text@.len() implies 0 <= (
            #[trigger] self.currently_spoken_text@[j])@.0 < self.config.engines@.len() by {
                assert(cv[j] == self.currently_spoken_text@[j]@);
            }
        }
        let mut r: Vec<Action> = Vec::new();
        if self.currently_spoken_text.len() > 0 {
            self.currently_spoken_text_position = 0;
            proof {
                assert(cv[0] == self.currently_spoken_text@[0]@);
            }
            let engine = self.currently_spoken_text[0].0;
            self.currently_speaking_engine = engine;
            let mut speak_command = String::new();
            speak_command.append("SPEAK\n<speak>");
            speak_command.append(self.currently_spoken_text[0].1.as_str());
            speak_command.append("</speak>\n.\n");
            proof {
                assert(speak_command@ =~= Self::spec_speak_command(cv[0].1));
            }
            let ghost prev1 = r@;
            let action1 = Action::EngineWrite(engine, speak_command);
            let ghost ga1 = action1;
            r.push(action1);
            let ghost prev2 = r@;
            let action2 = Action::EmitHost("701 BEGIN".to_owned());
            let ghost ga2 = action2;
            r.push(action2);
            let ghost prev3 = r@;
            let action3 = Action::ActivateRead(engine);
            let ghost ga3 = action3;
            r.push(action3);
            self.phase = Phase::Speaking;
            proof {
                lemma_actions_view_push(prev1, ga1);
                lemma_actions_view_push(prev2, ga2);
                lemma_actions_view_push(prev3, ga3);
                assert(actions_view(r@) =~= seq![ga1@, ga2@, ga3@]);
            }
        } else {
            let ghost prev1 = r@;
            let action1 = Action::EmitHost("701 BEGIN".to_owned());
            let ghost ga1 = action1;
            r.push(action1);
            let ghost prev2 = r@;
            let action2 = Action::EmitHost("702 END".to_owned());
            let ghost ga2 = action2;
            r.push(action2);
            proof {
                lemma_actions_view_push(prev1, ga1);
                lemma_actions_view_push(prev2, ga2);
                assert(actions_view(r@) =~= seq![ga1@, ga2@]);
            }
        }
        r
    }
    /// Asks the current engine to pause: only while speaking; the
    /// orchestrator then awaits the engine's terminal line before anything
    /// else happens to the utterance.
    pub fn begin_pause(&mut self) -> (r: Vec<Action>)
        requires
            old(self).wf(),
        ensures
            final(self).wf(),
            old(self).phase is Speaking ==> final(self).phase is WaitingPause && actions_view(r@)
                == seq![
                ActionView::EngineWriteLine(
                    old(self).currently_speaking_engine as int,
                    "PAUSE"@,
                ),
            ],
            !(old(self).phase is Speaking) ==> *final(self) == *old(self) && r@.len() == 0,
            final(self).config == old(self).config,
            final(self).alphabets_scheme == old(self).alphabets_scheme,
            final(self).audio_settings == old(self).audio_settings,
            final(self).log_level_settings == old(self).log_level_settings,
            final(self).currently_speaking_engine == old(self).currently_speaking_engine,
            final(self).currently_spoken_text == old(self).currently_spoken_text,
            final(self).currently_spoken_text_position == old(
                self,
            ).currently_spoken_text_position,
            final(self).capitalized == old(self).capitalized,
            final(self).original_pitch == old(self).original_pitch,
    {
        if !(matches!(self.phase, Phase::Speaking)) {
            return Vec::new();
        }
        self.phase = Phase::WaitingPause;
        let mut r: Vec<Action> = Vec::new();
        let ghost prev = r@;
        let action = Action::EngineWriteLine(self.currently_speaking_engine, "PAUSE".to_owned());
        let ghost ga = action;
        r.push(action);
        proof {
            lemma_actions_view_push(prev, ga);
            assert(actions_view(r@) =~= seq![ga@]);
        }
        r
    }

    /// Asks the current engine to stop: only while speaking; the
    /// orchestrator then awaits the engine's terminal line.
    pub fn begin_stop(&mut self) -> (r: Vec<Action>)
        requires
            old(self).wf(),
        ensures
            final(self).wf(),
            old(self).phase is Speaking ==> final(self).phase is WaitingStop && actions_view(r@)
                == seq![
                ActionView::EngineWriteLine(old(self).currently_speaking_engine as int, "STOP"@),
            ],
            !(old(self).phase is Speaking) ==> *final(self) == *old(self) && r@.len() == 0,
            final(self).config == old(self).config,
            final(self).alphabets_scheme == old(self).alphabets_scheme,
            final(self).audio_settings == old(self).audio_settings,
            final(self).log_level_settings == old(self).log_level_settings,
            final(self).currently_speaking_engine == old(self).currently_speaking_engine,
            final(self).currently_spoken_text == old(self).currently_spoken_text,
            final(self).currently_spoken_text_position == old(
                self,
            ).currently_spoken_text_position,
            final(self).capitalized == old(self).capitalized,
            final(self).original_pitch == old(self).original_pitch,
    {
        if !(matches!(self.phase, Phase::Speaking)) {
            return Vec::new();
        }
        self.phase = Phase::WaitingStop;
        let mut r: Vec<Action> = Vec::new();
        let ghost prev = r@;
        let action = Action::EngineWriteLine(self.currently_speaking_engine, "STOP".to_owned());
        let ghost ga = action;
        r.push(action);
        proof {
            lemma_actions_view_push(prev, ga);
            assert(actions_view(r@) =~= seq![ga@]);
        }
        r
    }

    /// Whether a line is a playback progress line, relayed verbatim.
    pub open spec fn spec_is_progress(line: Seq<char>) -> bool {
        line.len() >= "700"@.len() && line.subrange(0, "700"@.len() as int) == "700"@
    }

    /// The terminal line a waiting phase resolves on besides `702 END`.
    pub open spec fn spec_wait_terminal(phase: Phase) -> Seq<char> {
        if phase is WaitingPause {
            "704 PAUSE"@
        } else {
            "703 STOP"@
        }
    }

    /// The utterance position after one `702 END`, never counting past
    /// the chunk list's end.
    pub open spec fn spec_next_position(pos: int, len: int) -> int {
        if pos < len {
            pos + 1
        } else {
            pos
        }
    }

    /// Feeds one line read from the current engine.
    ///
    /// While speaking, progress lines are relayed verbatim; `702 END`
    /// either sends the next chunk to its engine or — with no chunk left —
    /// restores an overridden pitch, reports the utterance's end, and goes
    /// idle.  While awaiting a pause or stop, progress lines are relayed,
    /// and exactly the matching terminal line or `702 END` resolves the
    /// wait: it is reported to the host, an overridden pitch is restored,
    /// and the orchestrator goes idle.  Anything else changes nothing.
    pub fn feed_engine_line(&mut self, line: &str) -> (r: Vec<Action>)
        requires
            old(self).wf(),
        ensures
            final(self).wf(),
            final(self).config == old(self).config,
            final(self).alphabets_scheme == old(self).alphabets_scheme,
            final(self).audio_settings == old(self).audio_settings,
            final(self).log_level_settings == old(self).log_level_settings,
            final(self).currently_spoken_text == old(self).currently_spoken_text,
            final(self).original_pitch == old(self).original_pitch,
            old(self).phase is Idle ==> *final(self) == *old(self) && r@.len() == 0,
            (old(self).phase is WaitingPause || old(self).phase is WaitingStop) ==> ({
                let terminal = Self::spec_wait_terminal(old(self).phase);
                let restore = if old(self).capitalized {
                    seq![
                        ActionView::EngineWrite(
                            old(self).currently_speaking_engine as int,
                            spec_pitch_command(old(self).original_pitch as int),
                        ),
                    ]
                } else {
                    Seq::<ActionView>::empty()
                };
                if line@ == terminal || line@ == "702 END"@ {
                    &&& final(self).phase is Idle
                    &&& final(self).capitalized == false
                    &&& actions_view(r@) == seq![ActionView::EmitHost(line@)] + restore
                    &&& final(self).currently_speaking_engine == old(
                        self,
                    ).currently_speaking_engine
                    &&& final(self).currently_spoken_text_position == old(
                        self,
                    ).currently_spoken_text_position
                } else {
                    &&& *final(self) == *old(self)
                    &&& (Self::spec_is_progress(line@) ==> actions_view(r@) == seq![
                        ActionView::EmitHost(line@),
                    ])
                    &&& (!Self::spec_is_progress(line@) ==> r@.len() == 0)
                }
            }),
            old(self).phase is Speaking ==> ({
                let chunks = crate::text_processor::chunks_view(
                    old(self).currently_spoken_text@,
                );
                let pos2 = Self::spec_next_position(
                    old(self).currently_spoken_text_position as int,
                    chunks.len() as int,
                );
                if Self::spec_is_progress(line@) {
                    &&& *final(self) == *old(self)
                    &&& actions_view(r@) == seq![ActionView::EmitHost(line@)]
                } else if line@ == "702 END"@ {
                    if pos2 >= chunks.len() {
                        &&& final(self).phase is Idle
                        &&& final(self).capitalized == false
                        &&& final(self).currently_spoken_text_position == pos2
                        &&& final(self).currently_speaking_engine == old(
                            self,
                        ).currently_speaking_engine
                        &&& actions_view(r@) == (if old(self).capitalized {
                            seq![
                                ActionView::EngineWrite(
                                    old(self).currently_speaking_engine as int,
                                    spec_pitch_command(old(self).original_pitch as int),
                                ),
                            ]
                        } else {
                            Seq::<ActionView>::empty()
                        }) + seq![ActionView::EmitHost("702 END"@)]
                    } else {
                        &&& final(self).phase is Speaking
                        &&& final(self).capitalized == old(self).capitalized
                        &&& final(self).currently_spoken_text_position == pos2
                        &&& final(self).currently_speaking_engine as int == chunks[pos2].0
                        &&& actions_view(r@) == seq![
                            ActionView::EngineWrite(
                                chunks[pos2].0,
                                Self::spec_speak_command(chunks[pos2].1),
                            ),
                            ActionView::ActivateRead(chunks[pos2].0),
                        ]
                    }
                } else {
                    &&& *final(self) == *old(self)
                    &&& r@.len() == 0
                }
            }),
    {
        let line_chars = crate::text::chars_of(line);
        let mut r: Vec<Action> = Vec::new();
        match self.phase {
            Phase::Idle => r,
            Phase::WaitingPause | Phase::WaitingStop => {
                let terminal: &str = if matches!(self.phase, Phase::WaitingPause) {
                    "704 PAUSE"
                } else {
                    "703 STOP"
                };
                let is_terminal = crate::text::chars_eq(
                    &line_chars,
                    &crate::text::chars_of(terminal),
                ) || crate::text::chars_eq(&line_chars, &crate::text::chars_of("702 END"));
                if is_terminal {
                    let ghost prev1 = r@;
                    let action1 = Action::EmitHost(line.to_owned());
                    let ghost ga1 = action1;
                    r.push(action1);
                    proof {
                        lemma_actions_view_push(prev1, ga1);
                    }
                    if self.capitalized {
                        let ghost prev2 = r@;
                        let action2 = Action::EngineWrite(
                            self.currently_speaking_engine,
                            SpeechSettings::generate_sd_command_from_pitch(self.original_pitch),
                        );
                        let ghost ga2 = action2;
                        r.push(action2);
                        proof {
                            lemma_actions_view_push(prev2, ga2);
                            assert(actions_view(r@) =~= seq![ga1@] + seq![ga2@]);
                        }
                        self.capitalized = false;
                    } else {
                        proof {
                            assert(actions_view(r@) =~= seq![ga1@]
                                + Seq::<ActionView>::empty());
                        }
                    }
                    self.phase = Phase::Idle;
                } else {
                    if crate::text::chars_start_with(
                        &line_chars,
                        &crate::text::chars_of("700"),
                    ) {
                        let ghost prev1 = r@;
                        let action1 = Action::EmitHost(line.to_owned());
                        let ghost ga1 = action1;
                        r.push(action1);
                        proof {
                            lemma_actions_view_push(prev1, ga1);
                            assert(actions_view(r@) =~= seq![ga1@]);
                        }
                    }
                }
                r
            },
            Phase::Speaking => {
                if crate::text::chars_start_with(&line_chars, &crate::text::chars_of("700")) {
                    let ghost prev1 = r@;
                    let action1 = Action::EmitHost(line.to_owned());
                    let ghost ga1 = action1;
                    r.push(action1);
                    proof {
                        lemma_actions_view_push(prev1, ga1);
                        assert(actions_view(r@) =~= seq![ga1@]);
                    }
                    return r;
                }
                if !crate::text::chars_eq(&line_chars, &crate::text::chars_of("702 END")) {
                    return r;
                }
                let ghost chunks = crate::text_processor::chunks_view(
                    self.currently_spoken_text@,
                );
                if self.currently_spoken_text_position < self.currently_spoken_text.len() {
                    self.currently_spoken_text_position = self.currently_spoken_text_position
                        + 1;
                }
                if self.currently_spoken_text_position >= self.currently_spoken_text.len() {
                    if self.capitalized {
                        let ghost prev1 = r@;
                        let action1 = Action::EngineWrite(
                            self.currently_speaking_engine,
                            SpeechSettings::generate_sd_command_from_pitch(self.original_pitch),
                        );
                        let ghost ga1 = action1;
                        r.push(action1);
                        proof {
                            lemma_actions_view_push(prev1, ga1);
                        }
                        self.capitalized = false;
                    }
                    let ghost before_emit = actions_view(r@);
                    let ghost prev2 = r@;
                    let action2 = Action::EmitHost("702 END".to_owned());
                    let ghost ga2 = action2;
                    r.push(action2);
                    self.phase = Phase::Idle;
                    proof {
                        lemma_actions_view_push(prev2, ga2);
                        assert(actions_view(r@) =~= before_emit + seq![ga2@]);
                        if old(self).capitalized {
                            assert(before_emit =~= seq![
                                ActionView::EngineWrite(
                                    old(self).currently_speaking_engine as int,
                                    spec_pitch_command(old(self).original_pitch as int),
                                ),
                            ]);
                        } else {
                            assert(before_emit =~= Seq::<ActionView>::empty());
                        }
                    }
                    r
                } else {
                    let pos = self.currently_spoken_text_position;
                    proof {
                        assert(chunks[pos as int] == self.currently_spoken_text@[pos as int]@);
                    }
                    let engine = self.currently_spoken_text[pos].0;
                    self.currently_speaking_engine = engine;
                    let mut speak_command = String::new();
                    speak_command.append("SPEAK\n<speak>");
                    speak_command.append(self.currently_spoken_text[pos].1.as_str());
                    speak_command.append("</speak>\n.\n");
                    proof {
                        assert(speak_command@ =~= Self::spec_speak_command(
                            chunks[pos as int].1,
                        ));
                    }
                    let ghost prev1 = r@;
                    let action1 = Action::EngineWrite(engine, speak_command);
                    let ghost ga1 = action1;
                    r.push(action1);
                    let ghost prev2 = r@;
                    let action2 = Action::ActivateRead(engine);
                    let ghost ga2 = action2;
                    r.push(action2);
                    proof {
                        lemma_actions_view_push(prev1, ga1);
                        lemma_actions_view_push(prev2, ga2);
                        assert(actions_view(r@) =~= seq![ga1@, ga2@]);
                    }
                    r
                }
            },
        }
    }
    /// The writes that quiesce the pool before a reload: each engine is
    /// told to quit and then waited on, in engine order.
    pub open spec fn spec_quiesce_actions(n: int) -> Seq<ActionView> {
        Seq::new(
            (2 * n) as nat,
            |k: int|
                if k % 2 == 0 {
                    ActionView::EngineWriteLine(k / 2, "QUIT"@)
                } else {
                    ActionView::EngineWait(k / 2)
                },
        )
    }

    /// Tells every engine to quit and waits for it, in engine order; the
    /// caller then rebuilds the engine processes.
    pub fn quiesce_actions(&self) -> (r: Vec<Action>)
        ensures
            actions_view(r@) == Self::spec_quiesce_actions(self.config.engines@.len() as int),
    {
        let ghost whole = Self::spec_quiesce_actions(self.config.engines@.len() as int);
        let mut r: Vec<Action> = Vec::new();
        let mut id: usize = 0;
        while id < self.config.engines.len()
            invariant
                id <= self.config.engines@.len(),
                whole == Self::spec_quiesce_actions(self.config.engines@.len() as int),
                actions_view(r@) == whole.take(2 * id),
            decreases self.config.engines@.len() - id,
        {
            let ghost prev0 = r@;
            let action0 = Action::EngineWriteLine(id, "QUIT".to_owned());
            let ghost ga0 = action0;
            r.push(action0);
            let ghost prev1 = r@;
            let action1 = Action::EngineWait(id);
            let ghost ga1 = action1;
            r.push(action1);
            proof {
                lemma_actions_view_push(prev0, ga0);
                lemma_actions_view_push(prev1, ga1);
                assert(whole[2 * id] == ga0@);
                assert(whole[2 * id + 1] == ga1@);
                assert(whole.take(2 * id as int).push(whole[2 * id]).push(whole[2 * id + 1])
                    =~= whole.take(2 * (id + 1)));
            }
            id = id + 1;
        }
        proof {
            assert(whole.take(whole.len() as int) =~= whole);
        }
        r
    }

    /// Installs a freshly loaded configuration: the scheme is rebuilt from
    /// it, the in-flight utterance state is cleared, and the cached audio
    /// and log-level blocks stay for replay.
    pub fn apply_config(&mut self, config: Config)
        requires
            old(self).wf(),
            1 <= config.engines@.len() <= u32::MAX,
            forall|j: int|
                0 <= j < config.engines@.len() ==> (#[trigger] config.engines@[j])@.unicode_ranges.len()
                    % 2 == 0,
        ensures
            final(self).wf(),
            final(self).config == config,
            final(self).alphabets_scheme@ == spec_scheme_of(engines_view(config.engines@)),
            final(self).audio_settings == old(self).audio_settings,
            final(self).log_level_settings == old(self).log_level_settings,
            final(self).currently_speaking_engine == 0,
            final(self).currently_spoken_text@.len() == 0,
            final(self).currently_spoken_text_position == 0,
            final(self).capitalized == old(self).capitalized,
            final(self).original_pitch == old(self).original_pitch,
            final(self).phase == old(self).phase,
    {
        let alphabets_scheme = config.generate_alphabets_scheme();
        self.config = config;
        self.alphabets_scheme = alphabets_scheme;
        self.currently_speaking_engine = 0;
        self.currently_spoken_text = Vec::new();
        self.currently_spoken_text_position = 0;
    }

    /// The writes that bring a fresh pool up after a reload: to each
    /// engine, in order, the init line, the cached audio block, its
    /// configured voice parameters, and — when one is cached — the
    /// log-level block.
    pub open spec fn spec_startup_actions(
        es: Seq<EngineView>,
        audio: Seq<Seq<char>>,
        log: Option<Seq<Seq<char>>>,
        id: int,
    ) -> Seq<ActionView>
        decreases es.len() - id,
    {
        if id < 0 || id >= es.len() {
            Seq::empty()
        } else {
            seq![
                ActionView::EngineWriteLine(id, "INIT"@),
                ActionView::EngineWrite(id, spec_block_command("AUDIO"@, audio)),
                ActionView::EngineWrite(id, spec_voice_command(es[id])),
            ] + (match log {
                Option::Some(l) => seq![
                    ActionView::EngineWrite(id, spec_block_command("LOGLEVEL"@, l)),
                ],
                Option::None => Seq::<ActionView>::empty(),
            }) + Self::spec_startup_actions(es, audio, log, id + 1)
        }
    }

    /// Replays the cached settings to a freshly spawned pool: init, the
    /// audio block, each engine's voice parameters, and the cached
    /// log-level block if any.
    pub fn startup_actions(&self) -> (r: Vec<Action>)
        requires
            self.audio_settings is Some,
        ensures
            actions_view(r@) == Self::spec_startup_actions(
                engines_view(self.config.engines@),
                self.audio_settings->0@,
                match self.log_level_settings {
                    Option::Some(l) => Some(l@),
                    Option::None => None,
                },
                0,
            ),
    {
        let ghost es = engines_view(self.config.engines@);
        let ghost audio_v = self.audio_settings->0@;
        let ghost log_v = match &self.log_level_settings {
            Option::Some(l) => Some(l@),
            Option::None => None,
        };
        let audio_command = match &self.audio_settings {
            Some(a) => a.generate_sd_command(),
            None => String::new(),
        };
        let log_command: Option<String> = match &self.log_level_settings {
            Some(l) => Some(l.generate_sd_command()),
            None => None,
        };
        let mut r: Vec<Action> = Vec::new();
        let mut id: usize = 0;
        while id < self.config.engines.len()
            invariant
                id <= self.config.engines@.len(),
                es == engines_view(self.config.engines@),
                es.len() == self.config.engines@.len(),
                self.audio_settings is Some,
                audio_v == self.audio_settings->0@,
                audio_command@ == spec_block_command("AUDIO"@, audio_v),
                log_v == (match self.log_level_settings {
                    Option::Some(l) => Some(l@),
                    Option::None => None,
                }),
                (match log_command {
                    Option::Some(c) => log_v matches Some(l) && c@ == spec_block_command(
                        "LOGLEVEL"@,
                        l,
                    ),
                    Option::None => log_v is None,
                }),
                Self::spec_startup_actions(es, audio_v, log_v, 0) == actions_view(r@)
                    + Self::spec_startup_actions(es, audio_v, log_v, id as int),
            decreases self.config.engines@.len() - id,
        {
            let ghost before = actions_view(r@);
            let ghost prev0 = r@;
            let action0 = Action::EngineWriteLine(id, "INIT".to_owned());
            let ghost ga0 = action0;
            r.push(action0);
            let ghost prev1 = r@;
            let action1 = Action::EngineWrite(id, audio_command.clone());
            let ghost ga1 = action1;
            r.push(action1);
            let voice = SpeechSettings::generate_sd_command_from_engine_configuration(
                &self.config.engines[id],
            );
            let ghost prev2 = r@;
            let action2 = Action::EngineWrite(id, voice);
            let ghost ga2 = action2;
            r.push(action2);
            proof {
                lemma_actions_view_push(prev0, ga0);
                lemma_actions_view_push(prev1, ga1);
                lemma_actions_view_push(prev2, ga2);
                assert(es[id as int] == self.config.engines@[id as int]@);
            }
            match &log_command {
                Some(c) => {
                    let ghost prev3 = r@;
                    let action3 = Action::EngineWrite(id, c.clone());
                    let ghost ga3 = action3;
                    r.push(action3);
                    proof {
                        lemma_actions_view_push(prev3, ga3);
                        let group = seq![ga0@, ga1@, ga2@] + seq![ga3@];
                        let rest = Self::spec_startup_actions(es, audio_v, log_v, id + 1);
                        assert(actions_view(r@) =~= before + group);
                        assert(before + group + rest =~= before + (group + rest));
                    }
                },
                None => {
                    proof {
                        let group = seq![ga0@, ga1@, ga2@] + Seq::<ActionView>::empty();
                        let rest = Self::spec_startup_actions(es, audio_v, log_v, id + 1);
                        assert(actions_view(r@) =~= before + group);
                        assert(before + group + rest =~= before + (group + rest));
                    }
                },
            }
            id = id + 1;
        }
        proof {
            assert(Self::spec_startup_actions(es, audio_v, log_v, es.len() as int) =~= Seq::<
                ActionView,
            >::empty());
            assert(actions_view(r@) + Seq::<ActionView>::empty() =~= actions_view(r@));
        }
        r
    }
    /// The host lines a waiting orchestrator emits, fed the given engine
    /// lines in order and stopping at the first terminal line: each step
    /// mirrors what `feed_engine_line` emits to the host in that phase.
    pub open spec fn spec_wait_emissions(phase: Phase, lines: Seq<Seq<char>>) -> Seq<Seq<char>>
        decreases lines.len(),
    {
        if lines.len() == 0 {
            Seq::empty()
        } else {
            let l = lines[0];
            if l == Self::spec_wait_terminal(phase) || l == "702 END"@ {
                seq![l]
            } else if Self::spec_is_progress(l) {
                seq![l] + Self::spec_wait_emissions(phase, lines.drop_first())
            } else {
                Self::spec_wait_emissions(phase, lines.drop_first())
            }
        }
    }

    /// Pause and stop resolution: while a pause or stop awaits the current
    /// engine, the progress lines seen before the first terminal line are
    /// relayed verbatim and in order, then exactly one terminal line — the
    /// matching one or the utterance's end, whichever arrived — is
    /// emitted, never both, and nothing after it is consumed.
    pub proof fn lemma_wait_resolution(phase: Phase, lines: Seq<Seq<char>>, t: int)
        requires
            phase is WaitingPause || phase is WaitingStop,
            0 <= t < lines.len(),
            lines[t] == Self::spec_wait_terminal(phase) || lines[t] == "702 END"@,
            forall|i: int|
                0 <= i < t ==> !(#[trigger] lines[i] == Self::spec_wait_terminal(phase)
                    || lines[i] == "702 END"@),
        ensures
            Self::spec_wait_emissions(phase, lines) == lines.take(t).filter(
                |l: Seq<char>| Self::spec_is_progress(l),
            ).push(lines[t]),
        decreases t,
    {
        reveal_with_fuel(Seq::filter, 3);
        broadcast use vstd::seq_lib::group_filter_ensures;

        if t == 0 {
            assert(lines.take(0).filter(|l: Seq<char>| Self::spec_is_progress(l)) =~= Seq::<
                Seq<char>,
            >::empty());
        } else {
            let rest = lines.drop_first();
            assert(forall|i: int| 0 <= i < t - 1 ==> rest[i] == lines[i + 1]);
            Self::lemma_wait_resolution(phase, rest, t - 1);
            let head = seq![lines[0]];
            assert(lines.take(t) =~= head + rest.take(t - 1));
            Seq::filter_distributes_over_add(
                head,
                rest.take(t - 1),
                |l: Seq<char>| Self::spec_is_progress(l),
            );
            if Self::spec_is_progress(lines[0]) {
                assert(head.filter(|l: Seq<char>| Self::spec_is_progress(l)) =~= head);
                assert((head + rest.take(t - 1).filter(
                    |l: Seq<char>| Self::spec_is_progress(l),
                ).push(rest[t - 1])) =~= (head + rest.take(t - 1).filter(
                    |l: Seq<char>| Self::spec_is_progress(l),
                )).push(rest[t - 1]));
            } else {
                assert(head.filter(|l: Seq<char>| Self::spec_is_progress(l)) =~= Seq::<
                    Seq<char>,
                >::empty());
                assert(Seq::<Seq<char>>::empty() + rest.take(t - 1).filter(
                    |l: Seq<char>| Self::spec_is_progress(l),
                ) =~= rest.take(t - 1).filter(|l: Seq<char>| Self::spec_is_progress(l)));
            }
        }
    }
}

} // verus!
