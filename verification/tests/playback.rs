//! Playback orchestrator tests: the begin/end marks, the capitals pitch
//! override, pause resolution, and the quit broadcast.

use chinfusor::command::SdInputCommand;
use chinfusor::config::Config;
use chinfusor::orchestrator::{Action, Orchestrator, Phase};

fn config_with_capitals(pitch: i32, capitals_pitch: i32) -> Config {
    let mut c = Config::new();
    c.load_alphabets_from_string(&format!(
        "latin,*,/bin/a,x,en,male1,some,{},{},2,100,no",
        pitch, capitals_pitch
    ));
    c
}

#[test]
fn empty_speak_emits_begin_and_end() {
    // an utterance with no chunks is begun and ended at once, staying idle
    let mut orch = Orchestrator::new(Config::new());
    let actions = orch.handle_speak("".to_string());
    assert_eq!(
        actions,
        vec![
            Action::EmitHost("701 BEGIN".to_string()),
            Action::EmitHost("702 END".to_string()),
        ]
    );
    assert_eq!(orch.phase, Phase::Idle);
}

#[test]
fn capitals_pitch_override_and_restore() {
    // an uppercase character pushes the capitals pitch before the CHAR
    // directive, and the terminal line restores the normal pitch
    let mut orch = Orchestrator::new(config_with_capitals(10, 50));
    let actions = orch.handle_char('A');
    assert_eq!(
        actions,
        vec![
            Action::EngineWrite(0, "SET\npitch=50\n.\n".to_string()),
            Action::EngineWrite(0, "CHAR\nA\n.\n".to_string()),
            Action::EmitHost("701 BEGIN".to_string()),
            Action::ActivateRead(0),
        ]
    );
    assert_eq!(orch.phase, Phase::Speaking);
    assert!(orch.capitalized);

    let actions = orch.feed_engine_line("702 END");
    assert_eq!(
        actions,
        vec![
            Action::EngineWrite(0, "SET\npitch=10\n.\n".to_string()),
            Action::EmitHost("702 END".to_string()),
        ]
    );
    assert_eq!(orch.phase, Phase::Idle);
    assert!(!orch.capitalized);
}

#[test]
fn lowercase_char_has_no_pitch_override() {
    let mut orch = Orchestrator::new(config_with_capitals(10, 50));
    let actions = orch.handle_char('a');
    assert_eq!(
        actions,
        vec![
            Action::EngineWrite(0, "CHAR\na\n.\n".to_string()),
            Action::EmitHost("701 BEGIN".to_string()),
            Action::ActivateRead(0),
        ]
    );
    assert!(!orch.capitalized);
}

#[test]
fn pause_relays_progress_then_one_terminal() {
    // pause while speaking: any 700-prefixed lines are relayed, then
    // exactly one of 704 PAUSE or 702 END is emitted, and the
    // orchestrator is idle again
    let mut orch = Orchestrator::new(Config::new());
    orch.handle_key("space".to_string());
    assert_eq!(orch.phase, Phase::Speaking);

    let actions = orch.begin_pause();
    assert_eq!(actions, vec![Action::EngineWriteLine(0, "PAUSE".to_string())]);
    assert_eq!(orch.phase, Phase::WaitingPause);

    let actions = orch.feed_engine_line("700 10");
    assert_eq!(actions, vec![Action::EmitHost("700 10".to_string())]);
    assert_eq!(orch.phase, Phase::WaitingPause);

    let actions = orch.feed_engine_line("whatever");
    assert!(actions.is_empty());

    let actions = orch.feed_engine_line("704 PAUSE");
    assert_eq!(actions, vec![Action::EmitHost("704 PAUSE".to_string())]);
    assert_eq!(orch.phase, Phase::Idle);
}

#[test]
fn stop_resolves_on_end_too() {
    let mut orch = Orchestrator::new(Config::new());
    orch.handle_key("enter".to_string());
    let actions = orch.begin_stop();
    assert_eq!(actions, vec![Action::EngineWriteLine(0, "STOP".to_string())]);
    let actions = orch.feed_engine_line("702 END");
    assert_eq!(actions, vec![Action::EmitHost("702 END".to_string())]);
    assert_eq!(orch.phase, Phase::Idle);
}

#[test]
fn speak_walks_chunks_across_engines() {
    let mut c = Config::new();
    c.load_alphabets_from_string("latin,*,/bin/a,x,en,male1,some,10,50,2,100,no\nchinese,u0x4E00-u0x9FA5,/bin/b,y,cmn,male1,some,10,50,2,100,no");
    let mut orch = Orchestrator::new(c);
    let actions = orch.handle_speak("hi 你好".to_string());
    assert_eq!(
        actions,
        vec![
            Action::EngineWrite(0, "SPEAK\n<speak>hi</speak>\n.\n".to_string()),
            Action::EmitHost("701 BEGIN".to_string()),
            Action::ActivateRead(0),
        ]
    );
    // the first chunk finishes: the second goes to the chinese engine
    let actions = orch.feed_engine_line("702 END");
    assert_eq!(
        actions,
        vec![
            Action::EngineWrite(1, "SPEAK\n<speak>你好</speak>\n.\n".to_string()),
            Action::ActivateRead(1),
        ]
    );
    assert_eq!(orch.phase, Phase::Speaking);
    // the last chunk finishes: the utterance ends
    let actions = orch.feed_engine_line("702 END");
    assert_eq!(actions, vec![Action::EmitHost("702 END".to_string())]);
    assert_eq!(orch.phase, Phase::Idle);
}

#[test]
fn speak_strips_ssml_wrapper() {
    let mut orch = Orchestrator::new(Config::new());
    let actions = orch.handle_speak("<speak>hello</speak>".to_string());
    assert_eq!(
        actions[0],
        Action::EngineWrite(0, "SPEAK\n<speak>hello</speak>\n.\n".to_string())
    );
}

#[test]
fn quit_broadcasts_and_acknowledges() {
    let mut c = Config::new();
    c.load_alphabets_from_string("latin,*,/bin/a,x,en,male1,some,10,50,2,100,no\nchinese,u0x4E00-u0x9FA5,/bin/b,y,cmn,male1,some,10,50,2,100,no");
    let orch = Orchestrator::new(c);
    let actions = orch.handle_quit();
    assert_eq!(
        actions,
        vec![
            Action::EngineWriteLine(0, "QUIT".to_string()),
            Action::EngineWriteLine(1, "QUIT".to_string()),
            Action::EmitHost("210 OK QUIT".to_string()),
        ]
    );
}

#[test]
fn set_command_is_not_forwarded() {
    let mut orch = Orchestrator::new(Config::new());
    let mut p = chinfusor::command::CommandParser::new("en");
    p.feed_line("SET\n");
    p.feed_line("rate=5\n");
    let (_, cmd) = p.feed_line(".\n");
    match cmd {
        Some(SdInputCommand::SetParams(s)) => {
            let actions = orch.handle_set(s);
            assert!(actions.is_empty());
        }
        _ => panic!("expected a settings command"),
    }
}

#[test]
fn reload_actions_replay_cached_settings() {
    let mut orch = Orchestrator::new(Config::new());
    let mut p = chinfusor::command::CommandParser::new("en");
    p.feed_line("AUDIO\n");
    p.feed_line("audio_output_method=alsa\n");
    let (_, cmd) = p.feed_line(".\n");
    match cmd {
        Some(SdInputCommand::Audio(settings)) => {
            orch.handle_audio(settings);
        }
        _ => panic!("expected an audio command"),
    }
    let quiesce = orch.quiesce_actions();
    assert_eq!(
        quiesce,
        vec![
            Action::EngineWriteLine(0, "QUIT".to_string()),
            Action::EngineWait(0),
        ]
    );
    let mut new_config = Config::new();
    new_config.load_alphabets_from_string("latin,*,/bin/a,x,en,male1,some,10,50,2,100,no");
    orch.apply_config(new_config);
    let startup = orch.startup_actions();
    assert_eq!(
        startup,
        vec![
            Action::EngineWriteLine(0, "INIT".to_string()),
            Action::EngineWrite(0, "AUDIO\naudio_output_method=alsa\n.\n".to_string()),
            Action::EngineWrite(
                0,
                "SET\nlanguage=en\nvoice=male1\npunctuation_mode=some\npitch=10\nrate=2\nvolume=100\n.\n"
                    .to_string()
            ),
        ]
    );
}

#[test]
fn pause_restores_capitals_pitch() {
    // the pitch override survives until the pause resolves, then the
    // normal pitch is written back after the terminal is reported
    let mut orch = Orchestrator::new(config_with_capitals(15, 60));
    orch.handle_char('B');
    let _ = orch.begin_pause();
    let actions = orch.feed_engine_line("704 PAUSE");
    assert_eq!(
        actions,
        vec![
            Action::EmitHost("704 PAUSE".to_string()),
            Action::EngineWrite(0, "SET\npitch=15\n.\n".to_string()),
        ]
    );
    assert!(!orch.capitalized);
    assert_eq!(orch.phase, Phase::Idle);
}

#[test]
fn char_routes_to_its_alphabet_engine() {
    let mut c = Config::new();
    c.load_alphabets_from_string("latin,*,/bin/a,x,en,male1,some,10,50,2,100,no\ncyrillic,u0x400-u0x52F,/bin/c,z,ru,male1,some,7,40,2,100,no");
    let mut orch = Orchestrator::new(c);
    let actions = orch.handle_char('Ж');
    assert_eq!(
        actions,
        vec![
            Action::EngineWrite(1, "SET\npitch=40\n.\n".to_string()),
            Action::EngineWrite(1, "CHAR\nЖ\n.\n".to_string()),
            Action::EmitHost("701 BEGIN".to_string()),
            Action::ActivateRead(1),
        ]
    );
    assert_eq!(orch.currently_speaking_engine, 1);
    assert_eq!(orch.original_pitch, 7);
}
