//! Host protocol tests: the command parser's acknowledgements and typed
//! commands, and the engine command strings.

use chinfusor::command::{CommandParser, SdInputCommand};
use chinfusor::config::SpeechEngineConfiguration;
use chinfusor::reader::{is_terminal_line, LineAccumulator};
use chinfusor::settings::SpeechSettings;

#[test]
fn init_command_acks() {
    let mut p = CommandParser::new("en");
    let (emits, cmd) = p.feed_line("INIT\n");
    assert_eq!(
        emits,
        vec![
            "299-Chinfusor: Initialized successfully.".to_string(),
            "299 OK LOADED SUCCESSFULLY".to_string(),
        ]
    );
    assert!(matches!(cmd, Some(SdInputCommand::Init)));
}

#[test]
fn audio_block_collects_lines() {
    let mut p = CommandParser::new("en");
    let (emits, cmd) = p.feed_line("AUDIO\n");
    assert_eq!(emits, vec!["207 OK RECEIVING AUDIO SETTINGS".to_string()]);
    assert!(cmd.is_none());
    let (emits, cmd) = p.feed_line("audio_output_method=oss\n");
    assert!(emits.is_empty());
    assert!(cmd.is_none());
    let (emits, cmd) = p.feed_line(".\n");
    assert_eq!(emits, vec!["203 OK AUDIO INITIALIZED".to_string()]);
    match cmd {
        Some(SdInputCommand::Audio(settings)) => {
            assert_eq!(
                settings.generate_sd_command(),
                "AUDIO\naudio_output_method=oss\n.\n"
            );
        }
        _ => panic!("expected an audio command"),
    }
}

#[test]
fn speak_body_is_kept_raw() {
    let mut p = CommandParser::new("en");
    let (emits, _) = p.feed_line("SPEAK\n");
    assert_eq!(emits, vec!["202 OK RECEIVING MESSAGE".to_string()]);
    p.feed_line("first line\n");
    p.feed_line("second line\n");
    let (emits, cmd) = p.feed_line(".\n");
    assert_eq!(emits, vec!["200 OK SPEAKING".to_string()]);
    match cmd {
        Some(SdInputCommand::Speak(text)) => {
            assert_eq!(text, "first line\nsecond line\n");
        }
        _ => panic!("expected a speak command"),
    }
}

#[test]
fn char_command_takes_first_character() {
    let mut p = CommandParser::new("en");
    let (emits, _) = p.feed_line("CHAR\n");
    assert_eq!(emits, vec!["202 OK RECEIVING MESSAGE".to_string()]);
    let (emits, cmd) = p.feed_line("A\n");
    assert!(emits.is_empty());
    assert!(cmd.is_none());
    let (emits, cmd) = p.feed_line("rest\n");
    assert_eq!(emits, vec!["200 OK SPEAKING".to_string()]);
    assert!(matches!(cmd, Some(SdInputCommand::Char('A'))));
}

#[test]
fn key_command_strips_line_break() {
    let mut p = CommandParser::new("en");
    let (emits, _) = p.feed_line("KEY\n");
    assert!(emits.is_empty());
    let (_, cmd) = p.feed_line("space\n");
    assert!(cmd.is_none());
    let (emits, cmd) = p.feed_line("rest\n");
    assert_eq!(emits, vec!["200 OK SPEAKING".to_string()]);
    match cmd {
        Some(SdInputCommand::Key(key)) => assert_eq!(key, "space"),
        _ => panic!("expected a key command"),
    }
}

#[test]
fn list_voices_answers_default_language() {
    let mut p = CommandParser::new("sk");
    let (emits, cmd) = p.feed_line("LIST VOICES\n");
    assert_eq!(
        emits,
        vec![
            "200-Default\tsk\tnone".to_string(),
            "200 OK VOICE LIST SENT".to_string(),
        ]
    );
    assert!(cmd.is_none());
}

#[test]
fn pause_stop_quit_are_silent_commands() {
    let mut p = CommandParser::new("en");
    let (emits, cmd) = p.feed_line("PAUSE\n");
    assert!(emits.is_empty());
    assert!(matches!(cmd, Some(SdInputCommand::Pause)));
    let (emits, cmd) = p.feed_line("STOP\n");
    assert!(emits.is_empty());
    assert!(matches!(cmd, Some(SdInputCommand::Stop)));
    let (emits, cmd) = p.feed_line("QUIT\n");
    assert!(emits.is_empty());
    assert!(matches!(cmd, Some(SdInputCommand::Quit)));
}

#[test]
fn unknown_lines_are_ignored() {
    let mut p = CommandParser::new("en");
    let (emits, cmd) = p.feed_line("NONSENSE\n");
    assert!(emits.is_empty());
    assert!(cmd.is_none());
}

#[test]
fn voice_command_from_configuration() {
    let e = SpeechEngineConfiguration::load_from_string(
        "x,*,/bin/mod,a,el,female2,all,-5,70,3,90,no",
    )
    .unwrap();
    assert_eq!(
        SpeechSettings::generate_sd_command_from_engine_configuration(&e),
        "SET\nlanguage=el\nvoice=female2\npunctuation_mode=all\npitch=-5\nrate=3\nvolume=90\n.\n"
    );
}

#[test]
fn pitch_command_formats_numbers() {
    assert_eq!(SpeechSettings::generate_sd_command_from_pitch(50), "SET\npitch=50\n.\n");
    assert_eq!(SpeechSettings::generate_sd_command_from_pitch(0), "SET\npitch=0\n.\n");
    assert_eq!(SpeechSettings::generate_sd_command_from_pitch(-100), "SET\npitch=-100\n.\n");
}

#[test]
fn parametrized_command_carries_language() {
    assert_eq!(
        SpeechSettings::generate_sd_command_parametrized("cs"),
        "SET\nvolume=100\npitch=7\nvoice=male1\nlanguage=cs\n.\n"
    );
}

#[test]
fn terminal_lines_are_recognized() {
    assert!(is_terminal_line("702 END"));
    assert!(is_terminal_line("703 STOP"));
    assert!(is_terminal_line("704 PAUSE"));
    assert!(!is_terminal_line("700 10"));
    assert!(!is_terminal_line("702 END "));
    assert!(!is_terminal_line(""));
}

#[test]
fn line_accumulator_assembles_lines() {
    let mut acc = LineAccumulator::new();
    assert!(acc.push_byte(b'7').is_none());
    assert!(acc.push_byte(b'0').is_none());
    assert!(acc.push_byte(b'2').is_none());
    let line = acc.push_byte(b'\n');
    assert_eq!(line, Some(vec![b'7', b'0', b'2']));
    // the accumulator is empty again
    let line = acc.push_byte(b'\n');
    assert_eq!(line, Some(Vec::new()));
}

#[test]
fn pitch_command_formats_extremes() {
    assert_eq!(
        SpeechSettings::generate_sd_command_from_pitch(i32::MIN),
        "SET\npitch=-2147483648\n.\n"
    );
    assert_eq!(
        SpeechSettings::generate_sd_command_from_pitch(i32::MAX),
        "SET\npitch=2147483647\n.\n"
    );
}
