use voice_control::config::PluginConfig;
use voice_control::logger::{format_clock, new_log, now_utc, push};
use voice_control::tts::{
    custom_command_line, install_step, maybe_speak, InstallStep, pick_response, random_response, speak, speak_with_engine,
    SpeechPlan,
};

const NEUTRAL: [&str; 5] = ["Выполняю", "Готово", "Принято", "Сделано", "Понял"];
const FUN: [&str; 6] = ["Слушаюсь, шеф!", "Уже бегу!", "Как прикажете!", "Сделано, капитан!", "Один момент, сэр!", "Выполнено!"];

#[test]
fn responses_come_from_the_style_pool() {
    assert_eq!(pick_response("neutral", 0), "Выполняю");
    assert_eq!(pick_response("neutral", 7), "Принято");
    assert_eq!(pick_response("fun", 6), "Слушаюсь, шеф!");
    assert_eq!(pick_response("fun", 5), "Выполнено!");
    assert_eq!(pick_response("другой", 4), "Понял");
    for _ in 0..20 {
        assert!(FUN.contains(&random_response("fun").as_str()));
        assert!(NEUTRAL.contains(&random_response("neutral").as_str()));
    }
}

#[test]
fn spoken_feedback_follows_the_setting() {
    let mut cfg = PluginConfig::default();
    assert_eq!(maybe_speak(&cfg, Some("текст")), None);
    cfg.voice_feedback_enabled = true;
    assert_eq!(maybe_speak(&cfg, Some("текст")), Some("текст".to_string()));
    let t = maybe_speak(&cfg, None).unwrap();
    assert!(NEUTRAL.contains(&t.as_str()));
}

#[test]
fn engine_choice() {
    assert!(matches!(speak_with_engine("hi", "piper", "v", "", "", true), SpeechPlan::Piper { ref text, ref voice } if text == "hi" && voice == "v"));
    assert!(matches!(speak_with_engine("hi", "piper", "v", "", "", false), SpeechPlan::System { ref text } if text == "hi"));
    assert!(matches!(speak_with_engine("hi", "edge", "", "", "", false), SpeechPlan::Edge { ref voice, .. } if voice == "ru-RU-SvetlanaNeural"));
    assert!(matches!(speak_with_engine("hi", "edge", "", "en-US-Guy", "", false), SpeechPlan::Edge { ref voice, .. } if voice == "en-US-Guy"));
    assert!(matches!(speak_with_engine("hi", "custom", "", "", "", false), SpeechPlan::System { .. }));
    assert!(matches!(speak_with_engine("say \"hi\"", "custom", "", "", "say {text} && echo {text}", false),
        SpeechPlan::Custom { ref command } if command == "say say 'hi' && echo say 'hi'"));
    assert!(matches!(speak("привет"), SpeechPlan::System { ref text } if text == "привет"));
}

#[test]
fn custom_command_has_no_double_quotes_from_text() {
    let c = custom_command_line("a\"b\"\"c", "espeak \"{text}\"");
    assert_eq!(c, "espeak \"a'b''c\"");
}

#[test]
fn clock_text_format() {
    assert_eq!(format_clock(0, 0), "00:00:00.000");
    assert_eq!(format_clock(3_661, 7), "01:01:01.007");
    assert_eq!(format_clock(86_399, 999), "23:59:59.999");
    assert_eq!(format_clock(90_061, 42), "01:01:01.042");
    let t = now_utc();
    assert_eq!(t.len(), 12);
    let b = t.as_bytes();
    assert!(b[2] == b':' && b[5] == b':' && b[8] == b'.');
}

#[test]
fn log_keeps_the_newest_500() {
    let mut log = new_log();
    assert_eq!(log.len(), 0);
    for i in 0..510 {
        let e = push(&mut log, "info", format!("m{i}"));
        assert_eq!(e.msg, format!("m{i}"));
        assert_eq!(e.level, "info");
    }
    assert_eq!(log.len(), 500);
    assert_eq!(log.get(0).msg, "m10");
    assert_eq!(log.get(499).msg, "m509");
}

#[test]
fn edge_tts_installers_are_tried_in_order() {
    let step = install_step(false, 0, false);
    assert!(matches!(step, InstallStep::Run { ref program, ref args } if program == "pip3" && args == &vec!["install".to_string(), "edge-tts".to_string()]));
    assert!(matches!(install_step(false, 2, false), InstallStep::Run { ref program, .. } if program == "python3"));
    assert!(matches!(install_step(false, 4, false), InstallStep::Failed { ref message } if message == "Не удалось установить edge-tts. Убедитесь что Python и pip установлены."));
    assert!(matches!(install_step(true, 4, false), InstallStep::Run { ref program, ref args } if program == "py" && args.len() == 4));
    assert!(matches!(install_step(true, 5, false), InstallStep::Failed { .. }));
    assert!(matches!(install_step(true, 1, true), InstallStep::Installed));
}
