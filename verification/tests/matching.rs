use voice_control::config::{PluginConfig, VoiceCommand};
use voice_control::server::{
    chain_steps, find_exact_match, matches_trigger, normalize, plan_intercept, resolve_nlu,
    split_conjunctions, strip_agent_prefix, NluSpeech,
};
use voice_control::ollama::NluResult;

fn command(id: &str, trigger: &str, linux: &str, windows: &str) -> VoiceCommand {
    VoiceCommand {
        id: id.to_string(),
        trigger: trigger.to_string(),
        linux_cmd: linux.to_string(),
        windows_cmd: windows.to_string(),
        ..VoiceCommand::default()
    }
}

#[test]
fn normalize_lowercases_and_collapses() {
    assert_eq!(normalize("  Вилли,   ОТКРОЙ   Браузер!! "), "вилли открой браузер");
    assert_eq!(normalize("a1b"), "a b");
    assert_eq!(normalize("!!!"), "");
    assert_eq!(normalize(""), "");
    assert_eq!(normalize("Hello\tWORLD\n"), "hello world");
}

#[test]
fn normalized_text_has_single_spaces_only() {
    let n = normalize(" ..Раз,,  два--три 4 ");
    assert_eq!(n, "раз два три");
    assert!(!n.starts_with(' ') && !n.ends_with(' ') && !n.contains("  "));
}

#[test]
fn trigger_matching_rules() {
    assert!(matches_trigger("открой браузер", "открой браузер"));
    assert!(matches_trigger("пожалуйста открой браузер быстро", "открой браузер"));
    assert!(matches_trigger("браузер открой", "открой браузер"));
    assert!(!matches_trigger("открой калькулятор", "открой браузер"));
    // an empty trigger is contained in every text
    assert!(matches_trigger("что угодно", ""));
    assert!(!matches_trigger("", "открой"));
}

#[test]
fn agent_prefix_is_stripped() {
    assert_eq!(strip_agent_prefix("вилли, открой браузер!", "вилли"), Some("открой браузер".to_string()));
    assert_eq!(strip_agent_prefix("вилли", "вилли"), None);
    assert_eq!(strip_agent_prefix("вилли ,.! ", "вилли"), None);
    assert_eq!(strip_agent_prefix("открой браузер", "вилли"), None);
    assert_eq!(strip_agent_prefix("открой браузер", ""), None);
}

#[test]
fn chains_are_split_on_joining_words() {
    assert_eq!(
        split_conjunctions("открой браузер и открой калькулятор"),
        vec!["открой браузер".to_string(), "открой калькулятор".to_string()]
    );
    assert_eq!(
        split_conjunctions("a then b and c затем d"),
        vec!["a".to_string(), "b".to_string(), "c".to_string(), "d".to_string()]
    );
    assert_eq!(split_conjunctions("  один  "), vec!["один".to_string()]);
    assert_eq!(split_conjunctions("   "), Vec::<String>::new());
    assert_eq!(split_conjunctions(" и  и "), Vec::<String>::new());
    assert_eq!(split_conjunctions("и и"), vec!["и и".to_string()]);
}

#[test]
fn chain_parts_hold_no_joining_word() {
    for p in split_conjunctions("x и y а потом z также w then v") {
        for sep in [" и ", " затем ", " потом ", " а затем ", " а потом ", " также ", " and ", " then "] {
            assert!(!p.contains(sep));
        }
        assert!(!p.is_empty() && p.trim() == p);
    }
}

#[test]
fn first_matching_command_wins() {
    let mut cfg = PluginConfig::default();
    cfg.commands = vec![
        command("a", "открой браузер", "firefox", "start msedge"),
        command("b", "открой браузер", "chromium", "start chrome"),
    ];
    let m = find_exact_match("открой браузер", &cfg, false).unwrap();
    assert_eq!(m, ("открой браузер".to_string(), "firefox".to_string(), "открой браузер".to_string()));
    let m = find_exact_match("открой браузер", &cfg, true).unwrap();
    assert_eq!(m.1, "start msedge");
    assert_eq!(find_exact_match("закрой всё", &cfg, false), None);
}

#[test]
fn close_trigger_and_description_label() {
    let cfg = PluginConfig::default();
    let m = find_exact_match("закрой проводник", &cfg, false).unwrap();
    assert_eq!(m.0, "закрой проводник");
    assert_eq!(m.1, "pkill nautilus || pkill thunar || pkill dolphin");
    assert_eq!(m.2, "Файловый менеджер");
    let m = find_exact_match("открой проводник", &cfg, true).unwrap();
    assert_eq!(m.1, "explorer.exe");
}

#[test]
fn aliases_match() {
    let mut cfg = PluginConfig::default();
    let mut c = command("x", "запусти терминал", "xterm", "cmd");
    c.aliases = vec!["Консоль!".to_string()];
    cfg.commands = vec![c];
    let m = find_exact_match("открой консоль", &cfg, false).unwrap();
    assert_eq!(m.1, "xterm");
}

#[test]
fn intercept_exact_match() {
    let cfg = PluginConfig::default();
    let plan = plan_intercept(&cfg, "Вилли, открой браузер.", false);
    assert!(plan.response.intercept && plan.response.agent_detected);
    assert_eq!(plan.response.matched_trigger, Some("открой браузер".to_string()));
    assert_eq!(plan.response.feedback, Some("Выполняю: Браузер".to_string()));
    assert_eq!(plan.run, vec!["xdg-open https://google.com".to_string()]);
    assert!(plan.confirm_by_voice);
    assert!(plan.nlu_text.is_none());
}

#[test]
fn intercept_runs_every_part_of_a_chain() {
    let cfg = PluginConfig::default();
    let plan = plan_intercept(&cfg, "Вилли, открой браузер и открой калькулятор", false);
    assert!(plan.response.intercept && plan.response.agent_detected);
    assert_eq!(plan.response.matched_trigger, None);
    assert_eq!(plan.response.feedback, Some("Выполняю: Браузер → Калькулятор".to_string()));
    assert_eq!(
        plan.run,
        vec!["xdg-open https://google.com".to_string(), "gnome-calculator || kcalc || galculator".to_string()]
    );
    assert!(plan.confirm_by_voice);
    let plan = plan_intercept(&cfg, "вилли открой калькулятор и открой блокнот", true);
    assert_eq!(plan.run, vec!["calc.exe".to_string(), "notepad.exe".to_string()]);
    assert_eq!(plan.response.feedback, Some("Выполняю: Калькулятор → Текстовый редактор".to_string()));
}

#[test]
fn chain_steps_run_each_part() {
    let mut cfg = PluginConfig::default();
    cfg.commands = vec![VoiceCommand {
        id: "1".into(),
        trigger: "открой почту".into(),
        linux_cmd: "thunderbird".into(),
        close_trigger: "закрой почту".into(),
        linux_close_cmd: "pkill thunderbird".into(),
        ..VoiceCommand::default()
    }];
    let parts: Vec<Vec<char>> = vec!["открой почту".chars().collect(), "погода".chars().collect(), "закрой почту".chars().collect()];
    let (lines, labels) = chain_steps(&cfg.commands, &parts, false);
    assert_eq!(lines, vec!["thunderbird".to_string(), "pkill thunderbird".to_string()]);
    assert_eq!(labels, vec!["открой почту".to_string(), "закрыть закрой почту".to_string()]);
}

#[test]
fn intercept_without_agent_or_disabled() {
    let mut cfg = PluginConfig::default();
    let plan = plan_intercept(&cfg, "открой браузер", false);
    assert!(!plan.response.intercept && !plan.response.agent_detected);
    assert!(plan.run.is_empty());
    cfg.enabled = false;
    let plan = plan_intercept(&cfg, "вилли открой браузер", false);
    assert!(!plan.response.intercept && !plan.response.agent_detected);
    assert!(plan.run.is_empty() && !plan.confirm_by_voice);
}

#[test]
fn intercept_unknown_command_and_nlu() {
    let mut cfg = PluginConfig::default();
    let plan = plan_intercept(&cfg, "вилли какая погода", false);
    assert!(!plan.response.intercept && plan.response.agent_detected);
    assert!(plan.response.feedback.is_none());
    cfg.ollama_enabled = true;
    cfg.ollama_model = "llama3.2:1b".into();
    let plan = plan_intercept(&cfg, "вилли какая погода", false);
    assert!(plan.response.intercept && plan.response.agent_detected);
    assert_eq!(plan.response.feedback, Some("AI обрабатывает команду...".to_string()));
    assert_eq!(plan.nlu_text, Some("какая погода".to_string()));
    assert!(plan.run.is_empty());
}

#[test]
fn nlu_answer_runs_named_command() {
    let cfg = PluginConfig::default();
    let f = resolve_nlu(
        &cfg,
        NluResult { trigger: Some("Закрой проводник".into()), response_text: None, must_speak: false },
        false,
    );
    assert_eq!(f.run, Some("pkill nautilus || pkill thunar || pkill dolphin".to_string()));
    assert!(f.unknown_trigger.is_none());
    assert!(matches!(f.speech, NluSpeech::Confirmation));
    assert!(!f.nothing_returned);

    let f = resolve_nlu(
        &cfg,
        NluResult { trigger: Some("сделай кофе".into()), response_text: Some("Не умею".into()), must_speak: true },
        true,
    );
    assert_eq!(f.run, None);
    assert_eq!(f.unknown_trigger, Some("сделай кофе".to_string()));
    assert!(matches!(f.speech, NluSpeech::Direct(ref t) if t == "Не умею"));

    let f = resolve_nlu(&cfg, NluResult { trigger: None, response_text: Some("Привет".into()), must_speak: false }, false);
    assert!(matches!(f.speech, NluSpeech::Feedback(ref t) if t == "Привет"));

    let f = resolve_nlu(&cfg, NluResult { trigger: None, response_text: None, must_speak: false }, false);
    assert!(f.nothing_returned);
    assert!(matches!(f.speech, NluSpeech::Silent));
}

#[test]
fn normalizing_twice_changes_nothing() {
    for s in ["  Вилли,   ОТКРОЙ   Браузер!! ", "a1b--C", "Hello\tWORLD\n", "", "..."] {
        let once = normalize(s);
        assert_eq!(normalize(&once), once);
    }
}

#[test]
fn every_configured_trigger_is_intercepted() {
    let cfg = PluginConfig::default();
    for c in &cfg.commands {
        let plan = plan_intercept(&cfg, &format!("Вилли, {}!", c.trigger), true);
        assert!(plan.response.intercept && plan.response.agent_detected);
        assert!(plan.response.matched_trigger.is_some());
        assert_eq!(plan.run.len(), 1);
        assert!(plan.nlu_text.is_none());
    }
}

#[test]
fn chains_run_matching_parts_in_order() {
    let cfg = PluginConfig::default();
    let plan = plan_intercept(&cfg, "вилли открой проводник затем закрой проводник", false);
    assert_eq!(plan.run, vec!["xdg-open ~".to_string(), "pkill nautilus || pkill thunar || pkill dolphin".to_string()]);
    assert_eq!(plan.response.feedback, Some("Выполняю: Файловый менеджер → закрыть Файловый менеджер".to_string()));
    // a part that matches nothing is skipped
    let plan = plan_intercept(&cfg, "вилли погода и открой блокнот", false);
    assert_eq!(plan.run, vec!["gedit || kate || nano".to_string()]);
    assert_eq!(plan.response.matched_trigger, None);
    // nothing matches at all: nothing runs
    let plan = plan_intercept(&cfg, "вилли погода и новости", false);
    assert!(plan.run.is_empty() && !plan.response.intercept && plan.response.agent_detected);
}
