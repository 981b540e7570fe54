use voice_control::commands::{
    command_to_test, get_current_platform, launched_message, parse_u16, port_from_args,
    progress_percent, starts_in_background, TestCommandError,
};
use voice_control::config::{default_categories, PluginConfig, VoiceCommand};
use voice_control::ollama::{
    chat_endpoint, collect_tool_results, empty_result, fallback_from_fields, models_endpoint, model_ids, present_model_ids,
    tool_action_from, fallback_result, is_thinking, kill_reply, kill_target,
    quick_path, shell_output_text, strip_code_fence, summarized_result, system_prompt, tool_action,
    trigger_list, trigger_parameter_description, ToolAction, ToolCall,
};
use voice_control::piper::{
    archive_name, binary_url, catalog_hf_path, data_dir, piper_exe, voice_catalog, voice_files,
    voice_urls, voices_dir,
};
use voice_control::text::escape_single_quotes;

fn call(id: &str, name: &str, args: &str) -> ToolCall {
    ToolCall { id: id.into(), name: name.into(), arguments: args.into() }
}

#[test]
fn default_configuration() {
    let cfg = PluginConfig::default();
    assert!(cfg.enabled && cfg.autostart && !cfg.ollama_enabled && !cfg.voice_feedback_enabled);
    assert_eq!(cfg.agent_name, "Вилли");
    assert_eq!(cfg.port, 8790);
    assert_eq!(cfg.commands.len(), 5);
    assert_eq!(cfg.commands[4].trigger, "заблокируй компьютер");
    assert_eq!(cfg.ollama_url, "http://localhost:1234");
    assert_eq!(cfg.voice_engine, "system");
    assert_eq!(cfg.piper_voice, "ru_RU-denis-medium");
    assert_eq!(cfg.categories, default_categories());
    assert_eq!(cfg.categories[0], "Приложения");
    let blank = VoiceCommand::default();
    assert!(blank.trigger.is_empty() && blank.aliases.is_empty());
}

#[test]
fn thinking_models_and_prompt() {
    assert!(is_thinking("qwen3:8b"));
    assert!(is_thinking("qwq-32b"));
    assert!(!is_thinking("llama3.2:1b"));
    let p = system_prompt("Вилли", false, "fun", "");
    assert_eq!(p, "Ты голосовой ассистент Вилли. ОС: Linux (используй bash).\nИспользуй доступные инструменты для выполнения запросов. Ответы короткие — они будут озвучены вслух (максимум 2–3 предложения). Стиль: с характером, шутливый. Отвечай на русском.");
    let p = system_prompt("A", true, "neutral", "Будь вежлив.");
    assert!(p.starts_with("Ты голосовой ассистент A. ОС: Windows (используй PowerShell)."));
    assert!(p.ends_with("Стиль: нейтральный, краткий. Отвечай на русском.\n\nБудь вежлив."));
}

#[test]
fn tool_trigger_list() {
    let cfg = PluginConfig::default();
    let list = trigger_list(&cfg.commands);
    assert_eq!(list.len(), 6);
    assert_eq!(list[5], "закрой проводник");
    let d = trigger_parameter_description(&cfg.commands);
    assert!(d.starts_with("Точная триггерная фраза из списка: открой проводник; открой браузер;"));
    assert!(d.ends_with("; заблокируй компьютер; закрой проводник"));
}

#[test]
fn tool_calls_are_read() {
    assert!(matches!(tool_action(&call("1", "run_command", r#"{"trigger":"открой браузер"}"#)),
        ToolAction::RunCommand { ref trigger } if trigger == "открой браузер"));
    assert!(matches!(tool_action(&call("1", "run_command", "not json")),
        ToolAction::RunCommand { ref trigger } if trigger.is_empty()));
    assert!(matches!(tool_action(&call("1", "shell_query", "{}")),
        ToolAction::ShellQuery { ref command } if command == "echo пусто"));
    assert!(matches!(tool_action(&call("1", "show_terminal", r#"{"command":"df -h"}"#)),
        ToolAction::ShowTerminal { ref command, ref title } if command == "df -h" && title == "Агент"));
    assert!(matches!(tool_action(&call("1", "kill_process", r#"{"name":"firefox"}"#)),
        ToolAction::KillProcess { ref name } if name == "firefox"));
    assert!(matches!(tool_action(&call("1", "open_url", r#"{"url":"https://x.org"}"#)),
        ToolAction::OpenUrl { ref url } if url == "https://x.org"));
    assert!(matches!(tool_action(&call("1", "dance", "{}")), ToolAction::Unknown));
    assert_eq!(voice_control::ollama::default_tool_type(), "function");
}

#[test]
fn tool_round_results() {
    let calls = vec![
        call("a", "run_command", r#"{"trigger":"первый"}"#),
        call("b", "open_url", r#"{"url":"https://x.org"}"#),
        call("c", "run_command", r#"{"trigger":"второй"}"#),
        call("d", "kill_process", r#"{"name":"vlc"}"#),
        call("e", "show_terminal", "{}"),
        call("f", "nope", "{}"),
    ];
    let outputs = vec!["".to_string(), "".into(), "".into(), "Процесс vlc завершён".into(), "".into(), "".into()];
    let round = collect_tool_results(&calls, &outputs);
    assert_eq!(round.run_trigger, Some("второй".to_string()));
    assert!(round.shell_results.is_empty());
    assert_eq!(round.action_replies, vec![
        "Открываю https://x.org".to_string(),
        "Процесс vlc завершён".to_string(),
        "Терминал открыт, пользователь видит вывод".to_string(),
        "Неизвестный инструмент".to_string(),
    ]);
    let quick = quick_path(&round).unwrap();
    assert_eq!(quick.trigger, Some("второй".to_string()));
    assert!(quick.must_speak);
    assert_eq!(quick.response_text.unwrap(), "Открываю https://x.org; Процесс vlc завершён; Терминал открыт, пользователь видит вывод; Неизвестный инструмент");

    let calls = vec![call("q", "shell_query", r#"{"command":"df -h"}"#)];
    let round = collect_tool_results(&calls, &vec!["42G".to_string()]);
    assert_eq!(round.shell_results, vec![("q".to_string(), "42G".to_string())]);
    assert!(quick_path(&round).is_none());

    let round = collect_tool_results(&vec![call("r", "run_command", r#"{"trigger":"t"}"#)], &vec![String::new()]);
    let quick = quick_path(&round).unwrap();
    assert_eq!(quick.response_text, None);
    assert!(!quick.must_speak);
}

#[test]
fn summaries_and_fallback() {
    let r = summarized_result(Some("t".into()), Some("".into()));
    assert_eq!(r.response_text, Some("Готово".to_string()));
    assert!(r.must_speak);
    let r = summarized_result(None, Some("Занято 4 ГБ".into()));
    assert_eq!(r.response_text, Some("Занято 4 ГБ".to_string()));
    assert_eq!(r.trigger, None);

    assert_eq!(strip_code_fence("  ```json\n{\"a\":1}\n```  "), "{\"a\":1}");
    let r = fallback_result(Some("```json\n{\"trigger\": \"открой браузер\", \"response\": \"null\"}\n```".into()));
    assert_eq!(r.trigger, Some("открой браузер".to_string()));
    assert_eq!(r.response_text, None);
    assert!(!r.must_speak);
    let r = fallback_result(Some("просто текст".into()));
    assert!(r.trigger.is_none() && r.response_text.is_none());
    let r = fallback_result(None);
    assert!(r.trigger.is_none() && r.response_text.is_none());
    let e = empty_result();
    assert!(e.trigger.is_none() && e.response_text.is_none() && !e.must_speak);
}

#[test]
fn shell_output_shaping() {
    assert_eq!(shell_output_text("  hello \n", "err"), "hello");
    assert_eq!(shell_output_text("   ", " oops \n"), "oops");
    assert_eq!(shell_output_text("", ""), "Нет вывода");
    let long = "x".repeat(2500);
    let r = shell_output_text(&long, "");
    assert_eq!(r, format!("{}…(обрезано)", "x".repeat(2000)));
    let cyr = "я".repeat(1500);
    let r = shell_output_text(&cyr, "");
    assert_eq!(r, format!("{}…(обрезано)", "я".repeat(1000)));
}

#[test]
fn killing_processes() {
    assert_eq!(kill_target("notepad", true), "notepad.exe");
    assert_eq!(kill_target("notepad.exe", true), "notepad.exe");
    assert_eq!(kill_target("firefox", false), "firefox");
    assert_eq!(kill_reply("vlc", false, "whatever"), "Процесс vlc завершён");
    assert_eq!(kill_reply("vlc", true, "  SUCCESS  "), "SUCCESS");
    assert_eq!(kill_reply("vlc", true, "  "), "Процесс vlc завершён");
}

#[test]
fn testing_a_command() {
    let cfg = PluginConfig::default();
    assert_eq!(command_to_test(&cfg, "3", false).ok(), Some("gnome-calculator || kcalc || galculator".to_string()));
    assert_eq!(command_to_test(&cfg, "3", true).ok(), Some("calc.exe".to_string()));
    assert!(matches!(command_to_test(&cfg, "99", false), Err(TestCommandError::NotFound)));
    let mut cfg2 = PluginConfig::default();
    cfg2.commands[0].linux_cmd = String::new();
    let e = command_to_test(&cfg2, "1", false).err().unwrap();
    assert!(matches!(e, TestCommandError::NoCommandForPlatform));
    assert_eq!(e.message(), "Команда не задана для текущей платформы");
    assert_eq!(TestCommandError::NotFound.message(), "Команда не найдена");
    assert_eq!(launched_message("calc.exe"), "Запущено: calc.exe");
    assert_eq!(get_current_platform(true), "windows");
    assert_eq!(get_current_platform(false), "linux");
}

#[test]
fn command_line_flags() {
    let args = |v: &[&str]| v.iter().map(|s| s.to_string()).collect::<Vec<_>>();
    assert_eq!(port_from_args(&args(&["app", "--port", "9000"])), Some(9000));
    assert_eq!(port_from_args(&args(&["app", "--port", "x", "--port", "9000"])), None);
    assert_eq!(port_from_args(&args(&["app", "--port"])), None);
    assert_eq!(port_from_args(&args(&["app"])), None);
    assert_eq!(parse_u16("+65535"), Some(65535));
    assert_eq!(parse_u16("65536"), None);
    assert_eq!(parse_u16("007"), Some(7));
    assert_eq!(parse_u16("+"), None);
    assert_eq!(parse_u16("-1"), None);
    assert_eq!(parse_u16(""), None);
    assert_eq!(parse_u16(" 1"), None);
    assert!(starts_in_background(&args(&["app", "--background"])));
    assert!(!starts_in_background(&args(&["app", "--port", "1"])));
}

#[test]
fn download_progress() {
    assert_eq!(progress_percent(50, 200), 25);
    assert_eq!(progress_percent(200, 200), 100);
    assert_eq!(progress_percent(5, 0), 0);
}

#[test]
fn piper_files_and_catalog() {
    assert_eq!(data_dir(), vec!["easystt-voice-control".to_string(), "piper".to_string()]);
    assert_eq!(piper_exe(true), vec!["easystt-voice-control", "piper", "piper", "piper.exe"]);
    assert_eq!(piper_exe(false), vec!["easystt-voice-control", "piper", "piper", "piper"]);
    assert_eq!(voices_dir(), vec!["easystt-voice-control", "piper", "voices"]);
    assert_eq!(voice_files("ru_RU-irina-low"), ("ru_RU-irina-low.onnx".to_string(), "ru_RU-irina-low.onnx.json".to_string()));
    let cat = voice_catalog(&vec![false, true]);
    assert_eq!(cat.len(), 4);
    assert_eq!(cat[2].id, "ru_RU-denis-medium");
    assert_eq!(cat[1].size_mb, 18);
    assert!(!cat[0].installed && cat[1].installed && !cat[2].installed && !cat[3].installed);
    assert_eq!(catalog_hf_path("ru_RU-ruslan-medium"), Some("ru/ru_RU/ruslan/medium/ru_RU-ruslan-medium".to_string()));
    assert_eq!(catalog_hf_path("en_US-amy"), None);
    assert_eq!(archive_name(false, false), "piper_linux_x86.tar.gz");
    assert_eq!(archive_name(true, false), "piper_win.zip");
    assert_eq!(binary_url(false, true), "https://github.com/rhasspy/piper/releases/download/2023.11.14-2/piper_linux_aarch64.tar.gz");
    let (onnx, json) = voice_urls("ru/ru_RU/irina/low/ru_RU-irina-low");
    assert_eq!(onnx, "https://huggingface.co/rhasspy/piper-voices/resolve/v1.0.0/ru/ru_RU/irina/low/ru_RU-irina-low.onnx");
    assert_eq!(json, "https://huggingface.co/rhasspy/piper-voices/resolve/v1.0.0/ru/ru_RU/irina/low/ru_RU-irina-low.onnx.json");
    assert_eq!(escape_single_quotes("C:\\it's"), "C:\\it''s");
}

#[test]
fn model_list_is_read() {
    let body = r#"{"object":"list","data":[{"id":"llama3.2:1b"},{"name":"no id"},{"id":7},{"id":"qwen3:8b"}]}"#;
    assert_eq!(model_ids(body), vec!["llama3.2:1b".to_string(), "qwen3:8b".to_string()]);
    assert!(model_ids("not json").is_empty());
    assert!(model_ids(r#"{"data":{}}"#).is_empty());
}

#[test]
fn endpoints_drop_trailing_slashes() {
    assert_eq!(models_endpoint("http://localhost:1234"), "http://localhost:1234/v1/models");
    assert_eq!(models_endpoint("http://localhost:1234///"), "http://localhost:1234/v1/models");
    assert_eq!(chat_endpoint("http://h:1/"), "http://h:1/v1/chat/completions");
    assert_eq!(chat_endpoint(""), "/v1/chat/completions");
    assert_eq!(models_endpoint("/"), "/v1/models");
}

#[test]
fn actions_from_read_arguments() {
    let a = tool_action_from("show_terminal", None, Some("df".into()), None, None, None);
    assert!(matches!(a, ToolAction::ShowTerminal { ref command, ref title } if command == "df" && title == "Агент"));
    let a = tool_action_from("kill_process", Some("x".into()), None, None, Some("vlc".into()), None);
    assert!(matches!(a, ToolAction::KillProcess { ref name } if name == "vlc"));
    let a = tool_action_from("open_url", None, None, None, None, None);
    assert!(matches!(a, ToolAction::OpenUrl { ref url } if url.is_empty()));
    assert!(matches!(tool_action_from("", None, None, None, None, None), ToolAction::Unknown));

    let r = fallback_from_fields(Some("null".into()), Some("Привет".into()));
    assert_eq!(r.trigger, None);
    assert_eq!(r.response_text, Some("Привет".to_string()));
    let r = fallback_from_fields(Some("открой браузер".into()), Some(String::new()));
    assert_eq!(r.trigger, Some("открой браузер".to_string()));
    assert_eq!(r.response_text, None);
    assert!(!r.must_speak);

    let ids = vec![Some("a".to_string()), None, Some("b".to_string())];
    assert_eq!(present_model_ids(&ids), vec!["a".to_string(), "b".to_string()]);
    assert!(present_model_ids(&vec![None]).is_empty());
}

#[test]
fn no_model_means_nothing_to_do() {
    let r = voice_control::ollama::result_without_model("").unwrap();
    assert!(r.trigger.is_none() && r.response_text.is_none() && !r.must_speak);
    assert!(voice_control::ollama::result_without_model("llama3.2:1b").is_none());
}

#[test]
fn terminal_scripts() {
    assert_eq!(
        voice_control::ollama::windows_terminal_script_text("Get-Process", "Процессы"),
        "$host.UI.RawUI.WindowTitle = 'Процессы'; Get-Process; Write-Host ''; Write-Host 'Нажмите Enter для закрытия...' -ForegroundColor DarkGray; Read-Host"
    );
    let b = voice_control::ollama::shell_terminal_script_text("df -h");
    assert_eq!(b, "df -h; echo; read -p 'Нажмите Enter для закрытия...'");
    assert_eq!(voice_control::ollama::bash_command_argument("ls"), "bash -c 'ls'");
}
