//! Spoken feedback: the confirmation phrases and the choice of speech engine.
use vstd::prelude::*;
use crate::clock::{since_epoch, sub_second_nanos};
use crate::config::PluginConfig;
use crate::text::{
    views_of, chars_of, lemma_replace_removes, replace_all, replace_chars, same_chars, string_from_chars,
};

verus! {

/// The neutral confirmation phrases.
pub open spec fn neutral_phrases() -> Seq<Seq<char>> {
    seq!["Выполняю"@, "Готово"@, "Принято"@, "Сделано"@, "Понял"@]
}

/// The playful confirmation phrases.
pub open spec fn fun_phrases() -> Seq<Seq<char>> {
    seq![
        "Слушаюсь, шеф!"@,
        "Уже бегу!"@,
        "Как прикажете!"@,
        "Сделано, капитан!"@,
        "Один момент, сэр!"@,
        "Выполнено!"@,
    ]
}

/// The phrases of a style: "fun" picks the playful ones, any other style the neutral ones.
pub open spec fn phrase_pool(style: Seq<char>) -> Seq<Seq<char>> {
    if style == "fun"@ {
        fun_phrases()
    } else {
        neutral_phrases()
    }
}

/// Whether two strings hold the same characters.
pub fn str_eq(a: &str, b: &str) -> (r: bool)
    ensures
        r == (a@ == b@),
{
    same_chars(&chars_of(a), &chars_of(b))
}

/// The phrase of `style` at position `idx`, counted round the pool.
pub fn pick_response(style: &str, idx: usize) -> (r: String)
    ensures
        r@ == phrase_pool(style@)[(idx as int) % (phrase_pool(style@).len() as int)],
{
    let pool: Vec<&str> = if str_eq(style, "fun") {
        vec!["Слушаюсь, шеф!", "Уже бегу!", "Как прикажете!", "Сделано, капитан!", "Один момент, сэр!", "Выполнено!"]
    } else {
        vec!["Выполняю", "Готово", "Принято", "Сделано", "Понял"]
    };
    assert(pool@.map_values(|s: &str| s@) == phrase_pool(style@));
    let i: usize = idx % pool.len();
    assert(pool@[i as int]@ == pool@.map_values(|s: &str| s@)[i as int]);
    pool[i].to_owned()
}

/// A confirmation phrase of `style`, chosen by the sub-second part of the clock.
pub fn random_response(style: &str) -> (r: String)
    ensures
        phrase_pool(style@).contains(r@),
{
    let now = since_epoch();
    let nanos: u32 = sub_second_nanos(&now);
    let r = pick_response(style, nanos as usize);
    assert(phrase_pool(style@).len() > 0);
    r
}

/// The text to say after a command ran, when spoken feedback is on: `custom`
/// when given, else a confirmation phrase of the configured style.
pub fn maybe_speak(cfg: &PluginConfig, custom: Option<&str>) -> (r: Option<String>)
    ensures
        r is None <==> !cfg.voice_feedback_enabled,
        r matches Some(t) ==> match custom {
            Some(c) => t@ == c@,
            None => phrase_pool(cfg.voice_feedback_style@).contains(t@),
        },
{
    if !cfg.voice_feedback_enabled {
        return None;
    }
    match custom {
        Some(c) => Some(c.to_owned()),
        None => Some(random_response(cfg.voice_feedback_style.as_str())),
    }
}

/// How a text is to be spoken.
pub enum SpeechPlan {
    /// With Piper, in the given voice.
    Piper { text: String, voice: String },
    /// With Edge TTS, in the given voice.
    Edge { text: String, voice: String },
    /// By running this command line.
    Custom { command: String },
    /// With the operating system's own speech.
    System { text: String },
}

/// The mathematical content of a [`SpeechPlan`].
pub enum SpeechView {
    Piper { text: Seq<char>, voice: Seq<char> },
    Edge { text: Seq<char>, voice: Seq<char> },
    Custom { command: Seq<char> },
    System { text: Seq<char> },
}

impl View for SpeechPlan {
    type V = SpeechView;

    open spec fn view(&self) -> SpeechView {
        match self {
            SpeechPlan::Piper { text, voice } => SpeechView::Piper { text: text@, voice: voice@ },
            SpeechPlan::Edge { text, voice } => SpeechView::Edge { text: text@, voice: voice@ },
            SpeechPlan::Custom { command } => SpeechView::Custom { command: command@ },
            SpeechPlan::System { text } => SpeechView::System { text: text@ },
        }
    }
}

/// `text` with double quotes turned into single ones, safe inside a quoted argument.
pub open spec fn quote_safe(text: Seq<char>) -> Seq<char> {
    replace_all(text, seq!['"'], seq!['\''])
}

/// The command line of the custom engine: the template with `{text}` replaced
/// by the quote-safe text.
pub open spec fn custom_command(text: Seq<char>, template: Seq<char>) -> Seq<char> {
    replace_all(template, "{text}"@, quote_safe(text))
}

/// How `text` is spoken with `engine`: Piper when it and the voice are installed
/// (else the system voice), Edge TTS (in the default voice when none is set),
/// the custom command when one is set, otherwise the system voice.
pub open spec fn speech_plan(
    text: Seq<char>,
    engine: Seq<char>,
    piper_voice: Seq<char>,
    edge_voice: Seq<char>,
    custom_cmd: Seq<char>,
    piper_ready: bool,
) -> SpeechView {
    if engine == "piper"@ {
        if piper_ready {
            SpeechView::Piper { text, voice: piper_voice }
        } else {
            SpeechView::System { text }
        }
    } else if engine == "edge"@ {
        SpeechView::Edge {
            text,
            voice: if edge_voice.len() == 0 {
                "ru-RU-SvetlanaNeural"@
            } else {
                edge_voice
            },
        }
    } else if engine == "custom"@ && custom_cmd.len() > 0 {
        SpeechView::Custom { command: custom_command(text, custom_cmd) }
    } else {
        SpeechView::System { text }
    }
}

/// `text` with double quotes turned into single ones.
pub fn quote_safe_text(text: &str) -> (r: String)
    ensures
        r@ == quote_safe(text@),
{
    let t = chars_of(text);
    let mut pat: Vec<char> = Vec::new();
    pat.push('"');
    let mut with: Vec<char> = Vec::new();
    with.push('\'');
    assert(pat@ == seq!['"']);
    assert(with@ == seq!['\'']);
    string_from_chars(&replace_chars(&t, &pat, &with))
}

/// The command line that speaks `text` with the custom `template`.
pub fn custom_command_line(text: &str, template: &str) -> (r: String)
    ensures
        r@ == custom_command(text@, template@),
{
    let safe = quote_safe_text(text);
    let t = chars_of(template);
    let pat = chars_of("{text}");
    proof {
        reveal_strlit("{text}");
    }
    string_from_chars(&replace_chars(&t, &pat, &chars_of(safe.as_str())))
}

/// Decides how `text` is spoken with `engine`; `piper_ready` tells whether the
/// Piper program and the chosen voice are installed.
pub fn speak_with_engine(
    text: &str,
    engine: &str,
    piper_voice: &str,
    edge_voice: &str,
    custom_cmd: &str,
    piper_ready: bool,
) -> (r: SpeechPlan)
    ensures
        r@ == speech_plan(text@, engine@, piper_voice@, edge_voice@, custom_cmd@, piper_ready),
{
    if str_eq(engine, "piper") {
        if piper_ready {
            SpeechPlan::Piper { text: text.to_owned(), voice: piper_voice.to_owned() }
        } else {
            SpeechPlan::System { text: text.to_owned() }
        }
    } else if str_eq(engine, "edge") {
        let voice = if edge_voice.is_empty() {
            "ru-RU-SvetlanaNeural".to_owned()
        } else {
            edge_voice.to_owned()
        };
        SpeechPlan::Edge { text: text.to_owned(), voice }
    } else if str_eq(engine, "custom") && !custom_cmd.is_empty() {
        SpeechPlan::Custom { command: custom_command_line(text, custom_cmd) }
    } else {
        SpeechPlan::System { text: text.to_owned() }
    }
}

/// How `text` is spoken with the system voice.
pub fn speak(text: &str) -> (r: SpeechPlan)
    ensures
        r@ == (SpeechView::System { text: text@ }),
{
    proof {
        reveal_strlit("system");
        reveal_strlit("piper");
        reveal_strlit("edge");
        reveal_strlit("custom");
        assert("system"@.len() != "piper"@.len());
        assert("system"@.len() != "edge"@.len());
        assert("system"@[0] != "custom"@[0]);
    }
    speak_with_engine(text, "system", "", "", "", false)
}

/// The text put into a quoted argument holds no double quote.
pub proof fn law_quote_safe(text: Seq<char>)
    ensures
        !quote_safe(text).contains('"'),
{
    lemma_replace_removes(text, '"', seq!['\''], 0);
}

/// The installers tried, in order, to install Edge TTS: a program and its arguments.
pub open spec fn edge_tts_installer_list(windows: bool) -> Seq<(Seq<char>, Seq<Seq<char>>)> {
    let base = seq![
        ("pip3"@, seq!["install"@, "edge-tts"@]),
        ("pip"@, seq!["install"@, "edge-tts"@]),
        ("python3"@, seq!["-m"@, "pip"@, "install"@, "edge-tts"@]),
        ("python"@, seq!["-m"@, "pip"@, "install"@, "edge-tts"@]),
    ];
    if windows {
        base.push(("py"@, seq!["-m"@, "pip"@, "install"@, "edge-tts"@]))
    } else {
        base
    }
}

/// The contents of a list of installers.
pub open spec fn installer_views(v: Seq<(String, Vec<String>)>) -> Seq<(Seq<char>, Seq<Seq<char>>)> {
    v.map_values(|p: (String, Vec<String>)| (p.0@, views_of(p.1@)))
}

fn installer(program: &str, args: Vec<&str>) -> (r: (String, Vec<String>))
    ensures
        r.0@ == program@,
        views_of(r.1@) == args@.map_values(|a: &str| a@),
{
    let mut owned: Vec<String> = Vec::new();
    let mut i: usize = 0;
    while i < args.len()
        invariant
            i <= args.len(),
            views_of(owned@) == args@.map_values(|a: &str| a@).take(i as int),
        decreases args.len() - i,
    {
        let ghost o = views_of(owned@);
        owned.push(args[i].to_owned());
        assert(views_of(owned@) == o.push(args@[i as int]@));
        assert(args@.map_values(|a: &str| a@).take(i + 1) == args@.map_values(|a: &str| a@).take(
            i as int,
        ).push(args@[i as int]@));
        i = i + 1;
    }
    assert(args@.map_values(|a: &str| a@).take(args.len() as int) == args@.map_values(
        |a: &str| a@,
    ));
    (program.to_owned(), owned)
}

/// The pip invocations tried, in order, to install Edge TTS.
pub fn edge_tts_installers(windows: bool) -> (r: Vec<(String, Vec<String>)>)
    ensures
        installer_views(r@) == edge_tts_installer_list(windows),
{
    let ghost short = seq!["install"@, "edge-tts"@];
    let ghost long = seq!["-m"@, "pip"@, "install"@, "edge-tts"@];
    let mut r: Vec<(String, Vec<String>)> = Vec::new();
    let a = vec!["install", "edge-tts"];
    assert(a@.map_values(|x: &str| x@) == short);
    r.push(installer("pip3", a));
    let a = vec!["install", "edge-tts"];
    assert(a@.map_values(|x: &str| x@) == short);
    r.push(installer("pip", a));
    let a = vec!["-m", "pip", "install", "edge-tts"];
    assert(a@.map_values(|x: &str| x@) == long);
    r.push(installer("python3", a));
    let a = vec!["-m", "pip", "install", "edge-tts"];
    assert(a@.map_values(|x: &str| x@) == long);
    r.push(installer("python", a));
    let ghost four = installer_views(r@);
    assert(four == edge_tts_installer_list(false));
    if windows {
        let a = vec!["-m", "pip", "install", "edge-tts"];
        assert(a@.map_values(|x: &str| x@) == long);
        r.push(installer("py", a));
        assert(installer_views(r@) == four.push(("py"@, long)));
    }
    r
}

/// What installing Edge TTS does next.
pub enum InstallStep {
    /// Run this installer (a program and its arguments).
    Run { program: String, args: Vec<String> },
    /// The last installer succeeded: done.
    Installed,
    /// Every installer failed: report this message.
    Failed { message: String },
}

/// The mathematical content of an [`InstallStep`].
pub enum InstallStepView {
    Run { program: Seq<char>, args: Seq<Seq<char>> },
    Installed,
    Failed { message: Seq<char> },
}

impl View for InstallStep {
    type V = InstallStepView;

    open spec fn view(&self) -> InstallStepView {
        match self {
            InstallStep::Run { program, args } => InstallStepView::Run {
                program: program@,
                args: views_of(args@),
            },
            InstallStep::Installed => InstallStepView::Installed,
            InstallStep::Failed { message } => InstallStepView::Failed { message: message@ },
        }
    }
}

/// The message when no installer succeeded.
pub open spec fn install_error_text() -> Seq<char> {
    "Не удалось установить edge-tts. Убедитесь что Python и pip установлены."@
}

/// The step after `next` installers were tried, the last of them succeeding or
/// not: done after a success; otherwise the next installer in order; when none
/// is left, the failure message.
pub open spec fn install_step_of(windows: bool, next: nat, last_succeeded: bool) -> InstallStepView {
    let list = edge_tts_installer_list(windows);
    if last_succeeded {
        InstallStepView::Installed
    } else if next < list.len() {
        InstallStepView::Run { program: list[next as int].0, args: list[next as int].1 }
    } else {
        InstallStepView::Failed { message: install_error_text() }
    }
}

/// Decides the next step of installing Edge TTS, after `next` installers were
/// tried and the last one succeeded or not.
pub fn install_step(windows: bool, next: usize, last_succeeded: bool) -> (r: InstallStep)
    ensures
        r@ == install_step_of(windows, next as nat, last_succeeded),
{
    if last_succeeded {
        return InstallStep::Installed;
    }
    let mut list = edge_tts_installers(windows);
    if next < list.len() {
        let ghost lv = installer_views(list@);
        let (program, args) = list.swap_remove(next);
        assert(lv[next as int] == (program@, views_of(args@)));
        InstallStep::Run { program, args }
    } else {
        InstallStep::Failed { message: edge_tts_install_error() }
    }
}

/// The message when no installer succeeded.
pub fn edge_tts_install_error() -> (r: String)
    ensures
        r@ == install_error_text(),
{
    "Не удалось установить edge-tts. Убедитесь что Python и pip установлены.".to_owned()
}

} // verus!
