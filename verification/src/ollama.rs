//! The language-model side of command understanding: the system prompt, the
//! tool calls a reply asks for, and how the reply becomes an [`NluResult`].
use vstd::prelude::*;
use vstd::string::StringSliceAdditionalSpecFns;
use vstd::utf8::{
    decode_utf8, decode_utf8_encode_utf8, decode_utf8_split, encode_utf8, encode_utf8_decode_utf8,
    encode_utf8_valid_utf8, is_char_boundary, valid_utf8_split,
};
use crate::config::VoiceCommand;
use crate::server::opt_view;
use crate::text::{
    chars_of, concat, contains, contains_sub, has_prefix, join, join_strings, starts_with,
    string_from_chars, trim_chars, trim_spaces, strip_pred, views_of, slice_chars,
};
use crate::tts::str_eq;

verus! {

/// What the language model made of a command.
pub struct NluResult {
    /// Trigger of a registered command to run.
    pub trigger: Option<String>,
    /// Text to speak.
    pub response_text: Option<String>,
    /// Speak even when spoken feedback is off (an informative answer).
    pub must_speak: bool,
}

/// The mathematical content of an [`NluResult`].
pub struct NluView {
    pub trigger: Option<Seq<char>>,
    pub response_text: Option<Seq<char>>,
    pub must_speak: bool,
}

impl View for NluResult {
    type V = NluView;

    open spec fn view(&self) -> NluView {
        NluView {
            trigger: opt_view(self.trigger),
            response_text: opt_view(self.response_text),
            must_speak: self.must_speak,
        }
    }
}

/// A result that asks for nothing.
pub open spec fn empty_nlu() -> NluView {
    NluView { trigger: None, response_text: None, must_speak: false }
}

/// The result when no model is chosen: nothing to do.
pub fn empty_result() -> (r: NluResult)
    ensures
        r@ == empty_nlu(),
{
    NluResult { trigger: None, response_text: None, must_speak: false }
}

/// The result owed before any request: nothing to do when no model is chosen;
/// none when a model is chosen and must be asked.
pub fn result_without_model(model_id: &str) -> (r: Option<NluResult>)
    ensures
        r is Some <==> model_id@.len() == 0,
        r matches Some(n) ==> n@ == empty_nlu(),
{
    if model_id.is_empty() {
        Some(empty_result())
    } else {
        None
    }
}

// ───────────────────────────── JSON fields ─────────────────────────────

/// The string at field `key` of the JSON document `text`: what
/// `serde_json::from_str::<Value>` followed by `Value::get(key)` and
/// `Value::as_str` yields; none when `text` is not JSON, not an object, lacks
/// the field, or holds something else than a string there.
pub uninterp spec fn json_string_field(text: Seq<char>, key: Seq<char>) -> Option<Seq<char>>;

/// Reads the string field `key` of the JSON document `text` with `serde_json`.
#[verifier::external_body]
pub(crate) fn json_str_field(text: &str, key: &str) -> (r: Option<String>)
    ensures
        opt_view(r) == json_string_field(text@, key@),
{
    match serde_json::from_str::<serde_json::Value>(text) {
        Ok(v) => match v.get(key) {
            Some(f) => f.as_str().map(String::from),
            None => None,
        },
        Err(_) => None,
    }
}

/// The text `v`, or `default` when there is none.
pub open spec fn or_default(v: Option<Seq<char>>, default: Seq<char>) -> Seq<char> {
    match v {
        Some(t) => t,
        None => default,
    }
}

fn string_or(v: Option<String>, default: &str) -> (r: String)
    ensures
        r@ == or_default(opt_view(v), default@),
{
    match v {
        Some(t) => t,
        None => default.to_owned(),
    }
}

// ───────────────────────────── the server's address ─────────────────────────────

/// The address `base` without its trailing slashes, followed by `path`.
pub open spec fn endpoint_url(base: Seq<char>, path: Seq<char>) -> Seq<char> {
    strip_trailing(base, seq!['/']) + path
}

fn endpoint(base: &str, path: &str) -> (r: String)
    ensures
        r@ == endpoint_url(base@, path@),
{
    let mut slash: Vec<char> = Vec::new();
    slash.push('/');
    assert(slash@ == seq!['/']);
    let trimmed = string_from_chars(&strip_trailing_chars(&chars_of(base), &slash));
    concat(trimmed.as_str(), path)
}

/// Where the server lists its models.
pub fn models_endpoint(url: &str) -> (r: String)
    ensures
        r@ == endpoint_url(url@, "/v1/models"@),
{
    endpoint(url, "/v1/models")
}

/// Where the server answers chat requests.
pub fn chat_endpoint(url: &str) -> (r: String)
    ensures
        r@ == endpoint_url(url@, "/v1/chat/completions"@),
{
    endpoint(url, "/v1/chat/completions")
}

proof fn lemma_strip_trailing_slashes(s: Seq<char>)
    ensures
        strip_trailing(s, seq!['/']).len() == 0 || strip_trailing(s, seq!['/']).last() != '/',
        has_prefix(s, strip_trailing(s, seq!['/'])),
    decreases s.len(),
{
    let slash = seq!['/'];
    if 1 <= s.len() && s.skip(s.len() - 1) == slash {
        lemma_strip_trailing_slashes(s.take(s.len() - 1));
        let t = strip_trailing(s.take(s.len() - 1), slash);
        assert(s.take(s.len() - 1).take(t.len() as int) == s.take(t.len() as int));
    } else {
        if s.len() > 0 {
            assert(s.skip(s.len() - 1) == seq![s.last()]);
        }
        assert(s.take(s.len() as int) == s);
    }
}

/// An endpoint is the server address, cut before its trailing slashes, then the
/// path: exactly one slash separates them when the path starts with one.
pub proof fn law_endpoint_single_slash(base: Seq<char>, path: Seq<char>)
    ensures
        ({
            let t = strip_trailing(base, seq!['/']);
            &&& endpoint_url(base, path) == t + path
            &&& has_prefix(base, t)
            &&& t.len() == 0 || t.last() != '/'
        }),
{
    lemma_strip_trailing_slashes(base);
}

// ───────────────────────────── the request ─────────────────────────────

/// Models that think aloud unless told not to.
pub open spec fn thinking_model(model_id: Seq<char>) -> bool {
    contains_sub(model_id, "qwen3"@) || contains_sub(model_id, "qwq"@)
}

/// Whether the model must be asked not to think aloud.
pub fn is_thinking(model_id: &str) -> (r: bool)
    ensures
        r == thinking_model(model_id@),
{
    let m = chars_of(model_id);
    contains(&m, &chars_of("qwen3")) || contains(&m, &chars_of("qwq"))
}

/// The system prompt: who the assistant is, the operating system, the style,
/// and the user's extra instructions after a blank line when there are any.
pub open spec fn system_prompt_text(
    agent_name: Seq<char>,
    windows: bool,
    style: Seq<char>,
    extra: Seq<char>,
) -> Seq<char> {
    let os_hint = if windows {
        "Windows (используй PowerShell)"@
    } else {
        "Linux (используй bash)"@
    };
    let style_hint = if style == "fun"@ {
        "Стиль: с характером, шутливый."@
    } else {
        "Стиль: нейтральный, краткий."@
    };
    let base = "Ты голосовой ассистент "@ + agent_name + ". ОС: "@ + os_hint
        + ".\nИспользуй доступные инструменты для выполнения запросов. Ответы короткие — они будут озвучены вслух (максимум 2–3 предложения). "@
        + style_hint + " Отвечай на русском."@;
    if extra.len() == 0 {
        base
    } else {
        base + "\n\n"@ + extra
    }
}

/// The system prompt sent with every request.
pub fn system_prompt(agent_name: &str, windows: bool, style: &str, extra: &str) -> (r: String)
    ensures
        r@ == system_prompt_text(agent_name@, windows, style@, extra@),
{
    let os_hint = if windows {
        "Windows (используй PowerShell)"
    } else {
        "Linux (используй bash)"
    };
    let style_hint = if str_eq(style, "fun") {
        "Стиль: с характером, шутливый."
    } else {
        "Стиль: нейтральный, краткий."
    };
    let mut base = "Ты голосовой ассистент ".to_owned();
    base.append(agent_name);
    base.append(". ОС: ");
    base.append(os_hint);
    base.append(
        ".\nИспользуй доступные инструменты для выполнения запросов. Ответы короткие — они будут озвучены вслух (максимум 2–3 предложения). ",
    );
    base.append(style_hint);
    base.append(" Отвечай на русском.");
    if extra.is_empty() {
        base
    } else {
        base.append("\n\n");
        base.append(extra);
        base
    }
}

/// The phrases the `run_command` tool accepts: every trigger, then every
/// non-empty close trigger.
pub open spec fn tool_triggers(cmds: Seq<VoiceCommand>) -> Seq<Seq<char>> {
    cmds.map_values(|c: VoiceCommand| c.trigger@) + cmds.map_values(
        |c: VoiceCommand| c.close_trigger@,
    ).filter(|t: Seq<char>| t.len() > 0)
}

/// Every trigger, then every non-empty close trigger, in command order.
pub fn trigger_list(cmds: &Vec<VoiceCommand>) -> (r: Vec<String>)
    ensures
        views_of(r@) == tool_triggers(cmds@),
{
    let ghost opens = cmds@.map_values(|c: VoiceCommand| c.trigger@);
    let ghost closes = cmds@.map_values(|c: VoiceCommand| c.close_trigger@);
    let ghost keep = |t: Seq<char>| t.len() > 0;
    let mut r: Vec<String> = Vec::new();
    let mut i: usize = 0;
    while i < cmds.len()
        invariant
            i <= cmds.len(),
            opens == cmds@.map_values(|c: VoiceCommand| c.trigger@),
            views_of(r@) == opens.take(i as int),
        decreases cmds.len() - i,
    {
        let ghost o = views_of(r@);
        r.push(cmds[i].trigger.clone());
        assert(views_of(r@) == o.push(cmds@[i as int].trigger@));
        assert(opens.take(i + 1) == opens.take(i as int).push(opens[i as int]));
        i = i + 1;
    }
    assert(opens.take(cmds.len() as int) == opens);
    let mut j: usize = 0;
    while j < cmds.len()
        invariant
            j <= cmds.len(),
            opens == cmds@.map_values(|c: VoiceCommand| c.trigger@),
            closes == cmds@.map_values(|c: VoiceCommand| c.close_trigger@),
            keep == (|t: Seq<char>| t.len() > 0),
            views_of(r@) == opens + closes.take(j as int).filter(keep),
        decreases cmds.len() - j,
    {
        let ghost o = views_of(r@);
        assert(closes.take(j + 1).drop_last() == closes.take(j as int));
        proof {
            reveal_with_fuel(Seq::filter, 1);
        }
        if !cmds[j].close_trigger.as_str().is_empty() {
            r.push(cmds[j].close_trigger.clone());
            assert(views_of(r@) == o.push(cmds@[j as int].close_trigger@));
        }
        j = j + 1;
    }
    assert(closes.take(cmds.len() as int) == closes);
    r
}

/// The description of the `run_command` tool's parameter: the phrases it accepts.
pub fn trigger_parameter_description(cmds: &Vec<VoiceCommand>) -> (r: String)
    ensures
        r@ == "Точная триггерная фраза из списка: "@ + join(tool_triggers(cmds@), "; "@),
{
    let list = trigger_list(cmds);
    let joined = join_strings(&list, "; ");
    concat("Точная триггерная фраза из списка: ", joined.as_str())
}

// ───────────────────────────── tool calls ─────────────────────────────

/// A tool call of the model's reply: its id, the tool's name and the JSON arguments.
pub struct ToolCall {
    pub id: String,
    pub name: String,
    pub arguments: String,
}

/// The kind of a tool call whose reply leaves it out.
pub fn default_tool_type() -> (r: String)
    ensures
        r@ == "function"@,
{
    "function".to_owned()
}

/// What a tool call asks for, its arguments read with their defaults.
pub enum ToolAction {
    RunCommand { trigger: String },
    ShellQuery { command: String },
    ShowTerminal { command: String, title: String },
    KillProcess { name: String },
    OpenUrl { url: String },
    Unknown,
}

/// The mathematical content of a [`ToolAction`].
pub enum ToolActionView {
    RunCommand { trigger: Seq<char> },
    ShellQuery { command: Seq<char> },
    ShowTerminal { command: Seq<char>, title: Seq<char> },
    KillProcess { name: Seq<char> },
    OpenUrl { url: Seq<char> },
    Unknown,
}

impl View for ToolAction {
    type V = ToolActionView;

    open spec fn view(&self) -> ToolActionView {
        match self {
            ToolAction::RunCommand { trigger } => ToolActionView::RunCommand { trigger: trigger@ },
            ToolAction::ShellQuery { command } => ToolActionView::ShellQuery { command: command@ },
            ToolAction::ShowTerminal { command, title } => ToolActionView::ShowTerminal {
                command: command@,
                title: title@,
            },
            ToolAction::KillProcess { name } => ToolActionView::KillProcess { name: name@ },
            ToolAction::OpenUrl { url } => ToolActionView::OpenUrl { url: url@ },
            ToolAction::Unknown => ToolActionView::Unknown,
        }
    }
}

/// What a call of tool `name` asks for, given the string arguments it
/// carries (`trigger`, `command`, `title`, `name`, `url`): a missing argument
/// reads as an empty string, a missing command as «echo пусто», a missing
/// window title as «Агент».
pub open spec fn action_from_fields(
    name: Seq<char>,
    trigger: Option<Seq<char>>,
    command: Option<Seq<char>>,
    title: Option<Seq<char>>,
    process: Option<Seq<char>>,
    url: Option<Seq<char>>,
) -> ToolActionView {
    if name == "run_command"@ {
        ToolActionView::RunCommand { trigger: or_default(trigger, ""@) }
    } else if name == "shell_query"@ {
        ToolActionView::ShellQuery { command: or_default(command, "echo пусто"@) }
    } else if name == "show_terminal"@ {
        ToolActionView::ShowTerminal {
            command: or_default(command, "echo пусто"@),
            title: or_default(title, "Агент"@),
        }
    } else if name == "kill_process"@ {
        ToolActionView::KillProcess { name: or_default(process, ""@) }
    } else if name == "open_url"@ {
        ToolActionView::OpenUrl { url: or_default(url, ""@) }
    } else {
        ToolActionView::Unknown
    }
}

/// What the call of tool `name` with JSON arguments `args` asks for.
pub open spec fn tool_action_of(name: Seq<char>, args: Seq<char>) -> ToolActionView {
    action_from_fields(
        name,
        json_string_field(args, "trigger"@),
        json_string_field(args, "command"@),
        json_string_field(args, "title"@),
        json_string_field(args, "name"@),
        json_string_field(args, "url"@),
    )
}

/// What a call of tool `name` asks for, given the string arguments it carries.
pub fn tool_action_from(
    name: &str,
    trigger: Option<String>,
    command: Option<String>,
    title: Option<String>,
    process: Option<String>,
    url: Option<String>,
) -> (r: ToolAction)
    ensures
        r@ == action_from_fields(
            name@,
            opt_view(trigger),
            opt_view(command),
            opt_view(title),
            opt_view(process),
            opt_view(url),
        ),
{
    if str_eq(name, "run_command") {
        ToolAction::RunCommand { trigger: string_or(trigger, "") }
    } else if str_eq(name, "shell_query") {
        ToolAction::ShellQuery { command: string_or(command, "echo пусто") }
    } else if str_eq(name, "show_terminal") {
        ToolAction::ShowTerminal {
            command: string_or(command, "echo пусто"),
            title: string_or(title, "Агент"),
        }
    } else if str_eq(name, "kill_process") {
        ToolAction::KillProcess { name: string_or(process, "") }
    } else if str_eq(name, "open_url") {
        ToolAction::OpenUrl { url: string_or(url, "") }
    } else {
        ToolAction::Unknown
    }
}

/// What `call` asks for, its JSON arguments read with `serde_json`.
pub fn tool_action(call: &ToolCall) -> (r: ToolAction)
    ensures
        r@ == tool_action_of(call.name@, call.arguments@),
{
    let args = call.arguments.as_str();
    tool_action_from(
        call.name.as_str(),
        json_str_field(args, "trigger"),
        json_str_field(args, "command"),
        json_str_field(args, "title"),
        json_str_field(args, "name"),
        json_str_field(args, "url"),
    )
}

/// What the model is told about an action it asked for: `output` is what
/// running it printed (used for killing a process).
pub open spec fn action_reply(action: ToolActionView, output: Seq<char>) -> Seq<char> {
    match action {
        ToolActionView::ShowTerminal { .. } => "Терминал открыт, пользователь видит вывод"@,
        ToolActionView::KillProcess { .. } => output,
        ToolActionView::OpenUrl { url } => "Открываю "@ + url,
        _ => "Неизвестный инструмент"@,
    }
}

/// The results of one round of tool calls.
pub struct ToolRound {
    /// The trigger of the last `run_command` call.
    pub run_trigger: Option<String>,
    /// For each `shell_query` call: its id and the command's output.
    pub shell_results: Vec<(String, String)>,
    /// The replies of the other actions, in order.
    pub action_replies: Vec<String>,
}

/// The trigger of the last `run_command` call among the first `n` calls.
pub open spec fn last_run_trigger(calls: Seq<ToolCall>, n: int) -> Option<Seq<char>>
    decreases n,
{
    if n <= 0 {
        None
    } else {
        match tool_action_of(calls[n - 1].name@, calls[n - 1].arguments@) {
            ToolActionView::RunCommand { trigger } => Some(trigger),
            _ => last_run_trigger(calls, n - 1),
        }
    }
}

/// The id and output of each `shell_query` call among the first `n` calls.
pub open spec fn shell_results_of(calls: Seq<ToolCall>, outputs: Seq<Seq<char>>, n: int) -> Seq<
    (Seq<char>, Seq<char>),
>
    decreases n,
{
    if n <= 0 {
        seq![]
    } else {
        let prev = shell_results_of(calls, outputs, n - 1);
        match tool_action_of(calls[n - 1].name@, calls[n - 1].arguments@) {
            ToolActionView::ShellQuery { .. } => prev.push((calls[n - 1].id@, outputs[n - 1])),
            _ => prev,
        }
    }
}

/// The replies of the calls other than `run_command` and `shell_query` among the first `n`.
pub open spec fn action_replies_of(calls: Seq<ToolCall>, outputs: Seq<Seq<char>>, n: int) -> Seq<
    Seq<char>,
>
    decreases n,
{
    if n <= 0 {
        seq![]
    } else {
        let prev = action_replies_of(calls, outputs, n - 1);
        let a = tool_action_of(calls[n - 1].name@, calls[n - 1].arguments@);
        match a {
            ToolActionView::RunCommand { .. } => prev,
            ToolActionView::ShellQuery { .. } => prev,
            _ => prev.push(action_reply(a, outputs[n - 1])),
        }
    }
}

/// The id and output pairs held by a list.
pub open spec fn pair_views(v: Seq<(String, String)>) -> Seq<(Seq<char>, Seq<char>)> {
    v.map_values(|p: (String, String)| (p.0@, p.1@))
}

/// Gathers the results of a round of tool calls; `outputs[i]` is what running
/// call `i` printed (the shell output of a query, the answer of a kill).
pub fn collect_tool_results(calls: &Vec<ToolCall>, outputs: &Vec<String>) -> (r: ToolRound)
    requires
        calls.len() == outputs.len(),
    ensures
        opt_view(r.run_trigger) == last_run_trigger(calls@, calls@.len() as int),
        pair_views(r.shell_results@) == shell_results_of(
            calls@,
            views_of(outputs@),
            calls@.len() as int,
        ),
        views_of(r.action_replies@) == action_replies_of(
            calls@,
            views_of(outputs@),
            calls@.len() as int,
        ),
{
    let ghost ov = views_of(outputs@);
    let mut run_trigger: Option<String> = None;
    let mut shell: Vec<(String, String)> = Vec::new();
    let mut replies: Vec<String> = Vec::new();
    let mut i: usize = 0;
    while i < calls.len()
        invariant
            i <= calls.len(),
            calls.len() == outputs.len(),
            ov == views_of(outputs@),
            opt_view(run_trigger) == last_run_trigger(calls@, i as int),
            pair_views(shell@) == shell_results_of(calls@, ov, i as int),
            views_of(replies@) == action_replies_of(calls@, ov, i as int),
        decreases calls.len() - i,
    {
        let action = tool_action(&calls[i]);
        assert(ov[i as int] == outputs@[i as int]@);
        match action {
            ToolAction::RunCommand { trigger } => {
                run_trigger = Some(trigger);
            },
            ToolAction::ShellQuery { .. } => {
                let ghost s0 = pair_views(shell@);
                shell.push((calls[i].id.clone(), outputs[i].clone()));
                assert(pair_views(shell@) == s0.push((calls@[i as int].id@, ov[i as int])));
            },
            ToolAction::ShowTerminal { .. } => {
                let ghost r0 = views_of(replies@);
                replies.push("Терминал открыт, пользователь видит вывод".to_owned());
                assert(views_of(replies@) == r0.push(action_reply(action@, ov[i as int])));
            },
            ToolAction::KillProcess { .. } => {
                let ghost r0 = views_of(replies@);
                replies.push(outputs[i].clone());
                assert(views_of(replies@) == r0.push(action_reply(action@, ov[i as int])));
            },
            ToolAction::OpenUrl { url } => {
                let ghost r0 = views_of(replies@);
                replies.push(concat("Открываю ", url.as_str()));
                assert(views_of(replies@) == r0.push("Открываю "@ + url@));
            },
            ToolAction::Unknown => {
                let ghost r0 = views_of(replies@);
                replies.push("Неизвестный инструмент".to_owned());
                assert(views_of(replies@) == r0.push(action_reply(action@, ov[i as int])));
            },
        }
        i = i + 1;
    }
    ToolRound { run_trigger, shell_results: shell, action_replies: replies }
}

/// The result when no shell output needs to be summarised by a second request:
/// the trigger, and the action replies joined by «; », spoken in any case.
pub open spec fn quick_result(run_trigger: Option<Seq<char>>, replies: Seq<Seq<char>>) -> NluView {
    NluView {
        trigger: run_trigger,
        response_text: if replies.len() == 0 {
            None
        } else {
            Some(join(replies, "; "@))
        },
        must_speak: replies.len() > 0,
    }
}

/// The result of a round of tool calls that ran no shell query; none when a
/// second request is needed to summarise shell output.
pub fn quick_path(round: &ToolRound) -> (r: Option<NluResult>)
    ensures
        r is None <==> round.shell_results@.len() > 0,
        r matches Some(n) ==> n@ == quick_result(
            opt_view(round.run_trigger),
            views_of(round.action_replies@),
        ),
{
    if round.shell_results.len() > 0 {
        return None;
    }
    let response_text = if round.action_replies.len() == 0 {
        None
    } else {
        Some(join_strings(&round.action_replies, "; "))
    };
    let trigger = match &round.run_trigger {
        Some(t) => Some(t.clone()),
        None => None,
    };
    Some(NluResult { trigger, response_text, must_speak: round.action_replies.len() > 0 })
}

/// The spoken answer after the model summarised shell output: its text, or
/// «Готово» when it gave none.
pub open spec fn summary_reply(content: Option<Seq<char>>) -> Seq<char> {
    match content {
        Some(c) => if c.len() > 0 {
            c
        } else {
            "Готово"@
        },
        None => "Готово"@,
    }
}

/// The result after the second request: the trigger of the round and the
/// model's summary, spoken in any case.
pub fn summarized_result(run_trigger: Option<String>, content: Option<String>) -> (r: NluResult)
    ensures
        r@ == (NluView {
            trigger: opt_view(run_trigger),
            response_text: Some(summary_reply(opt_view(content))),
            must_speak: true,
        }),
{
    let text = match content {
        Some(c) => if c.as_str().is_empty() {
            "Готово".to_owned()
        } else {
            c
        },
        None => "Готово".to_owned(),
    };
    NluResult { trigger: run_trigger, response_text: Some(text), must_speak: true }
}

// ───────────────────────────── replies without tool calls ─────────────────────────────

/// `s` without any number of leading copies of `pre` (`str::trim_start_matches`).
pub open spec fn strip_leading(s: Seq<char>, pre: Seq<char>) -> Seq<char>
    decreases s.len(),
{
    if pre.len() > 0 && has_prefix(s, pre) {
        strip_leading(s.skip(pre.len() as int), pre)
    } else {
        s
    }
}

/// `s` without any number of trailing copies of `suf` (`str::trim_end_matches`).
pub open spec fn strip_trailing(s: Seq<char>, suf: Seq<char>) -> Seq<char>
    decreases s.len(),
{
    if suf.len() > 0 && suf.len() <= s.len() && s.skip(s.len() - suf.len()) == suf {
        strip_trailing(s.take(s.len() - suf.len()), suf)
    } else {
        s
    }
}

/// A reply with its Markdown code fence removed: trimmed, leading «```json»
/// and «```» runs and trailing «```» runs dropped, trimmed again.
pub open spec fn unfenced(text: Seq<char>) -> Seq<char> {
    trim_spaces(strip_trailing(strip_leading(strip_leading(trim_spaces(text), "```json"@), "```"@), "```"@))
}

/// A field of the fallback JSON reply, unless missing, empty or «null».
pub open spec fn meaningful(v: Option<Seq<char>>) -> Option<Seq<char>> {
    match v {
        Some(s) => if s != "null"@ && s.len() > 0 {
            Some(s)
        } else {
            None
        },
        None => None,
    }
}

/// The result read from the `trigger` and `response` fields of a fallback
/// reply: each kept unless missing, empty or «null»; never spoken unasked.
pub open spec fn fallback_from(trigger: Option<Seq<char>>, response: Option<Seq<char>>) -> NluView {
    NluView { trigger: meaningful(trigger), response_text: meaningful(response), must_speak: false }
}

/// The result of a reply without tool calls: the `trigger` and `response`
/// fields of the JSON it holds, without its code fence.
pub open spec fn fallback_nlu(content: Option<Seq<char>>) -> NluView {
    let text = unfenced(
        match content {
            Some(c) => c,
            None => seq![],
        },
    );
    fallback_from(json_string_field(text, "trigger"@), json_string_field(text, "response"@))
}

fn strip_leading_chars(s: &Vec<char>, pre: &Vec<char>) -> (r: Vec<char>)
    requires
        pre@.len() > 0,
    ensures
        r@ == strip_leading(s@, pre@),
{
    let mut start: usize = 0;
    assert(s@.skip(0) == s@);
    while start <= s.len() && pre.len() <= s.len() - start && starts_with_at(s, pre, start)
        invariant
            start <= s.len(),
            pre@.len() > 0,
            strip_leading(s@, pre@) == strip_leading(s@.skip(start as int), pre@),
        decreases s.len() - start,
    {
        assert(s@.skip(start as int).skip(pre@.len() as int) == s@.skip(start + pre@.len()));
        start = start + pre.len();
    }
    assert(!has_prefix(s@.skip(start as int), pre@)) by {
        if pre@.len() <= s@.len() - start {
            assert(s@.skip(start as int).take(pre@.len() as int) == s@.subrange(
                start as int,
                start + pre@.len(),
            ));
        }
    }
    slice_chars(s, start, s.len())
}

fn starts_with_at(s: &Vec<char>, pre: &Vec<char>, at: usize) -> (r: bool)
    requires
        at <= s.len(),
        pre.len() <= s.len() - at,
    ensures
        r == (s@.subrange(at as int, at + pre@.len()) == pre@),
        r == has_prefix(s@.skip(at as int), pre@),
{
    let mut j: usize = 0;
    assert(s@.skip(at as int).take(pre@.len() as int) == s@.subrange(at as int, at + pre@.len()));
    while j < pre.len()
        invariant
            at + pre.len() <= s.len(),
            j <= pre.len(),
            forall|k: int| 0 <= k < j ==> s@[at + k] == pre@[k],
        decreases pre.len() - j,
    {
        if s[at + j] != pre[j] {
            assert(s@.subrange(at as int, at + pre@.len())[j as int] != pre@[j as int]);
            return false;
        }
        j = j + 1;
    }
    assert(s@.subrange(at as int, at + pre@.len()) == pre@);
    true
}

fn strip_trailing_chars(s: &Vec<char>, suf: &Vec<char>) -> (r: Vec<char>)
    requires
        suf@.len() > 0,
    ensures
        r@ == strip_trailing(s@, suf@),
{
    let mut end: usize = s.len();
    assert(s@.take(s@.len() as int) == s@);
    while suf.len() <= end && starts_with_at(s, suf, end - suf.len())
        invariant
            end <= s.len(),
            suf@.len() > 0,
            strip_trailing(s@, suf@) == strip_trailing(s@.take(end as int), suf@),
        decreases end,
    {
        assert(s@.take(end as int).skip(end - suf@.len()) == s@.subrange(end - suf@.len(), end as int));
        assert(s@.take(end as int).take(end - suf@.len()) == s@.take(end - suf@.len()));
        end = end - suf.len();
    }
    assert(!(suf@.len() <= end && s@.take(end as int).skip(end - suf@.len()) == suf@)) by {
        if suf@.len() <= end {
            assert(s@.take(end as int).skip(end - suf@.len()) == s@.subrange(
                end - suf@.len(),
                end as int,
            ));
        }
    }
    slice_chars(s, 0, end)
}

/// `text` without its Markdown code fence.
pub fn strip_code_fence(text: &str) -> (r: String)
    ensures
        r@ == unfenced(text@),
{
    let fence_json = chars_of("```json");
    let fence = chars_of("```");
    proof {
        reveal_strlit("```json");
        reveal_strlit("```");
    }
    assert(strip_pred(true) == (|c: char| crate::text::is_space(c)));
    let t = trim_chars(&chars_of(text), true);
    let a = strip_leading_chars(&t, &fence_json);
    let b = strip_leading_chars(&a, &fence);
    let c = strip_trailing_chars(&b, &fence);
    let d = trim_chars(&c, true);
    string_from_chars(&d)
}

fn meaningful_text(v: Option<String>) -> (r: Option<String>)
    ensures
        opt_view(r) == meaningful(opt_view(v)),
{
    match v {
        Some(t) => if !str_eq(t.as_str(), "null") && !t.as_str().is_empty() {
            Some(t)
        } else {
            None
        },
        None => None,
    }
}

/// The result read from the `trigger` and `response` fields of a fallback reply.
pub fn fallback_from_fields(trigger: Option<String>, response: Option<String>) -> (r: NluResult)
    ensures
        r@ == fallback_from(opt_view(trigger), opt_view(response)),
{
    NluResult {
        trigger: meaningful_text(trigger),
        response_text: meaningful_text(response),
        must_speak: false,
    }
}

/// The result of a reply that asked for no tool: read as the older JSON format.
pub fn fallback_result(content: Option<String>) -> (r: NluResult)
    ensures
        r@ == fallback_nlu(opt_view(content)),
{
    let text = match content {
        Some(c) => c,
        None => String::new(),
    };
    let body = strip_code_fence(text.as_str());
    fallback_from_fields(json_str_field(body.as_str(), "trigger"), json_str_field(body.as_str(), "response"))
}

// ───────────────────────────── command output ─────────────────────────────

/// The UTF-8 length of a text in bytes.
pub open spec fn byte_len(s: Seq<char>) -> int {
    encode_utf8(s).len() as int
}

/// What a shell query tells the model: the trimmed output, cut after 2000
/// bytes with a note; else the trimmed error output; else «Нет вывода».
pub open spec fn shell_reply(stdout: Seq<char>, stderr: Seq<char>) -> Seq<char> {
    let s = trim_spaces(stdout);
    if s.len() == 0 {
        let e = trim_spaces(stderr);
        if e.len() == 0 {
            "Нет вывода"@
        } else {
            e
        }
    } else if byte_len(s) > 2000 {
        decode_utf8(encode_utf8(s).take(2000)) + "…(обрезано)"@
    } else {
        s
    }
}

/// The trimmed output is addressable in memory, and where it is longer than
/// 2000 bytes the cut after byte 2000 falls between characters (cutting inside
/// a character would panic).
pub open spec fn shell_output_cuttable(stdout: Seq<char>) -> bool {
    &&& byte_len(trim_spaces(stdout)) <= usize::MAX
    &&& byte_len(trim_spaces(stdout)) > 2000 ==> is_char_boundary(
        encode_utf8(trim_spaces(stdout)),
        2000,
    )
}

/// What a shell query tells the model, from the command's output streams.
pub fn shell_output_text(stdout: &str, stderr: &str) -> (r: String)
    requires
        shell_output_cuttable(stdout@),
    ensures
        r@ == shell_reply(stdout@, stderr@),
{
    assert(strip_pred(true) == (|c: char| crate::text::is_space(c)));
    let s = string_from_chars(&trim_chars(&chars_of(stdout), true));
    if s.as_str().is_empty() {
        let e = string_from_chars(&trim_chars(&chars_of(stderr), true));
        if e.as_str().is_empty() {
            return "Нет вывода".to_owned();
        }
        return e;
    }
    if s.as_str().len() > 2000 {
        let (head, _) = s.as_str().split_at(2000);
        proof {
            encode_utf8_decode_utf8(head@);
            assert(head.spec_bytes() == encode_utf8(head@));
        }
        return concat(head, "…(обрезано)");
    }
    s
}

// ───────────────────────────── terminal scripts ─────────────────────────────

/// The PowerShell script of a visible terminal: it titles the window, runs
/// `cmd`, and waits for Enter.
pub open spec fn windows_terminal_script(cmd: Seq<char>, title: Seq<char>) -> Seq<char> {
    "$host.UI.RawUI.WindowTitle = '"@ + title + "'; "@ + cmd
        + "; Write-Host ''; Write-Host 'Нажмите Enter для закрытия...' -ForegroundColor DarkGray; Read-Host"@
}

/// The shell script of a visible terminal: it runs `cmd`, then waits for Enter.
pub open spec fn shell_terminal_script(cmd: Seq<char>) -> Seq<char> {
    cmd + "; echo; read -p 'Нажмите Enter для закрытия...'"@
}

/// The PowerShell script that shows `cmd` in a titled window.
pub fn windows_terminal_script_text(cmd: &str, title: &str) -> (r: String)
    ensures
        r@ == windows_terminal_script(cmd@, title@),
{
    let mut r = "$host.UI.RawUI.WindowTitle = '".to_owned();
    r.append(title);
    r.append("'; ");
    r.append(cmd);
    r.append("; Write-Host ''; Write-Host 'Нажмите Enter для закрытия...' -ForegroundColor DarkGray; Read-Host");
    r
}

/// The shell script that shows `cmd` in a terminal.
pub fn shell_terminal_script_text(cmd: &str) -> (r: String)
    ensures
        r@ == shell_terminal_script(cmd@),
{
    concat(cmd, "; echo; read -p 'Нажмите Enter для закрытия...'")
}

/// `script` as the single command argument that runs it with bash.
pub fn bash_command_argument(script: &str) -> (r: String)
    ensures
        r@ == "bash -c '"@ + script@ + "'"@,
{
    let mut r = "bash -c '".to_owned();
    r.append(script);
    r.append("'");
    r
}

/// The process name to kill: on Windows with «.exe» appended when it lacks it.
pub open spec fn kill_target_name(name: Seq<char>, windows: bool) -> Seq<char> {
    if windows && !(name.len() >= 4 && name.skip(name.len() - 4) == ".exe"@) {
        name + ".exe"@
    } else {
        name
    }
}

/// The process name that the kill command is given.
pub fn kill_target(name: &str, windows: bool) -> (r: String)
    ensures
        r@ == kill_target_name(name@, windows),
{
    if !windows {
        return name.to_owned();
    }
    let n = chars_of(name);
    let ext = chars_of(".exe");
    proof {
        reveal_strlit(".exe");
    }
    if n.len() >= 4 && starts_with_at(&n, &ext, n.len() - 4) {
        assert(n@.skip(n@.len() - 4) == n@.subrange(n@.len() - 4, n@.len() as int));
        name.to_owned()
    } else {
        if n.len() >= 4 {
            assert(n@.skip(n@.len() - 4) == n@.subrange(n@.len() - 4, n@.len() as int));
        }
        concat(name, ".exe")
    }
}

/// What the model is told after a process was killed: on Windows the trimmed
/// output of the kill command when there is one; else that it ended.
pub open spec fn kill_reply_text(name: Seq<char>, windows: bool, stdout: Seq<char>) -> Seq<char> {
    if windows && trim_spaces(stdout).len() > 0 {
        trim_spaces(stdout)
    } else {
        "Процесс "@ + name + " завершён"@
    }
}

/// The reply after killing process `name`, from the kill command's output.
pub fn kill_reply(name: &str, windows: bool, stdout: &str) -> (r: String)
    ensures
        r@ == kill_reply_text(name@, windows, stdout@),
{
    assert(strip_pred(true) == (|c: char| crate::text::is_space(c)));
    let t = trim_chars(&chars_of(stdout), true);
    if windows && t.len() > 0 {
        return string_from_chars(&t);
    }
    let mut r = "Процесс ".to_owned();
    r.append(name);
    r.append(" завершён");
    r
}

/// On Windows the process name handed to the kill command ends in «.exe».
pub proof fn law_kill_target_exe(name: Seq<char>)
    ensures
        ({
            let t = kill_target_name(name, true);
            t.len() >= 4 && t.skip(t.len() - 4) == ".exe"@
        }),
{
    reveal_strlit(".exe");
    let t = kill_target_name(name, true);
    if !(name.len() >= 4 && name.skip(name.len() - 4) == ".exe"@) {
        assert(t.skip(t.len() - 4) == ".exe"@);
    }
}

// ───────────────────────────── the model list ─────────────────────────────

/// For each element of the `data` array of the JSON document `text`, its `id`
/// when that is a string: what `serde_json::from_str::<Value>`, `Value::get("data")`,
/// `Value::as_array` and, per element, `Value::get("id")` with `Value::as_str`
/// yield; empty when `text` is not JSON or has no such array.
pub uninterp spec fn json_data_ids(text: Seq<char>) -> Seq<Option<Seq<char>>>;

/// Reads the `id` of every element of the `data` array of `text` with `serde_json`.
#[verifier::external_body]
fn data_ids(text: &str) -> (r: Vec<Option<String>>)
    ensures
        r@.map_values(|o: Option<String>| opt_view(o)) == json_data_ids(text@),
{
    match serde_json::from_str::<serde_json::Value>(text) {
        Ok(v) => match v.get("data").and_then(|d| d.as_array()) {
            Some(items) => items.iter().map(|m| m.get("id").and_then(|i| i.as_str()).map(String::from)).collect(),
            None => Vec::new(),
        },
        Err(_) => Vec::new(),
    }
}

/// The ids that are present, in order.
pub open spec fn present_ids(ids: Seq<Option<Seq<char>>>) -> Seq<Seq<char>>
    decreases ids.len(),
{
    if ids.len() == 0 {
        seq![]
    } else {
        let prev = present_ids(ids.drop_last());
        match ids.last() {
            Some(id) => prev.push(id),
            None => prev,
        }
    }
}

/// The ids that are present, in order.
pub fn present_model_ids(ids: &Vec<Option<String>>) -> (r: Vec<String>)
    ensures
        views_of(r@) == present_ids(ids@.map_values(|o: Option<String>| opt_view(o))),
{
    let ghost iv = ids@.map_values(|o: Option<String>| opt_view(o));
    let mut r: Vec<String> = Vec::new();
    let mut i: usize = 0;
    while i < ids.len()
        invariant
            i <= ids.len(),
            iv == ids@.map_values(|o: Option<String>| opt_view(o)),
            views_of(r@) == present_ids(iv.take(i as int)),
        decreases ids.len() - i,
    {
        assert(iv.take(i + 1).drop_last() == iv.take(i as int));
        assert(iv.take(i + 1).last() == opt_view(ids@[i as int]));
        match &ids[i] {
            Some(id) => {
                let ghost r0 = views_of(r@);
                r.push(id.clone());
                assert(views_of(r@) == r0.push(id@));
            },
            None => {},
        }
        i = i + 1;
    }
    assert(iv.take(ids.len() as int) == iv);
    r
}

/// The model ids listed by the server's `/v1/models` answer `body`.
pub fn model_ids(body: &str) -> (r: Vec<String>)
    ensures
        views_of(r@) == present_ids(json_data_ids(body@)),
{
    present_model_ids(&data_ids(body))
}

/// Long command output is cut to exactly its first 2000 bytes, which are whole
/// characters from its start, followed by the note «…(обрезано)».
pub proof fn law_shell_reply_cut(stdout: Seq<char>, stderr: Seq<char>)
    requires
        shell_output_cuttable(stdout),
        byte_len(trim_spaces(stdout)) > 2000,
    ensures
        ({
            let s = trim_spaces(stdout);
            let head = decode_utf8(encode_utf8(s).take(2000));
            &&& shell_reply(stdout, stderr) == head + "…(обрезано)"@
            &&& encode_utf8(head) == encode_utf8(s).take(2000)
            &&& s.take(head.len() as int) == head
        }),
{
    let s = trim_spaces(stdout);
    let bytes = encode_utf8(s);
    encode_utf8_valid_utf8(s);
    valid_utf8_split(bytes, 2000);
    assert(bytes.subrange(0, 2000) == bytes.take(2000));
    decode_utf8_encode_utf8(bytes.take(2000));
    decode_utf8_split(bytes, 2000);
    encode_utf8_decode_utf8(s);
    let head = decode_utf8(bytes.take(2000));
    let tail = decode_utf8(bytes.subrange(2000, bytes.len() as int));
    assert(s == head + tail);
    assert(s.take(head.len() as int) == head);
}

} // verus!
