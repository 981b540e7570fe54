//! The plugin's settings: the voice commands and the configuration as a whole,
//! with the values a fresh installation starts from.
use vstd::prelude::*;
use crate::text::views_of;

verus! {

/// One voice command: the phrases that start (and optionally close) it and the
/// shell command line to run on each platform.
#[derive(Debug, Clone)]
pub struct VoiceCommand {
    pub id: String,
    pub trigger: String,
    pub aliases: Vec<String>,
    pub windows_cmd: String,
    pub linux_cmd: String,
    pub description: String,
    /// Group shown in the settings UI; an empty string means "other".
    pub category: String,
    pub close_trigger: String,
    pub close_aliases: Vec<String>,
    pub windows_close_cmd: String,
    pub linux_close_cmd: String,
}

/// A command with every text empty and no aliases.
pub open spec fn is_blank_command(c: VoiceCommand) -> bool {
    &&& c.id@.len() == 0
    &&& c.trigger@.len() == 0
    &&& c.aliases@.len() == 0
    &&& c.windows_cmd@.len() == 0
    &&& c.linux_cmd@.len() == 0
    &&& c.description@.len() == 0
    &&& c.category@.len() == 0
    &&& c.close_trigger@.len() == 0
    &&& c.close_aliases@.len() == 0
    &&& c.windows_close_cmd@.len() == 0
    &&& c.linux_close_cmd@.len() == 0
}

impl Default for VoiceCommand {
    fn default() -> (r: Self)
        ensures
            is_blank_command(r),
    {
        VoiceCommand {
            id: String::new(),
            trigger: String::new(),
            aliases: Vec::new(),
            windows_cmd: String::new(),
            linux_cmd: String::new(),
            description: String::new(),
            category: String::new(),
            close_trigger: String::new(),
            close_aliases: Vec::new(),
            windows_close_cmd: String::new(),
            linux_close_cmd: String::new(),
        }
    }
}

/// The whole plugin configuration.
#[derive(Debug, Clone)]
pub struct PluginConfig {
    pub enabled: bool,
    pub autostart: bool,
    pub agent_name: String,
    pub port: u16,
    pub commands: Vec<VoiceCommand>,
    pub categories: Vec<String>,
    /// Use the language model to understand commands that no trigger matches.
    pub ollama_enabled: bool,
    pub ollama_url: String,
    /// Model id, such as "llama3.2:1b".
    pub ollama_model: String,
    /// Extra instructions appended to the base system prompt.
    pub ollama_system_prompt: String,
    pub voice_feedback_enabled: bool,
    /// "neutral" or "fun".
    pub voice_feedback_style: String,
    /// "system", "piper", "edge" or "custom".
    pub voice_engine: String,
    /// Id of the chosen Piper voice (from the catalog).
    pub piper_voice: String,
    /// Edge TTS voice, such as "ru-RU-SvetlanaNeural".
    pub edge_tts_voice: String,
    /// Edge TTS speed: -50..+100, 0 is normal.
    pub edge_tts_rate: i32,
    /// Command template of the custom engine; `{text}` stands for the text.
    pub voice_custom_cmd: String,
}

/// Default of an absent boolean field that defaults to on.
pub fn default_true() -> (r: bool)
    ensures
        r,
{
    true
}

/// Default address of the language-model server.
pub fn default_ollama_url() -> (r: String)
    ensures
        r@ == "http://localhost:1234"@,
{
    "http://localhost:1234".to_owned()
}

/// Default model id: none chosen.
pub fn default_ollama_model() -> (r: String)
    ensures
        r@ == Seq::<char>::empty(),
{
    String::new()
}

/// Default style of spoken confirmations.
pub fn default_voice_style() -> (r: String)
    ensures
        r@ == "neutral"@,
{
    "neutral".to_owned()
}

/// Default speech engine.
pub fn default_voice_engine() -> (r: String)
    ensures
        r@ == "system"@,
{
    "system".to_owned()
}

/// Default Piper voice.
pub fn default_piper_voice() -> (r: String)
    ensures
        r@ == "ru_RU-denis-medium"@,
{
    "ru_RU-denis-medium".to_owned()
}

/// Default Edge TTS voice.
pub fn default_edge_voice() -> (r: String)
    ensures
        r@ == "ru-RU-SvetlanaNeural"@,
{
    "ru-RU-SvetlanaNeural".to_owned()
}

/// Default Edge TTS speed.
pub fn default_edge_rate() -> (r: i32)
    ensures
        r == 0,
{
    0
}

/// The default command categories, in display order.
pub open spec fn default_category_names() -> Seq<Seq<char>> {
    seq!["Приложения"@, "Браузер"@, "Система"@, "Настройки"@, "Утилиты"@]
}

/// The default command categories.
pub fn default_categories() -> (r: Vec<String>)
    ensures
        views_of(r@) == default_category_names(),
{
    let r = vec![
        "Приложения".to_owned(),
        "Браузер".to_owned(),
        "Система".to_owned(),
        "Настройки".to_owned(),
        "Утилиты".to_owned(),
    ];
    assert(views_of(r@) == default_category_names());
    r
}

/// A command with the given texts and no aliases or close action.
pub open spec fn is_plain_command(
    c: VoiceCommand,
    id: Seq<char>,
    trigger: Seq<char>,
    windows_cmd: Seq<char>,
    linux_cmd: Seq<char>,
    description: Seq<char>,
    category: Seq<char>,
) -> bool {
    &&& c.id@ == id
    &&& c.trigger@ == trigger
    &&& c.aliases@.len() == 0
    &&& c.windows_cmd@ == windows_cmd
    &&& c.linux_cmd@ == linux_cmd
    &&& c.description@ == description
    &&& c.category@ == category
    &&& c.close_trigger@.len() == 0
    &&& c.close_aliases@.len() == 0
    &&& c.windows_close_cmd@.len() == 0
    &&& c.linux_close_cmd@.len() == 0
}

/// The five commands a fresh installation starts with.
pub open spec fn is_default_command_list(cs: Seq<VoiceCommand>) -> bool {
    &&& cs.len() == 5
    &&& cs[0].id@ == "1"@
    &&& cs[0].trigger@ == "открой проводник"@
    &&& cs[0].aliases@.len() == 0
    &&& cs[0].windows_cmd@ == "explorer.exe"@
    &&& cs[0].linux_cmd@ == "xdg-open ~"@
    &&& cs[0].description@ == "Файловый менеджер"@
    &&& cs[0].category@ == "Приложения"@
    &&& cs[0].close_trigger@ == "закрой проводник"@
    &&& cs[0].close_aliases@.len() == 0
    &&& cs[0].windows_close_cmd@ == "taskkill /f /im explorer.exe"@
    &&& cs[0].linux_close_cmd@ == "pkill nautilus || pkill thunar || pkill dolphin"@
    &&& is_plain_command(
        cs[1],
        "2"@,
        "открой браузер"@,
        "start msedge"@,
        "xdg-open https://google.com"@,
        "Браузер"@,
        "Приложения"@,
    )
    &&& is_plain_command(
        cs[2],
        "3"@,
        "открой калькулятор"@,
        "calc.exe"@,
        "gnome-calculator || kcalc || galculator"@,
        "Калькулятор"@,
        "Приложения"@,
    )
    &&& is_plain_command(
        cs[3],
        "4"@,
        "открой блокнот"@,
        "notepad.exe"@,
        "gedit || kate || nano"@,
        "Текстовый редактор"@,
        "Приложения"@,
    )
    &&& is_plain_command(
        cs[4],
        "5"@,
        "заблокируй компьютер"@,
        "rundll32.exe user32.dll,LockWorkStation"@,
        "loginctl lock-session"@,
        "Блокировка экрана"@,
        "Система"@,
    )
}

/// The configuration of a fresh installation.
pub open spec fn is_default_config(c: PluginConfig) -> bool {
    &&& c.enabled
    &&& c.autostart
    &&& c.agent_name@ == "Вилли"@
    &&& c.port == 8790
    &&& is_default_command_list(c.commands@)
    &&& views_of(c.categories@) == default_category_names()
    &&& !c.ollama_enabled
    &&& c.ollama_url@ == "http://localhost:1234"@
    &&& c.ollama_model@.len() == 0
    &&& c.ollama_system_prompt@.len() == 0
    &&& !c.voice_feedback_enabled
    &&& c.voice_feedback_style@ == "neutral"@
    &&& c.voice_engine@ == "system"@
    &&& c.piper_voice@ == "ru_RU-denis-medium"@
    &&& c.edge_tts_voice@ == "ru-RU-SvetlanaNeural"@
    &&& c.edge_tts_rate == 0
    &&& c.voice_custom_cmd@.len() == 0
}

fn plain_command(
    id: &str,
    trigger: &str,
    windows_cmd: &str,
    linux_cmd: &str,
    description: &str,
    category: &str,
) -> (r: VoiceCommand)
    ensures
        is_plain_command(r, id@, trigger@, windows_cmd@, linux_cmd@, description@, category@),
{
    VoiceCommand {
        id: id.to_owned(),
        trigger: trigger.to_owned(),
        windows_cmd: windows_cmd.to_owned(),
        linux_cmd: linux_cmd.to_owned(),
        description: description.to_owned(),
        category: category.to_owned(),
        ..VoiceCommand::default()
    }
}

impl Default for PluginConfig {
    fn default() -> (r: Self)
        ensures
            is_default_config(r),
    {
        let explorer = VoiceCommand {
            id: "1".to_owned(),
            trigger: "открой проводник".to_owned(),
            windows_cmd: "explorer.exe".to_owned(),
            linux_cmd: "xdg-open ~".to_owned(),
            description: "Файловый менеджер".to_owned(),
            category: "Приложения".to_owned(),
            close_trigger: "закрой проводник".to_owned(),
            windows_close_cmd: "taskkill /f /im explorer.exe".to_owned(),
            linux_close_cmd: "pkill nautilus || pkill thunar || pkill dolphin".to_owned(),
            ..VoiceCommand::default()
        };
        let commands = vec![
            explorer,
            plain_command(
                "2",
                "открой браузер",
                "start msedge",
                "xdg-open https://google.com",
                "Браузер",
                "Приложения",
            ),
            plain_command(
                "3",
                "открой калькулятор",
                "calc.exe",
                "gnome-calculator || kcalc || galculator",
                "Калькулятор",
                "Приложения",
            ),
            plain_command(
                "4",
                "открой блокнот",
                "notepad.exe",
                "gedit || kate || nano",
                "Текстовый редактор",
                "Приложения",
            ),
            plain_command(
                "5",
                "заблокируй компьютер",
                "rundll32.exe user32.dll,LockWorkStation",
                "loginctl lock-session",
                "Блокировка экрана",
                "Система",
            ),
        ];
        PluginConfig {
            enabled: true,
            autostart: true,
            agent_name: "Вилли".to_owned(),
            port: 8790,
            categories: default_categories(),
            ollama_enabled: false,
            ollama_url: default_ollama_url(),
            ollama_model: default_ollama_model(),
            ollama_system_prompt: String::new(),
            voice_feedback_enabled: false,
            voice_feedback_style: default_voice_style(),
            voice_engine: default_voice_engine(),
            piper_voice: default_piper_voice(),
            edge_tts_voice: default_edge_voice(),
            edge_tts_rate: 0,
            voice_custom_cmd: String::new(),
            commands,
        }
    }
}

} // verus!
