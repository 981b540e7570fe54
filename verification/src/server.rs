//! What the plugin does with a recognised utterance: normalisation, the agent's
//! name, trigger matching, command chains, and the decision that the HTTP
//! `/intercept` endpoint answers with.
use vstd::prelude::*;
use crate::config::{PluginConfig, VoiceCommand};
use crate::ollama::NluResult;
use crate::text::{
    occurs_at, alphabetic, vec_views, chars_of, collapse_spaces, collapse_whitespace, contains, contains_sub,
    has_prefix, is_address_punct, is_alphabetic, is_space, is_whitespace, lowercase, same_chars,
    slice_chars, split_by, split_on, split_whitespace, starts_with, string_from_chars,
    strip_pred, to_lowercase, trim_by, trim_chars, trim_spaces, words, concat, join, views_of,
    join_strings, lemma_words_chars, lemma_words_shape, lemma_join_shape,
    piece_of, lemma_piece_free, lemma_piece_trans, lemma_trim_piece, lemma_split_pieces,
    is_word, lemma_words_of_join, words_within, lemma_words_within_refl,
    lemma_words_within_trans, lemma_trim_words_within, lemma_split_words_within,
};

verus! {

// ───────────────────────────── normalisation ─────────────────────────────

/// Every character that is neither a letter nor white space becomes a space.
pub open spec fn letters_and_spaces(s: Seq<char>) -> Seq<char> {
    s.map_values(|c: char| if alphabetic(c) || is_space(c) { c } else { ' ' })
}

/// The normal form of an utterance or a trigger: lowercased, punctuation and
/// digits turned into spaces, the words joined by single spaces.
pub open spec fn normalized(s: Seq<char>) -> Seq<char> {
    collapse_spaces(letters_and_spaces(lowercase(s)))
}

/// The normal form of `s`, as characters.
pub fn normalize_chars(s: &str) -> (r: Vec<char>)
    ensures
        r@ == normalized(s@),
{
    let low = to_lowercase(s);
    let v = chars_of(low.as_str());
    let mut mapped: Vec<char> = Vec::new();
    let mut i: usize = 0;
    while i < v.len()
        invariant
            i <= v.len(),
            v@ == lowercase(s@),
            mapped@ == letters_and_spaces(v@).take(i as int),
        decreases v.len() - i,
    {
        let c = v[i];
        let keep = is_alphabetic(c) || is_whitespace(c);
        mapped.push(if keep { c } else { ' ' });
        assert(letters_and_spaces(v@).take(i + 1) == letters_and_spaces(v@).take(i as int).push(
            letters_and_spaces(v@)[i as int],
        ));
        i = i + 1;
    }
    assert(letters_and_spaces(v@).take(v.len() as int) == letters_and_spaces(v@));
    collapse_whitespace(&mapped)
}

/// The normal form of `s`: lowercase words of letters separated by single spaces.
pub fn normalize(s: &str) -> (r: String)
    ensures
        r@ == normalized(s@),
{
    let v = normalize_chars(s);
    string_from_chars(&v)
}

// ───────────────────────────── trigger matching ─────────────────────────────

/// `w` is one of `ws`.
pub open spec fn has_word(ws: Seq<Seq<char>>, w: Seq<char>) -> bool {
    exists|j: int| 0 <= j < ws.len() && ws[j] == w
}

/// A (normalised) text matches a (normalised) trigger when it equals it, holds
/// it as a substring, or holds each of its words as a word.
pub open spec fn trigger_matches(text: Seq<char>, trigger: Seq<char>) -> bool {
    ||| text == trigger
    ||| contains_sub(text, trigger)
    ||| (words(trigger).len() > 0 && forall|k: int|
        0 <= k < words(trigger).len() ==> has_word(words(text), #[trigger] words(trigger)[k]))
}

fn has_word_exec(ws: &Vec<Vec<char>>, w: &Vec<char>) -> (r: bool)
    ensures
        r == has_word(vec_views(ws@), w@),
{
    let ghost views = vec_views(ws@);
    let mut j: usize = 0;
    while j < ws.len()
        invariant
            j <= ws.len(),
            views == vec_views(ws@),
            forall|i: int| 0 <= i < j ==> views[i] != w@,
        decreases ws.len() - j,
    {
        if same_chars(&ws[j], w) {
            assert(views[j as int] == w@);
            return true;
        }
        j = j + 1;
    }
    false
}

/// Whether the characters `text` match the trigger characters `trigger`.
pub fn matches_trigger_chars(text: &Vec<char>, trigger: &Vec<char>) -> (r: bool)
    ensures
        r == trigger_matches(text@, trigger@),
{
    if same_chars(text, trigger) || contains(text, trigger) {
        return true;
    }
    let tw = split_whitespace(trigger);
    let xw = split_whitespace(text);
    let ghost tv = vec_views(tw@);
    let ghost xv = vec_views(xw@);
    if tw.len() == 0 {
        assert(tv.len() == 0);
        return false;
    }
    let mut k: usize = 0;
    while k < tw.len()
        invariant
            k <= tw.len(),
            tv == vec_views(tw@),
            xv == vec_views(xw@),
            tv == words(trigger@),
            xv == words(text@),
            text@ != trigger@,
            !contains_sub(text@, trigger@),
            tv.len() > 0,
            forall|i: int| 0 <= i < k ==> has_word(xv, #[trigger] tv[i]),
        decreases tw.len() - k,
    {
        if !has_word_exec(&xw, &tw[k]) {
            assert(!has_word(words(text@), words(trigger@)[k as int]));
            return false;
        }
        k = k + 1;
    }
    true
}

/// Whether `text` matches `trigger` (both taken as they are, not normalised).
pub fn matches_trigger(text: &str, trigger: &str) -> (r: bool)
    ensures
        r == trigger_matches(text@, trigger@),
{
    let t = chars_of(text);
    let g = chars_of(trigger);
    matches_trigger_chars(&t, &g)
}

// ───────────────────────────── the agent's name ─────────────────────────────

/// The command that follows the agent's name at the start of `text`, without
/// the surrounding punctuation and spaces; none when the name is empty, is
/// not at the start, or nothing follows it.
pub open spec fn command_after_agent(text: Seq<char>, agent: Seq<char>) -> Option<Seq<char>> {
    if agent.len() == 0 || !has_prefix(text, agent) {
        None
    } else {
        let rest = trim_by(text.skip(agent.len() as int), |c: char| is_address_punct(c));
        if rest.len() == 0 {
            None
        } else {
            Some(rest)
        }
    }
}

/// The views of an optional string.
pub open spec fn opt_view(o: Option<String>) -> Option<Seq<char>> {
    match o {
        Some(s) => Some(s@),
        None => None,
    }
}

/// The command addressed to the agent in `text`, if `text` begins with `agent`.
pub fn strip_agent_prefix(text: &str, agent: &str) -> (r: Option<String>)
    ensures
        opt_view(r) == command_after_agent(text@, agent@),
{
    let t = chars_of(text);
    let a = chars_of(agent);
    if a.len() == 0 || !starts_with(&t, &a) {
        return None;
    }
    let rest = slice_chars(&t, a.len(), t.len());
    assert(rest@ == t@.skip(a@.len() as int));
    let trimmed = trim_chars(&rest, false);
    assert(strip_pred(false) == (|c: char| is_address_punct(c)));
    if trimmed.len() == 0 {
        None
    } else {
        Some(string_from_chars(&trimmed))
    }
}

// ───────────────────────────── command chains ─────────────────────────────

/// The words that join commands into a chain, in the order they are split on.
pub open spec fn conjunction_separators() -> Seq<Seq<char>> {
    seq![
        " и "@,
        " затем "@,
        " потом "@,
        " а затем "@,
        " а потом "@,
        " также "@,
        " and "@,
        " then "@,
    ]
}

/// The trimmed, non-empty items of `pieces`, in order.
pub open spec fn trimmed_nonempty(pieces: Seq<Seq<char>>) -> Seq<Seq<char>>
    decreases pieces.len(),
{
    if pieces.len() == 0 {
        seq![]
    } else {
        let t = trim_spaces(pieces.last());
        let prev = trimmed_nonempty(pieces.drop_last());
        if t.len() > 0 {
            prev.push(t)
        } else {
            prev
        }
    }
}

/// Every part split on `sep`, its pieces trimmed and the empty ones dropped.
pub open spec fn split_parts(parts: Seq<Seq<char>>, sep: Seq<char>) -> Seq<Seq<char>>
    decreases parts.len(),
{
    if parts.len() == 0 {
        seq![]
    } else {
        split_parts(parts.drop_last(), sep) + trimmed_nonempty(split_on(parts.last(), sep))
    }
}

/// `text` split on each of `seps` in turn.
pub open spec fn split_on_all(text: Seq<char>, seps: Seq<Seq<char>>) -> Seq<Seq<char>>
    decreases seps.len(),
{
    if seps.len() == 0 {
        seq![text]
    } else {
        split_parts(split_on_all(text, seps.drop_last()), seps.last())
    }
}

/// The commands of a chain such as «открой браузер и открой калькулятор».
pub open spec fn conjunction_parts(text: Seq<char>) -> Seq<Seq<char>> {
    split_on_all(text, conjunction_separators())
}

/// Each joining word is non-empty.
pub proof fn lemma_separators_nonempty()
    ensures
        conjunction_separators().len() == 8,
        forall|i: int|
            0 <= i < conjunction_separators().len() ==> #[trigger] conjunction_separators()[i].len()
                > 0,
{
    reveal_strlit(" и ");
    reveal_strlit(" затем ");
    reveal_strlit(" потом ");
    reveal_strlit(" а затем ");
    reveal_strlit(" а потом ");
    reveal_strlit(" также ");
    reveal_strlit(" and ");
    reveal_strlit(" then ");
    let seps = conjunction_separators();
    assert(seps[0].len() > 0);
    assert(seps[1].len() > 0);
    assert(seps[2].len() > 0);
    assert(seps[3].len() > 0);
    assert(seps[4].len() > 0);
    assert(seps[5].len() > 0);
    assert(seps[6].len() > 0);
    assert(seps[7].len() > 0);
}

fn separator_list() -> (r: Vec<Vec<char>>)
    ensures
        vec_views(r@) == conjunction_separators(),
{
    let mut r: Vec<Vec<char>> = Vec::new();
    r.push(chars_of(" и "));
    r.push(chars_of(" затем "));
    r.push(chars_of(" потом "));
    r.push(chars_of(" а затем "));
    r.push(chars_of(" а потом "));
    r.push(chars_of(" также "));
    r.push(chars_of(" and "));
    r.push(chars_of(" then "));
    assert(vec_views(r@) == conjunction_separators());
    r
}

/// Splits every part on `sep`, trims the pieces and keeps the non-empty ones.
fn split_parts_exec(parts: &Vec<Vec<char>>, sep: &Vec<char>) -> (r: Vec<Vec<char>>)
    requires
        sep@.len() > 0,
    ensures
        vec_views(r@) == split_parts(
            vec_views(parts@),
            sep@,
        ),
{
    let ghost pv = vec_views(parts@);
    let mut out: Vec<Vec<char>> = Vec::new();
    let mut i: usize = 0;
    while i < parts.len()
        invariant
            i <= parts.len(),
            sep@.len() > 0,
            pv == vec_views(parts@),
            vec_views(out@) == split_parts(pv.take(i as int), sep@),
        decreases parts.len() - i,
    {
        let pieces = split_by(&parts[i], sep);
        let ghost qv = vec_views(pieces@);
        let ghost base = vec_views(out@);
        let mut j: usize = 0;
        while j < pieces.len()
            invariant
                j <= pieces.len(),
                qv == vec_views(pieces@),
                vec_views(out@) == base + trimmed_nonempty(qv.take(j as int)),
            decreases pieces.len() - j,
        {
            let t = trim_chars(&pieces[j], true);
            assert(strip_pred(true) == (|c: char| is_space(c)));
            assert(qv.take(j + 1).drop_last() == qv.take(j as int));
            assert(qv.take(j + 1).last() == pieces@[j as int]@);
            if t.len() > 0 {
                let ghost o = vec_views(out@);
                out.push(t);
                assert(vec_views(out@) == o.push(t@));
            }
            j = j + 1;
        }
        assert(qv.take(pieces.len() as int) == qv);
        assert(pv.take(i + 1).drop_last() == pv.take(i as int));
        assert(pv.take(i + 1).last() == parts@[i as int]@);
        i = i + 1;
    }
    assert(pv.take(parts.len() as int) == pv);
    out
}

/// The commands of a chain, as characters.
pub fn conjunction_parts_chars(text: &Vec<char>) -> (r: Vec<Vec<char>>)
    ensures
        vec_views(r@) == conjunction_parts(text@),
{
    let seps = separator_list();
    let ghost sv = vec_views(seps@);
    let mut parts: Vec<Vec<char>> = Vec::new();
    parts.push(slice_chars(text, 0, text.len()));
    assert(text@.subrange(0, text@.len() as int) == text@);
    assert(vec_views(parts@) == seq![text@]);
    let mut s: usize = 0;
    while s < seps.len()
        invariant
            s <= seps.len(),
            sv == vec_views(seps@),
            sv == conjunction_separators(),
            vec_views(parts@) == split_on_all(text@, sv.take(s as int)),
        decreases seps.len() - s,
    {
        proof {
            lemma_separators_nonempty();
        }
        parts = split_parts_exec(&parts, &seps[s]);
        assert(sv.take(s + 1).drop_last() == sv.take(s as int));
        assert(sv.take(s + 1).last() == seps@[s as int]@);
        s = s + 1;
    }
    assert(sv.take(seps.len() as int) == sv);
    parts
}

/// The commands of a chain such as «открой браузер и открой калькулятор»: the
/// text split on the joining words, each piece trimmed, empty pieces dropped.
pub fn split_conjunctions(text: &str) -> (r: Vec<String>)
    ensures
        views_of(r@) == conjunction_parts(text@),
{
    let t = chars_of(text);
    let parts = conjunction_parts_chars(&t);
    let ghost pv = vec_views(parts@);
    let mut out: Vec<String> = Vec::new();
    let mut i: usize = 0;
    while i < parts.len()
        invariant
            i <= parts.len(),
            pv == vec_views(parts@),
            views_of(out@) == pv.take(i as int),
        decreases parts.len() - i,
    {
        let ghost o = views_of(out@);
        out.push(string_from_chars(&parts[i]));
        assert(views_of(out@) == o.push(parts@[i as int]@));
        assert(pv.take(i + 1) == pv.take(i as int).push(pv[i as int]));
        i = i + 1;
    }
    assert(pv.take(parts.len() as int) == pv);
    out
}

// ───────────────────────────── commands ─────────────────────────────

/// Some normalised alias of `aliases` is matched by `text`.
pub open spec fn alias_matches(aliases: Seq<String>, text: Seq<char>) -> bool {
    exists|j: int| 0 <= j < aliases.len() && trigger_matches(text, normalized(#[trigger] aliases[j]@))
}

/// `text` starts command `c`: it matches the normalised trigger or an alias.
pub open spec fn opens(c: VoiceCommand, text: Seq<char>) -> bool {
    trigger_matches(text, normalized(c.trigger@)) || alias_matches(c.aliases@, text)
}

/// `text` closes command `c`: the command has a close trigger, and `text`
/// matches it or one of its close aliases.
pub open spec fn closes(c: VoiceCommand, text: Seq<char>) -> bool {
    c.close_trigger@.len() > 0 && (trigger_matches(text, normalized(c.close_trigger@))
        || alias_matches(c.close_aliases@, text))
}

/// The first command, from index `from` on, that `text` starts or closes, with
/// `true` when it closes it. Starting is tried before closing for each command.
pub open spec fn command_hit(cmds: Seq<VoiceCommand>, text: Seq<char>, from: int) -> Option<
    (int, bool),
>
    decreases cmds.len() - from,
{
    if from < 0 || from >= cmds.len() {
        None
    } else if opens(cmds[from], text) {
        Some((from, false))
    } else if closes(cmds[from], text) {
        Some((from, true))
    } else {
        command_hit(cmds, text, from + 1)
    }
}

/// The shell command line of `c` for the platform, for starting or closing.
pub open spec fn run_line(c: VoiceCommand, close: bool, windows: bool) -> Seq<char> {
    if close {
        if windows {
            c.windows_close_cmd@
        } else {
            c.linux_close_cmd@
        }
    } else {
        if windows {
            c.windows_cmd@
        } else {
            c.linux_cmd@
        }
    }
}

/// The phrase that was matched: the trigger, or the close trigger.
pub open spec fn hit_trigger(c: VoiceCommand, close: bool) -> Seq<char> {
    if close {
        c.close_trigger@
    } else {
        c.trigger@
    }
}

/// How a command is named in feedback: its description, or the matched phrase.
pub open spec fn hit_label(c: VoiceCommand, close: bool) -> Seq<char> {
    if c.description@.len() == 0 {
        hit_trigger(c, close)
    } else {
        c.description@
    }
}

/// The matched phrase, command line and label of the first command that the
/// (normalised) `text` starts or closes.
pub open spec fn exact_match(cmds: Seq<VoiceCommand>, text: Seq<char>, windows: bool) -> Option<
    (Seq<char>, Seq<char>, Seq<char>),
> {
    match command_hit(cmds, text, 0) {
        Some((i, close)) => Some(
            (hit_trigger(cmds[i], close), run_line(cmds[i], close, windows), hit_label(cmds[i], close)),
        ),
        None => None,
    }
}

fn any_alias_matches(aliases: &Vec<String>, text: &Vec<char>) -> (r: bool)
    ensures
        r == alias_matches(aliases@, text@),
{
    let mut j: usize = 0;
    while j < aliases.len()
        invariant
            j <= aliases.len(),
            forall|i: int| 0 <= i < j ==> !trigger_matches(text@, normalized(#[trigger] aliases@[i]@)),
        decreases aliases.len() - j,
    {
        let a = normalize_chars(aliases[j].as_str());
        if matches_trigger_chars(text, &a) {
            return true;
        }
        j = j + 1;
    }
    false
}

/// Whether `text` starts command `c`.
pub fn opens_command(c: &VoiceCommand, text: &Vec<char>) -> (r: bool)
    ensures
        r == opens(*c, text@),
{
    let t = normalize_chars(c.trigger.as_str());
    matches_trigger_chars(text, &t) || any_alias_matches(&c.aliases, text)
}

/// Whether `text` closes command `c`.
pub fn closes_command(c: &VoiceCommand, text: &Vec<char>) -> (r: bool)
    ensures
        r == closes(*c, text@),
{
    if c.close_trigger.as_str().is_empty() {
        return false;
    }
    let t = normalize_chars(c.close_trigger.as_str());
    matches_trigger_chars(text, &t) || any_alias_matches(&c.close_aliases, text)
}

/// The first command that `text` starts or closes, with `true` when it closes it.
pub fn find_hit(cmds: &Vec<VoiceCommand>, text: &Vec<char>) -> (r: Option<(usize, bool)>)
    ensures
        r matches Some((i, close)) ==> command_hit(cmds@, text@, 0) == Some((i as int, close))
            && i < cmds@.len(),
        r is None ==> command_hit(cmds@, text@, 0) is None,
{
    let mut i: usize = 0;
    while i < cmds.len()
        invariant
            i <= cmds.len(),
            command_hit(cmds@, text@, 0) == command_hit(cmds@, text@, i as int),
        decreases cmds.len() - i,
    {
        if opens_command(&cmds[i], text) {
            return Some((i, false));
        }
        if closes_command(&cmds[i], text) {
            return Some((i, true));
        }
        i = i + 1;
    }
    None
}

/// The command line of `c` for the platform.
pub fn run_line_of(c: &VoiceCommand, close: bool, windows: bool) -> (r: String)
    ensures
        r@ == run_line(*c, close, windows),
{
    if close {
        if windows {
            c.windows_close_cmd.clone()
        } else {
            c.linux_close_cmd.clone()
        }
    } else {
        if windows {
            c.windows_cmd.clone()
        } else {
            c.linux_cmd.clone()
        }
    }
}

fn hit_trigger_of(c: &VoiceCommand, close: bool) -> (r: String)
    ensures
        r@ == hit_trigger(*c, close),
{
    if close {
        c.close_trigger.clone()
    } else {
        c.trigger.clone()
    }
}

fn hit_label_of(c: &VoiceCommand, close: bool) -> (r: String)
    ensures
        r@ == hit_label(*c, close),
{
    if c.description.as_str().is_empty() {
        hit_trigger_of(c, close)
    } else {
        c.description.clone()
    }
}

/// The matched phrase, the command line for the platform and the feedback
/// label of the first command that `command_text` starts or closes.
pub fn find_exact_match(command_text: &str, cfg: &PluginConfig, windows: bool) -> (r: Option<
    (String, String, String),
>)
    ensures
        match r {
            Some((t, e, l)) => exact_match(cfg.commands@, command_text@, windows) == Some(
                (t@, e@, l@),
            ),
            None => exact_match(cfg.commands@, command_text@, windows) is None,
        },
{
    let text = chars_of(command_text);
    match find_hit(&cfg.commands, &text) {
        Some((i, close)) => {
            let c = &cfg.commands[i];
            Some((hit_trigger_of(c, close), run_line_of(c, close, windows), hit_label_of(c, close)))
        },
        None => None,
    }
}

// ───────────────────────────── chains ─────────────────────────────

/// How a chain step is named: the label, prefixed by «закрыть» for a close.
pub open spec fn chain_label(c: VoiceCommand, close: bool) -> Seq<char> {
    if close {
        "закрыть "@ + hit_label(c, close)
    } else {
        hit_label(c, close)
    }
}

/// The command lines run for a chain and their labels: for each part in turn,
/// the first command it starts or closes, when that has a command line.
pub open spec fn chain_runs(cmds: Seq<VoiceCommand>, parts: Seq<Seq<char>>, windows: bool) -> (
    Seq<Seq<char>>,
    Seq<Seq<char>>,
)
    decreases parts.len(),
{
    if parts.len() == 0 {
        (seq![], seq![])
    } else {
        let prev = chain_runs(cmds, parts.drop_last(), windows);
        match command_hit(cmds, parts.last(), 0) {
            Some((i, close)) => if run_line(cmds[i], close, windows).len() > 0 {
                (
                    prev.0.push(run_line(cmds[i], close, windows)),
                    prev.1.push(chain_label(cmds[i], close)),
                )
            } else {
                prev
            },
            None => prev,
        }
    }
}

fn chain_label_of(c: &VoiceCommand, close: bool) -> (r: String)
    ensures
        r@ == chain_label(*c, close),
{
    let label = hit_label_of(c, close);
    if close {
        concat("закрыть ", label.as_str())
    } else {
        label
    }
}

/// The command lines and labels of a chain of parts.
pub fn chain_steps(cmds: &Vec<VoiceCommand>, parts: &Vec<Vec<char>>, windows: bool) -> (r: (
    Vec<String>,
    Vec<String>,
))
    ensures
        (views_of(r.0@), views_of(r.1@)) == chain_runs(cmds@, vec_views(parts@), windows),
{
    let ghost pv = vec_views(parts@);
    let mut lines: Vec<String> = Vec::new();
    let mut labels: Vec<String> = Vec::new();
    let mut k: usize = 0;
    while k < parts.len()
        invariant
            k <= parts.len(),
            pv == vec_views(parts@),
            (views_of(lines@), views_of(labels@)) == chain_runs(cmds@, pv.take(k as int), windows),
        decreases parts.len() - k,
    {
        assert(pv.take(k + 1).drop_last() == pv.take(k as int));
        assert(pv.take(k + 1).last() == parts@[k as int]@);
        match find_hit(cmds, &parts[k]) {
            Some((i, close)) => {
                let line = run_line_of(&cmds[i], close, windows);
                if line.as_str().is_empty() {
                } else {
                    let ghost l0 = views_of(lines@);
                    let ghost b0 = views_of(labels@);
                    let label = chain_label_of(&cmds[i], close);
                    lines.push(line);
                    labels.push(label);
                    assert(views_of(lines@) == l0.push(run_line(cmds@[i as int], close, windows)));
                    assert(views_of(labels@) == b0.push(chain_label(cmds@[i as int], close)));
                }
            },
            None => {},
        }
        k = k + 1;
    }
    assert(pv.take(parts.len() as int) == pv);
    (lines, labels)
}

// ───────────────────────────── the intercept decision ─────────────────────────────

/// The answer of the `/intercept` endpoint.
pub struct InterceptResponse {
    /// The utterance was taken over by the plugin.
    pub intercept: bool,
    /// The utterance began with the agent's name.
    pub agent_detected: bool,
    /// The phrase of the command that matched exactly.
    pub matched_trigger: Option<String>,
    /// What to show the user.
    pub feedback: Option<String>,
}

/// What the plugin does with an utterance: the answer, the command lines to
/// run (in order), whether to confirm by voice, and the command text to hand to
/// the language model.
pub struct InterceptPlan {
    pub response: InterceptResponse,
    pub run: Vec<String>,
    pub confirm_by_voice: bool,
    pub nlu_text: Option<String>,
}

/// The mathematical content of an [`InterceptPlan`].
pub struct PlanView {
    pub intercept: bool,
    pub agent_detected: bool,
    pub matched_trigger: Option<Seq<char>>,
    pub feedback: Option<Seq<char>>,
    pub run: Seq<Seq<char>>,
    pub confirm_by_voice: bool,
    pub nlu_text: Option<Seq<char>>,
}

impl View for InterceptPlan {
    type V = PlanView;

    open spec fn view(&self) -> PlanView {
        PlanView {
            intercept: self.response.intercept,
            agent_detected: self.response.agent_detected,
            matched_trigger: opt_view(self.response.matched_trigger),
            feedback: opt_view(self.response.feedback),
            run: views_of(self.run@),
            confirm_by_voice: self.confirm_by_voice,
            nlu_text: opt_view(self.nlu_text),
        }
    }
}

/// A plan that leaves the utterance alone.
pub open spec fn pass_through(agent_detected: bool) -> PlanView {
    PlanView {
        intercept: false,
        agent_detected,
        matched_trigger: None,
        feedback: None,
        run: seq![],
        confirm_by_voice: false,
        nlu_text: None,
    }
}

/// The language model is configured to understand commands.
pub open spec fn nlu_configured(cfg: PluginConfig) -> bool {
    cfg.ollama_enabled && cfg.ollama_url@.len() > 0 && cfg.ollama_model@.len() > 0
}

/// What to do with the command text that followed the agent's name: a chain
/// of two or more parts runs, in order, the command line of every part that
/// starts or closes a command, when at least one does; otherwise the first
/// command that the whole text starts or closes runs; else the language model
/// gets the text, when configured; else nothing happens.
pub open spec fn command_plan(cfg: PluginConfig, command_text: Seq<char>, windows: bool) -> PlanView {
    let parts = conjunction_parts(command_text);
    let steps = chain_runs(cfg.commands@, parts, windows);
    if parts.len() > 1 && steps.0.len() > 0 {
        PlanView {
            intercept: true,
            agent_detected: true,
            matched_trigger: None,
            feedback: Some("Выполняю: "@ + join(steps.1, " → "@)),
            run: steps.0,
            confirm_by_voice: true,
            nlu_text: None,
        }
    } else {
        match exact_match(cfg.commands@, command_text, windows) {
            Some((trigger, line, label)) => PlanView {
                intercept: true,
                agent_detected: true,
                matched_trigger: Some(trigger),
                feedback: Some("Выполняю: "@ + label),
                run: seq![line],
                confirm_by_voice: true,
                nlu_text: None,
            },
            None => if nlu_configured(cfg) {
                PlanView {
                    intercept: true,
                    agent_detected: true,
                    matched_trigger: None,
                    feedback: Some("AI обрабатывает команду..."@),
                    run: seq![],
                    confirm_by_voice: false,
                    nlu_text: Some(command_text),
                }
            } else {
                pass_through(true)
            },
        }
    }
}

/// What the plugin does with the utterance `text`: nothing when disabled or
/// when the (normalised) text does not begin with the (normalised) agent's
/// name; otherwise the plan for the command that follows the name.
pub open spec fn intercept_plan(cfg: PluginConfig, text: Seq<char>, windows: bool) -> PlanView {
    if !cfg.enabled {
        pass_through(false)
    } else {
        match command_after_agent(normalized(text), normalized(cfg.agent_name@)) {
            None => pass_through(false),
            Some(command_text) => command_plan(cfg, command_text, windows),
        }
    }
}

fn pass_through_plan(agent_detected: bool) -> (r: InterceptPlan)
    ensures
        r@ == pass_through(agent_detected),
{
    let r = InterceptPlan {
        response: InterceptResponse {
            intercept: false,
            agent_detected,
            matched_trigger: None,
            feedback: None,
        },
        run: Vec::new(),
        confirm_by_voice: false,
        nlu_text: None,
    };
    assert(views_of(r.run@) == Seq::<Seq<char>>::empty());
    r
}

/// Decides what to do with the utterance `text` under `cfg` on the given platform.
pub fn plan_intercept(cfg: &PluginConfig, text: &str, windows: bool) -> (r: InterceptPlan)
    ensures
        r@ == intercept_plan(*cfg, text@, windows),
{
    if !cfg.enabled {
        return pass_through_plan(false);
    }
    let normal = normalize(text);
    let agent = normalize(cfg.agent_name.as_str());
    let command_text = match strip_agent_prefix(normal.as_str(), agent.as_str()) {
        Some(rest) => rest,
        None => {
            return pass_through_plan(false);
        },
    };
    let chars = chars_of(command_text.as_str());
    let parts = conjunction_parts_chars(&chars);
    if parts.len() > 1 {
        let (lines, labels) = chain_steps(&cfg.commands, &parts, windows);
        if lines.len() > 0 {
            let joined = join_strings(&labels, " → ");
            return InterceptPlan {
                response: InterceptResponse {
                    intercept: true,
                    agent_detected: true,
                    matched_trigger: None,
                    feedback: Some(concat("Выполняю: ", joined.as_str())),
                },
                run: lines,
                confirm_by_voice: true,
                nlu_text: None,
            };
        }
    }
    if let Some((trigger, line, label)) = find_exact_match(command_text.as_str(), cfg, windows) {
        let mut run: Vec<String> = Vec::new();
        run.push(line);
        assert(views_of(run@) == seq![line@]);
        return InterceptPlan {
            response: InterceptResponse {
                intercept: true,
                agent_detected: true,
                matched_trigger: Some(trigger),
                feedback: Some(concat("Выполняю: ", label.as_str())),
            },
            run,
            confirm_by_voice: true,
            nlu_text: None,
        };
    }
    if cfg.ollama_enabled && !cfg.ollama_url.as_str().is_empty()
        && !cfg.ollama_model.as_str().is_empty() {
        let r = InterceptPlan {
            response: InterceptResponse {
                intercept: true,
                agent_detected: true,
                matched_trigger: None,
                feedback: Some("AI обрабатывает команду...".to_owned()),
            },
            run: Vec::new(),
            confirm_by_voice: false,
            nlu_text: Some(command_text),
        };
        assert(views_of(r.run@) == Seq::<Seq<char>>::empty());
        return r;
    }
    pass_through_plan(true)
}

// ───────────────────────────── after the language model ─────────────────────────────

/// Some alias of `aliases` normalises to `norm`.
pub open spec fn alias_named(aliases: Seq<String>, norm: Seq<char>) -> bool {
    exists|j: int| 0 <= j < aliases.len() && normalized(#[trigger] aliases[j]@) == norm
}

/// The normalised phrase `norm` names command `c`: its trigger, close trigger
/// or one of their aliases normalises to it.
pub open spec fn names_command(c: VoiceCommand, norm: Seq<char>) -> bool {
    ||| normalized(c.trigger@) == norm
    ||| normalized(c.close_trigger@) == norm
    ||| alias_named(c.aliases@, norm)
    ||| alias_named(c.close_aliases@, norm)
}

/// `norm` names the close action of `c`.
pub open spec fn names_close(c: VoiceCommand, norm: Seq<char>) -> bool {
    c.close_trigger@.len() > 0 && (normalized(c.close_trigger@) == norm || alias_named(
        c.close_aliases@,
        norm,
    ))
}

/// The first command, from index `from` on, that `norm` names.
pub open spec fn named_command(cmds: Seq<VoiceCommand>, norm: Seq<char>, from: int) -> Option<int>
    decreases cmds.len() - from,
{
    if from < 0 || from >= cmds.len() {
        None
    } else if names_command(cmds[from], norm) {
        Some(from)
    } else {
        named_command(cmds, norm, from + 1)
    }
}

/// How the model's answer is spoken.
pub enum NluSpeech {
    /// Nothing to say.
    Silent,
    /// Say this whatever the feedback setting (an informative answer).
    Direct(String),
    /// Say this if spoken feedback is on.
    Feedback(String),
    /// Say a confirmation phrase if spoken feedback is on.
    Confirmation,
}

/// What to do with the model's answer: the command line to run, the trigger
/// that named no command, how to speak, and whether the model returned nothing.
pub struct NluFollowUp {
    pub run: Option<String>,
    pub unknown_trigger: Option<String>,
    pub speech: NluSpeech,
    pub nothing_returned: bool,
}

/// The mathematical content of an [`NluSpeech`].
pub enum SpeechChoice {
    Silent,
    Direct(Seq<char>),
    Feedback(Seq<char>),
    Confirmation,
}

/// The mathematical content of an [`NluFollowUp`].
pub struct FollowUpView {
    pub run: Option<Seq<char>>,
    pub unknown_trigger: Option<Seq<char>>,
    pub speech: SpeechChoice,
    pub nothing_returned: bool,
}

impl View for NluFollowUp {
    type V = FollowUpView;

    open spec fn view(&self) -> FollowUpView {
        FollowUpView {
            run: opt_view(self.run),
            unknown_trigger: opt_view(self.unknown_trigger),
            speech: match self.speech {
                NluSpeech::Silent => SpeechChoice::Silent,
                NluSpeech::Direct(t) => SpeechChoice::Direct(t@),
                NluSpeech::Feedback(t) => SpeechChoice::Feedback(t@),
                NluSpeech::Confirmation => SpeechChoice::Confirmation,
            },
            nothing_returned: self.nothing_returned,
        }
    }
}

/// The command line that the model's trigger runs: that of the first command it
/// names (its close line when it names the close action), unless empty.
pub open spec fn nlu_run_line(cmds: Seq<VoiceCommand>, trigger: Seq<char>, windows: bool) -> Option<
    Seq<char>,
> {
    let norm = normalized(trigger);
    match named_command(cmds, norm, 0) {
        Some(i) => {
            let line = run_line(cmds[i], names_close(cmds[i], norm), windows);
            if line.len() > 0 {
                Some(line)
            } else {
                None
            }
        },
        None => None,
    }
}

/// What to do with the model's answer (its trigger, its text and whether the
/// text must be spoken) given the configured commands.
pub open spec fn nlu_follow_up(
    cmds: Seq<VoiceCommand>,
    trigger: Option<Seq<char>>,
    response: Option<Seq<char>>,
    must_speak: bool,
    windows: bool,
) -> FollowUpView {
    FollowUpView {
        run: match trigger {
            Some(t) => nlu_run_line(cmds, t, windows),
            None => None,
        },
        unknown_trigger: match trigger {
            Some(t) => if named_command(cmds, normalized(t), 0) is None {
                Some(t)
            } else {
                None
            },
            None => None,
        },
        speech: match response {
            Some(text) => if must_speak {
                SpeechChoice::Direct(text)
            } else {
                SpeechChoice::Feedback(text)
            },
            None => if trigger is Some {
                SpeechChoice::Confirmation
            } else {
                SpeechChoice::Silent
            },
        },
        nothing_returned: trigger is None && response is None,
    }
}

fn any_alias_named(aliases: &Vec<String>, norm: &Vec<char>) -> (r: bool)
    ensures
        r == alias_named(aliases@, norm@),
{
    let mut j: usize = 0;
    while j < aliases.len()
        invariant
            j <= aliases.len(),
            forall|i: int| 0 <= i < j ==> normalized(#[trigger] aliases@[i]@) != norm@,
        decreases aliases.len() - j,
    {
        if same_chars(&normalize_chars(aliases[j].as_str()), norm) {
            return true;
        }
        j = j + 1;
    }
    false
}

fn names_command_exec(c: &VoiceCommand, norm: &Vec<char>) -> (r: bool)
    ensures
        r == names_command(*c, norm@),
{
    same_chars(&normalize_chars(c.trigger.as_str()), norm) || same_chars(
        &normalize_chars(c.close_trigger.as_str()),
        norm,
    ) || any_alias_named(&c.aliases, norm) || any_alias_named(&c.close_aliases, norm)
}

fn names_close_exec(c: &VoiceCommand, norm: &Vec<char>) -> (r: bool)
    ensures
        r == names_close(*c, norm@),
{
    !c.close_trigger.as_str().is_empty() && (same_chars(
        &normalize_chars(c.close_trigger.as_str()),
        norm,
    ) || any_alias_named(&c.close_aliases, norm))
}

fn find_named(cmds: &Vec<VoiceCommand>, norm: &Vec<char>) -> (r: Option<usize>)
    ensures
        r matches Some(i) ==> named_command(cmds@, norm@, 0) == Some(i as int) && i < cmds@.len(),
        r is None ==> named_command(cmds@, norm@, 0) is None,
{
    let mut i: usize = 0;
    while i < cmds.len()
        invariant
            i <= cmds.len(),
            named_command(cmds@, norm@, 0) == named_command(cmds@, norm@, i as int),
        decreases cmds.len() - i,
    {
        if names_command_exec(&cmds[i], norm) {
            return Some(i);
        }
        i = i + 1;
    }
    None
}

/// Decides what to do with the model's answer.
pub fn resolve_nlu(cfg: &PluginConfig, nlu: NluResult, windows: bool) -> (r: NluFollowUp)
    ensures
        r@ == nlu_follow_up(
            cfg.commands@,
            opt_view(nlu.trigger),
            opt_view(nlu.response_text),
            nlu.must_speak,
            windows,
        ),
{
    let mut run: Option<String> = None;
    let mut unknown: Option<String> = None;
    let trigger_given = nlu.trigger.is_some();
    let response_given = nlu.response_text.is_some();
    if let Some(t) = nlu.trigger {
        let norm = normalize_chars(t.as_str());
        match find_named(&cfg.commands, &norm) {
            Some(i) => {
                let c = &cfg.commands[i];
                let line = run_line_of(c, names_close_exec(c, &norm), windows);
                if !line.as_str().is_empty() {
                    run = Some(line);
                }
            },
            None => {
                unknown = Some(t);
            },
        }
    }
    let speech = match nlu.response_text {
        Some(text) => if nlu.must_speak {
            NluSpeech::Direct(text)
        } else {
            NluSpeech::Feedback(text)
        },
        None => if trigger_given {
            NluSpeech::Confirmation
        } else {
            NluSpeech::Silent
        },
    };
    NluFollowUp {
        run,
        unknown_trigger: unknown,
        speech,
        nothing_returned: !trigger_given && !response_given,
    }
}

// ───────────────────────────── laws ─────────────────────────────

/// The command that matching picks is the first in the list that the text
/// starts or closes; starting it takes precedence over closing it, and no
/// earlier command is started or closed by the text.
pub proof fn law_first_matching_command_wins(cmds: Seq<VoiceCommand>, text: Seq<char>, from: int)
    requires
        0 <= from,
    ensures
        command_hit(cmds, text, from) matches Some((i, close)) ==> {
            &&& from <= i < cmds.len()
            &&& if close {
                closes(cmds[i], text) && !opens(cmds[i], text)
            } else {
                opens(cmds[i], text)
            }
            &&& forall|j: int|
                from <= j < i ==> !opens(#[trigger] cmds[j], text) && !closes(cmds[j], text)
        },
        command_hit(cmds, text, from) is None ==> forall|j: int|
            from <= j < cmds.len() ==> !opens(#[trigger] cmds[j], text) && !closes(cmds[j], text),
    decreases cmds.len() - from,
{
    if from < cmds.len() && !opens(cmds[from], text) && !closes(cmds[from], text) {
        law_first_matching_command_wins(cmds, text, from + 1);
    }
}

/// An utterance that is not taken over runs nothing, speaks nothing and is not
/// handed to the language model; one that is taken over began with the agent's
/// name; a disabled plugin takes over nothing.
pub proof fn law_intercept_effects(cfg: PluginConfig, text: Seq<char>, windows: bool)
    ensures
        ({
            let p = intercept_plan(cfg, text, windows);
            &&& !p.intercept ==> p.run.len() == 0 && !p.confirm_by_voice && p.nlu_text is None
                && p.feedback is None
            &&& p.intercept ==> p.agent_detected
            &&& !cfg.enabled ==> !p.intercept && !p.agent_detected
            &&& p.nlu_text is Some ==> nlu_configured(cfg) && p.run.len() == 0
            &&& cfg.enabled && command_after_agent(normalized(text), normalized(cfg.agent_name@))
                is None ==> !p.agent_detected
        }),
{
}

/// A text that holds a trigger as a substring matches it; so does the trigger itself.
pub proof fn law_trigger_contained_matches(text: Seq<char>, trigger: Seq<char>)
    ensures
        contains_sub(text, trigger) ==> trigger_matches(text, trigger),
        trigger_matches(trigger, trigger),
{
}

/// The normal form is made of letters and single spaces: every character is a
/// letter or a space, it neither begins nor ends with a space, and no two
/// spaces follow each other.
pub proof fn law_normalized_shape(s: Seq<char>)
    ensures
        ({
            let n = normalized(s);
            &&& forall|i: int| 0 <= i < n.len() ==> #[trigger] n[i] == ' ' || alphabetic(n[i])
            &&& n.len() > 0 ==> n[0] != ' ' && n[n.len() - 1] != ' '
            &&& forall|i: int| 0 <= i < n.len() - 1 ==> !(#[trigger] n[i] == ' ' && n[i + 1] == ' ')
        }),
{
    let m = letters_and_spaces(lowercase(s));
    let keep = |c: char| alphabetic(c);
    assert forall|i: int| 0 <= i < m.len() && !is_space(m[i]) implies keep(#[trigger] m[i]) by {}
    lemma_words_chars(m, keep);
    lemma_words_shape(m);
    let ws = words(m);
    assert forall|k: int, j: int| 0 <= k < ws.len() && 0 <= j < ws[k].len() implies #[trigger] ws[k][j]
        != ' ' && keep(ws[k][j]) by {
        assert(!is_space(ws[k][j]));
        assert(is_space(' '));
    }
    lemma_join_shape(ws, ' ', keep);
}

/// Normalising is idempotent wherever lowercasing leaves the normal form as it
/// is: a normal form consists of letters and single spaces, so it keeps every
/// character and is already split into words.
pub proof fn law_normalize_idempotent(s: Seq<char>)
    ensures
        lowercase(normalized(s)) == normalized(s) ==> normalized(normalized(s)) == normalized(s),
{
    let n = normalized(s);
    if lowercase(n) == n {
        law_normalized_shape(s);
        assert(is_space(' '));
        assert(letters_and_spaces(n) == n);
        let m = letters_and_spaces(lowercase(s));
        let ws = words(m);
        lemma_words_shape(m);
        assert forall|k: int| 0 <= k < ws.len() implies is_word(#[trigger] ws[k]) by {
            assert forall|j: int| 0 <= j < ws[k].len() implies !is_space(#[trigger] ws[k][j]) by {}
        }
        lemma_words_of_join(ws);
    }
}

/// A configured trigger said after the agent's name is always taken over and
/// runs at least one command line; when reported as the matched phrase, it
/// runs exactly one.
pub proof fn law_configured_trigger_intercepted(cfg: PluginConfig, text: Seq<char>, i: int, windows: bool)
    requires
        cfg.enabled,
        0 <= i < cfg.commands@.len(),
        command_after_agent(normalized(text), normalized(cfg.agent_name@)) == Some(
            normalized(cfg.commands@[i].trigger@),
        ),
    ensures
        ({
            let p = intercept_plan(cfg, text, windows);
            &&& p.intercept
            &&& p.agent_detected
            &&& p.run.len() >= 1
            &&& p.matched_trigger is Some ==> p.run.len() == 1
            &&& p.nlu_text is None
        }),
{
    let ct = normalized(cfg.commands@[i].trigger@);
    assert(opens(cfg.commands@[i], ct));
    law_first_matching_command_wins(cfg.commands@, ct, 0);
}

/// `p` holds none of `seps`.
pub open spec fn free_of(p: Seq<char>, seps: Seq<Seq<char>>) -> bool {
    forall|k: int| 0 <= k < seps.len() ==> !contains_sub(p, #[trigger] seps[k])
}

/// `p` is a clean chain step: non-empty, without surrounding white space, and
/// holding none of `seps`.
pub open spec fn clean_part(p: Seq<char>, seps: Seq<Seq<char>>) -> bool {
    &&& p.len() > 0
    &&& !is_space(p[0])
    &&& !is_space(p[p.len() - 1])
    &&& free_of(p, seps)
}

proof fn lemma_trimmed_clean(
    pieces: Seq<Seq<char>>,
    src: Seq<char>,
    prev: Seq<Seq<char>>,
    sep: Seq<char>,
)
    requires
        forall|j: int|
            0 <= j < pieces.len() ==> piece_of(#[trigger] pieces[j], src) && !contains_sub(
                pieces[j],
                sep,
            ),
        free_of(src, prev),
    ensures
        forall|j: int|
            0 <= j < trimmed_nonempty(pieces).len() ==> clean_part(
                #[trigger] trimmed_nonempty(pieces)[j],
                prev.push(sep),
            ),
    decreases pieces.len(),
{
    if pieces.len() > 0 {
        let init = pieces.drop_last();
        assert forall|j: int| 0 <= j < init.len() implies piece_of(#[trigger] init[j], src)
            && !contains_sub(init[j], sep) by {
            assert(init[j] == pieces[j]);
        }
        lemma_trimmed_clean(init, src, prev, sep);
        let last = pieces.last();
        assert(piece_of(last, src) && !contains_sub(last, sep)) by {
            assert(last == pieces[pieces.len() - 1]);
        }
        let t = trim_spaces(last);
        lemma_trim_piece(last, |c: char| is_space(c));
        lemma_piece_trans(t, last, src);
        lemma_piece_free(t, last, sep);
        assert forall|k: int| 0 <= k < prev.push(sep).len() implies !contains_sub(
            t,
            #[trigger] prev.push(sep)[k],
        ) by {
            if k < prev.len() {
                assert(prev.push(sep)[k] == prev[k]);
                lemma_piece_free(t, src, prev[k]);
            }
        }
        let out = trimmed_nonempty(pieces);
        let before = trimmed_nonempty(init);
        assert forall|j: int| 0 <= j < out.len() implies clean_part(
            #[trigger] out[j],
            prev.push(sep),
        ) by {
            if j < before.len() {
                assert(out[j] == before[j]);
            } else {
                assert(out[j] == t);
            }
        }
    }
}

proof fn lemma_split_parts_clean(parts: Seq<Seq<char>>, sep: Seq<char>, prev: Seq<Seq<char>>)
    requires
        sep.len() > 0,
        forall|i: int| 0 <= i < parts.len() ==> free_of(#[trigger] parts[i], prev),
    ensures
        forall|j: int|
            0 <= j < split_parts(parts, sep).len() ==> clean_part(
                #[trigger] split_parts(parts, sep)[j],
                prev.push(sep),
            ),
    decreases parts.len(),
{
    if parts.len() > 0 {
        let init = parts.drop_last();
        assert forall|i: int| 0 <= i < init.len() implies free_of(#[trigger] init[i], prev) by {
            assert(init[i] == parts[i]);
        }
        lemma_split_parts_clean(init, sep, prev);
        let last = parts.last();
        assert(free_of(last, prev)) by {
            assert(last == parts[parts.len() - 1]);
        }
        lemma_split_pieces(last, sep, 0);
        lemma_trimmed_clean(split_on(last, sep), last, prev, sep);
        let a = split_parts(init, sep);
        let b = trimmed_nonempty(split_on(last, sep));
        let out = split_parts(parts, sep);
        assert(out == a + b);
        assert forall|j: int| 0 <= j < out.len() implies clean_part(
            #[trigger] out[j],
            prev.push(sep),
        ) by {
            if j < a.len() {
                assert(out[j] == a[j]);
            } else {
                assert(out[j] == b[j - a.len()]);
            }
        }
    }
}

proof fn lemma_split_on_all_clean(text: Seq<char>, seps: Seq<Seq<char>>)
    requires
        forall|k: int| 0 <= k < seps.len() ==> #[trigger] seps[k].len() > 0,
    ensures
        forall|j: int|
            0 <= j < split_on_all(text, seps).len() ==> free_of(
                #[trigger] split_on_all(text, seps)[j],
                seps,
            ),
        seps.len() > 0 ==> forall|j: int|
            0 <= j < split_on_all(text, seps).len() ==> clean_part(
                #[trigger] split_on_all(text, seps)[j],
                seps,
            ),
    decreases seps.len(),
{
    if seps.len() > 0 {
        let init = seps.drop_last();
        assert forall|k: int| 0 <= k < init.len() implies #[trigger] init[k].len() > 0 by {
            assert(init[k] == seps[k]);
        }
        lemma_split_on_all_clean(text, init);
        assert(seps.last().len() > 0) by {
            assert(seps.last() == seps[seps.len() - 1]);
        }
        lemma_split_parts_clean(split_on_all(text, init), seps.last(), init);
        assert(init.push(seps.last()) == seps);
    }
}

/// Every step of a chain is non-empty, has no surrounding white space and
/// holds none of the joining words.
pub proof fn law_chain_parts_clean(text: Seq<char>)
    ensures
        forall|j: int|
            0 <= j < conjunction_parts(text).len() ==> clean_part(
                #[trigger] conjunction_parts(text)[j],
                conjunction_separators(),
            ),
{
    lemma_separators_nonempty();
    lemma_split_on_all_clean(text, conjunction_separators());
}

/// The command found after the agent's name is non-empty, neither begins nor
/// ends with punctuation or space, is a piece of the utterance, and is only
/// found when the utterance begins with a non-empty name.
pub proof fn law_agent_command_shape(text: Seq<char>, agent: Seq<char>)
    ensures
        command_after_agent(text, agent) matches Some(c) ==> {
            &&& c.len() > 0
            &&& !is_address_punct(c[0])
            &&& !is_address_punct(c[c.len() - 1])
            &&& agent.len() > 0
            &&& has_prefix(text, agent)
            &&& piece_of(c, text)
        },
{
    if agent.len() > 0 && has_prefix(text, agent) {
        let rest = text.skip(agent.len() as int);
        lemma_trim_piece(rest, |c: char| is_address_punct(c));
        assert(piece_of(rest, text)) by {
            assert(rest == text.subrange(agent.len() as int, text.len() as int));
        }
        lemma_piece_trans(trim_by(rest, |c: char| is_address_punct(c)), rest, text);
    }
}

/// Each joining word begins and ends with a space.
proof fn lemma_separators_spaced()
    ensures
        forall|i: int|
            0 <= i < conjunction_separators().len() ==> {
                let sep = #[trigger] conjunction_separators()[i];
                sep.len() > 0 && sep[0] == ' ' && sep.last() == ' '
            },
{
    reveal_strlit(" и ");
    reveal_strlit(" затем ");
    reveal_strlit(" потом ");
    reveal_strlit(" а затем ");
    reveal_strlit(" а потом ");
    reveal_strlit(" также ");
    reveal_strlit(" and ");
    reveal_strlit(" then ");
    let seps = conjunction_separators();
    assert(seps[0][0] == ' ' && seps[0].last() == ' ');
    assert(seps[1][0] == ' ' && seps[1].last() == ' ');
    assert(seps[2][0] == ' ' && seps[2].last() == ' ');
    assert(seps[3][0] == ' ' && seps[3].last() == ' ');
    assert(seps[4][0] == ' ' && seps[4].last() == ' ');
    assert(seps[5][0] == ' ' && seps[5].last() == ' ');
    assert(seps[6][0] == ' ' && seps[6].last() == ' ');
    assert(seps[7][0] == ' ' && seps[7].last() == ' ');
}

/// `p` is a piece of `text` made only of words of `text`.
pub open spec fn part_of(p: Seq<char>, text: Seq<char>) -> bool {
    piece_of(p, text) && words_within(p, text)
}

proof fn lemma_trimmed_part_of(pieces: Seq<Seq<char>>, text: Seq<char>)
    requires
        forall|j: int| 0 <= j < pieces.len() ==> part_of(#[trigger] pieces[j], text),
    ensures
        forall|j: int|
            0 <= j < trimmed_nonempty(pieces).len() ==> part_of(
                #[trigger] trimmed_nonempty(pieces)[j],
                text,
            ),
    decreases pieces.len(),
{
    if pieces.len() > 0 {
        let init = pieces.drop_last();
        assert forall|j: int| 0 <= j < init.len() implies part_of(#[trigger] init[j], text) by {
            assert(init[j] == pieces[j]);
        }
        lemma_trimmed_part_of(init, text);
        let last = pieces.last();
        assert(part_of(last, text)) by {
            assert(last == pieces[pieces.len() - 1]);
        }
        let t = trim_spaces(last);
        lemma_trim_words_within(last);
        lemma_piece_trans(t, last, text);
        lemma_words_within_trans(t, last, text);
        let out = trimmed_nonempty(pieces);
        let before = trimmed_nonempty(init);
        assert forall|j: int| 0 <= j < out.len() implies part_of(#[trigger] out[j], text) by {
            if j < before.len() {
                assert(out[j] == before[j]);
            } else {
                assert(out[j] == t);
            }
        }
    }
}

proof fn lemma_split_parts_part_of(parts: Seq<Seq<char>>, sep: Seq<char>, text: Seq<char>)
    requires
        sep.len() > 0,
        sep[0] == ' ',
        sep.last() == ' ',
        forall|i: int| 0 <= i < parts.len() ==> part_of(#[trigger] parts[i], text),
    ensures
        forall|j: int|
            0 <= j < split_parts(parts, sep).len() ==> part_of(
                #[trigger] split_parts(parts, sep)[j],
                text,
            ),
    decreases parts.len(),
{
    if parts.len() > 0 {
        let init = parts.drop_last();
        assert forall|i: int| 0 <= i < init.len() implies part_of(#[trigger] init[i], text) by {
            assert(init[i] == parts[i]);
        }
        lemma_split_parts_part_of(init, sep, text);
        let last = parts.last();
        assert(part_of(last, text)) by {
            assert(last == parts[parts.len() - 1]);
        }
        assert(is_space(' '));
        lemma_split_pieces(last, sep, 0);
        lemma_split_words_within(last, sep, 0);
        let pieces = split_on(last, sep);
        assert forall|j: int| 0 <= j < pieces.len() implies part_of(#[trigger] pieces[j], text) by {
            lemma_piece_trans(pieces[j], last, text);
            lemma_words_within_trans(pieces[j], last, text);
        }
        lemma_trimmed_part_of(pieces, text);
        let a = split_parts(init, sep);
        let b = trimmed_nonempty(pieces);
        let out = split_parts(parts, sep);
        assert(out == a + b);
        assert forall|j: int| 0 <= j < out.len() implies part_of(#[trigger] out[j], text) by {
            if j < a.len() {
                assert(out[j] == a[j]);
            } else {
                assert(out[j] == b[j - a.len()]);
            }
        }
    }
}

proof fn lemma_split_on_all_part_of(text: Seq<char>, seps: Seq<Seq<char>>)
    requires
        forall|k: int|
            0 <= k < seps.len() ==> #[trigger] seps[k].len() > 0 && seps[k][0] == ' '
                && seps[k].last() == ' ',
    ensures
        forall|j: int|
            0 <= j < split_on_all(text, seps).len() ==> part_of(
                #[trigger] split_on_all(text, seps)[j],
                text,
            ),
    decreases seps.len(),
{
    if seps.len() == 0 {
        lemma_words_within_refl(text);
        assert(text.subrange(0, text.len() as int) == text);
        assert(piece_of(text, text));
        assert(split_on_all(text, seps) == seq![text]);
    } else {
        let init = seps.drop_last();
        assert forall|k: int| 0 <= k < init.len() implies #[trigger] init[k].len() > 0 && init[k][0]
            == ' ' && init[k].last() == ' ' by {
            assert(init[k] == seps[k]);
        }
        lemma_split_on_all_part_of(text, init);
        let sep = seps.last();
        assert(sep.len() > 0 && sep[0] == ' ' && sep.last() == ' ') by {
            assert(sep == seps[seps.len() - 1]);
        }
        lemma_split_parts_part_of(split_on_all(text, init), sep, text);
    }
}

/// A text that matches a trigger matches it through any longer text it is a
/// part of.
proof fn lemma_match_in_whole(p: Seq<char>, text: Seq<char>, t: Seq<char>)
    requires
        part_of(p, text),
        trigger_matches(p, t),
    ensures
        trigger_matches(text, t),
{
    let (a, b) = choose|a: int, b: int| #![trigger text.subrange(a, b)] 0 <= a <= b <= text.len() && p == text.subrange(a, b);
    if p == t {
        assert(occurs_at(text, t, a));
    } else if contains_sub(p, t) {
        let i = choose|i: int| occurs_at(p, t, i);
        assert(p.subrange(i, i + t.len()) == text.subrange(a + i, a + i + t.len()));
        assert(occurs_at(text, t, a + i));
    } else {
        assert forall|k: int| 0 <= k < words(t).len() implies has_word(words(text), #[trigger] words(t)[k]) by {
            assert(has_word(words(p), words(t)[k]));
            let j = choose|j: int| 0 <= j < words(p).len() && words(p)[j] == words(t)[k];
            assert(words(text).contains(words(p)[j]));
        }
    }
}

proof fn lemma_hit_in_whole(c: VoiceCommand, p: Seq<char>, text: Seq<char>)
    requires
        part_of(p, text),
    ensures
        opens(c, p) ==> opens(c, text),
        closes(c, p) ==> closes(c, text),
{
    if trigger_matches(p, normalized(c.trigger@)) {
        lemma_match_in_whole(p, text, normalized(c.trigger@));
    }
    if alias_matches(c.aliases@, p) {
        let j = choose|j: int| 0 <= j < c.aliases@.len() && trigger_matches(p, normalized(#[trigger] c.aliases@[j]@));
        lemma_match_in_whole(p, text, normalized(c.aliases@[j]@));
    }
    if trigger_matches(p, normalized(c.close_trigger@)) {
        lemma_match_in_whole(p, text, normalized(c.close_trigger@));
    }
    if alias_matches(c.close_aliases@, p) {
        let j = choose|j: int| 0 <= j < c.close_aliases@.len() && trigger_matches(p, normalized(#[trigger] c.close_aliases@[j]@));
        lemma_match_in_whole(p, text, normalized(c.close_aliases@[j]@));
    }
}

proof fn lemma_no_hit_runs_nothing(cmds: Seq<VoiceCommand>, parts: Seq<Seq<char>>, windows: bool)
    requires
        forall|k: int| 0 <= k < parts.len() ==> command_hit(cmds, #[trigger] parts[k], 0) is None,
    ensures
        chain_runs(cmds, parts, windows).0.len() == 0,
    decreases parts.len(),
{
    if parts.len() > 0 {
        let init = parts.drop_last();
        assert forall|k: int| 0 <= k < init.len() implies command_hit(cmds, #[trigger] init[k], 0) is None by {
            assert(init[k] == parts[k]);
        }
        lemma_no_hit_runs_nothing(cmds, init, windows);
        assert(command_hit(cmds, parts.last(), 0) is None) by {
            assert(parts.last() == parts[parts.len() - 1]);
        }
    }
}

/// A part of a chain starts or closes only commands that the whole command
/// text starts or closes, since each part is a piece of the text made of its
/// words: when the whole text starts or closes none, the chain runs nothing.
pub proof fn law_chain_adds_nothing(cmds: Seq<VoiceCommand>, command_text: Seq<char>, windows: bool)
    ensures
        command_hit(cmds, command_text, 0) is None ==> chain_runs(
            cmds,
            conjunction_parts(command_text),
            windows,
        ).0.len() == 0,
{
    if command_hit(cmds, command_text, 0) is None {
        law_first_matching_command_wins(cmds, command_text, 0);
        lemma_separators_spaced();
        lemma_split_on_all_part_of(command_text, conjunction_separators());
        let parts = conjunction_parts(command_text);
        assert forall|k: int| 0 <= k < parts.len() implies command_hit(cmds, #[trigger] parts[k], 0) is None by {
            let p = parts[k];
            law_first_matching_command_wins(cmds, p, 0);
            if command_hit(cmds, p, 0) is Some {
                let (i, close) = command_hit(cmds, p, 0)->0;
                lemma_hit_in_whole(cmds[i], p, command_text);
            }
        }
        lemma_no_hit_runs_nothing(cmds, parts, windows);
    }
}

/// A chain of two or more parts of which at least one starts or closes a
/// command runs, in part order, the command line of every such part, reports
/// no single matched phrase, and names every step in the feedback.
pub proof fn law_chain_runs_every_part(cfg: PluginConfig, command_text: Seq<char>, windows: bool)
    requires
        conjunction_parts(command_text).len() > 1,
        chain_runs(cfg.commands@, conjunction_parts(command_text), windows).0.len() > 0,
    ensures
        ({
            let p = command_plan(cfg, command_text, windows);
            let steps = chain_runs(cfg.commands@, conjunction_parts(command_text), windows);
            &&& p.intercept && p.agent_detected
            &&& p.run == steps.0
            &&& p.matched_trigger is None
            &&& p.feedback == Some("Выполняю: "@ + join(steps.1, " → "@))
            &&& p.nlu_text is None
        }),
{
}

/// A command text that starts or closes no command runs no command line: not
/// as a whole, and not as a chain either.
pub proof fn law_unmatched_runs_nothing(cfg: PluginConfig, command_text: Seq<char>, windows: bool)
    ensures
        command_hit(cfg.commands@, command_text, 0) is None ==> command_plan(
            cfg,
            command_text,
            windows,
        ).run.len() == 0,
{
    law_chain_adds_nothing(cfg.commands@, command_text, windows);
}

/// `line` is the start or close command line of one of `cmds` for the platform.
pub open spec fn configured_line(cmds: Seq<VoiceCommand>, line: Seq<char>, windows: bool) -> bool {
    exists|i: int, close: bool| 0 <= i < cmds.len() && line == run_line(cmds[i], close, windows)
}

proof fn lemma_chain_lines_configured(cmds: Seq<VoiceCommand>, parts: Seq<Seq<char>>, windows: bool)
    ensures
        forall|k: int|
            0 <= k < chain_runs(cmds, parts, windows).0.len() ==> configured_line(
                cmds,
                #[trigger] chain_runs(cmds, parts, windows).0[k],
                windows,
            ),
    decreases parts.len(),
{
    if parts.len() > 0 {
        let prev = chain_runs(cmds, parts.drop_last(), windows);
        lemma_chain_lines_configured(cmds, parts.drop_last(), windows);
        law_first_matching_command_wins(cmds, parts.last(), 0);
        let cur = chain_runs(cmds, parts, windows);
        match command_hit(cmds, parts.last(), 0) {
            Some((i, close)) => {
                if run_line(cmds[i], close, windows).len() > 0 {
                    assert forall|k: int| 0 <= k < cur.0.len() implies configured_line(
                        cmds,
                        #[trigger] cur.0[k],
                        windows,
                    ) by {
                        if k < prev.0.len() {
                            assert(cur.0[k] == prev.0[k]);
                        } else {
                            assert(cur.0[k] == run_line(cmds[i], close, windows));
                        }
                    }
                }
            },
            None => {},
        }
    }
}

/// Every command line the plugin runs for an utterance is the start or close
/// line of a configured command, for the platform.
pub proof fn law_runs_only_configured_lines(cfg: PluginConfig, text: Seq<char>, windows: bool)
    ensures
        ({
            let p = intercept_plan(cfg, text, windows);
            forall|k: int| 0 <= k < p.run.len() ==> configured_line(cfg.commands@, #[trigger] p.run[k], windows)
        }),
{
    if cfg.enabled {
        match command_after_agent(normalized(text), normalized(cfg.agent_name@)) {
            Some(ct) => {
                law_first_matching_command_wins(cfg.commands@, ct, 0);
                lemma_chain_lines_configured(cfg.commands@, conjunction_parts(ct), windows);
                let p = intercept_plan(cfg, text, windows);
                let parts = conjunction_parts(ct);
                let steps = chain_runs(cfg.commands@, parts, windows);
                if !(parts.len() > 1 && steps.0.len() > 0) {
                    match command_hit(cfg.commands@, ct, 0) {
                        Some((i, close)) => {
                            assert(p.run =~= seq![run_line(cfg.commands@[i], close, windows)]);
                            assert(configured_line(cfg.commands@, p.run[0], windows));
                        },
                        None => {},
                    }
                }
            },
            None => {},
        }
    }
}

/// The command line run after the model's answer is the start or close line of
/// a configured command.
pub proof fn law_model_runs_only_configured_lines(
    cmds: Seq<VoiceCommand>,
    trigger: Seq<char>,
    windows: bool,
)
    ensures
        nlu_run_line(cmds, trigger, windows) matches Some(line) ==> configured_line(cmds, line, windows),
{
    let norm = normalized(trigger);
    lemma_named_command_bounds(cmds, norm, 0);
    match named_command(cmds, norm, 0) {
        Some(i) => {
            let close = names_close(cmds[i], norm);
            assert(configured_line(cmds, run_line(cmds[i], close, windows), windows));
        },
        None => {},
    }
}

proof fn lemma_named_command_bounds(cmds: Seq<VoiceCommand>, norm: Seq<char>, from: int)
    requires
        0 <= from,
    ensures
        named_command(cmds, norm, from) matches Some(i) ==> from <= i < cmds.len() && names_command(cmds[i], norm),
    decreases cmds.len() - from,
{
    if from < cmds.len() && !names_command(cmds[from], norm) {
        lemma_named_command_bounds(cmds, norm, from + 1);
    }
}

/// A command text that matches a command's normalised trigger or one of its
/// normalised aliases starts that command; alone in the list, and whatever it
/// also closes, it is matched as a start: the trigger is reported, the start
/// line for the platform runs, and the label is the description or else the
/// trigger.
pub proof fn law_start_phrases_start(c: VoiceCommand, text: Seq<char>, windows: bool)
    requires
        trigger_matches(text, normalized(c.trigger@)) || exists|j: int|
            0 <= j < c.aliases@.len() && trigger_matches(text, normalized(#[trigger] c.aliases@[j]@)),
    ensures
        opens(c, text),
        exact_match(seq![c], text, windows) == Some(
            (
                c.trigger@,
                if windows {
                    c.windows_cmd@
                } else {
                    c.linux_cmd@
                },
                if c.description@.len() == 0 {
                    c.trigger@
                } else {
                    c.description@
                },
            ),
        ),
{
    assert(seq![c][0] == c);
}

/// A command text that matches the normalised close trigger or one of the
/// normalised close aliases of a command with a close trigger closes that
/// command; alone in the list, and when it does not also start it, it is
/// matched as a close: the close trigger is reported, the close line for the
/// platform runs, and the label is the description or else the close trigger.
pub proof fn law_close_phrases_close(c: VoiceCommand, text: Seq<char>, windows: bool)
    requires
        c.close_trigger@.len() > 0,
        trigger_matches(text, normalized(c.close_trigger@)) || exists|j: int|
            0 <= j < c.close_aliases@.len() && trigger_matches(
                text,
                normalized(#[trigger] c.close_aliases@[j]@),
            ),
    ensures
        closes(c, text),
        !opens(c, text) ==> exact_match(seq![c], text, windows) == Some(
            (
                c.close_trigger@,
                if windows {
                    c.windows_close_cmd@
                } else {
                    c.linux_close_cmd@
                },
                if c.description@.len() == 0 {
                    c.close_trigger@
                } else {
                    c.description@
                },
            ),
        ),
{
    assert(seq![c][0] == c);
}

/// The command line that the model's trigger runs, for the first command it
/// names: the close line (when not empty) if the trigger normalises to the
/// command's non-empty close trigger or to one of its close aliases; otherwise
/// the start line (when not empty).
pub proof fn law_model_trigger_line(cmds: Seq<VoiceCommand>, t: Seq<char>, windows: bool, i: int)
    requires
        named_command(cmds, normalized(t), 0) == Some(i),
    ensures
        0 <= i < cmds.len(),
        ({
            let c = cmds[i];
            let norm = normalized(t);
            let start = if windows {
                c.windows_cmd@
            } else {
                c.linux_cmd@
            };
            let close = if windows {
                c.windows_close_cmd@
            } else {
                c.linux_close_cmd@
            };
            let closing = c.close_trigger@.len() > 0 && (normalized(c.close_trigger@) == norm
                || exists|j: int|
                0 <= j < c.close_aliases@.len() && normalized(#[trigger] c.close_aliases@[j]@)
                    == norm);
            nlu_run_line(cmds, t, windows) == if closing {
                if close.len() > 0 {
                    Some(close)
                } else {
                    None
                }
            } else {
                if start.len() > 0 {
                    Some(start)
                } else {
                    None
                }
            }
        }),
{
    lemma_named_command_bounds(cmds, normalized(t), 0);
}

/// No step of a chain holds any of the joining words « и », « затем »,
/// « потом », « а затем », « а потом », « также », « and », « then »: each
/// of them splits a command text into steps.
pub proof fn law_chain_steps_hold_no_joining_word(text: Seq<char>)
    ensures
        forall|k: int|
            0 <= k < conjunction_parts(text).len() ==> !contains_sub(
                #[trigger] conjunction_parts(text)[k],
                " и "@,
            ),
        forall|k: int|
            0 <= k < conjunction_parts(text).len() ==> !contains_sub(
                #[trigger] conjunction_parts(text)[k],
                " затем "@,
            ),
        forall|k: int|
            0 <= k < conjunction_parts(text).len() ==> !contains_sub(
                #[trigger] conjunction_parts(text)[k],
                " потом "@,
            ),
        forall|k: int|
            0 <= k < conjunction_parts(text).len() ==> !contains_sub(
                #[trigger] conjunction_parts(text)[k],
                " а затем "@,
            ),
        forall|k: int|
            0 <= k < conjunction_parts(text).len() ==> !contains_sub(
                #[trigger] conjunction_parts(text)[k],
                " а потом "@,
            ),
        forall|k: int|
            0 <= k < conjunction_parts(text).len() ==> !contains_sub(
                #[trigger] conjunction_parts(text)[k],
                " также "@,
            ),
        forall|k: int|
            0 <= k < conjunction_parts(text).len() ==> !contains_sub(
                #[trigger] conjunction_parts(text)[k],
                " and "@,
            ),
        forall|k: int|
            0 <= k < conjunction_parts(text).len() ==> !contains_sub(
                #[trigger] conjunction_parts(text)[k],
                " then "@,
            ),
{
    law_chain_parts_clean(text);
    let parts = conjunction_parts(text);
    let seps = conjunction_separators();
    assert forall|k: int| 0 <= k < parts.len() implies !contains_sub(#[trigger] parts[k], " и "@) by {
        assert(clean_part(parts[k], seps));
        assert(seps[0] == " и "@);
    }
    assert forall|k: int| 0 <= k < parts.len() implies !contains_sub(#[trigger] parts[k], " затем "@) by {
        assert(clean_part(parts[k], seps));
        assert(seps[1] == " затем "@);
    }
    assert forall|k: int| 0 <= k < parts.len() implies !contains_sub(#[trigger] parts[k], " потом "@) by {
        assert(clean_part(parts[k], seps));
        assert(seps[2] == " потом "@);
    }
    assert forall|k: int| 0 <= k < parts.len() implies !contains_sub(#[trigger] parts[k], " а затем "@) by {
        assert(clean_part(parts[k], seps));
        assert(seps[3] == " а затем "@);
    }
    assert forall|k: int| 0 <= k < parts.len() implies !contains_sub(#[trigger] parts[k], " а потом "@) by {
        assert(clean_part(parts[k], seps));
        assert(seps[4] == " а потом "@);
    }
    assert forall|k: int| 0 <= k < parts.len() implies !contains_sub(#[trigger] parts[k], " также "@) by {
        assert(clean_part(parts[k], seps));
        assert(seps[5] == " также "@);
    }
    assert forall|k: int| 0 <= k < parts.len() implies !contains_sub(#[trigger] parts[k], " and "@) by {
        assert(clean_part(parts[k], seps));
        assert(seps[6] == " and "@);
    }
    assert forall|k: int| 0 <= k < parts.len() implies !contains_sub(#[trigger] parts[k], " then "@) by {
        assert(clean_part(parts[k], seps));
        assert(seps[7] == " then "@);
    }
}

} // verus!
