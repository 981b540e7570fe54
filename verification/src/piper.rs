//! The Piper speech engine: where its program and voices live (below the
//! user's data directory), the voice catalog, and where they are downloaded from.
use vstd::prelude::*;
use crate::text::{concat, has_prefix, views_of};
use crate::tts::str_eq;

verus! {

/// The Piper release that is downloaded.
pub const PIPER_VERSION: &'static str = "2023.11.14-2";

/// Where the voices are downloaded from.
pub const VOICES_BASE: &'static str = "https://huggingface.co/rhasspy/piper-voices/resolve/v1.0.0";

/// The plugin's Piper directory, as path components below the user's data directory.
pub open spec fn data_dir_path() -> Seq<Seq<char>> {
    seq!["easystt-voice-control"@, "piper"@]
}

/// The plugin's Piper directory below the user's data directory.
pub fn data_dir() -> (r: Vec<String>)
    ensures
        views_of(r@) == data_dir_path(),
{
    let r = vec!["easystt-voice-control".to_owned(), "piper".to_owned()];
    assert(views_of(r@) == data_dir_path());
    r
}

/// The Piper program below the user's data directory.
pub open spec fn piper_exe_path(windows: bool) -> Seq<Seq<char>> {
    data_dir_path() + seq!["piper"@, if windows { "piper.exe"@ } else { "piper"@ }]
}

/// The Piper program, as path components below the user's data directory.
pub fn piper_exe(windows: bool) -> (r: Vec<String>)
    ensures
        views_of(r@) == piper_exe_path(windows),
{
    let mut r = data_dir();
    let ghost d = views_of(r@);
    r.push("piper".to_owned());
    r.push(if windows { "piper.exe".to_owned() } else { "piper".to_owned() });
    assert(views_of(r@) == d.push("piper"@).push(if windows { "piper.exe"@ } else { "piper"@ }));
    r
}

/// The voices directory below the user's data directory.
pub open spec fn voices_dir_path() -> Seq<Seq<char>> {
    data_dir_path().push("voices"@)
}

/// The voices directory, as path components below the user's data directory.
pub fn voices_dir() -> (r: Vec<String>)
    ensures
        views_of(r@) == voices_dir_path(),
{
    let mut r = data_dir();
    let ghost d = views_of(r@);
    r.push("voices".to_owned());
    assert(views_of(r@) == d.push("voices"@));
    r
}

/// The file names of voice `id`: its model and its model's configuration.
pub fn voice_files(id: &str) -> (r: (String, String))
    ensures
        r.0@ == id@ + ".onnx"@,
        r.1@ == id@ + ".onnx.json"@,
{
    (concat(id, ".onnx"), concat(id, ".onnx.json"))
}

/// A voice of the catalog.
pub struct PiperVoice {
    pub id: String,
    pub display_name: String,
    pub gender: String,
    pub size_mb: u32,
    pub installed: bool,
    /// Path in the Hugging Face repository, without ".onnx" / ".onnx.json".
    pub hf_path: String,
}

/// A catalog entry without its installation state.
pub struct VoiceInfo {
    pub id: Seq<char>,
    pub display_name: Seq<char>,
    pub gender: Seq<char>,
    pub size_mb: u32,
    pub hf_path: Seq<char>,
}

/// The Russian voices offered.
pub open spec fn catalog() -> Seq<VoiceInfo> {
    seq![
        VoiceInfo {
            id: "ru_RU-irina-medium"@,
            display_name: "Ирина ♀"@,
            gender: "female"@,
            size_mb: 65,
            hf_path: "ru/ru_RU/irina/medium/ru_RU-irina-medium"@,
        },
        VoiceInfo {
            id: "ru_RU-irina-low"@,
            display_name: "Ирина ♀ (low)"@,
            gender: "female"@,
            size_mb: 18,
            hf_path: "ru/ru_RU/irina/low/ru_RU-irina-low"@,
        },
        VoiceInfo {
            id: "ru_RU-denis-medium"@,
            display_name: "Денис ♂"@,
            gender: "male"@,
            size_mb: 65,
            hf_path: "ru/ru_RU/denis/medium/ru_RU-denis-medium"@,
        },
        VoiceInfo {
            id: "ru_RU-ruslan-medium"@,
            display_name: "Руслан ♂"@,
            gender: "male"@,
            size_mb: 65,
            hf_path: "ru/ru_RU/ruslan/medium/ru_RU-ruslan-medium"@,
        },
    ]
}

/// `v` is catalog entry `info`, installed or not as given.
pub open spec fn voice_is(v: PiperVoice, info: VoiceInfo, installed: bool) -> bool {
    &&& v.id@ == info.id
    &&& v.display_name@ == info.display_name
    &&& v.gender@ == info.gender
    &&& v.size_mb == info.size_mb
    &&& v.hf_path@ == info.hf_path
    &&& v.installed == installed
}

fn voice(id: &str, display_name: &str, gender: &str, size_mb: u32, hf_path: &str, installed: bool) -> (r: PiperVoice)
    ensures
        r.id@ == id@,
        r.display_name@ == display_name@,
        r.gender@ == gender@,
        r.size_mb == size_mb,
        r.hf_path@ == hf_path@,
        r.installed == installed,
{
    PiperVoice {
        id: id.to_owned(),
        display_name: display_name.to_owned(),
        gender: gender.to_owned(),
        size_mb,
        installed,
        hf_path: hf_path.to_owned(),
    }
}

/// The catalog; entry `i` is marked installed when `installed[i]` is true.
pub fn voice_catalog(installed: &Vec<bool>) -> (r: Vec<PiperVoice>)
    ensures
        r@.len() == catalog().len(),
        forall|i: int|
            0 <= i < r@.len() ==> voice_is(
                #[trigger] r@[i],
                catalog()[i],
                i < installed@.len() && installed@[i],
            ),
{
    let flag = |i: usize| -> (b: bool)
        ensures
            b == (i < installed@.len() && installed@[i as int]),
        { i < installed.len() && installed[i] };
    let r = vec![
        voice(
            "ru_RU-irina-medium",
            "Ирина ♀",
            "female",
            65,
            "ru/ru_RU/irina/medium/ru_RU-irina-medium",
            flag(0),
        ),
        voice(
            "ru_RU-irina-low",
            "Ирина ♀ (low)",
            "female",
            18,
            "ru/ru_RU/irina/low/ru_RU-irina-low",
            flag(1),
        ),
        voice(
            "ru_RU-denis-medium",
            "Денис ♂",
            "male",
            65,
            "ru/ru_RU/denis/medium/ru_RU-denis-medium",
            flag(2),
        ),
        voice(
            "ru_RU-ruslan-medium",
            "Руслан ♂",
            "male",
            65,
            "ru/ru_RU/ruslan/medium/ru_RU-ruslan-medium",
            flag(3),
        ),
    ];
    r
}

/// The Hugging Face path of the catalog voice `voice_id`, if the catalog has it.
pub fn catalog_hf_path(voice_id: &str) -> (r: Option<String>)
    ensures
        match r {
            Some(p) => exists|i: int|
                0 <= i < catalog().len() && catalog()[i].id == voice_id@ && catalog()[i].hf_path
                    == p@,
            None => forall|i: int| 0 <= i < catalog().len() ==> catalog()[i].id != voice_id@,
        },
{
    let voices = voice_catalog(&Vec::new());
    let mut i: usize = 0;
    while i < voices.len()
        invariant
            i <= voices.len(),
            voices@.len() == catalog().len(),
            forall|k: int| 0 <= k < voices@.len() ==> voice_is(#[trigger] voices@[k], catalog()[k], false),
            forall|k: int| 0 <= k < i ==> catalog()[k].id != voice_id@,
        decreases voices.len() - i,
    {
        assert(voice_is(voices@[i as int], catalog()[i as int], false));
        if str_eq(voices[i].id.as_str(), voice_id) {
            return Some(voices[i].hf_path.clone());
        }
        i = i + 1;
    }
    None
}

/// The name the downloaded archive is saved under.
pub open spec fn archive_name_for(windows: bool, aarch64: bool) -> Seq<char> {
    if windows {
        "piper_win.zip"@
    } else if aarch64 {
        "piper_linux_arm64.tar.gz"@
    } else {
        "piper_linux_x86.tar.gz"@
    }
}

/// The release asset for the platform.
pub open spec fn release_asset_for(windows: bool, aarch64: bool) -> Seq<char> {
    if windows {
        "piper_windows_amd64.zip"@
    } else if aarch64 {
        "piper_linux_aarch64.tar.gz"@
    } else {
        "piper_linux_x86_64.tar.gz"@
    }
}

/// The file name of the downloaded archive.
pub fn archive_name(windows: bool, aarch64: bool) -> (r: String)
    ensures
        r@ == archive_name_for(windows, aarch64),
{
    if windows {
        "piper_win.zip".to_owned()
    } else if aarch64 {
        "piper_linux_arm64.tar.gz".to_owned()
    } else {
        "piper_linux_x86.tar.gz".to_owned()
    }
}

/// Where the Piper program for the platform is downloaded from.
pub fn binary_url(windows: bool, aarch64: bool) -> (r: String)
    ensures
        r@ == "https://github.com/rhasspy/piper/releases/download/"@ + PIPER_VERSION@ + "/"@
            + release_asset_for(windows, aarch64),
{
    let asset = if windows {
        "piper_windows_amd64.zip"
    } else if aarch64 {
        "piper_linux_aarch64.tar.gz"
    } else {
        "piper_linux_x86_64.tar.gz"
    };
    let mut r = "https://github.com/rhasspy/piper/releases/download/".to_owned();
    r.append(PIPER_VERSION);
    r.append("/");
    r.append(asset);
    r
}

/// Where the model and the configuration of a voice are downloaded from.
pub fn voice_urls(hf_path: &str) -> (r: (String, String))
    ensures
        r.0@ == VOICES_BASE@ + "/"@ + hf_path@ + ".onnx"@,
        r.1@ == VOICES_BASE@ + "/"@ + hf_path@ + ".onnx.json"@,
{
    let mut onnx = VOICES_BASE.to_owned();
    onnx.append("/");
    onnx.append(hf_path);
    let mut json = onnx.clone();
    onnx.append(".onnx");
    json.append(".onnx.json");
    (onnx, json)
}

/// `s` ends with `suf`.
pub open spec fn ends_with(s: Seq<char>, suf: Seq<char>) -> bool {
    suf.len() <= s.len() && s.skip(s.len() - suf.len()) == suf
}

/// The downloaded Piper build fits the platform: a zip for Windows; on Linux a
/// tarball for the machine's architecture, x86_64 or aarch64, so that the two
/// Linux architectures never get the same build. The archive is saved under a
/// name that tells the same apart.
pub proof fn law_piper_build_fits_platform(windows: bool, aarch64: bool)
    ensures
        ({
            let asset = release_asset_for(windows, aarch64);
            let saved = archive_name_for(windows, aarch64);
            &&& has_prefix(asset, "piper_"@)
            &&& windows ==> ends_with(asset, ".zip"@) && ends_with(saved, ".zip"@)
            &&& !windows ==> has_prefix(asset, "piper_linux_"@) && ends_with(asset, ".tar.gz"@)
                && ends_with(saved, ".tar.gz"@)
            &&& !windows && aarch64 ==> ends_with(asset, "aarch64.tar.gz"@) && ends_with(saved, "arm64.tar.gz"@)
            &&& !windows && !aarch64 ==> ends_with(asset, "x86_64.tar.gz"@) && ends_with(saved, "x86.tar.gz"@)
        }),
        release_asset_for(false, true) != release_asset_for(false, false),
        archive_name_for(false, true) != archive_name_for(false, false),
{
    reveal_strlit("piper_windows_amd64.zip");
    reveal_strlit("piper_linux_aarch64.tar.gz");
    reveal_strlit("piper_linux_x86_64.tar.gz");
    reveal_strlit("piper_win.zip");
    reveal_strlit("piper_linux_arm64.tar.gz");
    reveal_strlit("piper_linux_x86.tar.gz");
    reveal_strlit("x86_64.tar.gz");
    reveal_strlit("aarch64.tar.gz");
    reveal_strlit(".zip");
    reveal_strlit(".tar.gz");
    reveal_strlit("piper_linux_");
    reveal_strlit("arm64.tar.gz");
    reveal_strlit("x86.tar.gz");
    reveal_strlit("piper_");
    let a = release_asset_for(windows, aarch64);
    let n = archive_name_for(windows, aarch64);
    assert(a.take(6) =~= "piper_"@);
    if windows {
        assert(a.skip(a.len() - 4) =~= ".zip"@);
        assert(n.skip(n.len() - 4) =~= ".zip"@);
    } else {
        assert(a.take(12) =~= "piper_linux_"@);
        assert(a.skip(a.len() - 7) =~= ".tar.gz"@);
        assert(n.skip(n.len() - 7) =~= ".tar.gz"@);
        if aarch64 {
            assert(a.skip(a.len() - 14) =~= "aarch64.tar.gz"@);
            assert(n.skip(n.len() - 12) =~= "arm64.tar.gz"@);
        } else {
            assert(a.skip(a.len() - 13) =~= "x86_64.tar.gz"@);
            assert(n.skip(n.len() - 10) =~= "x86.tar.gz"@);
        }
    }
    assert(release_asset_for(false, true).len() != release_asset_for(false, false).len());
    assert(archive_name_for(false, true).len() != archive_name_for(false, false).len());
}

} // verus!
