//! Settings: the defaults, the proxy that a client goes through, the reading of the
//! numbers typed in the settings dialog, and the English texts of the interface.
use vstd::prelude::*;
use crate::text::{decimal, decimal_string, parse_unsigned, parse_unsigned_exec, str_eq};

verus! {

/// Window and language settings. `language` is `"cn"` or `"en"`.
#[derive(Clone, Debug)]
pub struct UI {
    pub font_size: u32,
    pub win_width: u32,
    pub win_height: u32,
    pub language: String,
}

impl Default for UI {
    fn default() -> (r: Self)
        ensures
            r.font_size == 18,
            r.win_width == 1200,
            r.win_height == 800,
            r.language@ == "cn"@,
    {
        UI { font_size: 18, win_width: 1200, win_height: 800, language: String::from_str("cn") }
    }
}

/// The SOCKS5 proxy, and which services go through it.
#[derive(Clone, Debug)]
pub struct Socks5 {
    pub enabled: bool,
    pub url: String,
    pub port: u16,
    pub openai: bool,
    pub azure: bool,
}

impl Default for Socks5 {
    fn default() -> (r: Self)
        ensures
            !r.enabled,
            r.url@ == "127.0.0.1"@,
            r.port == 1080,
            !r.openai,
            !r.azure,
    {
        Socks5 {
            enabled: false,
            url: String::from_str("127.0.0.1"),
            port: 1080,
            openai: false,
            azure: false,
        }
    }
}

/// The speech service settings.
#[derive(Clone, Debug)]
pub struct Audio {
    pub region: String,
    pub api_key: String,
    pub current_input_device: String,
    pub is_auto_v2t: bool,
}

impl Default for Audio {
    fn default() -> (r: Self)
        ensures
            r.region@.len() == 0,
            r.api_key@.len() == 0,
            r.current_input_device@ == "default"@,
            !r.is_auto_v2t,
    {
        Audio {
            region: String::new(),
            api_key: String::new(),
            current_input_device: String::from_str("default"),
            is_auto_v2t: false,
        }
    }
}

/// Whether the speech service can be called: both its region and its key are set.
pub fn audio_configured(audio: &Audio) -> (r: bool)
    ensures
        r == (audio.region@.len() > 0 && audio.api_key@.len() > 0),
{
    !audio.region.as_str().is_empty() && !audio.api_key.as_str().is_empty()
}

/// The service an HTTP client is made for.
#[derive(Debug, PartialEq, Eq, Clone, Copy, Structural)]
pub enum ClientType {
    Local,
    OpenAI,
    Azure,
}

pub open spec fn uses_proxy(conf: Socks5, cln_type: ClientType) -> bool {
    conf.enabled && ((cln_type == ClientType::OpenAI && conf.openai) || (cln_type
        == ClientType::Azure && conf.azure))
}

/// The proxy that a client of `cln_type` goes through: `socks5://url:port` when the
/// proxy is on and that service is to use it, else none.
pub fn proxy_url(conf: &Socks5, cln_type: ClientType) -> (r: Option<String>)
    ensures
        r is Some <==> uses_proxy(*conf, cln_type),
        r matches Some(u) ==> u@ == "socks5://"@ + conf.url@ + ":"@ + decimal(conf.port as nat),
{
    if conf.enabled && ((cln_type == ClientType::OpenAI && conf.openai) || (cln_type
        == ClientType::Azure && conf.azure)) {
        let mut u = String::from_str("socks5://");
        u.append(conf.url.as_str());
        u.append(":");
        let p = decimal_string(conf.port as u32);
        u.append(p.as_str());
        Some(u)
    } else {
        None
    }
}

/// A whole number typed in the settings dialog, or `default` when it does not parse
/// as a `u32`.
pub fn setting_u32(text: &str, default: u32) -> (r: u32)
    ensures
        r as nat == (match parse_unsigned(text@, u32::MAX as nat) {
            Some(v) => v,
            None => default as nat,
        }),
{
    match parse_unsigned_exec(text, u32::MAX) {
        Some(v) => v,
        None => default,
    }
}

/// A port typed in the settings dialog, or `default` when it does not parse as a
/// `u16`.
pub fn setting_u16(text: &str, default: u16) -> (r: u16)
    ensures
        r as nat == (match parse_unsigned(text@, u16::MAX as nat) {
            Some(v) => v,
            None => default as nat,
        }),
{
    match parse_unsigned_exec(text, 65535) {
        Some(v) => v as u16,
        None => default,
    }
}

/// The English text of the interface text `text`, if it has one.
pub open spec fn english(text: Seq<char>) -> Option<Seq<char>> {
    if text == "原因"@ {
        Some("Reason"@)
    } else if text == "新建成功"@ {
        Some("New Session Success"@)
    } else if text == "删除成功"@ {
        Some("Delete Success"@)
    } else if text == "删除失败"@ {
        Some("Delete Failed"@)
    } else if text == "复制失败"@ {
        Some("Copy Failed"@)
    } else if text == "复制成功"@ {
        Some("Copy Success"@)
    } else if text == "设置默认会话库失败"@ {
        Some("Set Default Session Failed"@)
    } else if text == "保存默认会话到数据库失败"@ {
        Some("Save Default Session Failed"@)
    } else if text == "保存到数据库失败"@ {
        Some("Save to Database Failed"@)
    } else if text == "不允许删除默认会话"@ {
        Some("Not Allow To Delete Default Session"@)
    } else if text == "删除会话失败"@ {
        Some("Delete Session Failed"@)
    } else if text == "删除会话成功"@ {
        Some("Delete Session Success"@)
    } else if text == "重置成功"@ {
        Some("Reset Success"@)
    } else if text == "收藏成功"@ {
        Some("Marked Success"@)
    } else if text == "取消收藏成功"@ {
        Some("Unmarked Success"@)
    } else if text == "保存会话失败"@ {
        Some("Save Session Failed"@)
    } else if text == "保存会话成功"@ {
        Some("Save Session Success"@)
    } else if text == "保存会话配置失败"@ {
        Some("Save Session Configure Failed"@)
    } else if text == "保存会话配置成功"@ {
        Some("Save Session Configure Success"@)
    } else if text == "保存失败"@ {
        Some("Save Failed"@)
    } else if text == "保存成功"@ {
        Some("Save Success"@)
    } else if text == "隐藏程序失败"@ {
        Some("Hide Window Failed"@)
    } else if text == "清除缓存失败"@ {
        Some("Clean Cache Failed"@)
    } else if text == "清除缓存成功"@ {
        Some("Clean Cache Success"@)
    } else if text == "请进行音频配置"@ {
        Some("Please Configure The Audio Setting"@)
    } else if text == "播放音频失败"@ {
        Some("Play Audio Failed"@)
    } else if text == "获取归档文件失败"@ {
        Some("Get Archive Files Failed"@)
    } else if text == "没有可归档的对话"@ {
        Some("No Chats TO Be Archived"@)
    } else {
        None
    }
}

fn english_of(text: &str) -> (r: Option<&'static str>)
    ensures
        r is Some <==> english(text@) is Some,
        r matches Some(e) ==> english(text@) == Some(e@),
{
    if str_eq(text, "原因") {
        Some("Reason")
    } else if str_eq(text, "新建成功") {
        Some("New Session Success")
    } else if str_eq(text, "删除成功") {
        Some("Delete Success")
    } else if str_eq(text, "删除失败") {
        Some("Delete Failed")
    } else if str_eq(text, "复制失败") {
        Some("Copy Failed")
    } else if str_eq(text, "复制成功") {
        Some("Copy Success")
    } else if str_eq(text, "设置默认会话库失败") {
        Some("Set Default Session Failed")
    } else if str_eq(text, "保存默认会话到数据库失败") {
        Some("Save Default Session Failed")
    } else if str_eq(text, "保存到数据库失败") {
        Some("Save to Database Failed")
    } else if str_eq(text, "不允许删除默认会话") {
        Some("Not Allow To Delete Default Session")
    } else if str_eq(text, "删除会话失败") {
        Some("Delete Session Failed")
    } else if str_eq(text, "删除会话成功") {
        Some("Delete Session Success")
    } else if str_eq(text, "重置成功") {
        Some("Reset Success")
    } else if str_eq(text, "收藏成功") {
        Some("Marked Success")
    } else if str_eq(text, "取消收藏成功") {
        Some("Unmarked Success")
    } else if str_eq(text, "保存会话失败") {
        Some("Save Session Failed")
    } else if str_eq(text, "保存会话成功") {
        Some("Save Session Success")
    } else if str_eq(text, "保存会话配置失败") {
        Some("Save Session Configure Failed")
    } else if str_eq(text, "保存会话配置成功") {
        Some("Save Session Configure Success")
    } else if str_eq(text, "保存失败") {
        Some("Save Failed")
    } else if str_eq(text, "保存成功") {
        Some("Save Success")
    } else if str_eq(text, "隐藏程序失败") {
        Some("Hide Window Failed")
    } else if str_eq(text, "清除缓存失败") {
        Some("Clean Cache Failed")
    } else if str_eq(text, "清除缓存成功") {
        Some("Clean Cache Success")
    } else if str_eq(text, "请进行音频配置") {
        Some("Please Configure The Audio Setting")
    } else if str_eq(text, "播放音频失败") {
        Some("Play Audio Failed")
    } else if str_eq(text, "获取归档文件失败") {
        Some("Get Archive Files Failed")
    } else if str_eq(text, "没有可归档的对话") {
        Some("No Chats TO Be Archived")
    } else {
        None
    }
}

/// `text` in the interface language `language`: the texts are written in Chinese
/// (`"cn"`); in any other language a text with an English version is shown in
/// English, any other text as it is.
pub fn tr(language: &str, text: &str) -> (res: String)
    ensures
        res@ == (if language@ == "cn"@ {
            text@
        } else {
            match english(text@) {
                Some(e) => e,
                None => text@,
            }
        }),
{
    if str_eq(language, "cn") {
        return String::from_str(text);
    }
    match english_of(text) {
        Some(e) => String::from_str(e),
        None => String::from_str(text),
    }
}

/// The chat completion settings. The sampling parameters are of the number type `F`
/// that the requests carry; the library only passes them along.
#[derive(Clone, Debug)]
pub struct OpenAiChat<F> {
    pub url: String,
    pub model: String,
    pub max_tokens: i32,
    pub temperature: F,
    pub frequency_penalty: F,
    pub presence_penalty: F,
}

/// The OpenAI service settings.
#[derive(Clone, Debug)]
pub struct OpenAi<F> {
    pub request_timeout: u64,
    pub stream_timeout: u64,
    pub api_key: String,
    pub chat: OpenAiChat<F>,
}

/// All the settings, and where the configuration and the database are kept.
#[derive(Clone, Debug)]
pub struct Config<F> {
    pub working_dir: String,
    pub config_path: String,
    pub db_path: String,
    pub cache_dir: String,
    pub cache_audio_dir: String,
    pub ui: UI,
    pub socks5: Socks5,
    pub openai: OpenAi<F>,
    pub audio: Audio,
}

/// A copy of the OpenAI settings of `conf`.
pub fn openai<F: Copy>(conf: &Config<F>) -> (r: OpenAi<F>)
    ensures
        r == conf.openai,
{
    let o = &conf.openai;
    OpenAi {
        request_timeout: o.request_timeout,
        stream_timeout: o.stream_timeout,
        api_key: o.api_key.clone(),
        chat: OpenAiChat {
            url: o.chat.url.clone(),
            model: o.chat.model.clone(),
            max_tokens: o.chat.max_tokens,
            temperature: o.chat.temperature,
            frequency_penalty: o.chat.frequency_penalty,
            presence_penalty: o.chat.presence_penalty,
        },
    }
}

pub open spec fn ends_with(s: Seq<char>, suffix: Seq<char>) -> bool {
    suffix.len() <= s.len() && s.skip(s.len() - suffix.len()) == suffix
}

/// Whether `name` is a plain file name: not empty, not `.` or `..`, and with no `/`
/// or `\` in it.
pub open spec fn plain_file_name(name: Seq<char>) -> bool {
    &&& name.len() > 0
    &&& name != "."@
    &&& name != ".."@
    &&& forall|i: int| 0 <= i < name.len() ==> name[i] != '/' && name[i] != '\\'
}

/// `dir` joined with the file name `name` (`Path::join`, then back to text). The
/// separator, and whether one is added, depend on the platform. For a plain file
/// name the pushed part has no separator, `.` or `..` that a platform could rewrite,
/// so the result ends with `name`; nothing more is stated of it.
#[verifier::external_body]
fn join_path(dir: &str, name: &str) -> (res: String)
    requires
        plain_file_name(name@),
    ensures
        ends_with(res@, name@),
{
    std::path::Path::new(dir).join(name).to_string_lossy().into_owned()
}

/// The directory of the file `path` (`PathBuf::pop`, then back to text): a leading
/// part of `path`. Which part depends on the platform's separators.
#[verifier::external_body]
fn parent_dir(path: &str) -> (res: String)
    ensures
        res@.len() <= path@.len(),
        path@.take(res@.len() as int) == res@,
{
    let mut p = std::path::PathBuf::from(path);
    p.pop();
    p.to_string_lossy().into_owned()
}

/// Sets where the configuration is kept: `chatbox.conf` in the configuration
/// directory, `chatbox.db` in the data directory, and the program's directory as the
/// working directory. The settings themselves stay.
pub fn init<F>(conf: &mut Config<F>, config_dir: &str, data_dir: &str, exe_path: &str)
    ensures
        ends_with(final(conf).config_path@, "chatbox.conf"@),
        ends_with(final(conf).db_path@, "chatbox.db"@),
        final(conf).working_dir@.len() <= exe_path@.len(),
        exe_path@.take(final(conf).working_dir@.len() as int) == final(conf).working_dir@,
        final(conf).cache_dir == old(conf).cache_dir,
        final(conf).cache_audio_dir == old(conf).cache_audio_dir,
        final(conf).ui == old(conf).ui,
        final(conf).socks5 == old(conf).socks5,
        final(conf).openai == old(conf).openai,
        final(conf).audio == old(conf).audio,
{
    proof {
        reveal_strlit("chatbox.conf");
        reveal_strlit("chatbox.db");
        reveal_strlit(".");
        reveal_strlit("..");
        assert(plain_file_name("chatbox.conf"@));
        assert(plain_file_name("chatbox.db"@));
    }
    conf.config_path = join_path(config_dir, "chatbox.conf");
    conf.db_path = join_path(data_dir, "chatbox.db");
    conf.working_dir = parent_dir(exe_path);
}

/// Takes in the saved configuration: its OpenAI settings replace the current ones.
/// With nothing saved, the current settings stay and are to be written; returns
/// whether they are.
pub fn load<F>(conf: &mut Config<F>, saved: Option<Config<F>>) -> (must_write: bool)
    ensures
        must_write == saved is None,
        saved matches Some(c) ==> final(conf).openai == c.openai,
        saved is None ==> final(conf).openai == old(conf).openai,
        final(conf).working_dir == old(conf).working_dir,
        final(conf).config_path == old(conf).config_path,
        final(conf).db_path == old(conf).db_path,
        final(conf).cache_dir == old(conf).cache_dir,
        final(conf).cache_audio_dir == old(conf).cache_audio_dir,
        final(conf).ui == old(conf).ui,
        final(conf).socks5 == old(conf).socks5,
        final(conf).audio == old(conf).audio,
{
    match saved {
        Some(c) => {
            conf.openai = c.openai;
            false
        },
        None => true,
    }
}

} // verus!
