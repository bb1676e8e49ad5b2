//! Settings: what a user enters, what is stored, and what either must satisfy.

use vstd::prelude::*;
use vstd::utf8::encode_utf8;

use crate::error::{Error, IoErrorKind};
use crate::task_model::{LocalPath, PathView};
use crate::text::{
    all_digits, decimal, decimal_text, digits_only, digits_value, from_chars, is_white_space,
    join_text, pieces, read_digits, split_text, to_chars, views, wide_decimal_text,
};

verus! {

/// The directory that this program keeps below the user's own directories.
pub const APP_DIR_NAME: &'static str = "p2p_file";

/// The version of the stored settings.
pub const CONFIG_SCHEMA_VERSION: u32 = 1;

/// How often a name for a temporary settings file is tried.
pub const TEMP_NAME_ATTEMPTS: u32 = 32;

/// Why settings cannot be used, loaded or saved.
#[derive(Debug, PartialEq, Eq)]
pub enum ConfigError {
    DirectoryUnavailable(&'static str),
    Corrupt(String),
    Invalid(String),
    ReceiveDirectoryUnavailable(String),
    ReceiveDirectoryPermission(String),
    UnsupportedPathEncoding,
    Io(Error),
    Json(String),
}

impl ConfigError {
    /// The message shown for this error.
    pub open spec fn text(self) -> Seq<char> {
        match self {
            ConfigError::DirectoryUnavailable(name) => "系统没有提供"@ + name@ + "目录"@,
            ConfigError::Corrupt(detail) => "配置文件损坏且原文件已保留："@ + detail@,
            ConfigError::Invalid(detail) => "设置无效："@ + detail@,
            ConfigError::ReceiveDirectoryUnavailable(detail) => "接收目录不可用："@ + detail@,
            ConfigError::ReceiveDirectoryPermission(detail) => "接收目录没有写权限："@ + detail@,
            ConfigError::UnsupportedPathEncoding =>
                "所选路径不是 UTF-8，当前设置格式不能安全保存该路径"@,
            ConfigError::Io(error) => "文件系统操作失败："@ + error.message(),
            ConfigError::Json(detail) => "JSON 配置读写失败："@ + detail@,
        }
    }

    /// The message shown for this error.
    pub fn message(&self) -> (text: String)
        ensures
            text@ == self.text(),
    {
        match self {
            ConfigError::DirectoryUnavailable(name) => {
                let front = join_text("系统没有提供", name);
                join_text(&front, "目录")
            },
            ConfigError::Corrupt(detail) => join_text("配置文件损坏且原文件已保留：", detail),
            ConfigError::Invalid(detail) => join_text("设置无效：", detail),
            ConfigError::ReceiveDirectoryUnavailable(detail) => join_text("接收目录不可用：", detail),
            ConfigError::ReceiveDirectoryPermission(detail) =>
                join_text("接收目录没有写权限：", detail),
            ConfigError::UnsupportedPathEncoding =>
                "所选路径不是 UTF-8，当前设置格式不能安全保存该路径".to_owned(),
            ConfigError::Io(error) => join_text("文件系统操作失败：", error.text()),
            ConfigError::Json(detail) => join_text("JSON 配置读写失败：", detail),
        }
    }

    /// Whether this error rejects a setting with the given reason.
    pub open spec fn rejects(self, reason: Seq<char>) -> bool {
        self matches ConfigError::Invalid(detail) && detail@ == reason
    }
}

/// Whether a check passed, or failed with exactly the given reason.
pub open spec fn judged<T>(result: Result<T, ConfigError>, refusal: Option<Seq<char>>) -> bool {
    match refusal {
        None => result is Ok,
        Some(reason) => result matches Err(error) && error.rejects(reason),
    }
}

fn invalid(reason: &str) -> (error: ConfigError)
    ensures
        error.rejects(reason@),
{
    ConfigError::Invalid(reason.to_owned())
}

/// A place below a directory that the system names.
#[derive(Debug, PartialEq, Eq)]
pub struct Place {
    pub base: String,
    pub below: Vec<String>,
}

impl Place {
    /// The names below the base, outermost first.
    pub open spec fn names(self) -> Seq<Seq<char>> {
        views(self.below@)
    }
}

/// The directories that this program uses.
#[derive(Debug)]
pub struct AppPaths {
    pub config_dir: Place,
    pub data_dir: Place,
    pub downloads_dir: Option<LocalPath>,
}

fn place_of(base: &str, names: &[&str]) -> (place: Place)
    ensures
        place.base@ == base@,
        place.names() == names@.map_values(|name: &str| name@),
{
    let mut below: Vec<String> = Vec::new();
    let mut i: usize = 0;
    while i < names.len()
        invariant
            i <= names@.len(),
            below@.len() == i,
            forall|k: int| 0 <= k < i ==> #[trigger] below@[k]@ == names@[k]@,
        decreases names@.len() - i,
    {
        below.push(names[i].to_owned());
        i = i + 1;
    }
    assert(views(below@) =~= names@.map_values(|name: &str| name@));
    Place { base: base.to_owned(), below }
}

fn extended(place: &Place, name: &str) -> (longer: Place)
    ensures
        longer.base@ == place.base@,
        longer.names() == place.names().push(name@),
{
    let mut below: Vec<String> = Vec::new();
    let mut i: usize = 0;
    while i < place.below.len()
        invariant
            i <= place.below@.len(),
            below@.len() == i,
            forall|k: int| 0 <= k < i ==> #[trigger] below@[k]@ == place.below@[k]@,
        decreases place.below@.len() - i,
    {
        below.push(place.below[i].clone());
        i = i + 1;
    }
    below.push(name.to_owned());
    assert(views(below@) =~= place.names().push(name@));
    Place { base: place.base.clone(), below }
}

/// A download directory that may be offered: absolute, Unicode and a directory.
pub open spec fn offered(found: PathView, is_directory: bool) -> bool {
    found.absolute && found.exact && is_directory
}

impl AppPaths {
    /// The directories below those that the system names. Settings and key material
    /// stay apart even where both bases are the same. A download directory that
    /// cannot be offered is left out.
    pub fn discover(
        config_base: Option<String>,
        data_base: Option<String>,
        downloads: Option<LocalPath>,
        downloads_is_directory: bool,
    ) -> (result: Result<AppPaths, ConfigError>)
        ensures
            config_base is None ==> result == Err::<AppPaths, ConfigError>(
                ConfigError::DirectoryUnavailable("配置"),
            ),
            config_base is Some && data_base is None ==> result == Err::<AppPaths, ConfigError>(
                ConfigError::DirectoryUnavailable("应用数据"),
            ),
            config_base is Some && data_base is Some ==> (result matches Ok(paths)
                && paths.config_dir.base@ == config_base->0@ && paths.config_dir.names() == seq![
                APP_DIR_NAME@,
            ] && paths.data_dir.base@ == data_base->0@ && paths.data_dir.names() == seq![
                APP_DIR_NAME@,
                "data"@,
            ] && paths.downloads_dir == if downloads is Some && offered(
                downloads->0@,
                downloads_is_directory,
            ) {
                downloads
            } else {
                None
            }),
    {
        let config = match config_base {
            Some(base) => base,
            None => {
                return Err(ConfigError::DirectoryUnavailable("配置"));
            },
        };
        let data = match data_base {
            Some(base) => base,
            None => {
                return Err(ConfigError::DirectoryUnavailable("应用数据"));
            },
        };
        let downloads_dir = match downloads {
            Some(path) => if path.is_absolute() && path.is_exact() && downloads_is_directory {
                Some(path)
            } else {
                None
            },
            None => None,
        };
        let config_dir = place_of(&config, &[APP_DIR_NAME]);
        let data_dir = place_of(&data, &[APP_DIR_NAME, "data"]);
        assert(config_dir.names() =~= seq![APP_DIR_NAME@]);
        assert(data_dir.names() =~= seq![APP_DIR_NAME@, "data"@]);
        Ok(AppPaths { config_dir, data_dir, downloads_dir })
    }

    /// Where settings are stored.
    pub fn config_file(&self) -> (place: Place)
        ensures
            place.base@ == self.config_dir.base@,
            place.names() == self.config_dir.names().push("settings.json"@),
    {
        extended(&self.config_dir, "settings.json")
    }

    /// Where the identity is stored.
    pub fn identity_file(&self) -> (place: Place)
        ensures
            place.base@ == self.data_dir.base@,
            place.names() == self.data_dir.names().push("identity.key"@),
    {
        extended(&self.data_dir, "identity.key")
    }

    /// The file that only one running instance holds.
    pub fn instance_lock_file(&self) -> (place: Place)
        ensures
            place.base@ == self.data_dir.base@,
            place.names() == self.data_dir.names().push("instance.lock"@),
    {
        extended(&self.data_dir, "instance.lock")
    }
}

/// Which way a speed test sends.
#[derive(Clone, Copy, Debug, PartialEq, Eq, Structural)]
pub enum SpeedtestDirection {
    Upload,
    Download,
}

impl Default for SpeedtestDirection {
    fn default() -> (direction: SpeedtestDirection)
        ensures
            direction == SpeedtestDirection::Upload,
    {
        SpeedtestDirection::Upload
    }
}

impl SpeedtestDirection {
    /// The name shown for this direction.
    pub fn label(self) -> (text: &'static str)
        ensures
            text@ == (match self {
                SpeedtestDirection::Upload => "发送"@,
                SpeedtestDirection::Download => "接收"@,
            }),
    {
        match self {
            SpeedtestDirection::Upload => "发送",
            SpeedtestDirection::Download => "接收",
        }
    }
}

/// What an address parser makes of a host: an address, or anything else.
#[derive(Clone, Copy, Debug, PartialEq, Eq, Structural)]
pub enum HostForm {
    Ipv4,
    Ipv6,
    Other,
}

/// Characters that no host holds.
pub open spec fn is_foreign(ch: char) -> bool {
    ||| is_white_space(ch)
    ||| (ch as int) < 0x20
    ||| ch as int == 0x7f
    ||| ch == '/'
    ||| ch == '\\'
    ||| ch == '@'
    ||| ch == '?'
    ||| ch == '#'
}

/// ASCII letters and digits.
pub open spec fn is_alphanumeric(ch: char) -> bool {
    ('0' <= ch <= '9') || ('a' <= ch <= 'z') || ('A' <= ch <= 'Z')
}

/// A label of a host name: letters, digits and inner hyphens.
pub open spec fn is_label(label: Seq<char>) -> bool {
    &&& 1 <= label.len() <= 63
    &&& is_alphanumeric(label[0])
    &&& is_alphanumeric(label.last())
    &&& forall|i: int|
        0 <= i < label.len() ==> is_alphanumeric(#[trigger] label[i]) || label[i] == '-'
}

/// A host name without the dot that may end it.
pub open spec fn without_final_dot(host: Seq<char>) -> Seq<char> {
    if host.len() > 0 && host.last() == '.' {
        host.drop_last()
    } else {
        host
    }
}

/// Why a host is rejected.
pub open spec fn host_refusal(host: Seq<char>, form: HostForm) -> Option<Seq<char>> {
    let name = without_final_dot(host);
    if host.len() == 0 || exists|i: int| 0 <= i < host.len() && is_foreign(#[trigger] host[i]) {
        Some("信令主机不能为空，且不能包含空白、URL 或路径"@)
    } else if form != HostForm::Other {
        None
    } else if name.len() == 0 || encode_utf8(name).len() > 253 {
        Some("信令主机名长度无效"@)
    } else if forall|i: int| 0 <= i < name.len() ==> crate::text::is_digit(#[trigger] name[i])
        || name[i] == '.' {
        Some("数字地址不是合法 IPv4 地址"@)
    } else if exists|k: int|
        0 <= k < pieces(name, '.').len() && !is_label(#[trigger] pieces(name, '.')[k]) {
        Some("信令主机名格式无效"@)
    } else {
        None
    }
}

fn foreign(ch: char) -> (foreign: bool)
    ensures
        foreign == is_foreign(ch),
{
    let code: u32 = ch as u32;
    code < 0x20 || code == 0x20 || code == 0x7f || code == 0x85 || code == 0xa0 || code == 0x1680
        || (code >= 0x2000 && code <= 0x200a) || code == 0x2028 || code == 0x2029 || code == 0x202f
        || code == 0x205f || code == 0x3000 || ch == '/' || ch == '\\' || ch == '@' || ch == '?'
        || ch == '#'
}

fn alphanumeric(ch: char) -> (alphanumeric: bool)
    ensures
        alphanumeric == is_alphanumeric(ch),
{
    (ch >= '0' && ch <= '9') || (ch >= 'a' && ch <= 'z') || (ch >= 'A' && ch <= 'Z')
}

fn has_foreign(chars: &Vec<char>) -> (found: bool)
    ensures
        found == (exists|i: int| 0 <= i < chars@.len() && is_foreign(#[trigger] chars@[i])),
{
    let mut i: usize = 0;
    while i < chars.len()
        invariant
            i <= chars@.len(),
            forall|k: int| 0 <= k < i ==> !is_foreign(#[trigger] chars@[k]),
        decreases chars@.len() - i,
    {
        if foreign(chars[i]) {
            assert(is_foreign(chars@[i as int]));
            return true;
        }
        i = i + 1;
    }
    false
}

fn digits_and_dots(chars: &Vec<char>) -> (only: bool)
    ensures
        only == (forall|i: int|
            0 <= i < chars@.len() ==> crate::text::is_digit(#[trigger] chars@[i]) || chars@[i]
                == '.'),
{
    let mut i: usize = 0;
    while i < chars.len()
        invariant
            i <= chars@.len(),
            forall|k: int|
                0 <= k < i ==> crate::text::is_digit(#[trigger] chars@[k]) || chars@[k] == '.',
        decreases chars@.len() - i,
    {
        if !((chars[i] >= '0' && chars[i] <= '9') || chars[i] == '.') {
            assert(!(crate::text::is_digit(chars@[i as int]) || chars@[i as int] == '.'));
            return false;
        }
        i = i + 1;
    }
    true
}

fn valid_label(label: &str) -> (valid: bool)
    ensures
        valid == is_label(label@),
{
    let chars = to_chars(label);
    if chars.len() == 0 || chars.len() > 63 {
        return false;
    }
    if !alphanumeric(chars[0]) || !alphanumeric(chars[chars.len() - 1]) {
        return false;
    }
    let mut i: usize = 0;
    while i < chars.len()
        invariant
            i <= chars@.len(),
            chars@ == label@,
            forall|k: int| 0 <= k < i ==> is_alphanumeric(#[trigger] chars@[k]) || chars@[k] == '-',
        decreases chars@.len() - i,
    {
        if !alphanumeric(chars[i]) && chars[i] != '-' {
            assert(!(is_alphanumeric(label@[i as int]) || label@[i as int] == '-'));
            return false;
        }
        i = i + 1;
    }
    true
}

fn valid_labels(name: &str) -> (valid: bool)
    ensures
        valid == !(exists|k: int|
            0 <= k < pieces(name@, '.').len() && !is_label(#[trigger] pieces(name@, '.')[k])),
{
    let labels = split_text(name, '.');
    let mut i: usize = 0;
    while i < labels.len()
        invariant
            i <= labels@.len(),
            views(labels@) == pieces(name@, '.'),
            forall|k: int| 0 <= k < i ==> is_label(#[trigger] pieces(name@, '.')[k]),
        decreases labels@.len() - i,
    {
        assert(views(labels@)[i as int] == labels@[i as int]@);
        if !valid_label(&labels[i]) {
            assert(!is_label(pieces(name@, '.')[i as int]));
            return false;
        }
        i = i + 1;
    }
    assert(views(labels@).len() == labels@.len());
    true
}

/// Accepts an address or a host name, and nothing that looks like a URL or a path.
pub fn validate_signal_host(host: &str, form: HostForm) -> (result: Result<(), ConfigError>)
    ensures
        judged(result, host_refusal(host@, form)),
{
    let chars = to_chars(host);
    if chars.len() == 0 || has_foreign(&chars) {
        return Err(invalid("信令主机不能为空，且不能包含空白、URL 或路径"));
    }
    if form != HostForm::Other {
        return Ok(());
    }
    let end: usize = if chars[chars.len() - 1] == '.' {
        chars.len() - 1
    } else {
        chars.len()
    };
    let name = from_chars(&chars, 0, end);
    assert(name@ =~= without_final_dot(host@));
    if end == 0 || name.as_str().as_bytes().len() > 253 {
        return Err(invalid("信令主机名长度无效"));
    }
    let name_chars = to_chars(&name);
    if digits_and_dots(&name_chars) {
        return Err(invalid("数字地址不是合法 IPv4 地址"));
    }
    if !valid_labels(&name) {
        return Err(invalid("信令主机名格式无效"));
    }
    Ok(())
}

/// Why a port is rejected.
pub open spec fn port_refusal(port: Seq<char>) -> Option<Seq<char>> {
    if port.len() == 0 || !all_digits(port) || digits_value(port) > 65535 {
        Some("信令端口必须是 1..65535 的整数"@)
    } else if digits_value(port) == 0 {
        Some("信令端口不能为 0"@)
    } else {
        None
    }
}

/// Reads a port.
pub fn parse_signal_port(port: &str) -> (result: Result<u16, ConfigError>)
    ensures
        judged(result, port_refusal(port@)),
        result matches Ok(value) ==> value == digits_value(port@),
{
    let chars = to_chars(port);
    if chars.len() == 0 || !digits_only(&chars) {
        return Err(invalid("信令端口必须是 1..65535 的整数"));
    }
    match read_digits(&chars, 65535) {
        Some(value) => {
            if value == 0 {
                return Err(invalid("信令端口不能为 0"));
            }
            Ok(value as u16)
        },
        None => Err(invalid("信令端口必须是 1..65535 的整数")),
    }
}

/// Why a number of concurrent sends is rejected.
pub open spec fn concurrency_refusal(value: u8) -> Option<Seq<char>> {
    if 1 <= value <= 3 {
        None
    } else {
        Some("发送并发数仅支持 1、2 或 3"@)
    }
}

/// Accepts one, two or three concurrent sends.
pub fn validate_send_concurrency(value: u8) -> (result: Result<(), ConfigError>)
    ensures
        judged(result, concurrency_refusal(value)),
{
    if value >= 1 && value <= 3 {
        Ok(())
    } else {
        Err(invalid("发送并发数仅支持 1、2 或 3"))
    }
}

/// Why a length of speed tests is rejected.
pub open spec fn seconds_refusal(value: u16) -> Option<Seq<char>> {
    if value == 30 || (60 <= value <= 600 && value % 60 == 0) {
        None
    } else {
        Some("测速时长仅支持 30 秒或 1 到 10 分钟（每分钟递增）"@)
    }
}

/// Accepts half a minute, or one to ten whole minutes.
pub fn validate_speedtest_seconds(value: u16) -> (result: Result<(), ConfigError>)
    ensures
        judged(result, seconds_refusal(value)),
{
    if value == 30 || (value >= 60 && value <= 600 && value % 60 == 0) {
        Ok(())
    } else {
        Err(invalid("测速时长仅支持 30 秒或 1 到 10 分钟（每分钟递增）"))
    }
}

/// Stored settings, as mathematical values.
pub struct ConfigView {
    pub schema_version: u32,
    pub host: Seq<char>,
    pub port: u16,
    pub receive_directory: PathView,
    pub send_concurrency: u8,
    pub speedtest_seconds: u16,
    pub speedtest_direction: SpeedtestDirection,
}

/// Why settings are not usable.
pub enum Objection {
    Reason(Seq<char>),
    Encoding,
}

/// Whether a check passed, or failed with exactly the given objection.
pub open spec fn objected<T>(result: Result<T, ConfigError>, objection: Option<Objection>) -> bool {
    match objection {
        None => result is Ok,
        Some(Objection::Reason(reason)) => result matches Err(error) && error.rejects(reason),
        Some(Objection::Encoding) => result matches Err(error)
            && error is UnsupportedPathEncoding,
    }
}

/// The reason as an objection.
pub open spec fn reason(text: Option<Seq<char>>) -> Option<Objection> {
    match text {
        Some(found) => Some(Objection::Reason(found)),
        None => None,
    }
}

impl ConfigView {
    /// Why these settings are not usable; the first reason counts.
    pub open spec fn objection(self, form: HostForm) -> Option<Objection> {
        if self.schema_version != CONFIG_SCHEMA_VERSION {
            Some(Objection::Reason("不支持的 schema_version "@ + decimal(self.schema_version as nat)))
        } else if host_refusal(self.host, form) is Some {
            reason(host_refusal(self.host, form))
        } else if self.port == 0 {
            Some(Objection::Reason("信令端口必须在 1..65535 内"@))
        } else if concurrency_refusal(self.send_concurrency) is Some {
            reason(concurrency_refusal(self.send_concurrency))
        } else if seconds_refusal(self.speedtest_seconds) is Some {
            reason(seconds_refusal(self.speedtest_seconds))
        } else if !self.receive_directory.absolute {
            Some(Objection::Reason("接收目录必须是绝对路径"@))
        } else if !self.receive_directory.exact {
            Some(Objection::Encoding)
        } else {
            None
        }
    }
}

/// Settings as they are stored.
#[derive(Debug)]
pub struct DesktopConfig {
    schema_version: u32,
    host: String,
    port: u16,
    receive_directory: LocalPath,
    send_concurrency: u8,
    speedtest_seconds: u16,
    speedtest_direction: SpeedtestDirection,
}

impl View for DesktopConfig {
    type V = ConfigView;

    closed spec fn view(&self) -> ConfigView {
        ConfigView {
            schema_version: self.schema_version,
            host: self.host@,
            port: self.port,
            receive_directory: self.receive_directory@,
            send_concurrency: self.send_concurrency,
            speedtest_seconds: self.speedtest_seconds,
            speedtest_direction: self.speedtest_direction,
        }
    }
}

impl DesktopConfig {
    /// Settings as they were read; nothing is checked yet.
    pub fn from_parts(
        schema_version: u32,
        host: String,
        port: u16,
        receive_directory: LocalPath,
        send_concurrency: u8,
        speedtest_seconds: u16,
        speedtest_direction: SpeedtestDirection,
    ) -> (config: DesktopConfig)
        ensures
            config@ == (ConfigView {
                schema_version,
                host: host@,
                port,
                receive_directory: receive_directory@,
                send_concurrency,
                speedtest_seconds,
                speedtest_direction,
            }),
    {
        DesktopConfig {
            schema_version,
            host,
            port,
            receive_directory,
            send_concurrency,
            speedtest_seconds,
            speedtest_direction,
        }
    }

    pub fn schema_version(&self) -> (version: u32)
        ensures
            version == self@.schema_version,
    {
        self.schema_version
    }

    pub fn host(&self) -> (host: &str)
        ensures
            host@ == self@.host,
    {
        self.host.as_str()
    }

    pub fn port(&self) -> (port: u16)
        ensures
            port == self@.port,
    {
        self.port
    }

    pub fn receive_directory(&self) -> (directory: &LocalPath)
        ensures
            directory@ == self@.receive_directory,
    {
        &self.receive_directory
    }

    pub fn send_concurrency(&self) -> (value: u8)
        ensures
            value == self@.send_concurrency,
    {
        self.send_concurrency
    }

    pub fn speedtest_seconds(&self) -> (value: u16)
        ensures
            value == self@.speedtest_seconds,
    {
        self.speedtest_seconds
    }

    pub fn speedtest_direction(&self) -> (direction: SpeedtestDirection)
        ensures
            direction == self@.speedtest_direction,
    {
        self.speedtest_direction
    }

    /// Whether these settings may be used.
    pub fn validate(&self, form: HostForm) -> (result: Result<(), ConfigError>)
        ensures
            objected(result, self@.objection(form)),
    {
        if self.schema_version != CONFIG_SCHEMA_VERSION {
            let text = join_text(
                "不支持的 schema_version ",
                &decimal_text(self.schema_version as u64),
            );
            return Err(ConfigError::Invalid(text));
        }
        validate_signal_host(&self.host, form)?;
        if self.port == 0 {
            return Err(invalid("信令端口必须在 1..65535 内"));
        }
        validate_send_concurrency(self.send_concurrency)?;
        validate_speedtest_seconds(self.speedtest_seconds)?;
        if !self.receive_directory.is_absolute() {
            return Err(invalid("接收目录必须是绝对路径"));
        }
        if !self.receive_directory.is_exact() {
            return Err(ConfigError::UnsupportedPathEncoding);
        }
        Ok(())
    }

    /// Takes settings that were read from a file. Where they may not be used, the
    /// file counts as corrupt and the reason is kept.
    pub fn accept(self, form: HostForm) -> (result: Result<DesktopConfig, ConfigError>)
        ensures
            result is Ok <==> self@.objection(form) is None,
            result matches Ok(config) ==> config == self,
            result matches Err(error) ==> (error matches ConfigError::Corrupt(detail) && detail@
                == (match self@.objection(form)->0 {
                Objection::Reason(text) => "设置无效："@ + text,
                Objection::Encoding => "所选路径不是 UTF-8，当前设置格式不能安全保存该路径"@,
            })),
    {
        match self.validate(form) {
            Ok(_) => Ok(self),
            Err(error) => Err(ConfigError::Corrupt(error.message())),
        }
    }
}

/// What stands where the settings file is looked for.
#[derive(Debug, PartialEq, Eq)]
pub enum ConfigFileState {
    Absent,
    Unreadable(Error),
    Link,
    NotAFile,
    File,
}

/// Whether the settings file is to be read: no where there is none.
pub fn check_config_file(state: ConfigFileState) -> (result: Result<bool, ConfigError>)
    ensures
        match state {
            ConfigFileState::Absent => result == Ok::<bool, ConfigError>(false),
            ConfigFileState::Unreadable(error) => result == Err::<bool, ConfigError>(
                ConfigError::Io(error),
            ),
            ConfigFileState::Link => result matches Err(ConfigError::Corrupt(detail)) && detail@
                == "拒绝读取链接形式的配置文件"@,
            ConfigFileState::NotAFile => result matches Err(ConfigError::Corrupt(detail)) && detail@
                == "配置路径不是普通文件"@,
            ConfigFileState::File => result == Ok::<bool, ConfigError>(true),
        },
{
    match state {
        ConfigFileState::Absent => Ok(false),
        ConfigFileState::Unreadable(error) => Err(ConfigError::Io(error)),
        ConfigFileState::Link =>
            Err(ConfigError::Corrupt("拒绝读取链接形式的配置文件".to_owned())),
        ConfigFileState::NotAFile => Err(ConfigError::Corrupt("配置路径不是普通文件".to_owned())),
        ConfigFileState::File => Ok(true),
    }
}

/// Whether settings may replace what is stored: what did not load is never
/// overwritten.
pub fn may_replace(
    loaded: Result<Option<DesktopConfig>, ConfigError>,
) -> (result: Result<(), ConfigError>)
    ensures
        result is Ok <==> loaded is Ok,
        loaded matches Err(error) ==> (result matches Err(ConfigError::Corrupt(detail)) && detail@
            == "拒绝覆盖未通过校验的原配置（"@ + error.text() + "）"@),
{
    match loaded {
        Ok(_) => Ok(()),
        Err(error) => {
            let front = join_text("拒绝覆盖未通过校验的原配置（", &error.message());
            Err(ConfigError::Corrupt(join_text(&front, "）")))
        },
    }
}

/// What stands where files are to be received.
#[derive(Debug, PartialEq, Eq)]
pub enum DirectoryState {
    Denied,
    Unavailable(String),
    NotADirectory,
    ReadOnly,
    Writable,
}

/// Whether files can be received there. The path is the one to show.
pub fn validate_receive_directory(
    path: &str,
    state: &DirectoryState,
) -> (result: Result<(), ConfigError>)
    ensures
        match state {
            DirectoryState::Denied | DirectoryState::ReadOnly => result matches Err(
                ConfigError::ReceiveDirectoryPermission(detail),
            ) && detail@ == path@,
            DirectoryState::Unavailable(error) => result matches Err(
                ConfigError::ReceiveDirectoryUnavailable(detail),
            ) && detail@ == path@ + "："@ + error@,
            DirectoryState::NotADirectory => result matches Err(
                ConfigError::ReceiveDirectoryUnavailable(detail),
            ) && detail@ == path@ + " 不是目录"@,
            DirectoryState::Writable => result is Ok,
        },
{
    match state {
        DirectoryState::Denied | DirectoryState::ReadOnly =>
            Err(ConfigError::ReceiveDirectoryPermission(path.to_owned())),
        DirectoryState::Unavailable(error) => {
            let front = join_text(path, "：");
            Err(ConfigError::ReceiveDirectoryUnavailable(join_text(&front, error)))
        },
        DirectoryState::NotADirectory =>
            Err(ConfigError::ReceiveDirectoryUnavailable(join_text(path, " 不是目录"))),
        DirectoryState::Writable => Ok(()),
    }
}

/// Whether the directory of this program is one that it may keep files in.
pub fn check_private_dir(is_link: bool, is_directory: bool) -> (result: Result<(), ConfigError>)
    ensures
        result is Ok <==> !is_link && is_directory,
        result matches Err(error) ==> (error matches ConfigError::Io(Error::Io { kind, text })
            && kind == IoErrorKind::InvalidInput && text@
            == "应用目录必须是普通目录，不能是 symlink/reparse point"@),
{
    if is_link || !is_directory {
        return Err(
            ConfigError::Io(
                Error::Io {
                    kind: IoErrorKind::InvalidInput,
                    text: "应用目录必须是普通目录，不能是 symlink/reparse point".to_owned(),
                },
            ),
        );
    }
    Ok(())
}

/// The name of a temporary settings file.
pub fn config_temp_name(random: u128) -> (name: String)
    ensures
        name@ == ".p2p-file-settings-"@ + decimal(random as nat) + ".tmp"@,
{
    let front = join_text(".p2p-file-settings-", &wide_decimal_text(random));
    join_text(&front, ".tmp")
}

/// What came of creating a temporary file.
#[derive(Debug, PartialEq, Eq)]
pub enum TempCreated {
    Created,
    Exists,
    Failed(Error),
}

/// What to do after trying to create a temporary settings file.
#[derive(Debug, PartialEq, Eq)]
pub enum TempStep {
    Write,
    TryAgain,
    GiveUp(ConfigError),
}

/// A name that exists is replaced by another one, a limited number of times.
pub fn temp_step(attempt: u32, created: TempCreated) -> (step: TempStep)
    requires
        1 <= attempt <= TEMP_NAME_ATTEMPTS,
    ensures
        match created {
            TempCreated::Created => step is Write,
            TempCreated::Failed(error) => step == TempStep::GiveUp(ConfigError::Io(error)),
            TempCreated::Exists => if attempt < TEMP_NAME_ATTEMPTS {
                step is TryAgain
            } else {
                step matches TempStep::GiveUp(ConfigError::Io(Error::Io { kind, text })) && kind
                    == IoErrorKind::AlreadyExists && text@ == "无法创建唯一的临时配置文件"@
            },
        },
{
    match created {
        TempCreated::Created => TempStep::Write,
        TempCreated::Failed(error) => TempStep::GiveUp(ConfigError::Io(error)),
        TempCreated::Exists => if attempt < TEMP_NAME_ATTEMPTS {
            TempStep::TryAgain
        } else {
            TempStep::GiveUp(
                ConfigError::Io(
                    Error::Io {
                        kind: IoErrorKind::AlreadyExists,
                        text: "无法创建唯一的临时配置文件".to_owned(),
                    },
                ),
            )
        },
    }
}

/// Settings as the user edits them.
#[derive(Debug)]
pub struct SettingsDraft {
    pub signal_host: String,
    pub signal_port: String,
    pub receive_directory: Option<LocalPath>,
    pub send_concurrency: u8,
    pub speedtest_seconds: u16,
    pub speedtest_direction: SpeedtestDirection,
}

impl SettingsDraft {
    /// Why this draft does not make settings; the first reason counts.
    pub open spec fn objection(self, form: HostForm) -> Option<Objection> {
        if host_refusal(self.signal_host@, form) is Some {
            reason(host_refusal(self.signal_host@, form))
        } else if port_refusal(self.signal_port@) is Some {
            reason(port_refusal(self.signal_port@))
        } else if concurrency_refusal(self.send_concurrency) is Some {
            reason(concurrency_refusal(self.send_concurrency))
        } else if seconds_refusal(self.speedtest_seconds) is Some {
            reason(seconds_refusal(self.speedtest_seconds))
        } else {
            match self.receive_directory {
                None => Some(Objection::Reason("请先选择接收目录"@)),
                Some(directory) => if !directory@.absolute {
                    Some(Objection::Reason("接收目录必须是绝对路径"@))
                } else if !directory@.exact {
                    Some(Objection::Encoding)
                } else {
                    None
                },
            }
        }
    }

    /// The settings that this draft makes.
    pub open spec fn settings(self) -> ConfigView {
        ConfigView {
            schema_version: CONFIG_SCHEMA_VERSION,
            host: self.signal_host@,
            port: digits_value(self.signal_port@) as u16,
            receive_directory: self.receive_directory->0@,
            send_concurrency: self.send_concurrency,
            speedtest_seconds: self.speedtest_seconds,
            speedtest_direction: self.speedtest_direction,
        }
    }

    /// Whether this is the draft that shows the given settings.
    pub open spec fn shows(self, config: ConfigView) -> bool {
        &&& self.signal_host@ == config.host
        &&& self.signal_port@ == decimal(config.port as nat)
        &&& self.receive_directory is Some
        &&& self.receive_directory->0@ == config.receive_directory
        &&& self.send_concurrency == config.send_concurrency
        &&& self.speedtest_seconds == config.speedtest_seconds
        &&& self.speedtest_direction == config.speedtest_direction
    }

    /// What a user starts with.
    pub fn defaults(downloads_dir: Option<LocalPath>) -> (draft: SettingsDraft)
        ensures
            draft.signal_host@.len() == 0,
            draft.signal_port@.len() == 0,
            draft.receive_directory == downloads_dir,
            draft.send_concurrency == 1,
            draft.speedtest_seconds == 30,
            draft.speedtest_direction == SpeedtestDirection::Upload,
    {
        SettingsDraft {
            signal_host: String::new(),
            signal_port: String::new(),
            receive_directory: downloads_dir,
            send_concurrency: 1,
            speedtest_seconds: 30,
            speedtest_direction: SpeedtestDirection::Upload,
        }
    }

    /// The draft that shows stored settings.
    pub fn from_config(config: DesktopConfig) -> (draft: SettingsDraft)
        ensures
            draft.shows(config@),
    {
        SettingsDraft {
            signal_host: config.host,
            signal_port: decimal_text(config.port as u64),
            receive_directory: Some(config.receive_directory),
            send_concurrency: config.send_concurrency,
            speedtest_seconds: config.speedtest_seconds,
            speedtest_direction: config.speedtest_direction,
        }
    }

    /// The settings that this draft makes.
    pub fn to_config(&self, form: HostForm) -> (result: Result<DesktopConfig, ConfigError>)
        ensures
            objected(result, self.objection(form)),
            result matches Ok(config) ==> config@ == self.settings(),
    {
        validate_signal_host(&self.signal_host, form)?;
        let port: u16 = parse_signal_port(&self.signal_port)?;
        validate_send_concurrency(self.send_concurrency)?;
        validate_speedtest_seconds(self.speedtest_seconds)?;
        let receive_directory = match &self.receive_directory {
            Some(directory) => directory,
            None => {
                return Err(invalid("请先选择接收目录"));
            },
        };
        if !receive_directory.is_absolute() {
            return Err(invalid("接收目录必须是绝对路径"));
        }
        if !receive_directory.is_exact() {
            return Err(ConfigError::UnsupportedPathEncoding);
        }
        Ok(
            DesktopConfig {
                schema_version: CONFIG_SCHEMA_VERSION,
                host: self.signal_host.clone(),
                port,
                receive_directory: receive_directory.duplicate(),
                send_concurrency: self.send_concurrency,
                speedtest_seconds: self.speedtest_seconds,
                speedtest_direction: self.speedtest_direction,
            },
        )
    }
}

/// Settings that a draft makes are always usable.
pub proof fn drafts_make_usable_settings(draft: SettingsDraft, form: HostForm)
    requires
        draft.objection(form) is None,
    ensures
        draft.settings().objection(form) is None,
{
}

/// A draft that shows usable settings makes exactly those settings.
pub proof fn settings_survive_editing(config: ConfigView, draft: SettingsDraft, form: HostForm)
    requires
        config.objection(form) is None,
        draft.shows(config),
    ensures
        draft.objection(form) is None,
        draft.settings() == config,
{
    crate::text::lemma_decimal_reads_back(config.port as nat);
}

/// What a user starts with never makes settings: a host has to be entered.
pub proof fn empty_drafts_are_rejected(draft: SettingsDraft, form: HostForm)
    requires
        draft.signal_host@.len() == 0,
    ensures
        draft.objection(form) == Some(
            Objection::Reason("信令主机不能为空，且不能包含空白、URL 或路径"@),
        ),
{
}

/// A host is an address, or a name of labels of letters, digits and inner hyphens that is
/// no mere number; a dot may end it.
pub proof fn hosts_are_names_or_addresses(host: Seq<char>, form: HostForm)
    ensures
        host.len() == 0 ==> host_refusal(host, form) is Some,
        (exists|i: int| 0 <= i < host.len() && is_foreign(#[trigger] host[i])) ==> host_refusal(
            host,
            form,
        ) is Some,
        form != HostForm::Other && host.len() > 0 && (forall|i: int|
            0 <= i < host.len() ==> !is_foreign(#[trigger] host[i])) ==> host_refusal(
            host,
            form,
        ) is None,
        form == HostForm::Other && host_refusal(host, form) is None ==> {
            let name = without_final_dot(host);
            &&& 0 < name.len()
            &&& encode_utf8(name).len() <= 253
            &&& exists|i: int| 0 <= i < name.len() && !crate::text::is_digit(#[trigger] name[i])
                && name[i] != '.'
            &&& forall|k: int|
                0 <= k < pieces(name, '.').len() ==> is_label(#[trigger] pieces(name, '.')[k])
        },
        form == HostForm::Other && host.len() > 0 && (forall|i: int|
            0 <= i < host.len() ==> !is_foreign(#[trigger] host[i])) && ({
            let name = without_final_dot(host);
            &&& 0 < name.len()
            &&& encode_utf8(name).len() <= 253
            &&& exists|i: int| 0 <= i < name.len() && !crate::text::is_digit(#[trigger] name[i])
                && name[i] != '.'
            &&& forall|k: int|
                0 <= k < pieces(name, '.').len() ==> is_label(#[trigger] pieces(name, '.')[k])
        }) ==> host_refusal(host, form) is None,
{
}

/// A final dot changes nothing of a host name, and stands for nothing by itself.
pub proof fn final_dots_change_nothing(name: Seq<char>)
    requires
        name.len() > 0,
        name.last() != '.',
    ensures
        host_refusal(name.push('.'), HostForm::Other) == host_refusal(name, HostForm::Other),
{
    let dotted = name.push('.');
    assert(dotted.drop_last() =~= name);
    assert(!is_foreign('.'));
    if exists|i: int| 0 <= i < name.len() && is_foreign(#[trigger] name[i]) {
        let i = choose|i: int| 0 <= i < name.len() && is_foreign(#[trigger] name[i]);
        assert(is_foreign(dotted[i]));
    }
    if exists|i: int| 0 <= i < dotted.len() && is_foreign(#[trigger] dotted[i]) {
        let i = choose|i: int| 0 <= i < dotted.len() && is_foreign(#[trigger] dotted[i]);
        assert(is_foreign(name[i]));
    }
}

/// A port is any number from 1 to 65535 in digits, and every such number is one.
pub proof fn ports_are_numbers(port: Seq<char>, value: u16)
    ensures
        port_refusal(port) is None <==> port.len() > 0 && all_digits(port) && 1 <= digits_value(
            port,
        ) <= 65535,
        value > 0 ==> port_refusal(decimal(value as nat)) is None,
        port_refusal(decimal(value as nat)) is None ==> digits_value(decimal(value as nat))
            == value,
{
    crate::text::lemma_decimal_reads_back(value as nat);
}

/// Settings are usable exactly if each of them is.
pub proof fn settings_are_judged_one_by_one(config: ConfigView, form: HostForm)
    ensures
        config.objection(form) is None <==> {
            &&& config.schema_version == CONFIG_SCHEMA_VERSION
            &&& host_refusal(config.host, form) is None
            &&& config.port != 0
            &&& config.send_concurrency == 1 || config.send_concurrency == 2
                || config.send_concurrency == 3
            &&& config.speedtest_seconds == 30 || exists|minutes: int|
                1 <= minutes <= 10 && config.speedtest_seconds == #[trigger] (60 * minutes)
            &&& config.receive_directory.absolute
            &&& config.receive_directory.exact
        },
{
    let seconds = config.speedtest_seconds as int;
    if seconds % 60 == 0 && 60 <= seconds <= 600 {
        assert(seconds == 60 * (seconds / 60));
    }
}

/// A draft makes settings of exactly what it shows.
pub proof fn drafts_are_taken_as_shown(draft: SettingsDraft, form: HostForm)
    requires
        draft.objection(form) is None,
    ensures
        draft.settings().host == draft.signal_host@,
        draft.settings().port == digits_value(draft.signal_port@),
        draft.receive_directory matches Some(directory) && draft.settings().receive_directory
            == directory@,
        draft.settings().send_concurrency == draft.send_concurrency,
        draft.settings().speedtest_seconds == draft.speedtest_seconds,
        draft.settings().speedtest_direction == draft.speedtest_direction,
{
}

} // verus!
