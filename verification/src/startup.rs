//! What a start finds, and what is shown and done because of it.

use vstd::prelude::*;

use crate::config::{HostForm, SettingsDraft};
use crate::identity::NodeId;
use crate::network_state::{LifecycleView, NetworkLifecycle};
use crate::task_model::LocalPath;
use crate::text::{contains_text, decimal, decimal_text, join_text, occurs};

verus! {

/// The server as the session is told it: an IPv6 address stands in brackets.
pub open spec fn server_spec(host: Seq<char>, port: Seq<char>, form: HostForm) -> Seq<char> {
    if form == HostForm::Ipv6 {
        "["@ + host + "]:"@ + port
    } else {
        host + ":"@ + port
    }
}

/// The server as the session is told it.
pub fn signal_server_spec(host: &str, port: &str, form: HostForm) -> (server: String)
    ensures
        server@ == server_spec(host@, port@, form),
{
    match form {
        HostForm::Ipv6 => {
            let front = join_text("[", host);
            let middle = join_text(&front, "]:");
            join_text(&middle, port)
        },
        HostForm::Ipv4 | HostForm::Other => {
            let front = join_text(host, ":");
            join_text(&front, port)
        },
    }
}

/// A step of a start that has to succeed.
#[derive(Clone, Copy, Debug, PartialEq, Eq, Structural)]
pub enum StartupStep {
    Paths,
    ConfigDirectory,
    DataDirectory,
    InstanceLock,
}

/// Why a start failed.
pub open spec fn startup_problem(step: StartupStep, detail: Seq<char>) -> Seq<char> {
    match step {
        StartupStep::Paths => detail,
        StartupStep::ConfigDirectory => "无法准备配置目录："@ + detail,
        StartupStep::DataDirectory => "无法准备应用数据目录："@ + detail,
        StartupStep::InstanceLock => detail,
    }
}

/// Why a start failed.
pub fn startup_failure(step: StartupStep, detail: &str) -> (text: String)
    ensures
        text@ == startup_problem(step, detail@),
{
    match step {
        StartupStep::Paths | StartupStep::InstanceLock => detail.to_owned(),
        StartupStep::ConfigDirectory => join_text("无法准备配置目录：", detail),
        StartupStep::DataDirectory => join_text("无法准备应用数据目录：", detail),
    }
}

/// What opening the stored tasks gave.
#[derive(Debug)]
pub enum StoreOpening {
    /// Opened; this many tasks were running when the program ended.
    Opened { interrupted: usize },
    Failed { detail: String },
}

/// What is shown of the stored tasks.
pub open spec fn store_text(opening: StoreOpening) -> Seq<char> {
    match opening {
        StoreOpening::Opened { interrupted } => if interrupted == 0 {
            "本机任务记录已就绪"@
        } else {
            "上次退出时有 "@ + decimal(interrupted as nat)
                + " 个任务中断；等待用户选择后续操作"@
        },
        StoreOpening::Failed { detail } => "任务记录不可用，原文件已保留："@ + detail@,
    }
}

/// What is shown of the stored tasks.
pub fn store_status(opening: &StoreOpening) -> (text: String)
    ensures
        text@ == store_text(*opening),
{
    match opening {
        StoreOpening::Opened { interrupted } => if *interrupted == 0 {
            "本机任务记录已就绪".to_owned()
        } else {
            let front = join_text("上次退出时有 ", &decimal_text(*interrupted as u64));
            join_text(&front, " 个任务中断；等待用户选择后续操作")
        },
        StoreOpening::Failed { detail } => join_text("任务记录不可用，原文件已保留：", detail),
    }
}

/// What loading or making the identity gave.
#[derive(Debug)]
pub enum IdentityOpening {
    Ready { node: NodeId },
    Failed { detail: String },
}

/// What is shown of the identity.
pub open spec fn identity_text(opening: IdentityOpening) -> Seq<char> {
    match opening {
        IdentityOpening::Ready { .. } => "本机身份已就绪"@,
        IdentityOpening::Failed { detail } => "本机身份不可用："@ + detail@,
    }
}

/// What is shown of the identity.
pub fn identity_status(opening: &IdentityOpening) -> (text: String)
    ensures
        text@ == identity_text(*opening),
{
    match opening {
        IdentityOpening::Ready { .. } => "本机身份已就绪".to_owned(),
        IdentityOpening::Failed { detail } => join_text("本机身份不可用：", detail),
    }
}

/// What loading the settings gave.
#[derive(Debug)]
pub enum ConfigOpening {
    /// Stored settings, with what is said of them and whether they may be replaced.
    Saved { settings: SettingsDraft, note: String, can_save: bool },
    Absent,
    Corrupt { detail: String },
    Failed { detail: String },
}

/// What is said of the settings.
pub open spec fn config_text(opening: ConfigOpening, has_downloads: bool) -> Seq<char> {
    match opening {
        ConfigOpening::Saved { note, .. } => note@,
        ConfigOpening::Absent => if has_downloads {
            "尚未保存信令设置；请填写主机和端口"@
        } else {
            "未找到系统 Downloads，请选择接收目录"@
        },
        ConfigOpening::Corrupt { detail } => "配置损坏，原文件已保留；保存已禁用："@ + detail@,
        ConfigOpening::Failed { detail } => "配置读取失败，保存已禁用："@ + detail@,
    }
}

/// What a start found.
#[derive(Debug)]
pub struct DesktopStartup {
    pub has_store: bool,
    pub task_store_status: String,
    pub identity: Option<NodeId>,
    pub identity_status: String,
    pub settings: SettingsDraft,
    pub config_note: String,
    pub can_save_settings: bool,
    pub has_saved_network_config: bool,
}

impl DesktopStartup {
    /// Puts together what a start found. Settings that cannot be read are never
    /// replaced.
    pub fn load(
        store: StoreOpening,
        identity: IdentityOpening,
        config: ConfigOpening,
        downloads_dir: Option<LocalPath>,
    ) -> (startup: DesktopStartup)
        ensures
            startup.has_store == (store is Opened),
            startup.task_store_status@ == store_text(store),
            startup.identity == (match identity {
                IdentityOpening::Ready { node } => Some(node),
                IdentityOpening::Failed { .. } => None,
            }),
            startup.identity_status@ == identity_text(identity),
            startup.config_note@ == config_text(config, downloads_dir is Some),
            startup.can_save_settings == (match config {
                ConfigOpening::Saved { can_save, .. } => can_save,
                ConfigOpening::Absent => true,
                _ => false,
            }),
            startup.has_saved_network_config == (config is Saved),
            match config {
                ConfigOpening::Saved { settings, .. } => startup.settings == settings,
                _ => {
                    &&& startup.settings.signal_host@.len() == 0
                    &&& startup.settings.signal_port@.len() == 0
                    &&& startup.settings.receive_directory == downloads_dir
                    &&& startup.settings.send_concurrency == 1
                    &&& startup.settings.speedtest_seconds == 30
                    &&& startup.settings.speedtest_direction
                        == crate::config::SpeedtestDirection::Upload
                },
            },
    {
        let task_store_status = store_status(&store);
        let identity_status = identity_status(&identity);
        let has_store = match store {
            StoreOpening::Opened { .. } => true,
            StoreOpening::Failed { .. } => false,
        };
        let identity = match identity {
            IdentityOpening::Ready { node } => Some(node),
            IdentityOpening::Failed { .. } => None,
        };
        let has_downloads = downloads_dir.is_some();
        let (settings, config_note, can_save_settings, has_saved_network_config) = match config {
            ConfigOpening::Saved { settings, note, can_save } => (settings, note, can_save, true),
            ConfigOpening::Absent => {
                let note = if has_downloads {
                    "尚未保存信令设置；请填写主机和端口".to_owned()
                } else {
                    "未找到系统 Downloads，请选择接收目录".to_owned()
                };
                (SettingsDraft::defaults(downloads_dir), note, true, false)
            },
            ConfigOpening::Corrupt { detail } => (
                SettingsDraft::defaults(downloads_dir),
                join_text("配置损坏，原文件已保留；保存已禁用：", &detail),
                false,
                false,
            ),
            ConfigOpening::Failed { detail } => (
                SettingsDraft::defaults(downloads_dir),
                join_text("配置读取失败，保存已禁用：", &detail),
                false,
                false,
            ),
        };
        DesktopStartup {
            has_store,
            task_store_status,
            identity,
            identity_status,
            settings,
            config_note,
            can_save_settings,
            has_saved_network_config,
        }
    }

    /// The first status.
    pub open spec fn first_status(self) -> Seq<char> {
        if !self.has_store || !occurs(self.task_store_status@, "已就绪"@) {
            self.task_store_status@
        } else if self.identity is None {
            self.identity_status@
        } else if self.settings.signal_host@.len() == 0 {
            "未配置有效信令；请保存设置后上线"@
        } else {
            "信令设置已保存；正在启动会话"@
        }
    }

    /// The first status: trouble with the stored tasks, then with the identity, then
    /// whether a server is set.
    pub fn initial_status(&self) -> (text: String)
        ensures
            text@ == self.first_status(),
    {
        if !self.has_store || !contains_text(&self.task_store_status, "已就绪") {
            self.task_store_status.clone()
        } else if self.identity.is_none() {
            self.identity_status.clone()
        } else if self.settings.signal_host.as_str().is_empty() {
            "未配置有效信令；请保存设置后上线".to_owned()
        } else {
            "信令设置已保存；正在启动会话".to_owned()
        }
    }

    /// The first network status.
    pub open spec fn first_network_status(self) -> Seq<char> {
        if self.has_saved_network_config {
            "正在准备长期在线网络会话"@
        } else if self.identity is Some {
            LifecycleView::Unconfigured.text()
        } else {
            "本机身份不可用；网络会话未启动"@
        }
    }

    /// The first network status.
    pub fn initial_network_status(&self) -> (text: String)
        ensures
            text@ == self.first_network_status(),
    {
        if self.has_saved_network_config {
            "正在准备长期在线网络会话".to_owned()
        } else if self.identity.is_some() {
            NetworkLifecycle::Unconfigured.label()
        } else {
            "本机身份不可用；网络会话未启动".to_owned()
        }
    }

    /// The server that is connected at once: only with stored settings and an identity.
    pub fn session_server(&self, form: HostForm) -> (server: Option<String>)
        ensures
            server is Some <==> self.has_saved_network_config && self.identity is Some,
            server matches Some(text) ==> text@ == server_spec(
                self.settings.signal_host@,
                self.settings.signal_port@,
                form,
            ),
    {
        if self.has_saved_network_config && self.identity.is_some() {
            Some(
                signal_server_spec(
                    &self.settings.signal_host,
                    &self.settings.signal_port,
                    form,
                ),
            )
        } else {
            None
        }
    }
}

/// A server is its host and its port with a colon between them; only an IPv6 address, which
/// holds colons itself, stands in brackets.
pub proof fn servers_are_host_and_port(host: Seq<char>, port: Seq<char>, form: HostForm)
    ensures
        ({
            let server = server_spec(host, port, form);
            let before = server.len() - port.len();
            &&& server.skip(before) == port
            &&& server[before - 1] == ':'
            &&& form != HostForm::Ipv6 ==> server.take(before - 1) == host
            &&& form == HostForm::Ipv6 ==> server[0] == '[' && server[before - 2] == ']'
                && server.subrange(1, before - 2) == host
        }),
{
    reveal_strlit("[");
    reveal_strlit("]:");
    reveal_strlit(":");
    let server = server_spec(host, port, form);
    let before = server.len() - port.len();
    assert(server.skip(before) =~= port);
    if form == HostForm::Ipv6 {
        assert(server.subrange(1, before - 2) =~= host);
    } else {
        assert(server.take(before - 1) =~= host);
    }
}

/// The first status is the first trouble: with the stored tasks, with the identity, or with
/// the settings.
pub proof fn trouble_is_shown_first(startup: DesktopStartup)
    ensures
        !startup.has_store ==> startup.first_status() == startup.task_store_status@,
        startup.has_store && !occurs(startup.task_store_status@, "已就绪"@)
            ==> startup.first_status() == startup.task_store_status@,
        startup.has_store && occurs(startup.task_store_status@, "已就绪"@) && startup.identity is None
            ==> startup.first_status() == startup.identity_status@,
        startup.has_saved_network_config ==> startup.first_network_status()
            == "正在准备长期在线网络会话"@,
        !startup.has_saved_network_config && startup.identity is None
            ==> startup.first_network_status() == "本机身份不可用；网络会话未启动"@,
{
}

} // verus!
