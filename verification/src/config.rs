//! The settings of the scripts.

use std::sync::Arc;

use vstd::prelude::*;

use crate::path::{join_path, joined_path};
use crate::text::{opt_text, texts, Text};

verus! {

/// Where programs are installed.
const BIN_DIR: &'static str = "/usr/bin";

/// The setting `workspace_path` where nothing is set.
pub fn default_workspace_path(home_dir: &str) -> (r: String)
    ensures
        r@ == joined_path(home_dir@, "Workspace"@),
{
    join_path(home_dir, "Workspace")
}

/// The setting `setup_files_path` where nothing is set.
pub fn default_setup_files_path(home_dir: &str) -> (r: String)
    ensures
        r@ == joined_path(joined_path(home_dir@, "setup_files"@), "build"@),
{
    join_path(join_path(home_dir, "setup_files").as_str(), "build")
}

/// The setting `send_to_telegram_path` where nothing is set.
pub fn default_send_to_telegram_path() -> (r: String)
    ensures
        r@ == joined_path("/usr/bin"@, "send-to-telegram"@),
{
    join_path(BIN_DIR, "send-to-telegram")
}

/// The setting `backup_app_path` where nothing is set.
pub fn default_backup_app_path() -> (r: String)
    ensures
        r@ == joined_path("/usr/bin"@, "backup-app-rust"@),
{
    join_path(BIN_DIR, "backup-app-rust")
}

/// The setting `dropbox_path` where nothing is set.
pub fn default_dropbox_path() -> (r: String)
    ensures
        r@ == joined_path("/usr/bin"@, "dropbox"@),
{
    join_path(BIN_DIR, "dropbox")
}

/// The setting `weather_util_path` where nothing is set.
pub fn default_weather_util_path() -> (r: String)
    ensures
        r@ == joined_path("/usr/bin"@, "weather-util-rust"@),
{
    join_path(BIN_DIR, "weather-util-rust")
}

/// The setting `calendar_app_path` where nothing is set.
pub fn default_calendar_app_path() -> (r: String)
    ensures
        r@ == joined_path("/usr/bin"@, "calendar-app-rust"@),
{
    join_path(BIN_DIR, "calendar-app-rust")
}

/// The setting `frequency_path` where nothing is set.
pub fn default_frequency_path() -> (r: String)
    ensures
        r@ == "/sys/devices/system/cpu/cpu0/cpufreq/scaling_cur_freq"@,
{
    "/sys/devices/system/cpu/cpu0/cpufreq/scaling_cur_freq".to_string()
}

/// The setting `temperature_path` where nothing is set.
pub fn default_temperature_path() -> (r: String)
    ensures
        r@ == "/sys/devices/virtual/thermal/thermal_zone0/temp"@,
{
    "/sys/devices/virtual/thermal/thermal_zone0/temp".to_string()
}

/// The setting `uptime_path` where nothing is set.
pub fn default_uptime_path() -> (r: String)
    ensures
        r@ == "/proc/uptime"@,
{
    "/proc/uptime".to_string()
}

/// All settings.
#[derive(Debug, PartialEq)]
pub struct ConfigInner {
    /// The services to watch and to restart.
    pub systemd_services: Vec<String>,
    /// The repositories below `workspace_path`.
    pub workspace_repos: Vec<String>,
    /// Where the workspace repositories are.
    pub workspace_path: String,
    /// The repositories below `setup_files_path`.
    pub setup_files_repos: Vec<String>,
    /// Where the build repositories are.
    pub setup_files_path: String,
    /// The program that sends messages.
    pub send_to_telegram_path: String,
    /// The program that backs databases up.
    pub backup_app_path: String,
    /// The program that synchronises files.
    pub dropbox_path: String,
    /// The program that tells the weather.
    pub weather_util_path: String,
    /// The program that tells the agenda.
    pub calendar_app_path: String,
    /// The file that says how fast the processor runs, in kilohertz.
    pub frequency_path: String,
    /// The file that says how hot the processor is, in thousandths of a degree.
    pub temperature_path: String,
    /// The file that says how long the host has been up, in seconds.
    pub uptime_path: String,
    /// The distributions that packages are kept for.
    pub distros: Vec<String>,
    /// The package directories of each distribution.
    pub repo_directories: Vec<String>,
    /// The architectures that packages are kept for.
    pub architectures: Vec<String>,
    /// Where packages are collected.
    pub repo_deb_directory: String,
    /// Where package repositories are built.
    pub repo_directory: String,
    /// The program that builds a package repository.
    pub reprepro_path: String,
    /// The secret that sessions are sealed with.
    pub secret_path: String,
    /// The secret that tokens are signed with.
    pub jwt_secret_path: String,
    /// Where the encrypted password files are.
    pub password_directory: String,
    /// The program that uploads a package repository.
    pub aws_path: Option<String>,
    /// Where package repositories are uploaded to.
    pub repo_bucket: Option<String>,
    /// Who signs a password file.
    pub gpg_user: Option<String>,
    /// Whom a password file is encrypted for.
    pub gpg_key: Option<String>,
}

/// The settings as they were found: those that were not set are absent.
#[derive(Debug, PartialEq)]
pub struct ConfigSource {
    pub systemd_services: Option<Vec<String>>,
    pub workspace_repos: Option<Vec<String>>,
    pub workspace_path: Option<String>,
    pub setup_files_repos: Option<Vec<String>>,
    pub setup_files_path: Option<String>,
    pub send_to_telegram_path: Option<String>,
    pub backup_app_path: Option<String>,
    pub dropbox_path: Option<String>,
    pub weather_util_path: Option<String>,
    pub calendar_app_path: Option<String>,
    pub frequency_path: Option<String>,
    pub temperature_path: Option<String>,
    pub uptime_path: Option<String>,
    pub distros: Option<Vec<String>>,
    pub repo_directories: Option<Vec<String>>,
    pub architectures: Option<Vec<String>>,
    pub repo_deb_directory: Option<String>,
    pub repo_directory: Option<String>,
    pub reprepro_path: Option<String>,
    pub secret_path: Option<String>,
    pub jwt_secret_path: Option<String>,
    pub password_directory: Option<String>,
    pub aws_path: Option<String>,
    pub repo_bucket: Option<String>,
    pub gpg_user: Option<String>,
    pub gpg_key: Option<String>,
}

impl ConfigInner {
    /// Whether nothing is set.
    pub open spec fn is_empty(self) -> bool {
        &&& self.systemd_services@.len() == 0
        &&& self.workspace_repos@.len() == 0
        &&& self.workspace_path@ == Seq::<char>::empty()
        &&& self.setup_files_repos@.len() == 0
        &&& self.setup_files_path@ == Seq::<char>::empty()
        &&& self.send_to_telegram_path@ == Seq::<char>::empty()
        &&& self.backup_app_path@ == Seq::<char>::empty()
        &&& self.dropbox_path@ == Seq::<char>::empty()
        &&& self.weather_util_path@ == Seq::<char>::empty()
        &&& self.calendar_app_path@ == Seq::<char>::empty()
        &&& self.frequency_path@ == Seq::<char>::empty()
        &&& self.temperature_path@ == Seq::<char>::empty()
        &&& self.uptime_path@ == Seq::<char>::empty()
        &&& self.distros@.len() == 0
        &&& self.repo_directories@.len() == 0
        &&& self.architectures@.len() == 0
        &&& self.repo_deb_directory@ == Seq::<char>::empty()
        &&& self.repo_directory@ == Seq::<char>::empty()
        &&& self.reprepro_path@ == Seq::<char>::empty()
        &&& self.secret_path@ == Seq::<char>::empty()
        &&& self.jwt_secret_path@ == Seq::<char>::empty()
        &&& self.password_directory@ == Seq::<char>::empty()
        &&& self.aws_path is None
        &&& self.repo_bucket is None
        &&& self.gpg_user is None
        &&& self.gpg_key is None
    }
}

impl Default for ConfigInner {
    fn default() -> (r: Self)
        ensures
            r.is_empty(),
    {
        ConfigInner {
            systemd_services: Vec::new(),
            workspace_repos: Vec::new(),
            workspace_path: String::new(),
            setup_files_repos: Vec::new(),
            setup_files_path: String::new(),
            send_to_telegram_path: String::new(),
            backup_app_path: String::new(),
            dropbox_path: String::new(),
            weather_util_path: String::new(),
            calendar_app_path: String::new(),
            frequency_path: String::new(),
            temperature_path: String::new(),
            uptime_path: String::new(),
            distros: Vec::new(),
            repo_directories: Vec::new(),
            architectures: Vec::new(),
            repo_deb_directory: String::new(),
            repo_directory: String::new(),
            reprepro_path: String::new(),
            secret_path: String::new(),
            jwt_secret_path: String::new(),
            password_directory: String::new(),
            aws_path: None,
            repo_bucket: None,
            gpg_user: None,
            gpg_key: None,
        }
    }
}

/// What a setting is: what was set, else the default.
pub open spec fn text_or(o: Option<String>, default: Text) -> Text {
    match o {
        Some(s) => s@,
        None => default,
    }
}

/// What a list of names is: what was set, else empty.
pub open spec fn texts_or_none(o: Option<Vec<String>>) -> Seq<Text> {
    match o {
        Some(v) => texts(v@),
        None => Seq::empty(),
    }
}

fn list_or_empty(o: Option<Vec<String>>) -> (r: Vec<String>)
    ensures
        texts(r@) == texts_or_none(o),
{
    match o {
        Some(v) => v,
        None => {
            let v: Vec<String> = Vec::new();
            proof {
                assert(texts(v@) =~= Seq::<Text>::empty());
            }
            v
        },
    }
}

fn text_or_empty(o: Option<String>) -> (r: String)
    ensures
        r@ == text_or(o, Seq::<char>::empty()),
{
    match o {
        Some(s) => s,
        None => String::new(),
    }
}

/// Whether `r` holds what `source` sets, and the defaults for the rest.
pub open spec fn completes(r: ConfigInner, source: ConfigSource, home_dir: Text) -> bool {
    &&& texts(r.systemd_services@) == texts_or_none(source.systemd_services)
    &&& texts(r.workspace_repos@) == texts_or_none(source.workspace_repos)
    &&& r.workspace_path@ == text_or(source.workspace_path, joined_path(home_dir, "Workspace"@))
    &&& texts(r.setup_files_repos@) == texts_or_none(source.setup_files_repos)
    &&& r.setup_files_path@ == text_or(
        source.setup_files_path,
        joined_path(joined_path(home_dir, "setup_files"@), "build"@),
    )
    &&& r.send_to_telegram_path@ == text_or(
        source.send_to_telegram_path,
        joined_path("/usr/bin"@, "send-to-telegram"@),
    )
    &&& r.backup_app_path@ == text_or(
        source.backup_app_path,
        joined_path("/usr/bin"@, "backup-app-rust"@),
    )
    &&& r.dropbox_path@ == text_or(source.dropbox_path, joined_path("/usr/bin"@, "dropbox"@))
    &&& r.weather_util_path@ == text_or(
        source.weather_util_path,
        joined_path("/usr/bin"@, "weather-util-rust"@),
    )
    &&& r.calendar_app_path@ == text_or(
        source.calendar_app_path,
        joined_path("/usr/bin"@, "calendar-app-rust"@),
    )
    &&& r.frequency_path@ == text_or(
        source.frequency_path,
        "/sys/devices/system/cpu/cpu0/cpufreq/scaling_cur_freq"@,
    )
    &&& r.temperature_path@ == text_or(
        source.temperature_path,
        "/sys/devices/virtual/thermal/thermal_zone0/temp"@,
    )
    &&& r.uptime_path@ == text_or(source.uptime_path, "/proc/uptime"@)
    &&& texts(r.distros@) == texts_or_none(source.distros)
    &&& texts(r.repo_directories@) == texts_or_none(source.repo_directories)
    &&& texts(r.architectures@) == texts_or_none(source.architectures)
    &&& r.repo_deb_directory@ == text_or(source.repo_deb_directory, Seq::<char>::empty())
    &&& r.repo_directory@ == text_or(source.repo_directory, Seq::<char>::empty())
    &&& r.reprepro_path@ == text_or(source.reprepro_path, Seq::<char>::empty())
    &&& r.secret_path@ == text_or(source.secret_path, Seq::<char>::empty())
    &&& r.jwt_secret_path@ == text_or(source.jwt_secret_path, Seq::<char>::empty())
    &&& r.password_directory@ == text_or(source.password_directory, Seq::<char>::empty())
    &&& opt_text(r.aws_path) == opt_text(source.aws_path)
    &&& opt_text(r.repo_bucket) == opt_text(source.repo_bucket)
    &&& opt_text(r.gpg_user) == opt_text(source.gpg_user)
    &&& opt_text(r.gpg_key) == opt_text(source.gpg_key)
}

impl ConfigSource {
    /// The settings, with defaults for those that were not set.
    pub fn complete(self, home_dir: &str) -> (r: ConfigInner)
        ensures
            completes(r, self, home_dir@),
    {
        ConfigInner {
            systemd_services: list_or_empty(self.systemd_services),
            workspace_repos: list_or_empty(self.workspace_repos),
            workspace_path: match self.workspace_path {
                Some(s) => s,
                None => default_workspace_path(home_dir),
            },
            setup_files_repos: list_or_empty(self.setup_files_repos),
            setup_files_path: match self.setup_files_path {
                Some(s) => s,
                None => default_setup_files_path(home_dir),
            },
            send_to_telegram_path: match self.send_to_telegram_path {
                Some(s) => s,
                None => default_send_to_telegram_path(),
            },
            backup_app_path: match self.backup_app_path {
                Some(s) => s,
                None => default_backup_app_path(),
            },
            dropbox_path: match self.dropbox_path {
                Some(s) => s,
                None => default_dropbox_path(),
            },
            weather_util_path: match self.weather_util_path {
                Some(s) => s,
                None => default_weather_util_path(),
            },
            calendar_app_path: match self.calendar_app_path {
                Some(s) => s,
                None => default_calendar_app_path(),
            },
            frequency_path: match self.frequency_path {
                Some(s) => s,
                None => default_frequency_path(),
            },
            temperature_path: match self.temperature_path {
                Some(s) => s,
                None => default_temperature_path(),
            },
            uptime_path: match self.uptime_path {
                Some(s) => s,
                None => default_uptime_path(),
            },
            distros: list_or_empty(self.distros),
            repo_directories: list_or_empty(self.repo_directories),
            architectures: list_or_empty(self.architectures),
            repo_deb_directory: text_or_empty(self.repo_deb_directory),
            repo_directory: text_or_empty(self.repo_directory),
            reprepro_path: text_or_empty(self.reprepro_path),
            secret_path: text_or_empty(self.secret_path),
            jwt_secret_path: text_or_empty(self.jwt_secret_path),
            password_directory: text_or_empty(self.password_directory),
            aws_path: self.aws_path,
            repo_bucket: self.repo_bucket,
            gpg_user: self.gpg_user,
            gpg_key: self.gpg_key,
        }
    }
}

/// All settings, shared.
#[derive(Debug, PartialEq)]
pub struct Config(Arc<ConfigInner>);

impl Config {
    /// The settings that are shared.
    pub closed spec fn inner(self) -> ConfigInner {
        *self.0
    }

    /// Settings that are all empty.
    pub fn new() -> (r: Self)
        ensures
            r.inner().is_empty(),
    {
        Self::from_inner(ConfigInner::default())
    }

    /// Shares settings.
    pub fn from_inner(inner: ConfigInner) -> (r: Self)
        ensures
            r.inner() == inner,
    {
        Config(Arc::new(inner))
    }

    /// The settings that are shared.
    pub fn get(&self) -> (r: &ConfigInner)
        ensures
            *r == self.inner(),
    {
        &self.0
    }

    /// The file that settings are read from: one in the working directory where it exists, else
    /// one in the directory for configuration.
    pub fn env_file(local_exists: bool, config_dir: &str) -> (r: String)
        ensures
            r@ == env_file_path(local_exists, config_dir@),
    {
        if local_exists {
            "config.env".to_string()
        } else {
            join_path(join_path(config_dir, "ddboline_scripts_rs").as_str(), "config.env")
        }
    }

    /// The settings that were found, or why none could be read.
    pub fn init_config(found: Result<ConfigSource, String>, home_dir: &str) -> (r: Result<
        Self,
        String,
    >)
        ensures
            match found {
                Ok(source) => r is Ok && completes(r->Ok_0.inner(), source, home_dir@),
                Err(message) => r is Err && r->Err_0 == message,
            },
    {
        match found {
            Ok(source) => Ok(Self::from_inner(source.complete(home_dir))),
            Err(message) => Err(message),
        }
    }
}

/// The file that settings are read from.
pub open spec fn env_file_path(local_exists: bool, config_dir: Text) -> Text {
    if local_exists {
        "config.env"@
    } else {
        joined_path(joined_path(config_dir, "ddboline_scripts_rs"@), "config.env"@)
    }
}

impl Clone for Config {
    fn clone(&self) -> (r: Self)
        ensures
            r.inner() == self.inner(),
    {
        Config(self.0.clone())
    }
}

impl Default for Config {
    fn default() -> (r: Self)
        ensures
            r.inner().is_empty(),
    {
        Self::new()
    }
}

impl std::ops::Deref for Config {
    type Target = ConfigInner;

    fn deref(&self) -> (r: &ConfigInner)
        ensures
            *r == self.inner(),
    {
        self.get()
    }
}

} // verus!
