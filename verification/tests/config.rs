use ddboline_scripts::config::{
    default_backup_app_path, default_calendar_app_path, default_dropbox_path,
    default_frequency_path, default_send_to_telegram_path, default_setup_files_path,
    default_temperature_path, default_uptime_path, default_weather_util_path,
    default_workspace_path, Config, ConfigInner, ConfigSource,
};

fn nothing_set() -> ConfigSource {
    ConfigSource {
        systemd_services: None,
        workspace_repos: None,
        workspace_path: None,
        setup_files_repos: None,
        setup_files_path: None,
        send_to_telegram_path: None,
        backup_app_path: None,
        dropbox_path: None,
        weather_util_path: None,
        calendar_app_path: None,
        frequency_path: None,
        temperature_path: None,
        uptime_path: None,
        distros: None,
        repo_directories: None,
        architectures: None,
        repo_deb_directory: None,
        repo_directory: None,
        reprepro_path: None,
        secret_path: None,
        jwt_secret_path: None,
        password_directory: None,
        aws_path: None,
        repo_bucket: None,
        gpg_user: None,
        gpg_key: None,
    }
}

#[test]
fn defaults() {
    assert_eq!(default_workspace_path("/home/u"), "/home/u/Workspace");
    assert_eq!(default_setup_files_path("/home/u"), "/home/u/setup_files/build");
    assert_eq!(default_send_to_telegram_path(), "/usr/bin/send-to-telegram");
    assert_eq!(default_backup_app_path(), "/usr/bin/backup-app-rust");
    assert_eq!(default_dropbox_path(), "/usr/bin/dropbox");
    assert_eq!(default_weather_util_path(), "/usr/bin/weather-util-rust");
    assert_eq!(default_calendar_app_path(), "/usr/bin/calendar-app-rust");
    assert_eq!(
        default_frequency_path(),
        "/sys/devices/system/cpu/cpu0/cpufreq/scaling_cur_freq"
    );
    assert_eq!(
        default_temperature_path(),
        "/sys/devices/virtual/thermal/thermal_zone0/temp"
    );
    assert_eq!(default_uptime_path(), "/proc/uptime");
}

#[test]
fn what_is_not_set_has_its_default() {
    let config = Config::init_config(Ok(nothing_set()), "/home/u").unwrap();
    assert!(config.systemd_services.is_empty());
    assert!(config.distros.is_empty());
    assert_eq!(config.workspace_path, "/home/u/Workspace");
    assert_eq!(config.setup_files_path, "/home/u/setup_files/build");
    assert_eq!(config.send_to_telegram_path, "/usr/bin/send-to-telegram");
    assert_eq!(config.uptime_path, "/proc/uptime");
    assert_eq!(config.repo_directory, "");
    assert_eq!(config.gpg_user, None);
}

#[test]
fn what_is_set_stays() {
    let source = ConfigSource {
        systemd_services: Some(vec!["nginx".to_string(), "sshd".to_string()]),
        workspace_path: Some("/w".to_string()),
        uptime_path: Some("/u".to_string()),
        aws_path: Some("/usr/bin/aws".to_string()),
        ..nothing_set()
    };
    let config = Config::init_config(Ok(source), "/home/u").unwrap();
    assert_eq!(config.systemd_services, ["nginx", "sshd"]);
    assert_eq!(config.workspace_path, "/w");
    assert_eq!(config.uptime_path, "/u");
    assert_eq!(config.aws_path.as_deref(), Some("/usr/bin/aws"));
    assert_eq!(config.temperature_path, default_temperature_path());
}

#[test]
fn settings_that_cannot_be_read() {
    assert_eq!(
        Config::init_config(Err("invalid".to_string()), "/home/u").unwrap_err(),
        "invalid"
    );
}

#[test]
fn empty_settings() {
    assert_eq!(Config::new(), Config::default());
    assert_eq!(Config::new(), Config::from_inner(ConfigInner::default()));
    assert_eq!(Config::new().workspace_path, "");
    assert_eq!(Config::new().clone(), Config::new());
}

#[test]
fn where_settings_are_read() {
    assert_eq!(Config::env_file(true, "/home/u/.config"), "config.env");
    assert_eq!(
        Config::env_file(false, "/home/u/.config"),
        "/home/u/.config/ddboline_scripts_rs/config.env"
    );
}
