use backontime::config::{
    parse_level, verbosity_of, BackupModel, ConfigError, ConfigModel, PathKind, RecursionNote,
};
use backontime::global::{Global, LogLevel};
use backontime::path::WatchPath;

fn configured(text: &str) -> WatchPath {
    let components = std::path::Path::new(text)
        .components()
        .map(|c| c.as_os_str().to_string_lossy().into_owned())
        .collect();
    WatchPath::new(text.to_string(), components)
}

fn entry(path: &str, kind: PathKind, command: &str) -> BackupModel {
    BackupModel {
        path: configured(path),
        kind,
        name: None,
        recursive: None,
        changes: Some(5),
        timer: None,
        command: command.to_string(),
    }
}

#[test]
fn valid_configuration_becomes_locations() {
    let mut global = Global::default();
    let model = ConfigModel {
        backups: vec![
            BackupModel {
                name: Some("ignored".to_string()),
                timer: Some(15),
                ..entry("/home/me/photos", PathKind::Directory, "rsync -a {{path}} /mnt/{{name}}/ # {{name}}")
            },
            BackupModel {
                recursive: Some(true),
                changes: None,
                timer: Some(1),
                ..entry("notes.txt", PathKind::File, "cp {{path}} {{path}}.bak")
            },
        ],
        verbosity: Some("DeBuG".to_string()),
    };
    let config = model.into_config(&mut global).unwrap();
    assert_eq!(global.log_level, LogLevel::Debug);
    assert_eq!(config.backups.len(), 2);

    let photos = &config.backups[0];
    assert_eq!(photos.path.text, "/home/me/photos");
    assert_eq!(photos.path.components, vec!["/", "home", "me", "photos"]);
    assert!(photos.recursive);
    assert_eq!(photos.trigger_changes, Some(5));
    assert_eq!(photos.trigger_timer, Some(15));
    assert_eq!(photos.command, "rsync -a /home/me/photos /mnt/photos/ # photos");
    assert_eq!(photos.last_triggered, 0);
    assert_eq!(photos.changed, 0);

    let notes = &config.backups[1];
    assert!(!notes.recursive);
    assert_eq!(notes.trigger_changes, None);
    assert_eq!(notes.trigger_timer, Some(1));
    assert_eq!(notes.command, "cp notes.txt notes.txt.bak");
}

#[test]
fn verbosity_defaults_to_info() {
    let mut global = Global { log_level: LogLevel::Trace };
    let model = ConfigModel { backups: Vec::new(), verbosity: None };
    let config = model.into_config(&mut global).unwrap();
    assert!(config.backups.is_empty());
    assert_eq!(global.log_level, LogLevel::Info);
}

#[test]
fn verbosity_names_are_read_in_any_case() {
    assert_eq!(verbosity_of(&None).unwrap(), LogLevel::Info);
    assert_eq!(verbosity_of(&Some("error".to_string())).unwrap(), LogLevel::Error);
    assert_eq!(verbosity_of(&Some("WARN".to_string())).unwrap(), LogLevel::Warn);
    assert_eq!(verbosity_of(&Some("Info".to_string())).unwrap(), LogLevel::Info);
    assert_eq!(verbosity_of(&Some("dEBUG".to_string())).unwrap(), LogLevel::Debug);
    assert_eq!(verbosity_of(&Some("TRACE".to_string())).unwrap(), LogLevel::Trace);
    assert!(matches!(
        verbosity_of(&Some("Verbose".to_string())),
        Err(ConfigError::UnknownVariant(what)) if what == "Verbose"
    ));
    assert!(matches!(verbosity_of(&Some(String::new())), Err(ConfigError::UnknownVariant(_))));
}

#[test]
fn level_names_are_exact_once_lowercased() {
    assert_eq!(parse_level("error"), Some(LogLevel::Error));
    assert_eq!(parse_level("warn"), Some(LogLevel::Warn));
    assert_eq!(parse_level("info"), Some(LogLevel::Info));
    assert_eq!(parse_level("debug"), Some(LogLevel::Debug));
    assert_eq!(parse_level("trace"), Some(LogLevel::Trace));
    assert_eq!(parse_level("Trace"), None);
    assert_eq!(parse_level("warning"), None);
    assert_eq!(parse_level(" info"), None);
    assert_eq!(parse_level(""), None);
}

#[test]
fn unknown_verbosity_rejects_and_leaves_the_settings() {
    let mut global = Global { log_level: LogLevel::Warn };
    let model = ConfigModel {
        backups: vec![entry("/data", PathKind::Directory, "true")],
        verbosity: Some("loud".to_string()),
    };
    match model.into_config(&mut global) {
        Err(ConfigError::UnknownVariant(what)) => assert_eq!(what, "loud"),
        other => panic!("unexpected result: {:?}", other),
    }
    assert_eq!(global.log_level, LogLevel::Warn);
}

#[test]
fn path_without_components_is_rejected() {
    let mut model = BackupModel { path: WatchPath::new(String::new(), Vec::new()), ..entry("", PathKind::Other, "echo {{name}}") };
    match model.set_defaults() {
        Err(ConfigError::PathParseError(path)) => assert_eq!(path, ""),
        other => panic!("unexpected result: {:?}", other),
    }
    assert_eq!(model.name, None);
    assert_eq!(model.recursive, None);
    assert_eq!(model.command, "echo {{name}}");

    let mut alias = BackupModel { path: WatchPath::new("odd".to_string(), Vec::new()), ..entry("", PathKind::Other, "true") };
    assert!(matches!(alias.set_alias_or_default(), Err(ConfigError::PathParseError(path)) if path == "odd"));
}

#[test]
fn entry_without_a_trigger_is_rejected() {
    for (changes, timer) in [(None, None), (Some(0), None), (None, Some(0)), (Some(0), Some(0))] {
        let mut model = BackupModel { changes, timer, ..entry("/data", PathKind::Directory, "echo {{name}}") };
        match model.set_defaults() {
            Err(ConfigError::MissingRequiredField(what)) => {
                assert_eq!(what, "both \"timer\" and \"changes\" are unset")
            }
            other => panic!("unexpected result: {:?}", other),
        }
        assert_eq!(model.name, Some("data".to_string()));
        assert_eq!(model.recursive, Some(true));
        assert_eq!(model.command, "echo data");
    }
}

#[test]
fn zero_threshold_beside_a_real_one_is_dropped() {
    let mut global = Global::default();
    let model = ConfigModel {
        backups: vec![
            BackupModel { changes: Some(0), timer: Some(2), ..entry("/a", PathKind::Directory, "true") },
            BackupModel { changes: Some(3), timer: Some(0), ..entry("/b", PathKind::Directory, "true") },
        ],
        verbosity: None,
    };
    let config = model.into_config(&mut global).unwrap();
    assert_eq!(config.backups[0].trigger_changes, None);
    assert_eq!(config.backups[0].trigger_timer, Some(2));
    assert_eq!(config.backups[1].trigger_changes, Some(3));
    assert_eq!(config.backups[1].trigger_timer, None);
}

#[test]
fn first_rejected_entry_rejects_the_configuration() {
    let mut global = Global::default();
    let model = ConfigModel {
        backups: vec![
            entry("/fine", PathKind::Directory, "true"),
            BackupModel { changes: None, ..entry("/no/trigger", PathKind::Directory, "true") },
            BackupModel { path: WatchPath::new("empty".to_string(), Vec::new()), ..entry("", PathKind::Other, "true") },
        ],
        verbosity: Some("trace".to_string()),
    };
    assert!(matches!(model.into_config(&mut global), Err(ConfigError::MissingRequiredField(_))));
    assert_eq!(global.log_level, LogLevel::Trace);

    let model = ConfigModel {
        backups: vec![
            BackupModel { path: WatchPath::new("empty".to_string(), Vec::new()), changes: None, ..entry("", PathKind::Other, "true") },
            BackupModel { changes: None, ..entry("/no/trigger", PathKind::Directory, "true") },
        ],
        verbosity: None,
    };
    assert!(matches!(model.into_config(&mut global), Err(ConfigError::PathParseError(path)) if path == "empty"));
}

#[test]
fn recursion_mode_follows_setting_and_kind() {
    let cases = [
        (Some(true), PathKind::File, false),
        (Some(true), PathKind::Directory, true),
        (Some(true), PathKind::Other, true),
        (Some(false), PathKind::File, false),
        (Some(false), PathKind::Directory, false),
        (Some(false), PathKind::Other, false),
        (None, PathKind::File, false),
        (None, PathKind::Directory, true),
        (None, PathKind::Other, false),
    ];
    for (recursive, kind, expected) in cases {
        let mut model = BackupModel { recursive, ..entry("/data", kind, "true") };
        assert!(model.set_recursive_or_default().is_ok());
        assert_eq!(model.recursive, Some(expected));
    }
}

#[test]
fn alias_is_the_last_component() {
    let mut model = BackupModel { name: Some("mine".to_string()), ..entry("/var/lib/db", PathKind::Directory, "true") };
    assert!(model.set_alias_or_default().is_ok());
    assert_eq!(model.name, Some("db".to_string()));
    let mut root = entry("/", PathKind::Directory, "true");
    assert!(root.set_alias_or_default().is_ok());
    assert_eq!(root.name, Some("/".to_string()));
}

#[test]
fn placeholders_are_filled_path_first() {
    let mut model = BackupModel {
        name: Some("{{path}}".to_string()),
        ..entry("/srv/{{name}}", PathKind::Directory, "{{name}}|{{path}}|{{ path }}|{{name}}")
    };
    assert!(model.substitute_exec_variables().is_ok());
    assert_eq!(model.command, "{{path}}|/srv/{{path}}|{{ path }}|{{path}}");

    let mut plain = BackupModel { name: Some("n".to_string()), ..entry("/p", PathKind::Directory, "no placeholders") };
    assert!(plain.substitute_exec_variables().is_ok());
    assert_eq!(plain.command, "no placeholders");
}

#[test]
fn entry_with_defaults_becomes_a_location() {
    let mut model = BackupModel { changes: Some(7), timer: Some(0), ..entry("/srv/www", PathKind::Directory, "push {{name}}") };
    assert!(model.set_defaults().is_ok());
    let entity = model.into();
    assert_eq!(entity.path.text, "/srv/www");
    assert!(entity.recursive);
    assert_eq!(entity.trigger_changes, Some(7));
    assert_eq!(entity.trigger_timer, None);
    assert_eq!(entity.command, "push www");
    assert_eq!(entity.last_triggered, 0);
    assert_eq!(entity.changed, 0);
}

#[test]
fn rejections_in_words() {
    assert_eq!(
        ConfigError::PathParseError("/x/..".to_string()).message(),
        "\"/x/..\" is not a valid path"
    );
    assert_eq!(
        ConfigError::MissingRequiredField("both \"timer\" and \"changes\" are unset".to_string()).message(),
        "invalid setting: both \"timer\" and \"changes\" are unset"
    );
    assert_eq!(ConfigError::UnknownVariant("loud".to_string()).message(), "unknown variant: \"loud\"");
}

#[test]
fn contradicted_recursion_mode_is_noted() {
    let cases = [
        (Some(true), PathKind::File, Some(RecursionNote::FileSetRecursive)),
        (Some(true), PathKind::Directory, None),
        (Some(true), PathKind::Other, None),
        (Some(false), PathKind::File, None),
        (Some(false), PathKind::Directory, Some(RecursionNote::DirectorySetPlain)),
        (Some(false), PathKind::Other, None),
        (None, PathKind::File, None),
        (None, PathKind::Directory, None),
        (None, PathKind::Other, None),
    ];
    for (recursive, kind, expected) in cases {
        let model = BackupModel { recursive, ..entry("/data", kind, "true") };
        assert_eq!(model.recursion_note(), expected);
    }
}
