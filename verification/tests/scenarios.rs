use backontime::backup::{Backuper, Startup};
use backontime::backup_entity::{BackupEntity, ExecOutcome};
use backontime::global::{Global, LogLevel};
use backontime::path::WatchPath;
use backontime::watcher::FsEvent;

fn scenario_path(text: &str) -> WatchPath {
    let components = std::path::Path::new(text)
        .components()
        .map(|c| c.as_os_str().to_string_lossy().into_owned())
        .collect();
    WatchPath::new(text.to_string(), components)
}

fn scenario_location(
    path: &str,
    recursive: bool,
    changes: Option<u64>,
    timer: Option<u64>,
) -> BackupEntity {
    BackupEntity {
        path: scenario_path(path),
        recursive,
        trigger_changes: changes,
        trigger_timer: timer,
        command: "true".to_string(),
        last_triggered: 0,
        changed: 0,
    }
}

fn scenario_exit(success: bool, stdout: &str, stderr: &str) -> ExecOutcome {
    ExecOutcome::Exited {
        success,
        status: if success { "exit status: 0".to_string() } else { "exit status: 1".to_string() },
        stdout: stdout.as_bytes().to_vec(),
        stderr: stderr.as_bytes().to_vec(),
    }
}

#[test]
fn three_writes_fire_one_action_and_reset() {
    let global = Global { log_level: LogLevel::Info };
    let mut backuper = Backuper::new(vec![scenario_location("/data", true, Some(3), None)]);
    let mut fired = 0;
    for now in [10u64, 20, 30] {
        backuper.observe(&FsEvent::Write(scenario_path("/data/x")));
        let mut from = 0;
        while let Some(location) = backuper.next_due(from, now) {
            fired += 1;
            assert_eq!(location, 0);
            assert_eq!(now, 30);
            assert_eq!(backuper.get(location).changed, 3);
            let report = backuper.complete(location, scenario_exit(true, "", ""), &global, now);
            assert!(report.is_ok());
            from = location + 1;
        }
    }
    assert_eq!(fired, 1);
    assert_eq!(backuper.get(0).changed, 0);
    assert_eq!(backuper.get(0).last_triggered, 30);
    assert_eq!(backuper.next_due(0, 31), None);
    assert_eq!(backuper.next_due(0, 1_000_000), None);
}

#[test]
fn timer_alone_fires_once_after_sixty_one_seconds() {
    let global = Global { log_level: LogLevel::Info };
    let mut entity = scenario_location("/data", true, None, Some(1));
    entity.last_triggered = 1_000;
    let mut backuper = Backuper::new(vec![entity]);
    let mut fired = 0;
    for now in [1_030u64, 1_059, 1_061, 1_062, 1_090] {
        let mut from = 0;
        while let Some(location) = backuper.next_due(from, now) {
            fired += 1;
            assert_eq!(now, 1_061);
            assert_eq!(backuper.get(location).changed, 0);
            let report = backuper.complete(location, scenario_exit(true, "", ""), &global, now);
            assert!(report.is_ok());
            from = location + 1;
        }
    }
    assert_eq!(fired, 1);
    assert_eq!(backuper.get(0).last_triggered, 1_061);
    assert_eq!(backuper.get(0).changed, 0);
}

#[test]
fn failing_command_surfaces_both_streams_and_resets() {
    let global = Global { log_level: LogLevel::Info };
    let mut entity = scenario_location("/data", true, Some(1), None);
    entity.command = "backup /data".to_string();
    entity.changed = 4;
    entity.last_triggered = 5;
    let report = entity
        .backup(scenario_exit(false, "copied 3\ncopied 4\n", "disk full\n"), &global, 900)
        .unwrap();
    assert!(!report.success);
    assert_eq!(report.summary, "/data: \"backup /data\" failed: exit status: 1");
    assert_eq!(
        report.lines,
        vec![
            "process stdout: ".to_string(),
            "1> copied 3".to_string(),
            "1> copied 4".to_string(),
            "process stderr: ".to_string(),
            "2> disk full".to_string(),
        ]
    );
    assert_eq!(entity.changed, 0);
    assert_eq!(entity.last_triggered, 900);

    let mut succeeded = scenario_location("/data", true, Some(1), None);
    succeeded.changed = 4;
    succeeded.last_triggered = 5;
    let quiet = succeeded.backup(scenario_exit(true, "copied 3\n", "warning\n"), &global, 900).unwrap();
    assert!(quiet.success);
    assert!(quiet.lines.is_empty());
    assert_eq!(succeeded.changed, entity.changed);
    assert_eq!(succeeded.last_triggered, entity.last_triggered);
}

#[test]
fn rename_moves_the_index_entry_and_keeps_the_counter() {
    let mut entity = scenario_location("/data/a", true, Some(10), None);
    entity.changed = 2;
    entity.last_triggered = 77;
    let mut backuper = Backuper::new(vec![entity]);
    assert_eq!(backuper.lookup(&scenario_path("/data/a")), Some(0));

    let moved = backuper.rename(&scenario_path("/data/a"), &scenario_path("/data/b"));
    assert_eq!(moved, Some(0));
    assert_eq!(backuper.lookup(&scenario_path("/data/b")), Some(0));
    assert_eq!(backuper.lookup(&scenario_path("/data/a")), None);
    assert_eq!(backuper.len(), 1);
    assert_eq!(backuper.get(0).path.text, "/data/b");
    assert_eq!(backuper.get(0).path.components, vec!["/", "data", "b"]);
    assert_eq!(backuper.get(0).changed, 2);
    assert_eq!(backuper.get(0).last_triggered, 77);
}

#[test]
fn rename_notification_counts_as_one_change_at_the_new_path() {
    let mut entity = scenario_location("/data/a", true, Some(10), None);
    entity.changed = 2;
    entity.last_triggered = 77;
    let mut backuper = Backuper::new(vec![entity]);
    backuper.observe(&FsEvent::Rename(scenario_path("/data/a"), scenario_path("/data/b")));
    assert_eq!(backuper.lookup(&scenario_path("/data/b")), Some(0));
    assert_eq!(backuper.lookup(&scenario_path("/data/a")), None);
    assert_eq!(backuper.get(0).path.text, "/data/b");
    assert_eq!(backuper.get(0).changed, 3);
    assert_eq!(backuper.get(0).last_triggered, 77);
}

#[test]
fn empty_registry_starts_nothing() {
    let backuper = Backuper::new(Vec::new());
    assert!(backuper.is_empty());
    assert!(matches!(backuper.start(), Startup::Idle));
    assert_eq!(backuper.next_due(0, 100), None);
}

#[test]
fn startup_lists_every_indexed_path_once() {
    let backuper = Backuper::new(vec![
        scenario_location("/data", true, Some(1), None),
        scenario_location("/etc/hosts", false, None, Some(5)),
        scenario_location("/data", false, Some(2), None),
    ]);
    let watches = match backuper.start() {
        Startup::Watch { watches } => watches,
        Startup::Idle => panic!("a registry with locations must start its watcher"),
    };
    let mut listed: Vec<(String, bool)> =
        watches.iter().map(|w| (w.path.text.clone(), w.recursive)).collect();
    listed.sort();
    assert_eq!(listed, vec![("/data".to_string(), false), ("/etc/hosts".to_string(), false)]);
}
