use nuclaw::agent_runner::{agent_runner_mode, build_system_prompt, AgentRunnerMode, ContainerInput};
use nuclaw::config::{
    config_path, data_dir, groups_dir, home_from, logs_dir, mount_allowlist_path, nuclaw_home, store_dir,
};
use nuclaw::error::NuClawError;
use nuclaw::maintenance::{
    ArchiveRecord, ContentArchiver, LogCleaner, MaintenanceReport, MaintenanceScheduler,
    DEFAULT_LINE_THRESHOLD, DEFAULT_MAX_AGE_DAYS,
};
use nuclaw::observer::{LogLevel, LogObserver, NoopObserver, Observer};

#[test]
fn test_build_system_prompt_basic() {
    let input = ContainerInput {
        prompt: "Hello".to_string(),
        session_id: None,
        group_folder: "test_group".to_string(),
        chat_jid: "test@chat".to_string(),
        is_main: true,
        is_scheduled_task: false,
    };
    let prompt = build_system_prompt(&input);
    assert!(prompt.contains("main context"));
    assert!(prompt.contains("test_group"));
}

#[test]
fn test_build_system_prompt_scheduled_task() {
    let input = ContainerInput {
        prompt: "Hello".to_string(),
        session_id: None,
        group_folder: "test_group".to_string(),
        chat_jid: "test@chat".to_string(),
        is_main: false,
        is_scheduled_task: true,
    };
    let prompt = build_system_prompt(&input);
    assert!(prompt.contains("scheduled task"));
    assert!(prompt.contains("isolated context"));
}

#[test]
fn test_build_system_prompt_non_main() {
    let input = ContainerInput {
        prompt: "Hello".to_string(),
        session_id: Some("sess_123".to_string()),
        group_folder: "test_group".to_string(),
        chat_jid: "test@chat".to_string(),
        is_main: false,
        is_scheduled_task: false,
    };
    let prompt = build_system_prompt(&input);
    assert!(prompt.contains("isolated context"));
}

#[test]
fn system_prompt_exact_text() {
    let input = ContainerInput {
        prompt: String::new(),
        session_id: None,
        group_folder: "g".to_string(),
        chat_jid: String::new(),
        is_main: true,
        is_scheduled_task: true,
    };
    assert_eq!(
        build_system_prompt(&input),
        "You are an AI assistant.\n\nYou are running in the main context.\nThis is a scheduled task.\nGroup folder: g\n"
    );
}

#[test]
fn test_content_archiver_new() {
    let archiver = ContentArchiver::new("/tmp/archive");
    assert_eq!(archiver.threshold_lines, DEFAULT_LINE_THRESHOLD);
}

#[test]
fn test_content_archiver_with_threshold() {
    let archiver = ContentArchiver::new("/tmp").with_threshold(100);
    assert_eq!(archiver.threshold_lines, 100);
}

#[test]
fn test_log_cleaner_new() {
    let cleaner = LogCleaner::new("/tmp/logs");
    assert_eq!(cleaner.max_age_days, DEFAULT_MAX_AGE_DAYS);
}

#[test]
fn test_log_cleaner_with_max_age() {
    let cleaner = LogCleaner::new("/tmp").with_max_age(30);
    assert_eq!(cleaner.max_age_days, 30);
}

#[test]
fn test_maintenance_scheduler_new() {
    let archiver = ContentArchiver::new("/tmp/archive");
    let cleaner = LogCleaner::new("/tmp/logs");

    let scheduler = MaintenanceScheduler::new(archiver, cleaner);

    assert_eq!(scheduler.archiver.threshold_lines, DEFAULT_LINE_THRESHOLD);
}

#[test]
fn test_archive_record() {
    let record = ArchiveRecord {
        original_path: "/path/to/MEMORY.md".to_string(),
        archive_path: "/path/to/.history/MEMORY_20260101.md".to_string(),
        line_count: 250,
    };

    assert_eq!(record.original_path, "/path/to/MEMORY.md");
    assert_eq!(record.line_count, 250);
}

#[test]
fn test_maintenance_report() {
    let report = MaintenanceReport {
        archives: vec![ArchiveRecord {
            original_path: "/path/to/MEMORY.md".to_string(),
            archive_path: "/path/to/.history/MEMORY_20260101.md".to_string(),
            line_count: 250,
        }],
        cleaned: 5,
        errors: vec![],
        executed_at: "2026-01-01T00:00:00Z".to_string(),
    };

    assert_eq!(report.archives.len(), 1);
    assert_eq!(report.cleaned, 5);
    assert!(report.errors.is_empty());
}

#[test]
fn archive_and_delete_decisions() {
    let archiver = ContentArchiver::new("/a").with_threshold(2);
    assert!(archiver.should_archive("MEMORY.md", 3));
    assert!(!archiver.should_archive("MEMORY.md", 2));
    assert!(!archiver.should_archive("NOTES.md", 300));
    assert_eq!(archiver.count_lines(""), 0);
    assert_eq!(archiver.count_lines("a"), 1);
    assert_eq!(archiver.count_lines("a\nb"), 2);
    assert_eq!(archiver.count_lines("a\nb\n"), 2);
    assert_eq!(archiver.count_lines("\n\n"), 2);
    let cleaner = LogCleaner::new("/l").with_max_age(1);
    assert!(cleaner.should_delete(true, Some(0), 86401));
    assert!(!cleaner.should_delete(true, Some(0), 86400));
    assert!(!cleaner.should_delete(false, Some(0), 1_000_000));
    assert!(!cleaner.should_delete(true, None, 1_000_000));
}

#[test]
fn test_log_level_from_str() {
    assert_eq!(LogLevel::from_str("trace"), LogLevel::Trace);
    assert_eq!(LogLevel::from_str("DEBUG"), LogLevel::Debug);
    assert_eq!(LogLevel::from_str("info"), LogLevel::Info);
    assert_eq!(LogLevel::from_str("warn"), LogLevel::Warn);
    assert_eq!(LogLevel::from_str("warning"), LogLevel::Warn);
    assert_eq!(LogLevel::from_str("error"), LogLevel::Error);
    assert_eq!(LogLevel::from_str("unknown"), LogLevel::Info);
}

#[test]
fn test_noop_observer_name() {
    let observer = NoopObserver;
    assert_eq!(observer.name(), "noop");
}

#[test]
fn test_log_observer_new() {
    let observer = LogObserver::new(LogLevel::Info);
    assert_eq!(observer.name(), "log");
}

#[test]
fn test_log_observer_should_log() {
    let observer = LogObserver::new(LogLevel::Info);

    assert!(!observer.should_log(&LogLevel::Trace));
    assert!(!observer.should_log(&LogLevel::Debug));
    assert!(observer.should_log(&LogLevel::Info));
    assert!(observer.should_log(&LogLevel::Warn));
    assert!(observer.should_log(&LogLevel::Error));
}

#[test]
fn config_paths_under_home() {
    assert_eq!(store_dir("/h/.nuclaw"), "/h/.nuclaw/store");
    assert_eq!(groups_dir("/h/.nuclaw/"), "/h/.nuclaw/groups");
    assert_eq!(data_dir("/h"), "/h/data");
    assert_eq!(logs_dir("/h"), "/h/groups/logs");
    assert_eq!(mount_allowlist_path("/h"), "/h/mount-allowlist.json");
    assert_eq!(config_path(""), "config.json");
}

#[test]
fn error_text() {
    let e = NuClawError::Database { message: "locked".to_string() };
    assert_eq!(e.to_string(), "Database error: locked");
    let e = NuClawError::Timeout { operation: "run".to_string() };
    assert_eq!(e.to_string(), "Timeout error: run");
}

#[test]
fn runner_mode_from_setting() {
    assert_eq!(agent_runner_mode(None), AgentRunnerMode::Container);
    assert_eq!(agent_runner_mode(Some("api")), AgentRunnerMode::Api);
    assert_eq!(agent_runner_mode(Some("container")), AgentRunnerMode::Container);
    assert_eq!(agent_runner_mode(Some("invalid")), AgentRunnerMode::Container);
}

#[test]
fn home_directory_choice() {
    assert_eq!(home_from(Some("/custom"), Some("/home/u")), "/custom");
    assert_eq!(home_from(None, Some("/home/u")), "/home/u/.nuclaw");
    assert_eq!(home_from(None, None), "/Users/user/.nuclaw");
    assert_eq!(nuclaw_home(Some("/x")), "/x");
    assert!(nuclaw_home(None).ends_with(".nuclaw"));
}

#[test]
fn log_level_from_lowercase_name() {
    assert_eq!(LogLevel::from_lowercase("warning"), LogLevel::Warn);
    assert_eq!(LogLevel::from_lowercase("WARN"), LogLevel::Info);
}
