use nuclaw::security::{find_danger, CommandAllowlist, WorkspaceIsolation};

#[test]
fn test_workspace_isolation_new() {
    let isolation = WorkspaceIsolation::new(true);
    assert!(isolation.workspace_only);
}

#[test]
fn test_add_allowed_root() {
    let mut isolation = WorkspaceIsolation::new(true);
    isolation.add_allowed_root("/tmp/test");

    let roots = isolation.allowed_roots();
    assert!(roots.iter().any(|r| r.contains("test")));
}

#[test]
fn test_is_path_allowed_with_workspace_only() {
    let mut isolation = WorkspaceIsolation::new(true);
    isolation.add_allowed_root("/tmp");

    assert!(isolation.is_path_allowed("/tmp/test.txt"));
    assert!(!isolation.is_path_allowed("/etc/passwd"));
}

#[test]
fn test_is_path_allowed_without_workspace_only() {
    let isolation = WorkspaceIsolation::new(false);

    assert!(isolation.is_path_allowed("/tmp/test.txt"));
}

#[test]
fn test_sanitize_path_valid() {
    let isolation = WorkspaceIsolation::new(false);
    let result = isolation.sanitize_path("/tmp/test.txt");
    assert!(result.is_some());
}

#[test]
fn test_sanitize_path_null_byte() {
    let isolation = WorkspaceIsolation::new(false);
    let result = isolation.sanitize_path("/tmp/test.txt\0");
    assert!(result.is_none());
}

#[test]
fn test_sanitize_path_parent_dir() {
    let isolation = WorkspaceIsolation::new(false);
    let result = isolation.sanitize_path("/tmp/../etc/passwd");
    assert!(result.is_none());
}

#[test]
fn test_command_allowlist_new() {
    let allowlist = CommandAllowlist::new();
    assert!(!allowlist.is_allowed("ls"));
}

#[test]
fn test_command_allowlist_add() {
    let mut allowlist = CommandAllowlist::new();
    allowlist.add_command("ls");
    allowlist.add_command("cat");

    assert!(allowlist.is_allowed("ls"));
    assert!(allowlist.is_allowed("cat"));
    assert!(!allowlist.is_allowed("rm"));
}

#[test]
fn test_command_allowlist_validate() {
    let mut allowlist = CommandAllowlist::new();
    allowlist.add_command("ls");
    allowlist.add_command("git");

    assert!(allowlist.validate("ls /tmp").is_ok());
    assert!(allowlist.validate("git status").is_ok());
    assert!(allowlist.validate("rm -rf /").is_err());
}

#[test]
fn test_command_allowlist_dangerous_patterns() {
    let mut allowlist = CommandAllowlist::new();
    allowlist.add_command("rm");

    assert!(allowlist.validate("rm -rf /").is_err());
    assert!(allowlist.validate("rm file.txt").is_ok());
}

#[test]
fn test_default_blocked_paths() {
    let isolation = WorkspaceIsolation::new(false);

    assert!(!isolation.is_path_allowed("/etc/passwd"));
    assert!(!isolation.is_path_allowed("/root/.ssh"));
    assert!(!isolation.is_path_allowed("/proc/1"));
}

#[test]
fn sanitize_keeps_dots_inside_names() {
    let isolation = WorkspaceIsolation::new(false);
    assert_eq!(isolation.sanitize_path("a/..b/c..").unwrap(), "a/..b/c..");
    assert!(isolation.sanitize_path("..").is_none());
    assert!(isolation.sanitize_path("a/..").is_none());
}

#[test]
fn symlink_escape_decisions() {
    let isolation = WorkspaceIsolation::new(false);
    assert!(!isolation.detect_symlink_escape(None, Some("/base")));
    assert!(isolation.detect_symlink_escape(Some("/x"), None));
    assert!(!isolation.detect_symlink_escape(Some("/base/a"), Some("/base")));
    assert!(isolation.detect_symlink_escape(Some("/basement"), Some("/base")));
    assert!(!isolation.detect_symlink_escape(Some("/base"), Some("/base")));
}

#[test]
fn validate_error_messages() {
    let mut allowlist = CommandAllowlist::new();
    assert_eq!(allowlist.validate("   "), Err("Empty command".to_string()));
    assert!(allowlist.validate("anything at all").is_ok());
    allowlist.add_command("ls");
    assert_eq!(
        allowlist.validate("cat x"),
        Err("Command 'cat' not in allowlist".to_string())
    );
    allowlist.add_command("dd");
    assert_eq!(
        allowlist.validate("dd IF=/dev/zero"),
        Err("Dangerous pattern detected: dd if=".to_string())
    );
    assert!(allowlist.is_allowed("  ls -la"));
}

#[test]
fn find_danger_in_lowercased_text() {
    assert_eq!(find_danger("sudo mkfs.ext4 /dev/sda"), Some("mkfs"));
    assert_eq!(find_danger("ls -la"), None);
    assert_eq!(find_danger("rm -rf / ; dd if=x"), Some("rm -rf"));
}
