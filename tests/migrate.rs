use std::collections::{BTreeMap, BTreeSet};

use pg_migrate::down_run::{rollback_count, DownAction, DownEvent, DownRun, REVERT_ALL};
use pg_migrate::error::{ErrorKind, MigrateError};
use pg_migrate::ledger::{ensure_ready_statements, schema_or_default, CREATE_LEDGER_SQL};
use pg_migrate::reconcile::pending;
use pg_migrate::scanner::{discover, identifier_for, FileEntry, IdPolicy, MigrationFile};
use pg_migrate::splitter::parse_migration;
use pg_migrate::up_run::{UpAction, UpEvent, UpRun};

fn file(name: &str) -> FileEntry {
    FileEntry { name: name.to_string(), is_file: true }
}

fn mfile(name: &str) -> MigrationFile {
    MigrationFile { identifier: name.to_string(), file_name: name.to_string() }
}

fn good_sql(table: &str) -> String {
    format!("-- up\nCREATE TABLE {t} (id INT);\n-- down\nDROP TABLE {t};\n", t = table)
}

/// A ledger (in order of application), a directory and a database that answer a
/// run's actions.
struct World {
    ledger: Vec<String>,
    disk: BTreeMap<String, String>,
    failing_sql: BTreeSet<String>,
    executed: Vec<String>,
}

impl World {
    fn new() -> World {
        World { ledger: Vec::new(), disk: BTreeMap::new(), failing_sql: BTreeSet::new(), executed: Vec::new() }
    }

    fn add(&mut self, name: &str, text: &str) {
        self.disk.insert(name.to_string(), text.to_string());
    }

    fn files(&self) -> Vec<MigrationFile> {
        let entries: Vec<FileEntry> = self.disk.keys().map(|k| file(k)).collect();
        discover(IdPolicy::FullFilename, &entries).unwrap()
    }

    fn run_up(&mut self) -> (Result<(), MigrateError>, Vec<String>) {
        let mut run = UpRun::new(self.files());
        loop {
            let ev = match run.next_action() {
                UpAction::CheckApplied(id) => UpEvent::Checked(self.ledger.contains(&id)),
                UpAction::ReadFile(name) => UpEvent::FileRead(self.disk.get(&name).cloned()),
                UpAction::Execute(sql) => {
                    if self.failing_sql.contains(&sql) {
                        UpEvent::Executed(false)
                    } else {
                        self.executed.push(sql);
                        UpEvent::Executed(true)
                    }
                }
                UpAction::Record(id) => {
                    if self.ledger.contains(&id) {
                        UpEvent::Recorded(false)
                    } else {
                        self.ledger.push(id);
                        UpEvent::Recorded(true)
                    }
                }
                UpAction::Finished => return (Ok(()), run.applied().clone()),
                UpAction::Failed(e) => return (Err(e), run.applied().clone()),
            };
            run.on_event(ev);
        }
    }

    fn run_down(&mut self, step: Option<i32>) -> (Result<(), MigrateError>, Vec<String>, Vec<String>) {
        let desc: Vec<String> = self.ledger.iter().rev().cloned().collect();
        let mut run = DownRun::new(&desc, step, &self.files());
        loop {
            let ev = match run.next_action() {
                DownAction::ReadFile(name) => DownEvent::FileRead(self.disk.get(&name).cloned()),
                DownAction::ReportMissing(_) => DownEvent::FileRead(None),
                DownAction::Execute(sql) => {
                    if self.failing_sql.contains(&sql) {
                        DownEvent::Executed(false)
                    } else {
                        self.executed.push(sql);
                        DownEvent::Executed(true)
                    }
                }
                DownAction::Revert(id) => {
                    self.ledger.retain(|n| *n != id);
                    DownEvent::Reverted(true)
                }
                DownAction::Finished => {
                    return (Ok(()), run.reverted().clone(), run.skipped().clone())
                }
                DownAction::Failed(e) => {
                    return (Err(e), run.reverted().clone(), run.skipped().clone())
                }
            };
            run.on_event(ev);
        }
    }
}

#[test]
fn parse_splits_and_trims_blocks() {
    let m = parse_migration("0001_a.sql", "-- up\n  CREATE TABLE a (id INT);  \n\n-- down\n DROP TABLE a; \n").unwrap();
    assert_eq!(m.up_sql, "CREATE TABLE a (id INT);");
    assert_eq!(m.down_sql, "DROP TABLE a;");
}

#[test]
fn parse_markers_ignore_letter_case() {
    let m = parse_migration("x.sql", "-- UP\nSELECT 1;\n-- Down\nSELECT 2;").unwrap();
    assert_eq!(m.up_sql, "SELECT 1;");
    assert_eq!(m.down_sql, "SELECT 2;");
}

#[test]
fn parse_keeps_later_down_markers_in_down_block() {
    let m = parse_migration("x.sql", "-- up\nA;\n-- down\nB;\n-- down\nC;").unwrap();
    assert_eq!(m.up_sql, "A;");
    assert_eq!(m.down_sql, "B;\n-- down\nC;");
}

#[test]
fn parse_keeps_non_ascii_text() {
    let m = parse_migration("x.sql", "-- up\nINSERT INTO t VALUES ('héllo ✓');\n-- down\nDELETE FROM t;").unwrap();
    assert_eq!(m.up_sql, "INSERT INTO t VALUES ('héllo ✓');");
}

#[test]
fn parse_rejects_missing_down_marker() {
    let e = parse_migration("0002_b.sql", "-- up\nCREATE TABLE b (id INT);\n").unwrap_err();
    assert_eq!(e, MigrateError::Format("0002_b.sql".to_string()));
}

#[test]
fn parse_rejects_missing_up_marker() {
    let e = parse_migration("b.sql", "CREATE TABLE b;\n-- down\nDROP TABLE b;").unwrap_err();
    assert_eq!(e.kind(), ErrorKind::Format);
}

#[test]
fn parse_rejects_down_before_up() {
    assert!(parse_migration("b.sql", "-- down\nDROP TABLE b;\n-- up\nCREATE TABLE b;").is_err());
}

#[test]
fn parse_rejects_up_twice() {
    assert!(parse_migration("b.sql", "-- up\nA;\n-- up\nB;\n-- down\nC;").is_err());
}

#[test]
fn parse_allows_empty_blocks() {
    let m = parse_migration("b.sql", "-- up\n-- down\n").unwrap();
    assert_eq!(m.up_sql, "");
    assert_eq!(m.down_sql, "");
}

#[test]
fn discover_filters_and_sorts() {
    let entries = vec![
        file("0003_c.sql"),
        file("README.md"),
        FileEntry { name: "0000_dir.sql".to_string(), is_file: false },
        file("0001_a.sql"),
        file(".sql"),
        file("0002_b.sql"),
        file("notes.SQL"),
    ];
    let files = discover(IdPolicy::FullFilename, &entries).unwrap();
    let ids: Vec<&str> = files.iter().map(|f| f.identifier.as_str()).collect();
    assert_eq!(ids, vec!["0001_a.sql", "0002_b.sql", "0003_c.sql"]);
}

#[test]
fn discover_empty_directory() {
    assert!(discover(IdPolicy::FullFilename, &vec![]).unwrap().is_empty());
}

#[test]
fn discover_orders_by_code_point() {
    let entries = vec![file("b.sql"), file("B.sql"), file("a.sql"), file("ab.sql")];
    let files = discover(IdPolicy::FullFilename, &entries).unwrap();
    let ids: Vec<&str> = files.iter().map(|f| f.identifier.as_str()).collect();
    assert_eq!(ids, vec!["B.sql", "a.sql", "ab.sql", "b.sql"]);
}

#[test]
fn discover_prefix_policy_takes_prefix() {
    let entries = vec![file("0002_users.sql"), file("0001_init.sql")];
    let files = discover(IdPolicy::PrefixBeforeSeparator('_'), &entries).unwrap();
    assert_eq!(files[0].identifier, "0001");
    assert_eq!(files[0].file_name, "0001_init.sql");
    assert_eq!(files[1].identifier, "0002");
    assert_eq!(files[1].file_name, "0002_users.sql");
}

#[test]
fn discover_prefix_policy_rejects_name_without_separator() {
    let entries = vec![file("0001_init.sql"), file("oops.sql"), file("skip.txt")];
    let e = discover(IdPolicy::PrefixBeforeSeparator('_'), &entries).unwrap_err();
    assert_eq!(e, MigrateError::Format("oops.sql".to_string()));
}

#[test]
fn identifier_for_policies() {
    assert_eq!(identifier_for(IdPolicy::FullFilename, "0001_a.sql"), Some("0001_a.sql".to_string()));
    assert_eq!(identifier_for(IdPolicy::PrefixBeforeSeparator('_'), "0001_a_b.sql"), Some("0001".to_string()));
    assert_eq!(identifier_for(IdPolicy::PrefixBeforeSeparator('_'), "abc.sql"), None);
}

#[test]
fn pending_skips_applied() {
    let files = vec![mfile("0001.sql"), mfile("0002.sql"), mfile("0003.sql")];
    let p = pending(&files, &vec!["0002.sql".to_string()]);
    let ids: Vec<&str> = p.iter().map(|f| f.identifier.as_str()).collect();
    assert_eq!(ids, vec!["0001.sql", "0003.sql"]);
}

#[test]
fn list_reflects_out_of_band_ledger_insert() {
    let files = vec![mfile("0001.sql"), mfile("0002.sql")];
    let mut applied: Vec<String> = vec![];
    assert_eq!(pending(&files, &applied).len(), 2);
    applied.push("0001.sql".to_string());
    let p = pending(&files, &applied);
    assert_eq!(p.len(), 1);
    assert_eq!(p[0].identifier, "0002.sql");
    applied.push("0002.sql".to_string());
    assert!(pending(&files, &applied).is_empty());
}

#[test]
fn rollback_count_rules() {
    assert_eq!(rollback_count(None, 5), 1);
    assert_eq!(rollback_count(Some(REVERT_ALL), 5), 5);
    assert_eq!(rollback_count(Some(3), 5), 3);
    assert_eq!(rollback_count(Some(9), 5), 9);
    assert_eq!(rollback_count(Some(0), 5), 1);
    assert_eq!(rollback_count(Some(-5), 5), 1);
}

#[test]
fn up_applies_in_order() {
    let mut w = World::new();
    w.add("0002_b.sql", &good_sql("b"));
    w.add("0001_a.sql", &good_sql("a"));
    let (r, applied) = w.run_up();
    assert!(r.is_ok());
    assert_eq!(applied, vec!["0001_a.sql", "0002_b.sql"]);
    assert_eq!(w.ledger, vec!["0001_a.sql", "0002_b.sql"]);
    assert_eq!(w.executed, vec!["CREATE TABLE a (id INT);", "CREATE TABLE b (id INT);"]);
}

#[test]
fn up_twice_applies_nothing_second_time() {
    let mut w = World::new();
    w.add("0001_a.sql", &good_sql("a"));
    w.add("0002_b.sql", &good_sql("b"));
    let (r1, a1) = w.run_up();
    assert!(r1.is_ok());
    assert_eq!(a1.len(), 2);
    let ledger = w.ledger.clone();
    let (r2, a2) = w.run_up();
    assert!(r2.is_ok());
    assert!(a2.is_empty());
    assert_eq!(w.ledger, ledger);
}

#[test]
fn up_with_no_files_finishes_empty() {
    let mut w = World::new();
    let (r, a) = w.run_up();
    assert!(r.is_ok());
    assert!(a.is_empty());
}

#[test]
fn up_stops_on_execution_failure() {
    let mut w = World::new();
    w.add("A.sql", &good_sql("a"));
    w.add("B.sql", &good_sql("b"));
    w.add("C.sql", &good_sql("c"));
    w.failing_sql.insert("CREATE TABLE b (id INT);".to_string());
    let (r, applied) = w.run_up();
    assert_eq!(r.unwrap_err(), MigrateError::Execution("B.sql".to_string()));
    assert_eq!(applied, vec!["A.sql"]);
    assert_eq!(w.ledger, vec!["A.sql"]);
    assert_eq!(w.executed, vec!["CREATE TABLE a (id INT);"]);
}

#[test]
fn up_reports_malformed_file_after_applying_earlier() {
    let mut w = World::new();
    w.add("0001_a.sql", &good_sql("a"));
    w.add("0002_bad.sql", "-- up\nCREATE TABLE bad (id INT);\n");
    w.add("0003_c.sql", &good_sql("c"));
    let (r, applied) = w.run_up();
    assert_eq!(r.unwrap_err(), MigrateError::Format("0002_bad.sql".to_string()));
    assert_eq!(applied, vec!["0001_a.sql"]);
    assert_eq!(w.ledger, vec!["0001_a.sql"]);
}

#[test]
fn up_skips_already_applied_malformed_file() {
    let mut w = World::new();
    w.add("0001_old.sql", "garbage");
    w.add("0002_b.sql", &good_sql("b"));
    w.ledger.push("0001_old.sql".to_string());
    let (r, applied) = w.run_up();
    assert!(r.is_ok());
    assert_eq!(applied, vec!["0002_b.sql"]);
}

#[test]
fn up_unreadable_file_is_io_error() {
    let mut run = UpRun::new(vec![mfile("0001.sql")]);
    run.on_event(UpEvent::Checked(false));
    run.on_event(UpEvent::FileRead(None));
    match run.next_action() {
        UpAction::Failed(e) => assert_eq!(e, MigrateError::Io("0001.sql".to_string())),
        other => panic!("unexpected action {:?}", other),
    }
}

#[test]
fn up_record_conflict_is_fatal() {
    let mut run = UpRun::new(vec![mfile("0001.sql"), mfile("0002.sql")]);
    run.on_event(UpEvent::Checked(false));
    run.on_event(UpEvent::FileRead(Some(good_sql("a"))));
    run.on_event(UpEvent::Executed(true));
    run.on_event(UpEvent::Recorded(false));
    match run.next_action() {
        UpAction::Failed(e) => assert_eq!(e, MigrateError::Conflict("0001.sql".to_string())),
        other => panic!("unexpected action {:?}", other),
    }
    assert!(run.applied().is_empty());
}

#[test]
fn up_ignores_event_that_answers_nothing() {
    let mut run = UpRun::new(vec![mfile("0001.sql")]);
    run.on_event(UpEvent::Executed(true));
    match run.next_action() {
        UpAction::CheckApplied(id) => assert_eq!(id, "0001.sql"),
        other => panic!("unexpected action {:?}", other),
    }
}

fn three_applied() -> World {
    let mut w = World::new();
    w.add("A.sql", &good_sql("a"));
    w.add("B.sql", &good_sql("b"));
    w.add("C.sql", &good_sql("c"));
    let (r, _) = w.run_up();
    assert!(r.is_ok());
    w.executed.clear();
    w
}

#[test]
fn down_reverts_newest_first() {
    let mut w = three_applied();
    let (r, reverted, skipped) = w.run_down(Some(2));
    assert!(r.is_ok());
    assert_eq!(reverted, vec!["C.sql", "B.sql"]);
    assert!(skipped.is_empty());
    assert_eq!(w.ledger, vec!["A.sql"]);
    assert_eq!(w.executed, vec!["DROP TABLE c;", "DROP TABLE b;"]);
}

#[test]
fn down_default_reverts_one() {
    let mut w = three_applied();
    let (r, reverted, _) = w.run_down(None);
    assert!(r.is_ok());
    assert_eq!(reverted, vec!["C.sql"]);
    assert_eq!(w.ledger, vec!["A.sql", "B.sql"]);
}

#[test]
fn down_zero_or_negative_step_reverts_one() {
    let mut w = three_applied();
    let (_, reverted, _) = w.run_down(Some(0));
    assert_eq!(reverted, vec!["C.sql"]);
    let (_, reverted, _) = w.run_down(Some(-5));
    assert_eq!(reverted, vec!["B.sql"]);
    assert_eq!(w.ledger, vec!["A.sql"]);
}

#[test]
fn down_revert_all_empties_ledger() {
    let mut w = three_applied();
    let (r, reverted, _) = w.run_down(Some(REVERT_ALL));
    assert!(r.is_ok());
    assert_eq!(reverted, vec!["C.sql", "B.sql", "A.sql"]);
    assert!(w.ledger.is_empty());
}

#[test]
fn down_step_larger_than_ledger_reverts_all() {
    let mut w = three_applied();
    let (r, reverted, _) = w.run_down(Some(10));
    assert!(r.is_ok());
    assert_eq!(reverted.len(), 3);
    assert!(w.ledger.is_empty());
}

#[test]
fn down_on_empty_ledger_has_no_targets() {
    let run = DownRun::new(&vec![], None, &vec![]);
    assert_eq!(run.target_count(), 0);
    match run.next_action() {
        DownAction::Finished => {}
        other => panic!("unexpected action {:?}", other),
    }
}

#[test]
fn down_skips_missing_file_and_continues() {
    let mut w = three_applied();
    w.disk.remove("C.sql");
    let (r, reverted, skipped) = w.run_down(Some(2));
    assert!(r.is_ok());
    assert_eq!(skipped, vec!["C.sql"]);
    assert_eq!(reverted, vec!["B.sql"]);
    assert_eq!(w.ledger, vec!["A.sql", "C.sql"]);
}

#[test]
fn down_skips_file_that_vanished_after_discovery() {
    let files = vec![mfile("A.sql")];
    let mut run = DownRun::new(&vec!["A.sql".to_string()], None, &files);
    match run.next_action() {
        DownAction::ReadFile(n) => assert_eq!(n, "A.sql"),
        other => panic!("unexpected action {:?}", other),
    }
    run.on_event(DownEvent::FileRead(None));
    assert_eq!(run.skipped(), &vec!["A.sql".to_string()]);
    assert!(matches!(run.next_action(), DownAction::Finished));
}

#[test]
fn down_execution_failure_stops() {
    let mut w = three_applied();
    w.failing_sql.insert("DROP TABLE c;".to_string());
    let (r, reverted, _) = w.run_down(Some(2));
    assert_eq!(r.unwrap_err(), MigrateError::Execution("C.sql".to_string()));
    assert!(reverted.is_empty());
    assert_eq!(w.ledger.len(), 3);
}

#[test]
fn down_malformed_file_is_format_error() {
    let mut w = three_applied();
    w.add("C.sql", "-- down only");
    let (r, _, _) = w.run_down(None);
    assert_eq!(r.unwrap_err(), MigrateError::Format("C.sql".to_string()));
}

#[test]
fn down_resolves_files_by_prefix_identifier() {
    let files = discover(IdPolicy::PrefixBeforeSeparator('_'), &vec![file("0001_init.sql")]).unwrap();
    let run = DownRun::new(&vec!["0001".to_string(), "0000".to_string()], Some(REVERT_ALL), &files);
    assert_eq!(run.target_count(), 2);
    match run.next_action() {
        DownAction::ReadFile(n) => assert_eq!(n, "0001_init.sql"),
        other => panic!("unexpected action {:?}", other),
    }
}

#[test]
fn up_then_down_round_trip() {
    let mut w = World::new();
    w.add("0001_a.sql", &good_sql("a"));
    let (r, applied) = w.run_up();
    assert!(r.is_ok());
    assert_eq!(applied, vec!["0001_a.sql"]);
    let (r, reverted, _) = w.run_down(None);
    assert!(r.is_ok());
    assert_eq!(reverted, vec!["0001_a.sql"]);
    assert!(w.ledger.is_empty());
    assert_eq!(w.executed, vec!["CREATE TABLE a (id INT);", "DROP TABLE a;"]);
}

#[test]
fn ensure_ready_statements_in_order() {
    let s = ensure_ready_statements("app");
    assert_eq!(s.len(), 3);
    assert_eq!(s[0], "CREATE SCHEMA IF NOT EXISTS app");
    assert_eq!(s[1], "SET search_path TO app");
    assert_eq!(s[2], CREATE_LEDGER_SQL);
}

#[test]
fn schema_defaults_to_public() {
    assert_eq!(schema_or_default(None), "public");
    assert_eq!(schema_or_default(Some("tenant".to_string())), "tenant");
}

#[test]
fn parse_markers_tolerate_blanks() {
    let m = parse_migration("t.sql", "--  UP\nCREATE TABLE t (id INT);\n-- Down\nDROP TABLE t;").unwrap();
    assert_eq!(m.up_sql, "CREATE TABLE t (id INT);");
    assert_eq!(m.down_sql, "DROP TABLE t;");
}

#[test]
fn parse_markers_with_tabs_and_no_gap() {
    let m = parse_migration("t.sql", "  --\tup  \r\nA;\r\n--down\r\nB;\r\n").unwrap();
    assert_eq!(m.up_sql, "A;");
    assert_eq!(m.down_sql, "B;");
}

#[test]
fn parse_ignores_comments_that_are_not_markers() {
    let m = parse_migration("t.sql", "-- up\n-- update users first\nUPDATE users SET a = 1;\n-- down\n-- downgrade\nSELECT 1;").unwrap();
    assert_eq!(m.up_sql, "-- update users first\nUPDATE users SET a = 1;");
    assert_eq!(m.down_sql, "-- downgrade\nSELECT 1;");
}

#[test]
fn parse_marker_must_stand_alone_on_line() {
    assert!(parse_migration("t.sql", "SELECT 1; -- up\nA;\n-- down\nB;").is_err());
}

#[test]
fn parse_trims_unicode_white_space() {
    let m = parse_migration("t.sql", "-- up\n\u{a0}\u{3000}A;\u{2028}\n-- down\n\u{85}B;\u{200a}").unwrap();
    assert_eq!(m.up_sql, "A;");
    assert_eq!(m.down_sql, "B;");
}

#[test]
fn discover_rejects_repeated_identifier() {
    let entries = vec![file("0001_a.sql"), file("0002_c.sql"), file("0001_b.sql")];
    let e = discover(IdPolicy::PrefixBeforeSeparator('_'), &entries).unwrap_err();
    assert_eq!(e, MigrateError::Format("0001_b.sql".to_string()));
}
