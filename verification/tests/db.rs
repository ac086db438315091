use sky_daemon::config::DatabaseConfig;
use sky_daemon::db::{escape_sql_string, validate_ident, DbAdmin, DbError, DbRequest, DbStage, IdentError};

fn admin() -> DbAdmin {
    DbAdmin::new(&DatabaseConfig {
        admin_host: "127.0.0.1".into(),
        admin_port: 3306,
        admin_user: "root".into(),
        admin_password: "".into(),
        public_host: "db.example.com".into(),
        public_port: 3307,
    })
}

/// Carries a request out, with the given outcomes, and returns its statements
/// and its last stage.
fn carry_out(mut request: DbRequest, outcomes: &[bool]) -> (Vec<String>, DbStage) {
    let mut statements = Vec::new();
    let mut i = 0;
    while let Some(sql) = request.statement() {
        statements.push(sql);
        request.advance(outcomes.get(i).copied().unwrap_or(true));
        i += 1;
    }
    (statements, request.stage())
}

#[test]
fn validate_ident_accepts_safe_names() {
    assert!(validate_ident("s_ab12_mydb", 64).is_ok());
    assert!(validate_ident("u_deadbeef", 32).is_ok());
}

#[test]
fn validate_ident_rejects_injection() {
    assert!(validate_ident("db`; DROP DATABASE x;--", 64).is_err());
    assert!(validate_ident("bad name", 64).is_err());
    assert!(validate_ident("", 64).is_err());
    assert!(validate_ident(&"x".repeat(65), 64).is_err());
}

#[test]
fn escape_sql_string_neutralizes_quotes() {
    assert_eq!(escape_sql_string("a'b"), "a\\'b");
    assert_eq!(escape_sql_string("a\\b"), "a\\\\b");
}

#[test]
fn names_are_measured_in_bytes() {
    assert_eq!(validate_ident(&"x".repeat(64), 64), Ok(()));
    assert_eq!(validate_ident("", 64), Err(IdentError::Length(64)));
    assert_eq!(validate_ident(&"\u{e9}".repeat(33), 64), Err(IdentError::Length(64)));
    assert_eq!(validate_ident("\u{e9}", 64), Err(IdentError::Characters));
    assert_eq!(IdentError::Length(64).message(), "identifier length must be 1..=64");
    assert_eq!(IdentError::Characters.message(), "identifier may only contain [A-Za-z0-9_]");
}

#[test]
fn escaping_covers_both_characters_together() {
    assert_eq!(escape_sql_string("\\'"), "\\\\\\'");
    assert_eq!(escape_sql_string(""), "");
    assert_eq!(escape_sql_string("plain"), "plain");
}

#[test]
fn a_database_is_created_with_its_user_and_grant() {
    let request = admin().create_database("mydb", "me", "it's").unwrap();
    let (statements, stage) = carry_out(request, &[]);
    assert_eq!(
        statements,
        vec![
            "CREATE DATABASE IF NOT EXISTS `mydb`",
            "CREATE USER IF NOT EXISTS 'me'@'%' IDENTIFIED BY 'it\\'s'",
            "GRANT ALL PRIVILEGES ON `mydb`.* TO 'me'@'%'",
            "FLUSH PRIVILEGES",
        ]
    );
    assert_eq!(stage, DbStage::Done);
}

#[test]
fn a_half_made_database_is_undone() {
    let request = admin().create_database("mydb", "me", "pw").unwrap();
    let (statements, stage) = carry_out(request, &[true, true, false, false, false]);
    assert_eq!(statements[3..], ["DROP DATABASE IF EXISTS `mydb`", "DROP USER IF EXISTS 'me'@'%'"]);
    assert_eq!(stage, DbStage::Failed(DbError::Grant));

    let request = admin().create_database("mydb", "me", "pw").unwrap();
    let (statements, stage) = carry_out(request, &[true, false]);
    assert_eq!(statements[2..], ["DROP DATABASE IF EXISTS `mydb`", "DROP USER IF EXISTS 'me'@'%'"]);
    assert_eq!(stage, DbStage::Failed(DbError::CreateUser));
}

#[test]
fn a_database_that_was_not_created_needs_no_undoing() {
    let request = admin().create_database("mydb", "me", "pw").unwrap();
    let (statements, stage) = carry_out(request, &[false]);
    assert_eq!(statements.len(), 1);
    assert_eq!(stage, DbStage::Failed(DbError::CreateDatabase));
}

#[test]
fn flushing_may_fail() {
    let request = admin().create_database("mydb", "me", "pw").unwrap();
    let (_, stage) = carry_out(request, &[true, true, true, false]);
    assert_eq!(stage, DbStage::Done);
}

#[test]
fn a_database_is_dropped_with_its_user() {
    let request = admin().delete_database("mydb", "me").unwrap();
    let (statements, stage) = carry_out(request, &[true, false, false]);
    assert_eq!(
        statements,
        vec!["DROP DATABASE IF EXISTS `mydb`", "DROP USER IF EXISTS 'me'@'%'", "FLUSH PRIVILEGES"]
    );
    assert_eq!(stage, DbStage::Done);

    let request = admin().delete_database("mydb", "me").unwrap();
    let (statements, stage) = carry_out(request, &[false]);
    assert_eq!(statements.len(), 1);
    assert_eq!(stage, DbStage::Failed(DbError::DropDatabase));
}

#[test]
fn names_are_checked_before_anything_is_run() {
    let long_user = "u".repeat(33);
    assert_eq!(
        admin().create_database("my db", "me", "pw").err(),
        Some(DbError::InvalidName(IdentError::Characters))
    );
    assert_eq!(
        admin().create_database("mydb", &long_user, "pw").err(),
        Some(DbError::InvalidUser(IdentError::Length(32)))
    );
    assert_eq!(admin().delete_database("", "me").err(), Some(DbError::InvalidName(IdentError::Length(64))));
    assert_eq!(admin().delete_database("mydb", "m'e").err(), Some(DbError::InvalidUser(IdentError::Characters)));
}

#[test]
fn database_errors_have_their_words() {
    let expected = vec![
        (DbError::InvalidName(IdentError::Characters), "invalid database name"),
        (DbError::InvalidUser(IdentError::Characters), "invalid database user"),
        (DbError::Connect, "connect to MariaDB"),
        (DbError::CreateDatabase, "create database"),
        (DbError::CreateUser, "create user"),
        (DbError::Grant, "grant privileges"),
        (DbError::DropDatabase, "drop database"),
    ];
    for (error, words) in expected {
        assert_eq!(error.message(), words);
    }
}

#[test]
fn users_are_told_the_public_endpoint() {
    assert_eq!(admin().public_host(), "db.example.com");
    assert_eq!(admin().public_port(), 3307);
}
