use hsr_alert_bot::config::Config;
use hsr_alert_bot::db::{Column, SqlValue, TursoCode, TursoGuild};
use hsr_alert_bot::error::Error;

fn col(name: &str, value: SqlValue) -> Column {
    Column {
        name: name.to_string(),
        value,
    }
}

fn text(s: &str) -> SqlValue {
    SqlValue::Text(s.to_string())
}

fn guild_row(guild_id: SqlValue, channel: SqlValue, role: SqlValue) -> Vec<Column> {
    vec![
        col("id", SqlValue::Integer(1)),
        col("guild_id", guild_id),
        col("enabled", SqlValue::Integer(1)),
        col("last_code", SqlValue::Integer(4)),
        col("alert_channel", channel),
        col("alert_role", role),
    ]
}

#[test]
fn guild_row_decodes() {
    let row = guild_row(text("1234567890123"), text("55"), SqlValue::Null);
    assert_eq!(
        TursoGuild::from_row(&row),
        Ok(TursoGuild {
            id: 1,
            guild_id: 1234567890123,
            enabled: 1,
            last_code: 4,
            alert_channel: Some(55),
            alert_role: None
        })
    );
    let row = guild_row(text("+7"), SqlValue::Null, text("18446744073709551615"));
    let g = TursoGuild::from_row(&row).unwrap();
    assert_eq!(g.guild_id, 7);
    assert_eq!(g.alert_channel, None);
    assert_eq!(g.alert_role, Some(u64::MAX));
}

#[test]
fn malformed_guild_rows_are_storage_errors() {
    let bad = [
        guild_row(SqlValue::Integer(5), SqlValue::Null, SqlValue::Null),
        guild_row(text("0"), SqlValue::Null, SqlValue::Null),
        guild_row(text("12a"), SqlValue::Null, SqlValue::Null),
        guild_row(text(""), SqlValue::Null, SqlValue::Null),
        guild_row(text("-3"), SqlValue::Null, SqlValue::Null),
        guild_row(text("18446744073709551616"), SqlValue::Null, SqlValue::Null),
        guild_row(text("9"), SqlValue::Integer(3), SqlValue::Null),
        guild_row(text("9"), SqlValue::Null, SqlValue::Real),
    ];
    for row in bad.iter() {
        assert_eq!(TursoGuild::from_row(row), Err(Error::Storage));
    }
    let mut renamed = guild_row(text("9"), SqlValue::Null, SqlValue::Null);
    renamed[2].name = "active".to_string();
    assert_eq!(TursoGuild::from_row(&renamed), Err(Error::Storage));
    let mut short = guild_row(text("9"), SqlValue::Null, SqlValue::Null);
    short.pop();
    assert_eq!(TursoGuild::from_row(&short), Err(Error::Storage));
}

#[test]
fn code_rows_decode() {
    let row = vec![
        col("id", SqlValue::Integer(3)),
        col("code", text("ABC")),
        col("valid", SqlValue::Integer(0)),
        col("kind", SqlValue::Integer(1)),
    ];
    let c = TursoCode::from_row(&row).unwrap();
    assert_eq!((c.id, c.code.as_str(), c.valid, c.kind), (3, "ABC", 0, 1));
    let bad = vec![
        col("id", SqlValue::Integer(3)),
        col("code", SqlValue::Blob(vec![1, 2])),
        col("valid", SqlValue::Integer(0)),
        col("kind", SqlValue::Integer(0)),
    ];
    assert!(matches!(TursoCode::from_row(&bad), Err(Error::Storage)));
}

fn code(id: i64, text: &str, valid: i64) -> TursoCode {
    TursoCode {
        id,
        code: text.to_string(),
        valid,
        kind: 0,
    }
}

fn guild(guild_id: u64, enabled: i64, last_code: i64) -> TursoGuild {
    TursoGuild {
        id: 1,
        guild_id,
        enabled,
        last_code,
        alert_channel: Some(3),
        alert_role: None,
    }
}

#[test]
fn tables_build_a_store() {
    let cfg = Config::from_tables(
        &vec![code(1, "A", 1), code(2, "B", 0)],
        &vec![guild(8, 1, 2), guild(9, 0, 0)],
    )
    .unwrap();
    let codes: Vec<(u64, String, bool)> = cfg
        .codes()
        .iter()
        .map(|c| (c.uid, c.code.clone(), c.valid))
        .collect();
    assert_eq!(
        codes,
        vec![(1, "A".to_string(), true), (2, "B".to_string(), false)]
    );
    let g = cfg.guild(8).unwrap();
    assert!(g.enabled);
    assert_eq!(g.last_code, 2);
    assert_eq!(g.alert_channel, Some(3));
    assert!(!cfg.guild(9).unwrap().enabled);
}

#[test]
fn inconsistent_tables_are_refused() {
    let ok_guilds = vec![guild(8, 1, 0)];
    let ok_codes = vec![code(1, "A", 1)];
    assert!(matches!(
        Config::from_tables(&vec![code(2, "A", 1)], &ok_guilds),
        Err(Error::Storage)
    ));
    assert!(matches!(
        Config::from_tables(&vec![code(1, "A", 1), code(2, "A", 1)], &ok_guilds),
        Err(Error::Storage)
    ));
    assert!(matches!(
        Config::from_tables(&vec![code(1, "A", 2)], &ok_guilds),
        Err(Error::Storage)
    ));
    let mut odd_kind = code(1, "A", 1);
    odd_kind.kind = 3;
    assert!(matches!(
        Config::from_tables(&vec![odd_kind], &ok_guilds),
        Err(Error::Storage)
    ));
    assert!(matches!(
        Config::from_tables(&ok_codes, &vec![guild(8, 1, 0), guild(8, 0, 0)]),
        Err(Error::Storage)
    ));
    assert!(matches!(
        Config::from_tables(&ok_codes, &vec![guild(8, 2, 0)]),
        Err(Error::Storage)
    ));
    assert!(matches!(
        Config::from_tables(&ok_codes, &vec![guild(8, 1, -1)]),
        Err(Error::Storage)
    ));
}
