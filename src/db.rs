//! Rows of the relational store and their typed decoding.
//!
//! A row comes in as its columns, each with its name and its value. Decoding
//! checks names and types column by column and fails with a single
//! [`Error::Storage`] on any mismatch.
use vstd::prelude::*;

use crate::error::Error;
use crate::text::{parse_u64, parsed_u64};

verus! {

/// A value as the store returns it.
#[derive(Debug)]
pub enum SqlValue {
    Null,
    Integer(i64),
    /// A floating-point value; its value is never read here.
    Real,
    Text(String),
    Blob(Vec<u8>),
}

/// What a [`SqlValue`] holds, as a mathematical value.
pub enum SqlValueView {
    Null,
    Integer(i64),
    Real,
    Text(Seq<char>),
    Blob(Seq<u8>),
}

/// One column of a row: its name and its value.
#[derive(Debug)]
pub struct Column {
    pub name: String,
    pub value: SqlValue,
}

/// What a [`Column`] holds, as a mathematical value.
pub struct ColumnView {
    pub name: Seq<char>,
    pub value: SqlValueView,
}

impl View for Column {
    type V = ColumnView;

    open spec fn view(&self) -> ColumnView {
        ColumnView {
            name: self.name@,
            value: match &self.value {
                SqlValue::Null => SqlValueView::Null,
                SqlValue::Integer(v) => SqlValueView::Integer(*v),
                SqlValue::Real => SqlValueView::Real,
                SqlValue::Text(s) => SqlValueView::Text(s@),
                SqlValue::Blob(b) => SqlValueView::Blob(b@),
            },
        }
    }
}

/// The views of a row's columns.
pub open spec fn row_view(row: Seq<Column>) -> Seq<ColumnView> {
    row.map_values(|c: Column| c@)
}

/// A row of the `guilds` table.
#[derive(Debug, Clone, Copy, PartialEq, Eq, Structural)]
pub struct TursoGuild {
    pub id: i64,
    pub guild_id: u64,
    pub enabled: i64,
    pub last_code: i64,
    pub alert_channel: Option<u64>,
    pub alert_role: Option<u64>,
}

/// A row of the `codes` table.
#[derive(Debug)]
pub struct TursoCode {
    pub id: i64,
    pub code: String,
    pub valid: i64,
    /// 1 for a time-limited code, 0 for an ordinary one.
    pub kind: i64,
}

/// What a [`TursoCode`] holds, as a mathematical value.
pub struct TursoCodeView {
    pub id: i64,
    pub code: Seq<char>,
    pub valid: i64,
    pub kind: i64,
}

impl View for TursoCode {
    type V = TursoCodeView;

    open spec fn view(&self) -> TursoCodeView {
        TursoCodeView { id: self.id, code: self.code@, valid: self.valid, kind: self.kind }
    }
}

/// Column `i` is named `name`.
pub open spec fn named(row: Seq<ColumnView>, i: int, name: Seq<char>) -> bool {
    0 <= i < row.len() && row[i].name == name
}

/// The integer in column `i`, when it is named `name` and holds an integer.
pub open spec fn int_column(row: Seq<ColumnView>, i: int, name: Seq<char>) -> Option<i64> {
    if named(row, i, name) && row[i].value is Integer {
        Some(row[i].value->Integer_0)
    } else {
        None
    }
}

/// The text in column `i`, when it is named `name` and holds text.
pub open spec fn text_column(row: Seq<ColumnView>, i: int, name: Seq<char>) -> Option<Seq<char>> {
    if named(row, i, name) && row[i].value is Text {
        Some(row[i].value->Text_0)
    } else {
        None
    }
}

/// The nonzero id written in decimal in column `i`, when it is named `name`.
pub open spec fn id_column(row: Seq<ColumnView>, i: int, name: Seq<char>) -> Option<u64> {
    match text_column(row, i, name) {
        Some(t) => match parsed_u64(t) {
            Some(v) => if v != 0 {
                Some(v)
            } else {
                None
            },
            None => None,
        },
        None => None,
    }
}

/// Column `i` named `name` as an optional id: `Some(None)` for null,
/// `Some(Some(v))` for a valid id, `None` for anything else.
pub open spec fn opt_id_column(row: Seq<ColumnView>, i: int, name: Seq<char>) -> Option<
    Option<u64>,
> {
    if named(row, i, name) && row[i].value is Null {
        Some(None)
    } else {
        match id_column(row, i, name) {
            Some(v) => Some(Some(v)),
            None => None,
        }
    }
}

/// The guild that a row of the `guilds` table describes, if it is well formed.
pub open spec fn guild_row(row: Seq<ColumnView>) -> Option<TursoGuild> {
    let id = int_column(row, 0, "id"@);
    let guild_id = id_column(row, 1, "guild_id"@);
    let enabled = int_column(row, 2, "enabled"@);
    let last_code = int_column(row, 3, "last_code"@);
    let alert_channel = opt_id_column(row, 4, "alert_channel"@);
    let alert_role = opt_id_column(row, 5, "alert_role"@);
    if id is Some && guild_id is Some && enabled is Some && last_code is Some
        && alert_channel is Some && alert_role is Some {
        Some(
            TursoGuild {
                id: id->Some_0,
                guild_id: guild_id->Some_0,
                enabled: enabled->Some_0,
                last_code: last_code->Some_0,
                alert_channel: alert_channel->Some_0,
                alert_role: alert_role->Some_0,
            },
        )
    } else {
        None
    }
}

/// The code that a row of the `codes` table describes, if it is well formed.
pub open spec fn code_row(row: Seq<ColumnView>) -> Option<TursoCodeView> {
    let id = int_column(row, 0, "id"@);
    let code = text_column(row, 1, "code"@);
    let valid = int_column(row, 2, "valid"@);
    let kind = int_column(row, 3, "kind"@);
    if id is Some && code is Some && valid is Some && kind is Some {
        Some(
            TursoCodeView {
                id: id->Some_0,
                code: code->Some_0,
                valid: valid->Some_0,
                kind: kind->Some_0,
            },
        )
    } else {
        None
    }
}

/// Whether column `i` of `row` is named `name`.
fn column_named(row: &Vec<Column>, i: usize, name: &str) -> (r: bool)
    ensures
        r == named(row_view(row@), i as int, name@),
{
    if i < row.len() {
        row[i].name == String::from_str(name)
    } else {
        false
    }
}

/// The integer in column `i`, when it is named `name` and holds an integer.
fn read_int(row: &Vec<Column>, i: usize, name: &str) -> (r: Result<i64, Error>)
    ensures
        match int_column(row_view(row@), i as int, name@) {
            Some(v) => r == Ok::<i64, Error>(v),
            None => r == Err::<i64, Error>(Error::Storage),
        },
{
    if !column_named(row, i, name) {
        return Err(Error::Storage);
    }
    match &row[i].value {
        SqlValue::Integer(v) => Ok(*v),
        _ => Err(Error::Storage),
    }
}

/// The text in column `i`, when it is named `name` and holds text.
fn read_text(row: &Vec<Column>, i: usize, name: &str) -> (r: Result<String, Error>)
    ensures
        match text_column(row_view(row@), i as int, name@) {
            Some(t) => r is Ok && r->Ok_0@ == t,
            None => r == Err::<String, Error>(Error::Storage),
        },
{
    if !column_named(row, i, name) {
        return Err(Error::Storage);
    }
    match &row[i].value {
        SqlValue::Text(s) => Ok(s.clone()),
        _ => Err(Error::Storage),
    }
}

/// The nonzero id written in decimal in column `i`, when it is named `name`.
fn read_id(row: &Vec<Column>, i: usize, name: &str) -> (r: Result<u64, Error>)
    ensures
        match id_column(row_view(row@), i as int, name@) {
            Some(v) => r == Ok::<u64, Error>(v),
            None => r == Err::<u64, Error>(Error::Storage),
        },
{
    let t = read_text(row, i, name)?;
    match parse_u64(t.as_str()) {
        Some(v) => if v != 0 {
            Ok(v)
        } else {
            Err(Error::Storage)
        },
        None => Err(Error::Storage),
    }
}

/// Column `i` named `name` as an optional id: null reads as `None`.
fn read_opt_id(row: &Vec<Column>, i: usize, name: &str) -> (r: Result<Option<u64>, Error>)
    ensures
        match opt_id_column(row_view(row@), i as int, name@) {
            Some(v) => r == Ok::<Option<u64>, Error>(v),
            None => r == Err::<Option<u64>, Error>(Error::Storage),
        },
{
    if column_named(row, i, name) {
        if let SqlValue::Null = &row[i].value {
            return Ok(None);
        }
    }
    let v = read_id(row, i, name)?;
    Ok(Some(v))
}

impl TursoGuild {
    /// Decodes a row of the `guilds` table: columns `id`, `guild_id`,
    /// `enabled`, `last_code`, `alert_channel` and `alert_role`, in that
    /// order. Ids are stored as decimal text, and a channel or role may be
    /// null. Fails with `Storage` on any other shape.
    pub fn from_row(row: &Vec<Column>) -> (r: Result<TursoGuild, Error>)
        ensures
            match guild_row(row_view(row@)) {
                Some(g) => r == Ok::<TursoGuild, Error>(g),
                None => r == Err::<TursoGuild, Error>(Error::Storage),
            },
    {
        let id = read_int(row, 0, "id")?;
        let guild_id = read_id(row, 1, "guild_id")?;
        let enabled = read_int(row, 2, "enabled")?;
        let last_code = read_int(row, 3, "last_code")?;
        let alert_channel = read_opt_id(row, 4, "alert_channel")?;
        let alert_role = read_opt_id(row, 5, "alert_role")?;
        Ok(TursoGuild { id, guild_id, enabled, last_code, alert_channel, alert_role })
    }
}

impl TursoCode {
    /// Decodes a row of the `codes` table: columns `id`, `code`, `valid` and
    /// `kind`, in that order. Fails with `Storage` on any other shape.
    pub fn from_row(row: &Vec<Column>) -> (r: Result<TursoCode, Error>)
        ensures
            match code_row(row_view(row@)) {
                Some(c) => r is Ok && r->Ok_0@ == c,
                None => r == Err::<TursoCode, Error>(Error::Storage),
            },
    {
        let id = read_int(row, 0, "id")?;
        let code = read_text(row, 1, "code")?;
        let valid = read_int(row, 2, "valid")?;
        let kind = read_int(row, 3, "kind")?;
        Ok(TursoCode { id, code, valid, kind })
    }
}

/// The views of the rows of the `codes` table.
pub open spec fn code_rows_view(rows: Seq<TursoCode>) -> Seq<TursoCodeView> {
    rows.map_values(|r: TursoCode| r@)
}

/// The catalog entry that a row of the `codes` table stands for.
pub open spec fn code_of_row(r: TursoCodeView) -> crate::catalog::CodeView {
    crate::catalog::CodeView {
        uid: r.id as u64,
        text: r.code,
        valid: r.valid == 1,
        is_version_code: r.kind == 1,
    }
}

/// The registry entry that a row of the `guilds` table stands for.
pub open spec fn guild_of_row(g: TursoGuild) -> crate::registry::GuildInfo {
    crate::registry::GuildInfo {
        id: g.guild_id,
        alert_role: g.alert_role,
        alert_channel: g.alert_channel,
        enabled: g.enabled == 1,
        last_code: g.last_code as u64,
    }
}

/// Rows of the `codes` table that make a catalog: ordered by identifier from
/// 1 without gaps, validity and kind 0 or 1, texts unique.
pub open spec fn code_rows_ok(rows: Seq<TursoCodeView>) -> bool {
    &&& forall|i: int| 0 <= i < rows.len() ==> (#[trigger] rows[i]).id == i + 1
    &&& forall|i: int| 0 <= i < rows.len() ==> (#[trigger] rows[i]).valid == 0 || rows[i].valid == 1
    &&& forall|i: int| 0 <= i < rows.len() ==> (#[trigger] rows[i]).kind == 0 || rows[i].kind == 1
    &&& forall|i: int, j: int|
        0 <= i < rows.len() && 0 <= j < rows.len() && i != j ==> #[trigger] rows[i].code
            != #[trigger] rows[j].code
}

/// Rows of the `guilds` table that make a registry: enabled 0 or 1, cursor
/// not negative, guild ids unique.
pub open spec fn guild_rows_ok(rows: Seq<TursoGuild>) -> bool {
    &&& forall|i: int|
        0 <= i < rows.len() ==> ((#[trigger] rows[i]).enabled == 0 || rows[i].enabled == 1)
            && rows[i].last_code >= 0
    &&& forall|i: int, j: int|
        0 <= i < rows.len() && 0 <= j < rows.len() && i != j ==> #[trigger] rows[i].guild_id
            != #[trigger] rows[j].guild_id
}

} // verus!
