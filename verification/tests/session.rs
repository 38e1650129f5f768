//! The command/response loop against a real in-memory SQL backend,
//! driving the session decisions exactly as a server would.

use echolite::codec::{FrameReader, FrameWriter};
use echolite::command::Command;
use echolite::handshake::{
    check_version, read_auth_password, read_connect, read_hash_params, read_protocol_version,
    read_salt, write_connect, write_hash_params, write_protocol_version, write_salt, Params,
};
use echolite::hash::{rand_salt, write_auth_password, Password};
use echolite::session::{auth_response, open_response};
use echolite::flags::Flags;
use echolite::query::{read_query, Column, Query};
use echolite::session::{query_reply, session_dispatch, status_reply, SessionAction};
use echolite::status::{read_status, Status};
use echolite::value::Value;
use rusqlite::types::ValueRef;
use rusqlite::{Connection, OpenFlags};

fn open_backend() -> Connection {
    let flags = OpenFlags::from_bits(Flags::default().bits()).unwrap();
    Connection::open_with_flags(":memory:", flags).unwrap()
}

fn backend_execute(conn: &Connection, sql: &str) -> Result<(), String> {
    conn.execute_batch(sql).map_err(|e| e.to_string())
}

fn backend_query(conn: &Connection, sql: &str) -> Result<Query, String> {
    let mut stmt = conn.prepare(sql).map_err(|e| e.to_string())?;
    let columns = stmt
        .columns()
        .into_iter()
        .map(|col| Column {
            name: col.name().into(),
            datatype: col.decl_type().unwrap_or_default().into(),
        })
        .collect::<Vec<_>>();
    let mut rows = stmt.query(()).map_err(|e| e.to_string())?;
    let mut values = Vec::new();
    loop {
        let row = match rows.next().map_err(|e| e.to_string())? {
            Some(row) => row,
            None => break,
        };
        for i in 0..columns.len() {
            let v = row.get_ref(i).map_err(|e| e.to_string())?;
            values.push(match v {
                ValueRef::Null => Value::Null,
                ValueRef::Integer(i) => Value::I64(i),
                ValueRef::Real(f) => Value::F64(f.to_bits()),
                ValueRef::Text(s) => Value::Text(s.to_vec()),
                ValueRef::Blob(b) => Value::Bytes(b.to_vec()),
            });
        }
    }
    Ok(Query {
        columns,
        values,
        rows_affected: conn.changes(),
        duration: 0,
    })
}

fn backend_transaction(conn: &mut Connection, sqls: Vec<String>) -> Result<(), String> {
    if sqls.is_empty() {
        return Ok(());
    }
    let tx = conn.transaction().map_err(|e| e.to_string())?;
    for sql in sqls {
        tx.execute(&sql, ()).map_err(|e| e.to_string())?;
    }
    tx.commit().map_err(|e| e.to_string())
}

/// One turn of the server loop: dispatch the command, run the backend
/// call it names, and return the response bytes (none on a disconnect).
fn run_command(conn: &mut Connection, cmd: Command) -> Option<Vec<u8>> {
    match session_dispatch(cmd) {
        SessionAction::Respond(bytes) => Some(bytes),
        SessionAction::RunExecute(sql) => Some(status_reply(backend_execute(conn, &sql))),
        SessionAction::RunQuery(sql) => Some(query_reply(backend_query(conn, &sql))),
        SessionAction::RunTransaction(sqls) => Some(status_reply(backend_transaction(conn, sqls))),
        SessionAction::Close => None,
    }
}

fn expect_okay(bytes: &[u8]) {
    let mut r = FrameReader::new(bytes);
    assert!(matches!(read_status(&mut r).unwrap(), Status::Okay));
    assert_eq!(r.pos, bytes.len(), "nothing may follow the status");
}

#[test]
fn ping_yields_exactly_one_okay() {
    let mut conn = open_backend();
    let bytes = run_command(&mut conn, Command::Ping).unwrap();
    assert_eq!(bytes, vec![0]);
    expect_okay(&bytes);
}

#[test]
fn disconnect_yields_zero_bytes() {
    let mut conn = open_backend();
    assert!(run_command(&mut conn, Command::Disconnect).is_none());
}

#[test]
fn create_table_is_okay() {
    let mut conn = open_backend();
    let bytes = run_command(
        &mut conn,
        Command::SimpleExecute {
            sql: "create table t (id integer primary key, value text)".to_string(),
        },
    )
    .unwrap();
    expect_okay(&bytes);
}

#[test]
fn full_session_scenario() {
    let mut conn = open_backend();
    expect_okay(
        &run_command(
            &mut conn,
            Command::SimpleExecute {
                sql: "create table t (id integer primary key, value text)".to_string(),
            },
        )
        .unwrap(),
    );
    expect_okay(
        &run_command(
            &mut conn,
            Command::SimpleExecute {
                sql: "insert into t (value) values ('hello Dog'), ('hello Cat'), ('hello Monkey')"
                    .to_string(),
            },
        )
        .unwrap(),
    );

    let bytes = run_command(
        &mut conn,
        Command::SimpleQuery { sql: "select * from t".to_string() },
    )
    .unwrap();
    let mut r = FrameReader::new(&bytes);
    assert!(matches!(read_status(&mut r).unwrap(), Status::Okay));
    let q = read_query(&mut r).unwrap();
    assert_eq!(r.pos, bytes.len(), "exactly one query frame follows");
    assert_eq!(q.columns.len(), 2);
    assert_eq!(q.columns[0].name, "id");
    assert_eq!(q.columns[0].datatype, "INTEGER");
    assert_eq!(q.columns[1].name, "value");
    assert_eq!(q.columns[1].datatype, "TEXT");
    assert_eq!(q.values.len(), 6);
    assert!(matches!(q.values[0], Value::I64(1)));
    assert!(matches!(&q.values[1], Value::Text(b) if b == b"hello Dog"));
    assert!(matches!(q.values[2], Value::I64(2)));
    assert!(matches!(&q.values[3], Value::Text(b) if b == b"hello Cat"));
    assert!(matches!(q.values[4], Value::I64(3)));
    assert!(matches!(&q.values[5], Value::Text(b) if b == b"hello Monkey"));
    assert_eq!(q.rows_affected, 3);

    expect_okay(
        &run_command(&mut conn, Command::SimpleExecute { sql: "delete from t".to_string() })
            .unwrap(),
    );
}

#[test]
fn failed_query_sends_error_and_no_query_frame() {
    let mut conn = open_backend();
    let bytes = run_command(
        &mut conn,
        Command::SimpleQuery { sql: "select * from missing".to_string() },
    )
    .unwrap();
    let mut r = FrameReader::new(&bytes);
    match read_status(&mut r).unwrap() {
        Status::Failed(m) => assert!(!m.is_empty()),
        _ => panic!("expected a failure status"),
    }
    assert_eq!(r.pos, bytes.len(), "no query frame may follow an error");
}

#[test]
fn failed_transaction_rolls_back() {
    let mut conn = open_backend();
    expect_okay(
        &run_command(
            &mut conn,
            Command::SimpleExecute {
                sql: "create table t (id integer primary key, value text); \
                      insert into t (value) values ('kept')"
                    .to_string(),
            },
        )
        .unwrap(),
    );

    let bytes = run_command(
        &mut conn,
        Command::Transaction {
            sqls: vec![
                "insert into t (value) values ('doomed')".to_string(),
                "this is not sql".to_string(),
            ],
        },
    )
    .unwrap();
    let mut r = FrameReader::new(&bytes);
    assert!(matches!(read_status(&mut r).unwrap(), Status::Failed(_)));

    // The prior state is observed: only the row from before the failed
    // transaction remains.
    let bytes = run_command(
        &mut conn,
        Command::SimpleQuery { sql: "select count(*) from t".to_string() },
    )
    .unwrap();
    let mut r = FrameReader::new(&bytes);
    assert!(matches!(read_status(&mut r).unwrap(), Status::Okay));
    let q = read_query(&mut r).unwrap();
    assert_eq!(q.values.len(), 1);
    assert!(matches!(q.values[0], Value::I64(1)));
}

#[test]
fn empty_transaction_is_okay_without_backend() {
    let mut conn = open_backend();
    let bytes = run_command(&mut conn, Command::Transaction { sqls: vec![] }).unwrap();
    expect_okay(&bytes);
}

/// The whole handshake simulated over byte buffers — server frames on one
/// side, client frames on the other — followed by a ping.
#[test]
fn handshake_then_ping() {
    let params = Params { m_cost: 8, t_cost: 1, p_cost: 1 };
    let configured = Password::from_str("");

    // Server to client: the version pair.
    let mut s2c = FrameWriter::new();
    write_protocol_version(&mut s2c);
    let mut r = FrameReader::new(&s2c.buf);
    let version = read_protocol_version(&mut r).unwrap();
    assert!(check_version(version).is_ok());

    // Client to server: its salt.
    let client_salt = rand_salt();
    let mut c2s = FrameWriter::new();
    write_salt(&mut c2s, &client_salt);
    let mut r = FrameReader::new(&c2s.buf);
    let got_client_salt = read_salt(&mut r).unwrap();

    // Server to client: its salt and the hash parameters.
    let server_salt = rand_salt();
    let mut s2c = FrameWriter::new();
    write_salt(&mut s2c, &server_salt);
    write_hash_params(&mut s2c, params);
    let mut r = FrameReader::new(&s2c.buf);
    let got_server_salt = read_salt(&mut r).unwrap();
    let got_params = read_hash_params(&mut r).unwrap();

    // Client to server: the hashed password.
    let mut c2s = FrameWriter::new();
    write_auth_password(&mut c2s, "", &client_salt, &got_server_salt, got_params).unwrap();
    let mut r = FrameReader::new(&c2s.buf);
    let hashed = read_auth_password(&mut r).unwrap();

    // Server verifies and answers; the session may proceed.
    let ok = configured
        .verify(&got_client_salt, &server_salt, params, &hashed)
        .unwrap();
    let (bytes, proceed) = auth_response(ok);
    assert!(proceed);
    let mut r = FrameReader::new(&bytes);
    assert!(matches!(read_status(&mut r).unwrap(), Status::Okay));

    // Client to server: the open request; server opens and answers.
    let mut c2s = FrameWriter::new();
    write_connect(&mut c2s, ":memory:", Flags::default());
    let mut r = FrameReader::new(&c2s.buf);
    let (path, flags) = read_connect(&mut r).unwrap();
    let conn = rusqlite::Connection::open_with_flags(
        &path,
        OpenFlags::from_bits(flags.bits()).unwrap(),
    );
    let (bytes, proceed) = open_response(conn.as_ref().map(|_| ()).map_err(|e| e.to_string()));
    assert!(proceed);
    let mut r = FrameReader::new(&bytes);
    assert!(matches!(read_status(&mut r).unwrap(), Status::Okay));

    // After the handshake, a ping returns a single success status.
    let mut conn = conn.unwrap();
    let bytes = run_command(&mut conn, Command::Ping).unwrap();
    let mut r = FrameReader::new(&bytes);
    assert!(matches!(read_status(&mut r).unwrap(), Status::Okay));
    assert_eq!(r.pos, bytes.len());
}
