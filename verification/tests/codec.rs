//! Framing and value-codec behaviour on concrete byte strings.

use echolite::codec::{FrameReader, FrameWriter};
use echolite::command::{read_command, write_command, Command};
use echolite::query::{read_query, write_columns, write_query, Column, Query};
use echolite::status::{read_status, write_status, Status};
use echolite::value::{read_value, write_value, zigzag_decode, zigzag_encode, Value};
use echolite::Error;

fn varint_of(n: u64) -> Vec<u8> {
    let mut w = FrameWriter::new();
    w.write_len(n);
    w.buf
}

#[test]
fn varint_examples() {
    assert_eq!(varint_of(0), vec![0x00]);
    assert_eq!(varint_of(127), vec![0x7F]);
    assert_eq!(varint_of(128), vec![0x80, 0x01]);
    assert_eq!(varint_of(16384), vec![0x80, 0x80, 0x01]);
    assert_eq!(
        varint_of(u64::MAX),
        vec![0xFF, 0xFF, 0xFF, 0xFF, 0xFF, 0xFF, 0xFF, 0xFF, 0xFF, 0x01]
    );
}

#[test]
fn varint_round_trip() {
    for n in [0u64, 1, 127, 128, 300, 16384, 1 << 32, u64::MAX - 1, u64::MAX] {
        let bytes = varint_of(n);
        let mut r = FrameReader::new(&bytes);
        assert_eq!(r.read_len().unwrap(), n);
        assert_eq!(r.pos, bytes.len());
    }
}

#[test]
fn varint_overflow_is_error() {
    // Ten continuation bytes push the shift to 70 bits; the eleventh
    // byte finds it past 64.
    let bytes = vec![0xFFu8; 11];
    let mut r = FrameReader::new(&bytes);
    assert!(matches!(r.read_len(), Err(Error::Varint)));
}

#[test]
fn varint_short_is_eof() {
    let bytes = vec![0x80u8];
    let mut r = FrameReader::new(&bytes);
    assert!(matches!(r.read_len(), Err(Error::Eof)));
}

#[test]
fn bytes_round_trip() {
    for payload in [vec![], vec![0u8], vec![1u8, 2, 3, 0xFF], vec![7u8; 300]] {
        let mut w = FrameWriter::new();
        w.write_bytes(&payload);
        let mut r = FrameReader::new(&w.buf);
        assert_eq!(r.read_bytes().unwrap(), payload);
        assert_eq!(r.pos, w.buf.len());
    }
}

#[test]
fn string_round_trip() {
    let mut w = FrameWriter::new();
    w.write_string("hello Dog");
    let mut r = FrameReader::new(&w.buf);
    assert_eq!(r.read_string().unwrap(), "hello Dog");
}

#[test]
fn invalid_utf8_is_error() {
    let mut w = FrameWriter::new();
    w.write_bytes(&[0xFFu8, 0xFE]);
    let mut r = FrameReader::new(&w.buf);
    assert!(matches!(r.read_string(), Err(Error::Utf8)));
}

#[test]
fn zigzag_examples() {
    assert_eq!(zigzag_encode(0), 0);
    assert_eq!(zigzag_encode(-1), 1);
    assert_eq!(zigzag_encode(1), 2);
    assert_eq!(zigzag_encode(-2), 3);
    assert_eq!(zigzag_encode(i64::MIN), u64::MAX);
}

#[test]
fn zigzag_round_trip() {
    for v in [0i64, 1, -1, 2, -2, 1000, -1000, i64::MAX, i64::MIN] {
        assert_eq!(zigzag_decode(zigzag_encode(v)), v);
    }
}

fn value_round_trips(v: &Value) -> Value {
    let mut w = FrameWriter::new();
    write_value(&mut w, v);
    let mut r = FrameReader::new(&w.buf);
    let got = read_value(&mut r).unwrap();
    assert_eq!(r.pos, w.buf.len());
    got
}

#[test]
fn value_round_trip_all_variants() {
    assert!(matches!(value_round_trips(&Value::Null), Value::Null));
    match value_round_trips(&Value::I64(42)) {
        Value::I64(x) => assert_eq!(x, 42),
        _ => panic!("wrong variant"),
    }
    match value_round_trips(&Value::I64(0)) {
        Value::I64(x) => assert_eq!(x, 0),
        _ => panic!("wrong variant"),
    }
    match value_round_trips(&Value::I64(-42)) {
        Value::I64(x) => assert_eq!(x, -42),
        _ => panic!("wrong variant"),
    }
    match value_round_trips(&Value::I64(i64::MIN)) {
        Value::I64(x) => assert_eq!(x, i64::MIN),
        _ => panic!("wrong variant"),
    }
    let bits = (1.5f64).to_bits();
    match value_round_trips(&Value::F64(bits)) {
        Value::F64(b) => assert_eq!(f64::from_bits(b), 1.5),
        _ => panic!("wrong variant"),
    }
    match value_round_trips(&Value::Bytes(vec![])) {
        Value::Bytes(b) => assert!(b.is_empty()),
        _ => panic!("wrong variant"),
    }
    match value_round_trips(&Value::Bytes(vec![9, 8, 7])) {
        Value::Bytes(b) => assert_eq!(b, vec![9, 8, 7]),
        _ => panic!("wrong variant"),
    }
    match value_round_trips(&Value::Text(vec![])) {
        Value::Text(b) => assert!(b.is_empty()),
        _ => panic!("wrong variant"),
    }
    match value_round_trips(&Value::Text(b"hi".to_vec())) {
        Value::Text(b) => assert_eq!(b, b"hi".to_vec()),
        _ => panic!("wrong variant"),
    }
}

#[test]
fn nonnegative_tag_one_is_canonical() {
    let mut w = FrameWriter::new();
    write_value(&mut w, &Value::I64(3));
    assert_eq!(w.buf, vec![1, 3]);
}

#[test]
fn tag_two_reads_like_tag_one_for_nonnegative() {
    // The same numeric value 3, once in the canonical tag-1 form, once
    // zig-zag encoded behind tag 2: both read back as 3.
    let mut w1 = FrameWriter::new();
    w1.write_u8(1);
    w1.write_len(3);
    let mut r1 = FrameReader::new(&w1.buf);
    let v1 = read_value(&mut r1).unwrap();

    let mut w2 = FrameWriter::new();
    w2.write_u8(2);
    w2.write_len(zigzag_encode(3));
    let mut r2 = FrameReader::new(&w2.buf);
    let v2 = read_value(&mut r2).unwrap();

    match (v1, v2) {
        (Value::I64(a), Value::I64(b)) => {
            assert_eq!(a, 3);
            assert_eq!(b, 3);
        },
        _ => panic!("wrong variants"),
    }
}

#[test]
fn unknown_value_tag_is_error() {
    let bytes = vec![9u8];
    let mut r = FrameReader::new(&bytes);
    assert!(matches!(read_value(&mut r), Err(Error::UnknownValue(9))));
}

#[test]
fn status_round_trip_both_variants() {
    let mut w = FrameWriter::new();
    write_status(&mut w, &Status::Okay);
    assert_eq!(w.buf, vec![0]);
    let mut r = FrameReader::new(&w.buf);
    assert!(matches!(read_status(&mut r).unwrap(), Status::Okay));

    let mut w = FrameWriter::new();
    write_status(&mut w, &Status::Failed("boom".to_string()));
    let mut r = FrameReader::new(&w.buf);
    match read_status(&mut r).unwrap() {
        Status::Failed(m) => assert_eq!(m, "boom"),
        _ => panic!("wrong variant"),
    }
}

#[test]
fn unknown_status_tag_is_error() {
    let bytes = vec![2u8];
    let mut r = FrameReader::new(&bytes);
    assert!(matches!(read_status(&mut r), Err(Error::UnknownStatus(2))));
}

fn command_round_trips(cmd: &Command) -> Command {
    let mut w = FrameWriter::new();
    write_command(&mut w, cmd);
    let mut r = FrameReader::new(&w.buf);
    let got = read_command(&mut r).unwrap();
    assert_eq!(r.pos, w.buf.len());
    got
}

#[test]
fn command_round_trip_all_variants() {
    assert!(matches!(command_round_trips(&Command::Ping), Command::Ping));
    assert!(matches!(
        command_round_trips(&Command::Disconnect),
        Command::Disconnect
    ));
    match command_round_trips(&Command::SimpleExecute { sql: "create table t (x)".to_string() }) {
        Command::SimpleExecute { sql } => assert_eq!(sql, "create table t (x)"),
        _ => panic!("wrong variant"),
    }
    match command_round_trips(&Command::SimpleQuery { sql: "select 1".to_string() }) {
        Command::SimpleQuery { sql } => assert_eq!(sql, "select 1"),
        _ => panic!("wrong variant"),
    }
    let sqls = vec!["insert into t values (1)".to_string(), "delete from t".to_string()];
    match command_round_trips(&Command::Transaction { sqls: sqls.clone() }) {
        Command::Transaction { sqls: got } => assert_eq!(got, sqls),
        _ => panic!("wrong variant"),
    }
}

#[test]
fn unknown_command_tag_is_error() {
    let bytes = vec![7u8];
    let mut r = FrameReader::new(&bytes);
    assert!(matches!(read_command(&mut r), Err(Error::UnknownCommand(7))));
}

#[test]
fn query_round_trip() {
    let query = Query {
        columns: vec![
            Column { name: "id".to_string(), datatype: "INTEGER".to_string() },
            Column { name: "value".to_string(), datatype: "TEXT".to_string() },
        ],
        values: vec![
            Value::I64(1),
            Value::Text(b"hello Dog".to_vec()),
            Value::I64(2),
            Value::Text(b"hello Cat".to_vec()),
        ],
        rows_affected: 2,
        duration: 5,
    };
    let mut w = FrameWriter::new();
    write_query(&mut w, &query);
    let mut r = FrameReader::new(&w.buf);
    let got = read_query(&mut r).unwrap();
    assert_eq!(r.pos, w.buf.len());
    assert_eq!(got.columns.len(), 2);
    assert_eq!(got.columns[0].name, "id");
    assert_eq!(got.columns[0].datatype, "INTEGER");
    assert_eq!(got.columns[1].name, "value");
    assert_eq!(got.columns[1].datatype, "TEXT");
    assert_eq!(got.values.len(), 4);
    assert!(matches!(&got.values[0], Value::I64(1)));
    assert!(matches!(&got.values[2], Value::I64(2)));
    assert_eq!(got.rows_affected, 2);
    assert_eq!(got.duration, 5);
}

#[test]
fn query_values_without_columns_rejected() {
    // No columns, one value: the reader must reject the frame.
    let mut w = FrameWriter::new();
    write_columns(&mut w, &vec![]);
    w.write_len(1);
    write_value(&mut w, &Value::Null);
    w.write_len(0);
    w.write_len(0);
    let mut r = FrameReader::new(&w.buf);
    assert!(matches!(
        read_query(&mut r),
        Err(Error::InvalidValuesLength(1, 0))
    ));
}

#[test]
fn query_ragged_values_rejected() {
    // Two columns but three values: not a whole number of rows.
    let columns = vec![
        Column { name: "a".to_string(), datatype: "".to_string() },
        Column { name: "b".to_string(), datatype: "".to_string() },
    ];
    let mut w = FrameWriter::new();
    write_columns(&mut w, &columns);
    w.write_len(3);
    write_value(&mut w, &Value::Null);
    write_value(&mut w, &Value::Null);
    write_value(&mut w, &Value::Null);
    w.write_len(0);
    w.write_len(0);
    let mut r = FrameReader::new(&w.buf);
    assert!(matches!(
        read_query(&mut r),
        Err(Error::InvalidValuesLength(3, 2))
    ));
}

#[test]
fn canonical_zero_uses_tag_one() {
    let mut w = FrameWriter::new();
    write_value(&mut w, &Value::I64(0));
    assert_eq!(w.buf, vec![1, 0]);
}

#[test]
fn empty_string_round_trip() {
    let mut w = FrameWriter::new();
    w.write_string("");
    assert_eq!(w.buf, vec![0]);
    let mut r = FrameReader::new(&w.buf);
    assert_eq!(r.read_string().unwrap(), "");
}

#[test]
fn partial_frame_is_eof() {
    // A whole command frame, cut one byte short, reads as Eof at every
    // prefix length.
    let mut w = FrameWriter::new();
    write_command(&mut w, &Command::SimpleExecute { sql: "select 1".to_string() });
    for cut in 0..w.buf.len() {
        let mut r = FrameReader::new(&w.buf[..cut]);
        assert!(matches!(read_command(&mut r), Err(Error::Eof)));
    }
}

#[test]
fn status_with_empty_message_round_trips() {
    let mut w = FrameWriter::new();
    write_status(&mut w, &Status::Failed(String::new()));
    assert_eq!(w.buf, vec![1, 0]);
    let mut r = FrameReader::new(&w.buf);
    match read_status(&mut r).unwrap() {
        Status::Failed(m) => assert_eq!(m, ""),
        _ => panic!("wrong variant"),
    }
}

#[test]
fn empty_query_frame_round_trips() {
    let query = Query { columns: vec![], values: vec![], rows_affected: 0, duration: 0 };
    let mut w = FrameWriter::new();
    write_query(&mut w, &query);
    assert_eq!(w.buf, vec![0, 0, 0, 0]);
    let mut r = FrameReader::new(&w.buf);
    let got = read_query(&mut r).unwrap();
    assert!(got.columns.is_empty());
    assert!(got.values.is_empty());
}
