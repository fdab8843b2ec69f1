use cpsave::accounting::NodeUsage;
use cpsave::error::SaveError;
use cpsave::report::{load_report, push_decimal, push_line, render_report};

fn usage(name: &str, own_bytes: Result<u32, SaveError>, total_bytes: u32) -> NodeUsage {
    NodeUsage { name: name.to_string(), own_bytes, total_bytes }
}

fn decimal(n: u32) -> String {
    let mut out = String::new();
    push_decimal(&mut out, n);
    out
}

#[test]
fn decimal_digits() {
    assert_eq!(decimal(0), "0");
    assert_eq!(decimal(7), "7");
    assert_eq!(decimal(10), "10");
    assert_eq!(decimal(109), "109");
    assert_eq!(decimal(1234567890), "1234567890");
    assert_eq!(decimal(u32::MAX), "4294967295");
}

#[test]
fn decimal_is_appended() {
    let mut out = "n=".to_string();
    push_decimal(&mut out, 42);
    assert_eq!(out, "n=42");
}

#[test]
fn line_of_a_consistent_node() {
    let mut out = String::new();
    push_line(&mut out, &usage("root", Ok(50), 100));
    assert_eq!(out, "root: 50 own bytes, 100 total bytes\n");
}

#[test]
fn line_of_a_flagged_node() {
    let mut out = String::new();
    push_line(&mut out, &usage("root", Err(SaveError::InconsistentAccounting), 100));
    assert_eq!(out, "root: inconsistent own bytes, 100 total bytes\n");
}

#[test]
fn report_has_one_line_per_node_in_order() {
    let text = render_report(&vec![
        usage("a", Ok(50), 100),
        usage("b", Ok(30), 30),
        usage("", Ok(0), 0),
    ]);
    assert_eq!(
        text,
        "a: 50 own bytes, 100 total bytes\nb: 30 own bytes, 30 total bytes\n: 0 own bytes, 0 total bytes\n"
    );
}

#[test]
fn report_of_nothing_is_empty() {
    assert_eq!(render_report(&Vec::new()), "");
}

#[test]
fn report_of_the_minimal_save() {
    let mut buf = Vec::new();
    buf.extend_from_slice(b"EDON");
    buf.push(0x01);
    buf.extend_from_slice(&[0x84, b'r', b'o', b'o', b't']);
    buf.extend_from_slice(&[0xFF; 8]);
    buf.extend_from_slice(&[0x00, 0x00, 0x00, 0x00]);
    buf.extend_from_slice(&[0x0A, 0x00, 0x00, 0x00]);
    buf.extend_from_slice(&[0x00, 0x00, 0x00, 0x00]);
    buf.extend_from_slice(b"ENOD");
    assert_eq!(load_report(&buf), "root: 10 own bytes, 10 total bytes\n");
}

#[test]
fn report_of_an_empty_table_is_empty() {
    let mut buf = b"EDON".to_vec();
    buf.push(0x00);
    buf.extend_from_slice(&[0, 0, 0, 0]);
    buf.extend_from_slice(b"ENOD");
    assert_eq!(load_report(&buf), "");
}

#[test]
fn report_of_a_buffer_that_does_not_decode() {
    assert_eq!(load_report(&[]), "Could not load save");
    assert_eq!(load_report(b"\0\0\0\0NOPE"), "Could not load save");
    assert_eq!(load_report(b"\0\0\0\0ENOD"), "Could not load save");
}

#[test]
fn report_of_a_tree() {
    let mut buf = b"EDON".to_vec();
    buf.push(0x03);
    for (name, next, child, size) in [("top", -1i32, 1i32, 100u32), ("x", 2, -1, 30), ("y", -1, -1, 80)] {
        buf.push(0x80 | name.len() as u8);
        buf.extend_from_slice(name.as_bytes());
        buf.extend_from_slice(&next.to_le_bytes());
        buf.extend_from_slice(&child.to_le_bytes());
        buf.extend_from_slice(&0u32.to_le_bytes());
        buf.extend_from_slice(&size.to_le_bytes());
    }
    buf.extend_from_slice(&0u32.to_le_bytes());
    buf.extend_from_slice(b"ENOD");
    assert_eq!(
        load_report(&buf),
        "top: inconsistent own bytes, 100 total bytes\nx: 30 own bytes, 30 total bytes\ny: 80 own bytes, 80 total bytes\n"
    );
}
