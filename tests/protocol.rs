#![allow(deprecated)]

use line_cli::codec::{CliCodec, DecodeError, Request};
use line_cli::line::parse_line;
use line_cli::server::{CliCommand, CliProto, CliServer};
use tokio_core::io::EasyBuf;

fn server() -> CliServer {
    let mut s = CliServer::new();
    s.add_command(CliCommand::Echo);
    s.add_command(CliCommand::Info);
    s
}

/// Feeds the chunks one after another, decoding after each until no line is
/// complete, and returns everything that the server wrote back.
fn run(chunks: &[&[u8]]) -> Vec<u8> {
    let srv = server();
    let mut codec = CliCodec::new("peer".to_string());
    let mut buf = EasyBuf::new();
    let mut out = Vec::new();
    for chunk in chunks {
        CliCodec::feed(&mut buf, chunk);
        while let Some(req) = codec.decode(&mut buf).unwrap() {
            let reply = srv.call(req);
            codec.encode(reply, &mut out);
        }
    }
    out
}

fn decode_all_at_once(bytes: &[u8]) -> Vec<Request> {
    let mut codec = CliCodec::new("peer".to_string());
    let mut buf = EasyBuf::new();
    CliCodec::feed(&mut buf, bytes);
    let mut reqs = Vec::new();
    while let Some(req) = codec.decode(&mut buf).unwrap() {
        reqs.push(req);
    }
    reqs
}

#[test]
fn echo_hello_end_to_end() {
    assert_eq!(run(&[b"echo hello\n"]), b"hello\n".to_vec());
}

#[test]
fn unknown_command_end_to_end() {
    assert_eq!(run(&[b"bogus\n"]), b"Unknown command: bogus\n".to_vec());
}

#[test]
fn two_chunks_end_to_end() {
    assert_eq!(run(&[b"ec", b"ho hi\n"]), b"hi\n".to_vec());
}

#[test]
fn split_line_waits_for_newline() {
    let mut codec = CliCodec::new("peer".to_string());
    let mut buf = EasyBuf::new();
    CliCodec::feed(&mut buf, b"ec");
    assert_eq!(codec.decode(&mut buf), Ok(None));
    assert_eq!(codec.search_offset, 2);
    assert_eq!(buf.as_slice(), b"ec");
    CliCodec::feed(&mut buf, b"ho hi\n");
    let req = codec.decode(&mut buf).unwrap().unwrap();
    assert_eq!(req, ("peer".to_string(), "echo".to_string(), Some("hi".to_string())));
}

#[test]
fn byte_at_a_time_gives_same_request() {
    let line: &[u8] = b"  echo  foo bar \n";
    let whole = decode_all_at_once(line);
    assert_eq!(whole.len(), 1);
    let mut codec = CliCodec::new("peer".to_string());
    let mut buf = EasyBuf::new();
    let mut reqs = Vec::new();
    for b in line {
        CliCodec::feed(&mut buf, &[*b]);
        while let Some(req) = codec.decode(&mut buf).unwrap() {
            reqs.push(req);
        }
    }
    assert_eq!(reqs, whole);
    assert_eq!(reqs[0], ("peer".to_string(), "echo".to_string(), Some("foo bar".to_string())));
}

#[test]
fn cursor_reset_after_line() {
    let mut codec = CliCodec::new("peer".to_string());
    let mut buf = EasyBuf::new();
    CliCodec::feed(&mut buf, b"abc");
    assert_eq!(codec.decode(&mut buf), Ok(None));
    assert_eq!(codec.search_offset, 3);
    CliCodec::feed(&mut buf, b"\nxy");
    let req = codec.decode(&mut buf).unwrap().unwrap();
    assert_eq!(req.1, "abc");
    assert_eq!(codec.search_offset, 0);
    assert_eq!(buf.as_slice(), b"xy");
    assert_eq!(codec.decode(&mut buf), Ok(None));
    assert_eq!(codec.search_offset, 2);
}

#[test]
fn several_lines_in_one_chunk() {
    let reqs = decode_all_at_once(b"echo a\ninfo\n\nbogus x y\n");
    assert_eq!(
        reqs,
        vec![
            ("peer".to_string(), "echo".to_string(), Some("a".to_string())),
            ("peer".to_string(), "info".to_string(), None),
            ("peer".to_string(), "".to_string(), None),
            ("peer".to_string(), "bogus".to_string(), Some("x y".to_string())),
        ]
    );
}

#[test]
fn invalid_utf8_is_decode_error() {
    let mut codec = CliCodec::new("peer".to_string());
    let mut buf = EasyBuf::new();
    CliCodec::feed(&mut buf, b"echo \xff\xfe\nnext");
    assert_eq!(codec.decode(&mut buf), Err(DecodeError));
    assert_eq!(codec.search_offset, 0);
    assert_eq!(buf.as_slice(), b"next");
}

#[test]
fn multibyte_text_is_decoded() {
    let reqs = decode_all_at_once("echo h\u{e9}llo \u{2003}\n".as_bytes());
    assert_eq!(reqs[0].2, Some("h\u{e9}llo".to_string()));
}

#[test]
fn empty_buffer_needs_more_data() {
    let mut codec = CliCodec::new("peer".to_string());
    let mut buf = EasyBuf::new();
    assert_eq!(codec.decode(&mut buf), Ok(None));
    assert_eq!(codec.search_offset, 0);
}

#[test]
fn encode_appends_one_terminator() {
    let mut codec = CliCodec::new("peer".to_string());
    let mut out = b"x\n".to_vec();
    codec.encode("caf\u{e9}".to_string(), &mut out);
    assert_eq!(out, "x\ncaf\u{e9}\n".as_bytes().to_vec());
    let mut empty = Vec::new();
    codec.encode(String::new(), &mut empty);
    assert_eq!(empty, b"\n".to_vec());
}

#[test]
fn parse_splits_at_first_space() {
    assert_eq!(parse_line("echo foo bar"), ("echo".to_string(), Some("foo bar".to_string())));
    assert_eq!(parse_line("  info \t"), ("info".to_string(), None));
    assert_eq!(parse_line(""), ("".to_string(), None));
    assert_eq!(parse_line("   "), ("".to_string(), None));
    assert_eq!(parse_line("a\t b   c "), ("a".to_string(), Some("b   c".to_string())));
}

#[test]
fn unknown_command_reply() {
    let srv = server();
    let r = srv.call(("peer".to_string(), "nope".to_string(), Some("x".to_string())));
    assert_eq!(r, "Unknown command: nope");
    let r = srv.call(("peer".to_string(), "".to_string(), None));
    assert_eq!(r, "Unknown command: ");
    let empty = CliServer::new();
    assert_eq!(empty.call(("p".to_string(), "echo".to_string(), None)), "Unknown command: echo");
}

#[test]
fn echo_without_argument_is_empty() {
    let srv = server();
    assert_eq!(srv.call(("peer".to_string(), "echo".to_string(), None)), "");
    assert_eq!(CliCommand::Echo.call("peer".to_string(), None), "");
}

#[test]
fn echo_keeps_inner_spaces() {
    let srv = server();
    let r = srv.call(("peer".to_string(), "echo".to_string(), Some("foo bar".to_string())));
    assert_eq!(r, "foo bar");
}

#[test]
fn info_returns_connection_description() {
    let srv = server();
    let r = srv.call(("Client address: 1.2.3.4\n".to_string(), "info".to_string(), Some("x".to_string())));
    assert_eq!(r, "Client address: 1.2.3.4\n");
}

#[test]
fn registry_lookup() {
    let srv = server();
    assert_eq!(srv.find_command(&"echo".to_string()), Some(CliCommand::Echo));
    assert_eq!(srv.find_command(&"info".to_string()), Some(CliCommand::Info));
    assert_eq!(srv.find_command(&"Echo".to_string()), None);
    let mut one = CliServer::new();
    one.add_command(CliCommand::Echo);
    one.add_command(CliCommand::Echo);
    assert_eq!(one.find_command(&"echo".to_string()), Some(CliCommand::Echo));
    assert_eq!(one.find_command(&"info".to_string()), None);
}

#[test]
fn command_names_and_descriptions() {
    assert_eq!(CliCommand::Echo.name(), "echo");
    assert_eq!(CliCommand::Info.name(), "info");
    assert_eq!(CliCommand::Echo.description(), "Prints the command line.");
    assert_eq!(CliCommand::Info.description(), "Prints connection information.");
}

#[test]
fn peer_info_text() {
    let p = CliProto;
    assert_eq!(p.peer_info("10.0.0.1", "14311"), "Client address: 10.0.0.1\nClient port: 14311\n");
}

#[test]
fn default_server_knows_no_command() {
    let srv = CliServer::default();
    assert_eq!(srv.find_command(&"echo".to_string()), None);
    assert_eq!(srv.call(("p".to_string(), "info".to_string(), None)), "Unknown command: info");
}
