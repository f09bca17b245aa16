use respkv::decode::{cast_bytes_to_ra, cast_bytes_to_rbs, cast_bytes_to_resp};
use respkv::frame::{
    get_ra_length, get_rbs_length, get_res_length, get_resp_length, get_ri_length, get_rss_length,
    is_minus_one, parse_everything_until_crlf, parse_everything_until_index,
};
use respkv::resp::{Resp, RespArray, RespArrayBuilder, RespParseError};

fn codec_array(items: Vec<Resp>) -> RespArray {
    let mut builder = RespArrayBuilder::default();
    for item in items {
        builder.push_resp(item);
    }
    builder.build()
}

fn codec_encode(value: &Resp) -> Vec<u8> {
    let mut out = Vec::new();
    assert!(value.write_to_writer(&mut out).is_ok());
    out
}

fn codec_samples() -> Vec<Resp> {
    vec![
        Resp::rss_from_static_bytes(b"OK"),
        Resp::rss_from_static_bytes(b""),
        Resp::res_from_str("ERR syntax error"),
        Resp::ri_from_u64(0),
        Resp::ri_from_u64(42),
        Resp::ri_from_u64(-7),
        Resp::ri_from_u64(i64::MAX),
        Resp::ri_from_u64(i64::MIN),
        Resp::rbs_from_bytes(b"hello"),
        Resp::rbs_from_bytes(b""),
        Resp::rbs_from_bytes(b"with\r\nbreaks\r\n"),
        Resp::rbs_from_bytes(&[0u8, 255u8, 13u8, 10u8, 36u8]),
        Resp::NilBulk,
        Resp::NilArray,
        Resp::Array(codec_array(vec![])),
        Resp::Array(codec_array(vec![
            Resp::rbs_from_bytes(b"SET"),
            Resp::rbs_from_bytes(b"k"),
            Resp::ri_from_u64(1),
        ])),
        Resp::Array(codec_array(vec![
            Resp::Array(codec_array(vec![Resp::NilBulk, Resp::NilArray])),
            Resp::rss_from_static_bytes(b"x"),
            Resp::Array(codec_array(vec![])),
        ])),
    ]
}

#[test]
fn encode_gives_the_wire_form_of_each_kind() {
    assert_eq!(codec_encode(&Resp::rss_from_static_bytes(b"OK")), b"+OK\r\n".to_vec());
    assert_eq!(codec_encode(&Resp::res_from_str("ERR x")), b"-ERR x\r\n".to_vec());
    assert_eq!(codec_encode(&Resp::ri_from_u64(0)), b":0\r\n".to_vec());
    assert_eq!(codec_encode(&Resp::ri_from_u64(1234567890)), b":1234567890\r\n".to_vec());
    assert_eq!(codec_encode(&Resp::ri_from_u64(-15)), b":-15\r\n".to_vec());
    assert_eq!(
        codec_encode(&Resp::ri_from_u64(i64::MIN)),
        b":-9223372036854775808\r\n".to_vec()
    );
    assert_eq!(codec_encode(&Resp::rbs_from_bytes(b"hello")), b"$5\r\nhello\r\n".to_vec());
    assert_eq!(codec_encode(&Resp::rbs_from_bytes(b"")), b"$0\r\n\r\n".to_vec());
    assert_eq!(codec_encode(&Resp::NilBulk), b"$-1\r\n".to_vec());
    assert_eq!(codec_encode(&Resp::NilArray), b"*-1\r\n".to_vec());
    assert_eq!(codec_encode(&Resp::Array(codec_array(vec![]))), b"*0\r\n".to_vec());
    let arr = Resp::Array(codec_array(vec![
        Resp::rbs_from_bytes(b"appendonly"),
        Resp::rbs_from_bytes(b"no"),
    ]));
    assert_eq!(codec_encode(&arr), b"*2\r\n$10\r\nappendonly\r\n$2\r\nno\r\n".to_vec());
}

#[test]
fn encode_appends_to_what_the_writer_holds() {
    let mut out = b"abc".to_vec();
    assert!(Resp::ri_from_u64(5).write_to_writer(&mut out).is_ok());
    assert_eq!(out, b"abc:5\r\n".to_vec());
}

#[test]
fn decode_after_encode_gives_the_value_back() {
    for value in codec_samples() {
        let bytes = codec_encode(&value);
        assert_eq!(get_resp_length(&bytes), Ok(bytes.len()));
        assert_eq!(cast_bytes_to_resp(&bytes), Ok(value));
    }
}

#[test]
fn a_stream_of_values_comes_out_in_order() {
    let values = codec_samples();
    let mut wire = Vec::new();
    for value in values.iter() {
        assert!(value.write_to_writer(&mut wire).is_ok());
    }
    let mut pos = 0usize;
    let mut seen = Vec::new();
    while pos < wire.len() {
        let n = get_resp_length(&wire[pos..]).unwrap();
        seen.push(cast_bytes_to_resp(&wire[pos..pos + n]).unwrap());
        pos += n;
    }
    assert_eq!(pos, wire.len());
    assert_eq!(seen, values);
}

#[test]
fn every_proper_start_of_a_frame_reads_as_unfinished() {
    for value in codec_samples() {
        let bytes = codec_encode(&value);
        for k in 0..bytes.len() {
            assert_eq!(get_resp_length(&bytes[..k]), Err(RespParseError::NotEnoughBytes));
        }
        let mut longer = bytes.clone();
        longer.extend_from_slice(b"+tail\r\n");
        for k in bytes.len()..=longer.len() {
            assert_eq!(get_resp_length(&longer[..k]), Ok(bytes.len()));
        }
    }
}

#[test]
fn frame_length_of_the_empty_input_is_unfinished() {
    assert_eq!(get_resp_length(b""), Err(RespParseError::NotEnoughBytes));
}

#[test]
fn frame_length_counts_marker_payload_and_terminator() {
    assert_eq!(get_resp_length(b"+OK\r\n"), Ok(5));
    assert_eq!(get_resp_length(b"-ERR\r\nrest"), Ok(6));
    assert_eq!(get_resp_length(b":12\r\n"), Ok(5));
    assert_eq!(get_resp_length(b":abc\r\n"), Ok(6));
    assert_eq!(get_resp_length(b"$5\r\nhello\r\n"), Ok(11));
    assert_eq!(get_resp_length(b"$0\r\n\r\n"), Ok(6));
    assert_eq!(get_resp_length(b"$-1\r\n"), Ok(5));
    assert_eq!(get_resp_length(b"*-1\r\n"), Ok(5));
    assert_eq!(get_resp_length(b"*0\r\n"), Ok(4));
    assert_eq!(get_resp_length(b"*1\r\n$4\r\nPING\r\n"), Ok(14));
    assert_eq!(get_resp_length(b"*2\r\n*1\r\n:1\r\n$-1\r\nmore"), Ok(17));
    assert_eq!(get_resp_length(b"$+3\r\nabc\r\n"), Ok(10));
    assert_eq!(get_resp_length(b"$003\r\nabc\r\n"), Ok(11));
}

#[test]
fn frame_length_of_an_inline_line_has_no_marker() {
    assert_eq!(get_resp_length(b"PING\r\n"), Ok(6));
    assert_eq!(get_resp_length(b"\r\n"), Ok(2));
    assert_eq!(get_resp_length(b"PING"), Err(RespParseError::NotEnoughBytes));
    assert_eq!(cast_bytes_to_resp(b"PING\r\n"), Ok(Resp::rss_from_static_bytes(b"PING")));
}

#[test]
fn frame_length_rejects_what_can_never_be_a_frame() {
    assert_eq!(get_resp_length(b"+a\nb\r\n"), Err(RespParseError::IncorrectFormat));
    assert_eq!(get_resp_length(b"+a\rb\r\n"), Err(RespParseError::IncorrectFormat));
    assert_eq!(get_resp_length(b"\nx"), Err(RespParseError::IncorrectFormat));
    assert_eq!(get_resp_length(b"$x\r\n"), Err(RespParseError::IncorrectFormat));
    assert_eq!(get_resp_length(b"$\r\n"), Err(RespParseError::IncorrectFormat));
    assert_eq!(get_resp_length(b"$-2\r\n"), Err(RespParseError::IncorrectFormat));
    assert_eq!(get_resp_length(b"$-01\r\n"), Err(RespParseError::IncorrectFormat));
    assert_eq!(get_resp_length(b"$3\r\nabcde"), Err(RespParseError::IncorrectFormat));
    assert_eq!(get_resp_length(b"$3\r\nabc\rX"), Err(RespParseError::IncorrectFormat));
    assert_eq!(get_resp_length(b"*x\r\n"), Err(RespParseError::IncorrectFormat));
    assert_eq!(get_resp_length(b"*1\r\n$x\r\n"), Err(RespParseError::IncorrectFormat));
    assert_eq!(
        get_resp_length(b"$99999999999999999999999999999999999999999\r\n"),
        Err(RespParseError::IncorrectFormat)
    );
}

#[test]
fn frame_length_waits_for_what_may_still_come() {
    assert_eq!(get_resp_length(b"+OK\r"), Err(RespParseError::NotEnoughBytes));
    assert_eq!(get_resp_length(b"$3\r\nabc"), Err(RespParseError::NotEnoughBytes));
    assert_eq!(get_resp_length(b"$3\r\nabc\r"), Err(RespParseError::NotEnoughBytes));
    assert_eq!(get_resp_length(b"$3\r\nab"), Err(RespParseError::NotEnoughBytes));
    assert_eq!(get_resp_length(b"*2\r\n:1\r\n"), Err(RespParseError::NotEnoughBytes));
    assert_eq!(get_resp_length(b"*"), Err(RespParseError::NotEnoughBytes));
}

#[test]
fn lengths_after_the_marker() {
    assert_eq!(get_rss_length(b"OK\r\n"), Ok(4));
    assert_eq!(get_res_length(b"ERR x\r\nmore"), Ok(7));
    assert_eq!(get_ri_length(b"-5\r\n"), Ok(4));
    assert_eq!(get_rss_length(b"OK"), Err(RespParseError::NotEnoughBytes));
    assert_eq!(get_rbs_length(b"5\r\nhello\r\n"), Ok(10));
    assert_eq!(get_rbs_length(b"-1\r\n"), Ok(4));
    assert_eq!(get_rbs_length(b"5\r\nhel"), Err(RespParseError::NotEnoughBytes));
    assert_eq!(get_ra_length(b"2\r\n:1\r\n:2\r\n"), Ok(11));
    assert_eq!(get_ra_length(b"-1\r\n"), Ok(4));
    assert_eq!(get_ra_length(b"0\r\n"), Ok(3));
    assert_eq!(get_ra_length(b"1\r\n"), Err(RespParseError::NotEnoughBytes));
}

#[test]
fn splitting_at_the_line_end() {
    let (before, rest) = parse_everything_until_crlf(b"abc\r\ndef").unwrap();
    assert_eq!(before, b"abc");
    assert_eq!(rest, b"def");
    let (before, rest) = parse_everything_until_crlf(b"\r\n").unwrap();
    assert_eq!(before, b"");
    assert_eq!(rest, b"");
    assert_eq!(parse_everything_until_crlf(b"abc"), Err(RespParseError::NotEnoughBytes));
    assert_eq!(parse_everything_until_crlf(b"a\nc\r\n"), Err(RespParseError::IncorrectFormat));
}

#[test]
fn splitting_at_a_given_place() {
    let (before, rest) = parse_everything_until_index(b"hello\r\nxyz", 5).unwrap();
    assert_eq!(before, b"hello");
    assert_eq!(rest, b"xyz");
    assert_eq!(parse_everything_until_index(b"hello", 5), Err(RespParseError::NotEnoughBytes));
    assert_eq!(parse_everything_until_index(b"hello\r", 5), Err(RespParseError::NotEnoughBytes));
    assert_eq!(
        parse_everything_until_index(b"hello!\n", 5),
        Err(RespParseError::IncorrectFormat)
    );
    assert_eq!(
        parse_everything_until_index(b"hello\r!", 5),
        Err(RespParseError::IncorrectFormat)
    );
    assert_eq!(
        parse_everything_until_index(b"hi", usize::MAX),
        Err(RespParseError::NotEnoughBytes)
    );
}

#[test]
fn minus_one_is_told_apart() {
    assert!(is_minus_one(b"-1"));
    assert!(!is_minus_one(b"-2"));
    assert!(!is_minus_one(b"-10"));
    assert!(!is_minus_one(b""));
}

#[test]
fn decode_keeps_payload_bytes_as_they_are() {
    assert_eq!(
        cast_bytes_to_resp(b"$6\r\na\r\nb\0c\r\n"),
        Ok(Resp::rbs_from_bytes(b"a\r\nb\0c"))
    );
    assert_eq!(cast_bytes_to_resp(b"$0\r\n\r\n"), Ok(Resp::rbs_from_bytes(b"")));
    assert_eq!(cast_bytes_to_resp(b"*0\r\n"), Ok(Resp::Array(codec_array(vec![]))));
    assert_eq!(cast_bytes_to_resp(b"$-1\r\n"), Ok(Resp::NilBulk));
    assert_eq!(cast_bytes_to_resp(b"*-1\r\n"), Ok(Resp::NilArray));
    assert_eq!(cast_bytes_to_resp(b":-12\r\n"), Ok(Resp::Integer(-12)));
    assert_eq!(cast_bytes_to_resp(b":+12\r\n"), Ok(Resp::Integer(12)));
    assert_eq!(cast_bytes_to_resp(b"-oops\r\n"), Ok(Resp::res_from_bytes(b"oops")));
}

#[test]
fn decode_rejects_what_is_not_exactly_one_frame() {
    assert_eq!(cast_bytes_to_resp(b""), Err(RespParseError::NotEnoughBytes));
    assert_eq!(cast_bytes_to_resp(b"+OK"), Err(RespParseError::NotEnoughBytes));
    assert_eq!(cast_bytes_to_resp(b"+OK\r\n+OK\r\n"), Err(RespParseError::IncorrectFormat));
    assert_eq!(cast_bytes_to_resp(b":abc\r\n"), Err(RespParseError::IncorrectFormat));
    assert_eq!(
        cast_bytes_to_resp(b":9223372036854775808\r\n"),
        Err(RespParseError::IncorrectFormat)
    );
    assert_eq!(cast_bytes_to_resp(b"*1\r\n:x\r\n"), Err(RespParseError::IncorrectFormat));
    assert_eq!(cast_bytes_to_resp(b"$x\r\n"), Err(RespParseError::IncorrectFormat));
}

#[test]
fn decode_after_the_marker() {
    assert_eq!(cast_bytes_to_rbs(b"3\r\nabc\r\n"), Ok(Resp::rbs_from_bytes(b"abc")));
    assert_eq!(cast_bytes_to_rbs(b"3\r\nabc\r\nrest"), Ok(Resp::rbs_from_bytes(b"abc")));
    assert_eq!(cast_bytes_to_rbs(b"-1\r\n"), Ok(Resp::NilBulk));
    assert_eq!(cast_bytes_to_rbs(b"3\r\nab"), Err(RespParseError::NotEnoughBytes));
    assert_eq!(cast_bytes_to_rbs(b"z\r\n"), Err(RespParseError::IncorrectFormat));
    assert_eq!(
        cast_bytes_to_ra(b"2\r\n:1\r\n+a\r\n"),
        Ok(Resp::Array(codec_array(vec![Resp::Integer(1), Resp::rss_from_static_bytes(b"a")])))
    );
    assert_eq!(cast_bytes_to_ra(b"-1\r\n"), Ok(Resp::NilArray));
    assert_eq!(cast_bytes_to_ra(b"1\r\n"), Err(RespParseError::NotEnoughBytes));
    assert_eq!(cast_bytes_to_ra(b"1\r\n:x\r\n"), Err(RespParseError::IncorrectFormat));
}

#[test]
fn parse_errors_in_words() {
    assert_eq!(RespParseError::NotEnoughBytes.to_string(), "No enough bytes");
    assert_eq!(RespParseError::IncorrectFormat.to_string(), "Incorrect format");
}
