use std::collections::hash_map::DefaultHasher;
use std::hash::{Hash, Hasher};

use respkv::misc::{parse_leading_number, CommandError, SetExpireMode, SetMode};
use respkv::resp::{Resp, RespArray, RespArrayBuilder};
use respkv::text::{
    bytes_eq, eq_ignore_ascii_case, parse_i64, parse_u128, parse_usize, push_bytes, push_crlf,
    push_int, push_nat,
};

fn values_array(items: Vec<Resp>) -> RespArray {
    let mut builder = RespArrayBuilder::default();
    for item in items {
        builder.push_resp(item);
    }
    builder.build()
}

#[test]
fn constructors_make_the_kind_they_name() {
    assert_eq!(Resp::res_from_str("e"), Resp::res_from_bytes(b"e"));
    assert_eq!(Resp::res_from_static_str("e"), Resp::res_from_bytes(b"e"));
    assert_eq!(Resp::rbs_from_str("b"), Resp::rbs_from_bytes(b"b"));
    assert_eq!(Resp::rbs_from_static_str("b"), Resp::rbs_from_bytes(b"b"));
    assert_eq!(Resp::rbs_from_static_bytes(b"b"), Resp::rbs_from_bytes(b"b"));
    assert_eq!(Resp::ri_from_u64(-3), Resp::Integer(-3));
    assert_eq!(Resp::rss_from_static_bytes(b"s").as_bytes(), b"s".to_vec());
    assert_eq!(Resp::rbs_from_str("h\u{e9}").as_bytes(), vec![0x68, 0xc3, 0xa9]);
}

#[test]
fn equality_is_by_kind_and_content() {
    assert_eq!(Resp::rbs_from_bytes(b"a"), Resp::rbs_from_bytes(b"a"));
    assert_ne!(Resp::rbs_from_bytes(b"a"), Resp::rbs_from_bytes(b"b"));
    assert_ne!(Resp::rbs_from_bytes(b"a"), Resp::rbs_from_bytes(b"ab"));
    assert_ne!(Resp::rbs_from_bytes(b"a"), Resp::rss_from_static_bytes(b"a"));
    assert_ne!(Resp::rbs_from_bytes(b"a"), Resp::res_from_bytes(b"a"));
    assert_ne!(Resp::NilBulk, Resp::NilArray);
    assert_ne!(Resp::Integer(1), Resp::Integer(2));
    assert_ne!(Resp::Integer(1), Resp::rbs_from_bytes(b"1"));
    let a = Resp::Array(values_array(vec![Resp::Integer(1), Resp::NilBulk]));
    let b = Resp::Array(values_array(vec![Resp::Integer(1), Resp::NilBulk]));
    let c = Resp::Array(values_array(vec![Resp::Integer(1), Resp::NilArray]));
    let d = Resp::Array(values_array(vec![Resp::Integer(1)]));
    assert_eq!(a, b);
    assert_ne!(a, c);
    assert_ne!(a, d);
    assert_ne!(Resp::Array(values_array(vec![])), Resp::NilArray);
}

#[test]
fn clone_gives_an_equal_value() {
    let a = Resp::Array(values_array(vec![
        Resp::rbs_from_bytes(b"x"),
        Resp::Array(values_array(vec![Resp::Integer(9), Resp::res_from_str("e")])),
    ]));
    assert_eq!(a.clone(), a);
    assert_eq!(Resp::rss_from_static_bytes(b"s").clone(), Resp::rss_from_static_bytes(b"s"));
}

#[test]
fn as_bytes_of_each_kind() {
    assert_eq!(Resp::rss_from_static_bytes(b"ping").as_bytes(), b"ping".to_vec());
    assert_eq!(Resp::res_from_str("err").as_bytes(), b"err".to_vec());
    assert_eq!(Resp::Integer(-42).as_bytes(), b"-42".to_vec());
    assert_eq!(Resp::rbs_from_bytes(b"bulk").as_bytes(), b"bulk".to_vec());
    assert_eq!(Resp::NilBulk.as_bytes(), b"-1".to_vec());
    assert_eq!(Resp::NilArray.as_bytes(), b"-1".to_vec());
    let arr = values_array(vec![Resp::Integer(1), Resp::rbs_from_bytes(b"a")]);
    assert_eq!(arr.as_bytes(), b":1\r\n$1\r\na\r\n".to_vec());
    assert_eq!(Resp::Array(arr).as_bytes(), b":1\r\n$1\r\na\r\n".to_vec());
}

#[test]
fn resp_len_is_the_length_of_the_frame() {
    assert_eq!(Resp::rss_from_static_bytes(b"OK").resp_len(), 5);
    assert_eq!(Resp::res_from_str("E").resp_len(), 4);
    assert_eq!(Resp::Integer(-10).resp_len(), 6);
    assert_eq!(Resp::rbs_from_bytes(b"hello").resp_len(), 11);
    assert_eq!(Resp::rbs_from_bytes(b"0123456789").resp_len(), 17);
    assert_eq!(Resp::NilBulk.resp_len(), 5);
    assert_eq!(Resp::NilArray.resp_len(), 5);
    assert_eq!(Resp::Array(values_array(vec![])).resp_len(), 4);
    assert_eq!(
        Resp::Array(values_array(vec![Resp::Integer(1), Resp::rbs_from_bytes(b"a")])).resp_len(),
        15
    );
}

#[test]
fn to_u64_reads_signed_numbers() {
    assert_eq!(Resp::rbs_from_bytes(b"12").to_u64(), Some(12));
    assert_eq!(Resp::rbs_from_bytes(b"-12").to_u64(), Some(-12));
    assert_eq!(Resp::rss_from_static_bytes(b"+7").to_u64(), Some(7));
    assert_eq!(Resp::res_from_str("007").to_u64(), Some(7));
    assert_eq!(Resp::Integer(-5).to_u64(), Some(-5));
    assert_eq!(Resp::rbs_from_bytes(b"9223372036854775807").to_u64(), Some(i64::MAX));
    assert_eq!(Resp::rbs_from_bytes(b"-9223372036854775808").to_u64(), Some(i64::MIN));
    assert_eq!(Resp::rbs_from_bytes(b"9223372036854775808").to_u64(), None);
    assert_eq!(Resp::rbs_from_bytes(b"-9223372036854775809").to_u64(), None);
    assert_eq!(Resp::rbs_from_bytes(b"").to_u64(), None);
    assert_eq!(Resp::rbs_from_bytes(b"-").to_u64(), None);
    assert_eq!(Resp::rbs_from_bytes(b"+").to_u64(), None);
    assert_eq!(Resp::rbs_from_bytes(b"1 ").to_u64(), None);
    assert_eq!(Resp::rbs_from_bytes(b"1a").to_u64(), None);
    assert_eq!(Resp::rbs_from_bytes(b"--1").to_u64(), None);
    assert_eq!(Resp::NilBulk.to_u64(), None);
    assert_eq!(Resp::NilArray.to_u64(), None);
    assert_eq!(Resp::Array(values_array(vec![Resp::Integer(1)])).to_u64(), None);
}

#[test]
fn to_u128_reads_unsigned_numbers() {
    assert_eq!(Resp::rbs_from_bytes(b"0").to_u128(), Some(0));
    assert_eq!(Resp::rbs_from_bytes(b"+60").to_u128(), Some(60));
    assert_eq!(Resp::rss_from_static_bytes(b"0010").to_u128(), Some(10));
    assert_eq!(
        Resp::rbs_from_bytes(b"340282366920938463463374607431768211455").to_u128(),
        Some(u128::MAX)
    );
    assert_eq!(Resp::rbs_from_bytes(b"340282366920938463463374607431768211456").to_u128(), None);
    assert_eq!(Resp::rbs_from_bytes(b"-1").to_u128(), None);
    assert_eq!(Resp::rbs_from_bytes(b"-0").to_u128(), None);
    assert_eq!(Resp::rbs_from_bytes(b"").to_u128(), None);
    assert_eq!(Resp::Integer(5).to_u128(), Some(5));
    assert_eq!(Resp::Integer(-1).to_u128(), Some(u128::MAX));
    assert_eq!(Resp::NilBulk.to_u128(), None);
}

#[test]
fn to_set_mode_reads_the_four_words() {
    assert!(matches!(Resp::rbs_from_bytes(b"NX").to_set_mode(), Some(SetMode::Nx)));
    assert!(matches!(Resp::rbs_from_bytes(b"xx").to_set_mode(), Some(SetMode::Xx)));
    assert!(matches!(Resp::rss_from_static_bytes(b"gT").to_set_mode(), Some(SetMode::Gt)));
    assert!(matches!(Resp::rss_from_static_bytes(b"Lt").to_set_mode(), Some(SetMode::Lt)));
    assert!(Resp::rbs_from_bytes(b"N").to_set_mode().is_none());
    assert!(Resp::rbs_from_bytes(b"NXX").to_set_mode().is_none());
    assert!(Resp::res_from_str("NX").to_set_mode().is_none());
    assert!(Resp::Integer(1).to_set_mode().is_none());
    assert!(Resp::NilBulk.to_set_mode().is_none());
}

#[test]
fn to_str_is_empty() {
    assert_eq!(Resp::rbs_from_bytes(b"abc").to_str(), "");
}

#[test]
fn arrays_hand_out_their_children() {
    let arr = values_array(vec![Resp::Integer(1), Resp::rbs_from_bytes(b"two"), Resp::NilBulk]);
    assert_eq!(arr.len(), 3);
    assert_eq!(arr.get(0), Some(Resp::Integer(1)));
    assert_eq!(arr.get(1), Some(Resp::rbs_from_bytes(b"two")));
    assert_eq!(arr.get(2), Some(Resp::NilBulk));
    assert_eq!(arr.get(3), None);
    assert_eq!(arr.at(1), Some(&Resp::rbs_from_bytes(b"two")));
    assert_eq!(arr.at(3), None);
    let mut it = arr.iter();
    assert_eq!(it.next(), Some(Resp::Integer(1)));
    assert_eq!(it.next(), Some(Resp::rbs_from_bytes(b"two")));
    assert_eq!(it.next(), Some(Resp::NilBulk));
    assert_eq!(it.next(), None);
    assert_eq!(it.next(), None);
    assert_eq!(arr.clone(), arr);
    assert_eq!(RespArray::default().len(), 0);
}

#[test]
fn a_builder_keeps_the_order_of_the_pushes() {
    let mut builder = RespArrayBuilder::default();
    builder.push_resp(Resp::Integer(2));
    builder.push_resp(Resp::Integer(1));
    builder.push_resp(Resp::Array(values_array(vec![Resp::Integer(0)])));
    let arr = builder.build();
    assert_eq!(arr.len(), 3);
    assert_eq!(arr.get(0), Some(Resp::Integer(2)));
    assert_eq!(arr.get(1), Some(Resp::Integer(1)));
    assert_eq!(arr.get(2), Some(Resp::Array(values_array(vec![Resp::Integer(0)]))));
}

#[test]
fn numbers_are_read_as_rust_reads_them() {
    let cases: Vec<&[u8]> = vec![
        b"0", b"1", b"-1", b"+1", b"-0", b"+0", b"", b"+", b"-", b"00", b"0012", b"12a", b" 1",
        b"1_000", b"18446744073709551615", b"18446744073709551616", b"9223372036854775807",
        b"9223372036854775808", b"-9223372036854775808", b"-9223372036854775809",
        b"340282366920938463463374607431768211455", b"340282366920938463463374607431768211456",
        b"99999999999999999999999999999999999999999999",
        b"0000000000000000000000000000000000000000000000000007", b"\xff1", b"1\n",
    ];
    for case in cases {
        let text = std::str::from_utf8(case).ok();
        assert_eq!(parse_i64(case), text.and_then(|t| t.parse::<i64>().ok()));
        assert_eq!(parse_u128(case), text.and_then(|t| t.parse::<u128>().ok()));
        assert_eq!(parse_usize(case), text.and_then(|t| t.parse::<usize>().ok()));
    }
}

#[test]
fn numbers_are_written_as_rust_writes_them() {
    let signed: Vec<i64> = vec![0, 1, -1, 9, 10, -10, 99, 100, 12345, i64::MAX, i64::MIN];
    for n in signed {
        let mut out = Vec::new();
        push_int(&mut out, n);
        assert_eq!(out, format!("{}", n).into_bytes());
    }
    let unsigned: Vec<u128> = vec![0, 5, 10, 11, 1000, u64::MAX as u128, u128::MAX];
    for n in unsigned {
        let mut out = b"x".to_vec();
        push_nat(&mut out, n);
        assert_eq!(out, format!("x{}", n).into_bytes());
    }
}

#[test]
fn bytes_are_appended() {
    let mut out = b"ab".to_vec();
    push_bytes(&mut out, b"cd");
    push_crlf(&mut out);
    assert_eq!(out, b"abcd\r\n".to_vec());
}

#[test]
fn comparing_bytes() {
    assert!(bytes_eq(b"abc", b"abc"));
    assert!(!bytes_eq(b"abc", b"abd"));
    assert!(!bytes_eq(b"abc", b"ab"));
    assert!(bytes_eq(b"", b""));
    assert!(eq_ignore_ascii_case(b"PiNg", b"ping"));
    assert!(eq_ignore_ascii_case(b"", b""));
    assert!(!eq_ignore_ascii_case(b"ping", b"pong"));
    assert!(!eq_ignore_ascii_case(b"ping", b"pin"));
    assert!(!eq_ignore_ascii_case(b"@", b"`"));
    assert!(!eq_ignore_ascii_case(b"[", b"{"));
    assert!(eq_ignore_ascii_case(b"Zz", b"zZ"));
}

#[test]
fn expire_modes_are_read_from_name_and_number() {
    assert!(matches!(
        SetExpireMode::parse_set_expire_mode(b"EX", b"10"),
        Ok(SetExpireMode::Ex(10))
    ));
    assert!(matches!(
        SetExpireMode::parse_set_expire_mode(b"px", b"1500"),
        Ok(SetExpireMode::Px(1500))
    ));
    assert!(matches!(
        SetExpireMode::parse_set_expire_mode(b"ExAt", b"7"),
        Ok(SetExpireMode::Exat(7))
    ));
    assert!(matches!(
        SetExpireMode::parse_set_expire_mode(b"PXAT", b"8"),
        Ok(SetExpireMode::Pxat(8))
    ));
    assert!(matches!(
        SetExpireMode::parse_set_expire_mode(b"persist", b"anything"),
        Ok(SetExpireMode::Persist)
    ));
    assert!(matches!(
        SetExpireMode::parse_set_expire_mode(b"EX", b"12abc"),
        Ok(SetExpireMode::Ex(12))
    ));
    assert!(matches!(
        SetExpireMode::parse_set_expire_mode(b"EX", b"007"),
        Ok(SetExpireMode::Ex(7))
    ));
}

#[test]
fn expire_modes_that_are_wrong() {
    assert!(matches!(
        SetExpireMode::parse_set_expire_mode(b"EX", b""),
        Err(CommandError::SyntaxError)
    ));
    assert!(matches!(
        SetExpireMode::parse_set_expire_mode(b"EX", b"abc"),
        Err(CommandError::SyntaxError)
    ));
    assert!(matches!(
        SetExpireMode::parse_set_expire_mode(b"EX", b"+5"),
        Err(CommandError::SyntaxError)
    ));
    assert!(matches!(
        SetExpireMode::parse_set_expire_mode(b"EX", b"340282366920938463463374607431768211456"),
        Err(CommandError::SyntaxError)
    ));
    assert!(matches!(
        SetExpireMode::parse_set_expire_mode(b"EXX", b"5"),
        Err(CommandError::SyntaxError)
    ));
    assert!(matches!(
        SetExpireMode::parse_set_expire_mode(b"", b"5"),
        Err(CommandError::SyntaxError)
    ));
    assert!(matches!(
        SetExpireMode::parse_set_expire_mode(b"KEEPTTL", b"5"),
        Err(CommandError::SyntaxError)
    ));
}

#[test]
fn leading_numbers() {
    assert_eq!(parse_leading_number(b"15"), Some(15));
    assert_eq!(parse_leading_number(b"15 apples"), Some(15));
    assert_eq!(parse_leading_number(b"0"), Some(0));
    assert_eq!(parse_leading_number(b""), None);
    assert_eq!(parse_leading_number(b"x1"), None);
    assert_eq!(parse_leading_number(b"-1"), None);
    assert_eq!(parse_leading_number(b"340282366920938463463374607431768211455"), Some(u128::MAX));
    assert_eq!(parse_leading_number(b"340282366920938463463374607431768211456"), None);
}

fn values_hash(value: &Resp) -> u64 {
    let mut hasher = DefaultHasher::new();
    value.hash(&mut hasher);
    hasher.finish()
}

#[test]
fn equal_values_hash_alike() {
    let a = Resp::Array(values_array(vec![Resp::rbs_from_bytes(b"x"), Resp::Integer(1)]));
    let b = Resp::Array(values_array(vec![Resp::rbs_from_str("x"), Resp::ri_from_u64(1)]));
    assert_eq!(a, b);
    assert_eq!(values_hash(&a), values_hash(&b));
    assert_eq!(
        values_hash(&Resp::rbs_from_bytes(b"k")),
        values_hash(&Resp::rbs_from_static_str("k").clone())
    );
    assert_eq!(values_hash(&Resp::NilBulk), values_hash(&Resp::NilBulk));
}
