use amoeba_cli::utils;
use amoeba_cli::Error;

#[test]
fn unwrap_passes_a_token_through() {
    assert_eq!(utils::unwrap(Some("led")), Ok("led"));
    assert_eq!(utils::unwrap(Some("")), Ok(""));
}

#[test]
fn unwrap_reports_a_missing_token() {
    assert_eq!(utils::unwrap(None), Err(Error::NotEnoughArgs));
}

#[test]
fn bool_from_str_reads_the_true_spellings() {
    for token in ["true", "yes", "on", "enable", "y", "1"] {
        assert_eq!(utils::bool_from_str(Some(token)), Ok(true));
    }
}

#[test]
fn bool_from_str_reads_the_false_spellings() {
    for token in ["false", "no", "off", "disable", "n", "0"] {
        assert_eq!(utils::bool_from_str(Some(token)), Ok(false));
    }
}

#[test]
fn bool_from_str_rejects_other_tokens() {
    for token in ["maybe", "", "Yes", "TRUE", "On", "2", "yes ", "tru", "enabled"] {
        assert_eq!(utils::bool_from_str(Some(token)), Err(Error::InvalidArgType));
    }
}

#[test]
fn bool_from_str_reports_a_missing_token() {
    assert_eq!(utils::bool_from_str(None), Err(Error::NotEnoughArgs));
}

#[test]
fn int_from_str_reads_base_sixteen() {
    assert_eq!(utils::int_from_str::<u8>(Some("0xFF")), Ok(255));
    assert_eq!(utils::int_from_str::<u8>(Some("0xff")), Ok(255));
    assert_eq!(utils::int_from_str::<u32>(Some("0xDeadBeef")), Ok(0xDEAD_BEEF));
    assert_eq!(utils::int_from_str::<i32>(Some("0x-10")), Ok(-16));
}

#[test]
fn int_from_str_reads_base_two() {
    assert_eq!(utils::int_from_str::<u8>(Some("0b101")), Ok(5));
    assert_eq!(utils::int_from_str::<u8>(Some("0b11111111")), Ok(255));
    assert_eq!(utils::int_from_str::<i8>(Some("0b-10000000")), Ok(-128));
}

#[test]
fn int_from_str_reads_base_ten() {
    assert_eq!(utils::int_from_str::<u8>(Some("0")), Ok(0));
    assert_eq!(utils::int_from_str::<u8>(Some("255")), Ok(255));
    assert_eq!(utils::int_from_str::<u8>(Some("+7")), Ok(7));
    assert_eq!(utils::int_from_str::<u8>(Some("007")), Ok(7));
    assert_eq!(utils::int_from_str::<i16>(Some("-32768")), Ok(-32768));
    assert_eq!(utils::int_from_str::<u64>(Some("18446744073709551615")), Ok(u64::MAX));
    assert_eq!(utils::int_from_str::<i128>(Some("-1")), Ok(-1));
    assert_eq!(utils::int_from_str::<usize>(Some("42")), Ok(42));
    assert_eq!(utils::int_from_str::<isize>(Some("-42")), Ok(-42));
    assert_eq!(utils::int_from_str::<u16>(Some("65535")), Ok(65535));
    assert_eq!(utils::int_from_str::<u128>(Some("1")), Ok(1));
    assert_eq!(utils::int_from_str::<i64>(Some("-9223372036854775808")), Ok(i64::MIN));
}

#[test]
fn int_from_str_rejects_a_value_out_of_range() {
    assert_eq!(utils::int_from_str::<u8>(Some("256")), Err(Error::InvalidArgType));
    assert_eq!(utils::int_from_str::<u8>(Some("0x100")), Err(Error::InvalidArgType));
    assert_eq!(utils::int_from_str::<u8>(Some("0b100000000")), Err(Error::InvalidArgType));
    assert_eq!(utils::int_from_str::<i8>(Some("128")), Err(Error::InvalidArgType));
    assert_eq!(utils::int_from_str::<i8>(Some("-129")), Err(Error::InvalidArgType));
}

#[test]
fn int_from_str_rejects_what_is_no_numeral() {
    for token in ["", "+", "-", "0x", "0b", "12a", "0xG", "0b2", " 1", "1 ", "1_000", "-0x10", "0X10", "0B1"] {
        assert_eq!(utils::int_from_str::<i32>(Some(token)), Err(Error::InvalidArgType));
    }
    assert_eq!(utils::int_from_str::<u8>(Some("-1")), Err(Error::InvalidArgType));
    assert_eq!(utils::int_from_str::<u8>(Some("-0")), Err(Error::InvalidArgType));
}

#[test]
fn int_from_str_takes_one_prefix_off() {
    assert_eq!(utils::int_from_str::<u8>(Some("0x0x1F")), Err(Error::InvalidArgType));
    assert_eq!(utils::int_from_str::<u8>(Some("0b0b1")), Err(Error::InvalidArgType));
    assert_eq!(utils::int_from_str::<u8>(Some("0x0b1")), Ok(0xB1));
}

#[test]
fn int_from_str_reports_a_missing_token() {
    assert_eq!(utils::int_from_str::<u8>(None), Err(Error::NotEnoughArgs));
}
