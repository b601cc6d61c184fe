use oberst::argument::read_integer;
use oberst::grammar::IntegerKind;
use oberst::parser::Argument;
use oberst::parser::CommandParser;
use oberst::parser::ParseErrorKind;

fn parse<A: Argument>(line: &str) -> Result<(A, usize), (ParseErrorKind, usize)> {
    let mut parser = CommandParser::new(line);
    match parser.argument::<A>() {
        Ok(value) => Ok((value, parser.offset())),
        Err(error) => Err((error.kind, error.offset)),
    }
}

#[test]
fn unsigned_integers_are_runs_of_digits() {
    assert_eq!(parse::<u32>("42"), Ok((42u32, 2)));
    assert_eq!(parse::<u32>("42 rest"), Ok((42u32, 2)));
    assert_eq!(parse::<u32>("0042x"), Ok((42u32, 4)));
    assert_eq!(parse::<u8>("0"), Ok((0u8, 1)));
    assert_eq!(parse::<u64>("18446744073709551615"), Ok((u64::MAX, 20)));
}

#[test]
fn an_empty_run_of_digits_is_a_bad_argument() {
    assert_eq!(parse::<u32>(""), Err((ParseErrorKind::BadArgument, 0)));
    assert_eq!(parse::<u32>("x1"), Err((ParseErrorKind::BadArgument, 0)));
    assert_eq!(parse::<u32>(" 1"), Err((ParseErrorKind::BadArgument, 0)));
    assert_eq!(parse::<u32>("+1"), Err((ParseErrorKind::BadArgument, 0)));
    assert_eq!(parse::<i32>(""), Err((ParseErrorKind::BadArgument, 0)));
}

#[test]
fn unsigned_integers_take_no_sign() {
    assert_eq!(parse::<u32>("-1"), Err((ParseErrorKind::BadArgument, 0)));
    assert_eq!(parse::<u8>("-0"), Err((ParseErrorKind::BadArgument, 0)));
    assert_eq!(parse::<usize>("-"), Err((ParseErrorKind::BadArgument, 0)));
}

#[test]
fn signed_integers_take_a_minus_sign() {
    assert_eq!(parse::<i32>("-17"), Ok((-17i32, 3)));
    assert_eq!(parse::<i32>("17"), Ok((17i32, 2)));
    assert_eq!(parse::<i32>("-0"), Ok((0i32, 2)));
    assert_eq!(parse::<i64>("-9223372036854775808"), Ok((i64::MIN, 20)));
}

#[test]
fn a_bare_minus_sign_is_a_bad_argument() {
    assert_eq!(parse::<i32>("-"), Err((ParseErrorKind::BadArgument, 1)));
    assert_eq!(parse::<i32>("- 1"), Err((ParseErrorKind::BadArgument, 1)));
    assert_eq!(parse::<i32>("--1"), Err((ParseErrorKind::BadArgument, 1)));
}

#[test]
fn every_width_holds_its_bounds_and_refuses_the_next_number() {
    assert_eq!(parse::<u8>("255"), Ok((u8::MAX, 3)));
    assert_eq!(parse::<u8>("256"), Err((ParseErrorKind::BadArgument, 3)));
    assert_eq!(parse::<u16>("65535"), Ok((u16::MAX, 5)));
    assert_eq!(parse::<u16>("65536"), Err((ParseErrorKind::BadArgument, 5)));
    assert_eq!(parse::<u32>("4294967295"), Ok((u32::MAX, 10)));
    assert_eq!(parse::<u32>("4294967296"), Err((ParseErrorKind::BadArgument, 10)));
    assert_eq!(parse::<u64>("18446744073709551616"), Err((ParseErrorKind::BadArgument, 20)));
    assert_eq!(
        parse::<u128>("340282366920938463463374607431768211455"),
        Ok((u128::MAX, 39))
    );
    assert_eq!(
        parse::<u128>("340282366920938463463374607431768211456"),
        Err((ParseErrorKind::BadArgument, 39))
    );
    assert_eq!(parse::<i8>("127"), Ok((i8::MAX, 3)));
    assert_eq!(parse::<i8>("128"), Err((ParseErrorKind::BadArgument, 3)));
    assert_eq!(parse::<i8>("-128"), Ok((i8::MIN, 4)));
    assert_eq!(parse::<i8>("-129"), Err((ParseErrorKind::BadArgument, 4)));
    assert_eq!(parse::<i16>("32767"), Ok((i16::MAX, 5)));
    assert_eq!(parse::<i16>("-32768"), Ok((i16::MIN, 6)));
    assert_eq!(parse::<i16>("-32769"), Err((ParseErrorKind::BadArgument, 6)));
    assert_eq!(parse::<i32>("2147483647"), Ok((i32::MAX, 10)));
    assert_eq!(parse::<i32>("2147483648"), Err((ParseErrorKind::BadArgument, 10)));
    assert_eq!(parse::<i32>("-2147483648"), Ok((i32::MIN, 11)));
    assert_eq!(parse::<i64>("9223372036854775808"), Err((ParseErrorKind::BadArgument, 19)));
    assert_eq!(
        parse::<i128>("170141183460469231731687303715884105727"),
        Ok((i128::MAX, 39))
    );
    assert_eq!(
        parse::<i128>("170141183460469231731687303715884105728"),
        Err((ParseErrorKind::BadArgument, 39))
    );
    assert_eq!(
        parse::<i128>("-170141183460469231731687303715884105728"),
        Ok((i128::MIN, 40))
    );
    assert_eq!(
        parse::<i128>("-170141183460469231731687303715884105729"),
        Err((ParseErrorKind::BadArgument, 40))
    );
}

#[test]
fn the_pointer_wide_integers_follow_the_machine() {
    assert_eq!(parse::<usize>(&usize::MAX.to_string()), Ok((usize::MAX, usize::MAX.to_string().len())));
    assert_eq!(parse::<isize>(&isize::MIN.to_string()), Ok((isize::MIN, isize::MIN.to_string().len())));
    assert_eq!(parse::<isize>(&isize::MAX.to_string()), Ok((isize::MAX, isize::MAX.to_string().len())));
    let beyond = format!("{}", usize::MAX as u128 + 1);
    assert_eq!(parse::<usize>(&beyond), Err((ParseErrorKind::BadArgument, beyond.len())));
}

#[test]
fn an_overlong_number_is_read_to_its_end_and_refused() {
    let digits = "9".repeat(60);
    assert_eq!(parse::<u128>(&digits), Err((ParseErrorKind::BadArgument, 60)));
    let line = format!("-{} x", digits);
    assert_eq!(parse::<i128>(&line), Err((ParseErrorKind::BadArgument, 61)));
    let padded = format!("{}7", "0".repeat(60));
    assert_eq!(parse::<u8>(&padded), Ok((7u8, 61)));
}

#[test]
fn numbers_survive_being_written_and_read() {
    let mut i: i64 = -70000;
    while i <= 70000 {
        let line = i.to_string();
        let length = line.len();
        assert_eq!(parse::<i64>(&line), Ok((i, length)));
        assert_eq!(parse::<i32>(&line), Ok((i as i32, length)));
        if i16::MIN as i64 <= i && i <= i16::MAX as i64 {
            assert_eq!(parse::<i16>(&line), Ok((i as i16, length)));
        } else {
            assert_eq!(parse::<i16>(&line), Err((ParseErrorKind::BadArgument, length)));
        }
        if 0 <= i && i <= u16::MAX as i64 {
            assert_eq!(parse::<u16>(&line), Ok((i as u16, length)));
        } else if i < 0 {
            assert_eq!(parse::<u16>(&line), Err((ParseErrorKind::BadArgument, 0)));
        } else {
            assert_eq!(parse::<u16>(&line), Err((ParseErrorKind::BadArgument, length)));
        }
        i += 7;
    }
}

#[test]
fn read_integer_gives_sign_and_magnitude() {
    let mut parser = CommandParser::new("-128;");
    assert_eq!(read_integer(&mut parser, IntegerKind::I8).unwrap(), (true, 128u128));
    assert_eq!(parser.offset(), 4);
    let mut parser = CommandParser::new("300");
    assert_eq!(read_integer(&mut parser, IntegerKind::U16).unwrap(), (false, 300u128));
    let mut parser = CommandParser::new("300");
    assert_eq!(read_integer(&mut parser, IntegerKind::U8).unwrap_err().kind, ParseErrorKind::BadArgument);
}

#[test]
fn the_unit_argument_reads_nothing() {
    assert_eq!(parse::<()>("anything"), Ok(((), 0)));
    assert_eq!(parse::<()>(""), Ok(((), 0)));
}

#[test]
fn the_limits_of_the_integer_kinds() {
    assert!(!IntegerKind::U64.is_signed());
    assert!(IntegerKind::I64.is_signed());
    assert_eq!(IntegerKind::U8.greatest(), 255);
    assert_eq!(IntegerKind::I8.greatest(), 127);
    assert_eq!(IntegerKind::I8.depth(), 128);
    assert_eq!(IntegerKind::U8.depth(), 0);
    assert_eq!(IntegerKind::U128.greatest(), u128::MAX);
    assert_eq!(IntegerKind::I128.depth(), 1u128 << 127);
    assert_eq!(IntegerKind::Usize.greatest(), usize::MAX as u128);
    assert_eq!(IntegerKind::Isize.depth(), isize::MAX as u128 + 1);
}
