use wasefire_interpreter::error::Error;
use wasefire_interpreter::parser::Parser;

#[test]
pub fn parse_leb128_is_correct() {
    fn test(signed: bool, bits: u8, data: &[u8], result: Result<u64, Error>) {
        let mut parser = Parser::new(data);
        assert_eq!(parser.parse_leb128(signed, bits), result);
        assert!(parser.is_empty());
    }

    test(false, 8, &[], Err(Error::Invalid));
    test(false, 8, &[0x00], Ok(0));
    test(false, 8, &[0x80, 0x00], Ok(0));
    test(false, 8, &[0x80, 0x80], Err(Error::Invalid));
    test(false, 8, &[0x03], Ok(3));
    test(false, 8, &[0x83, 0x00], Ok(3));
    test(false, 8, &[0x83, 0x01], Ok(0x83));
    test(false, 8, &[0x83, 0x02], Err(Error::Invalid));
    test(false, 8, &[0x83, 0x7f], Err(Error::Invalid));
    test(true, 16, &[], Err(Error::Invalid));
    test(true, 16, &[0x7f], Ok(0xffff));
    test(true, 16, &[0xff, 0xff, 0x7f], Ok(0xffff));
    test(true, 16, &[0xff, 0xff, 0xff], Err(Error::Invalid));
    test(true, 16, &[0x7e], Ok(0xfffe));
    test(true, 16, &[0xfe, 0x7f], Ok(0xfffe));
    test(true, 16, &[0xfe, 0xff, 0x7f], Ok(0xfffe));
    test(true, 16, &[0x03], Ok(3));
    test(true, 16, &[0x83, 0x00], Ok(3));
    test(true, 16, &[0x83, 0x80, 0x01], Ok(0x4003));
    test(true, 16, &[0x83, 0x80, 0x02], Err(Error::Invalid));
    test(true, 16, &[0x83, 0x80, 0x7c], Err(Error::Invalid));
    test(true, 16, &[0x83, 0x80, 0x7e], Ok(0x8003));
    test(false, 32, &[], Err(Error::Invalid));
    test(false, 32, &[0x00], Ok(0));
    test(false, 32, &[0x80, 0x00], Ok(0));
    test(false, 32, &[0x80, 0x80, 0x80, 0x80, 0x08], Ok(0x80000000));
    test(true, 32, &[0x80, 0x80, 0x80, 0x80, 0x08], Err(Error::Invalid));
    test(true, 32, &[0x80, 0x80, 0x80, 0x80, 0x78], Ok(0x80000000));
    test(false, 32, &[0x80], Err(Error::Invalid));
    test(false, 32, &[0x80, 0x01], Ok(0x80));
    test(false, 32, &[0x80, 0x80, 0x80, 0x80, 0x10], Err(Error::Invalid));
    test(false, 32, &[0xff, 0xff, 0xff, 0xff, 0x0f], Ok(0xffffffff));
    test(false, 32, &[0xff, 0xff, 0xff, 0xff, 0x7f], Err(Error::Invalid));
    test(true, 32, &[0xff, 0xff, 0xff, 0xff, 0x7f], Ok(0xffffffff));
}
