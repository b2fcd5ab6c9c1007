use anidb::AnidbError;
use anidb::ServerReply;
use anidb::parse_reply;
use anidb::validate_auth_command;
use anidb::format_login_string;
use anidb::format_logout_string;

#[test]
fn test_parse_reply_ok() {
    let reply = b"500 LOGIN FAILED";
    let ret = parse_reply(reply, reply.len()).unwrap();
    assert_eq!(ret.code, 500);
    assert_eq!(ret.data, "LOGIN FAILED");
}

#[test]
fn test_parse_reply_fail_1() {
    let reply = b"a3i5LOGIN FAILED";
    assert_eq!(true, parse_reply(reply, reply.len()).is_err());
}

#[test]
fn test_parse_reply_fail_2() {
    let reply = b"34i5LOGIN FAILED";
    assert_eq!(true, parse_reply(reply, reply.len()).is_err());
}

#[test]
fn test_parse_reply_too_short() {
    let reply = b"3D";
    assert_eq!(true, parse_reply(reply, reply.len()).is_err());
}

#[test]
fn test_parse_reply_exact_length() {
    let reply = b"777 O";
    let ret = parse_reply(reply, reply.len()).unwrap();
    assert_eq!(ret.code, 777);
    assert_eq!(ret.data, "O");
}

#[test]
fn test_format_login_string() {
    let login_string = format_login_string("leeloo_dallas", "multipass");
    assert_eq!(
        login_string,
        "AUTH user=leeloo_dallas&pass=multipass&protover=3&client=anidbrs&clientver=1"
    );
}

#[test]
fn test_format_logout_string() {
    let logout_str = format_logout_string("abcd1234");
    assert_eq!(logout_str, "LOGOUT s=abcd1234");
}

#[test]
fn it_works_2() {
}

#[test]
fn it_works_3() {
}

#[test]
fn test_parse_reply_error_variants() {
    // Non-UTF-8 code bytes: a lone continuation byte.
    let bad_utf8 = b"\x80\x81\x82 PAYLOAD";
    assert!(matches!(
        parse_reply(bad_utf8, bad_utf8.len()),
        Err(AnidbError::Utf8Error)
    ));
    // Valid UTF-8 but not a number.
    let bad_num = b"abc PAYLOAD";
    assert!(matches!(
        parse_reply(bad_num, bad_num.len()),
        Err(AnidbError::ParseIntError)
    ));
    // Too short.
    assert!(matches!(
        parse_reply(b"20", 2),
        Err(AnidbError::StaticError(_))
    ));
}

#[test]
fn test_parse_reply_plus_sign_code() {
    // A leading plus sign parses like the standard library's number parser.
    let reply = b"+77 PAYLOAD";
    let ret = parse_reply(reply, reply.len()).unwrap();
    assert_eq!(ret.code, 77);
    assert_eq!(ret.data, "PAYLOAD");
}

#[test]
fn test_validate_auth_accepted() {
    let reply = ServerReply {
        code: 200,
        data: "sess123 LOGIN ACCEPTED\n".to_owned(),
    };
    let sid = validate_auth_command(&reply).unwrap();
    assert_eq!(sid, "sess123");
}

#[test]
fn test_validate_auth_wrong_code() {
    let reply = ServerReply {
        code: 500,
        data: "LOGIN FAILED".to_owned(),
    };
    match validate_auth_command(&reply) {
        Err(AnidbError::ErrorCode(code, data)) => {
            assert_eq!(code, 500);
            assert_eq!(data, "LOGIN FAILED");
        }
        other => panic!("unexpected result: {:?}", other),
    }
}

#[test]
fn test_validate_auth_wrong_arity() {
    let reply = ServerReply {
        code: 200,
        data: "sess123 LOGIN".to_owned(),
    };
    match validate_auth_command(&reply) {
        Err(AnidbError::Error(m)) => {
            assert_eq!(m, "Invalid AUTH reply: sess123 LOGIN expceted 3 args");
        }
        other => panic!("unexpected result: {:?}", other),
    }
}

#[test]
fn test_validate_auth_wrong_words() {
    let reply = ServerReply {
        code: 200,
        data: "sess123 LOGOUT ACCEPTED\n".to_owned(),
    };
    match validate_auth_command(&reply) {
        Err(AnidbError::Error(m)) => {
            assert_eq!(
                m,
                "Invalid AUTH reply: sess123 LOGOUT ACCEPTED\n LOGIN ACCEPTED\\n expected"
            );
        }
        other => panic!("unexpected result: {:?}", other),
    }
}

#[test]
fn test_error_descriptions() {
    assert_eq!(
        AnidbError::Io("file vanished".to_owned()).description(),
        "file vanished"
    );
    assert_eq!(AnidbError::Utf8Error.description(), "invalid utf-8 sequence");
    assert_eq!(
        AnidbError::ParseIntError.description(),
        "invalid digit found in string"
    );
    assert_eq!(
        AnidbError::StaticError("Not logged in".to_owned()).description(),
        "Not logged in"
    );
    assert_eq!(
        AnidbError::ErrorCode(500, "LOGIN FAILED".to_owned()).description(),
        "Error Code"
    );
    assert_eq!(
        AnidbError::Error("boom".to_owned()).description(),
        "boom"
    );
}

#[test]
fn test_error_messages() {
    assert_eq!(
        AnidbError::ErrorCode(500, "LOGIN FAILED".to_owned()).message(),
        "Error 500 - LOGIN FAILED"
    );
    assert_eq!(
        AnidbError::ErrorCode(0, "X".to_owned()).message(),
        "Error 0 - X"
    );
    assert_eq!(AnidbError::Error("boom".to_owned()).message(), "boom");
}
