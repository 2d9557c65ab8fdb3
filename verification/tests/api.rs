use aegis::api::{decorated_argument_count, normalize_name, signature, CallingConvention};

#[test]
fn resolves_known_and_decorated_signatures() {
    assert_eq!(signature("CreateFileW").argument_count, 7);
    assert!(signature("_CreateFileW@28").modeled);
    assert_eq!(signature("_UnknownApi@16").argument_count, 4);
    assert!(!signature("_UnknownApi@16").modeled);
    assert_eq!(signature("CreateRemoteThread").argument_count, 7);
    assert_eq!(signature("CreateProcessW").argument_count, 10);
}

#[test]
fn normalizes_decorated_names() {
    assert_eq!(normalize_name("__GetProcAddress@8"), "getprocaddress");
    assert_eq!(normalize_name("Name@x1"), "name@x1");
    assert_eq!(normalize_name("Trailing@"), "trailing");
}

#[test]
fn parses_decorations_like_str_parse() {
    assert_eq!(decorated_argument_count("f@+12"), Some(3));
    assert_eq!(decorated_argument_count("f@"), None);
    assert_eq!(decorated_argument_count("f@99999999999999999999999"), None);
    assert_eq!(decorated_argument_count("plain"), None);
}

#[test]
fn cdecl_for_c_runtime_names() {
    assert_eq!(signature("memcpy").convention, CallingConvention::Cdecl);
    assert_eq!(signature("wsprintfA").convention, CallingConvention::Cdecl);
    assert_eq!(signature("Sleep").convention, CallingConvention::Stdcall);
    assert_eq!(signature("Sleep").argument_count, 1);
}
