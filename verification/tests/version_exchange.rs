use parustiko::stream::MemoryStream;
use parustiko::version::SshVersion;

#[test]
fn test_correct_create_verion_exchange_structure() {
    let msg = SshVersion::try_build("2.0", "parustiko-XXX", None);
    assert!(msg.is_ok());

    let version = msg.unwrap();
    assert_eq!(version.proto_version, "2.0");
    assert_eq!(version.software_version, "parustiko-XXX");
    assert_eq!(version.comments, None);
}

#[test]
fn version_test_correct_create_verion_exchange_structure() {
    let msg = SshVersion::try_build("2.0", "OpenSSH-XXX", None);
    assert!(msg.is_ok());
}

#[test]
fn test_incorrect_proto_version() {
    let err = SshVersion::try_build("3.0", "", None).unwrap_err().message();

    assert_eq!(err, "Proto version incorrect - correct versions: '1.0' or '2.0'");
}

#[test]
fn version_test_incorrect_proto_version() {
    let err = SshVersion::try_build("3.0", "", None).unwrap_err().message();

    assert_eq!(err, "Proto version incorrect - correct versions: '1.0' or '2.0'");
}

#[test]
fn test_too_long_software_version() {
    let sw = "a".repeat(256);
    let err = SshVersion::try_build("2.0", sw.as_str(), None).unwrap_err().message();

    assert_eq!(err, "Software version string is too long");
}

#[test]
fn test_too_long_comment() {
    let c = "a".repeat(256);
    let err = SshVersion::try_build("2.0", "abc", Some(c.as_str())).unwrap_err().message();

    assert_eq!(err, "Comment string is too long");
}

#[test]
fn test_build_from_string_with_comments() {
    let result = SshVersion::from_string("SSH-2.0-parustiko-XXX comments\r\n");
    assert!(result.is_ok());

    let version = result.unwrap();
    assert_eq!(version.proto_version, "2.0");
    assert_eq!(version.software_version, "parustiko-XXX");
    assert_eq!(version.comments, Some("comments".to_string()));
}

#[test]
fn test_build_from_string_without_comments() {
    let result = SshVersion::from_string("SSH-2.0-parustiko-XXX");
    assert!(result.is_ok());

    let version = result.unwrap();
    assert_eq!(version.proto_version, "2.0");
    assert_eq!(version.software_version, "parustiko-XXX");
    assert_eq!(version.comments, None);
}

#[test]
fn from_string_rejects_missing_separator() {
    let result = SshVersion::from_string("SSH-2.0parustikoXXX\r\n");
    assert!(result.is_err());
    assert_eq!(result.unwrap_err().message(), "Malformed SSH version exchange string");
}

#[test]
fn from_string_rejects_missing_marker() {
    let result = SshVersion::from_string("2.0-parustiko-XXX\r\n");
    assert!(result.is_err());
    assert_eq!(result.unwrap_err().message(), "Missing 'SSH-' part");
}

#[test]
fn test_version_to_string() {
    let version = SshVersion {
        proto_version: "2.0".to_string(),
        software_version: "parustiko".to_string(),
        comments: None,
    };

    assert_eq!(version.to_string(), "SSH-2.0-parustiko\r\n");
}

#[test]
fn id_string_round_trip() {
    let version = SshVersion::try_build("2.0", "parustiko-XXX", Some("some comments")).unwrap();
    let line = version.to_string();
    let back = SshVersion::from_string(line.as_str()).unwrap();

    assert_eq!(back.proto_version, version.proto_version);
    assert_eq!(back.software_version, version.software_version);
    assert_eq!(back.comments, version.comments);
}

#[test]
fn test_read_header_invalid_stream_bytes() {
    let mut stream = MemoryStream::new(b"SSH".to_vec());

    let result = SshVersion::read_header(&mut stream);
    assert!(result.is_err());

    let msg = result.unwrap_err().message();
    assert_eq!(msg, "Not found '\r\n in the first 51 bytes");
}

#[test]
fn read_header_rejects_long_stream_without_terminator() {
    let mut stream = MemoryStream::new(vec![65u8; 100]);

    let result = SshVersion::read_header(&mut stream);
    assert!(result.is_err());
    assert_eq!(result.unwrap_err().message(), "Not found '\r\n in the first 51 bytes");
}

#[test]
fn test_read_header_success() {
    let server_response = b"SSH\r\n";
    let mut stream = MemoryStream::new(server_response.to_vec());

    let result = SshVersion::read_header(&mut stream);
    assert!(result.is_ok());

    let data = result.unwrap();
    assert_eq!(data, [83, 83, 72, 13, 10]);
}
