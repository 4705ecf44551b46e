use rootpermit::cli::{
    admin_unavailable_json, broker_unavailable_json, invalid_arguments_json, parse_admin_command, parse_error_json,
    parse_package_install, AdminCommand, ParseError,
};

fn arguments(values: &[&str]) -> Vec<String> {
    values.iter().map(ToString::to_string).collect()
}

#[test]
fn accepts_only_the_typed_package_install_shape() {
    let request = parse_package_install(&arguments(&[
        "package",
        "install",
        "ffmpeg",
        "--operation-key",
        "install-ffmpeg-01",
        "--note",
        "Needed for local transcoding",
    ]))
    .expect("typed request should parse");

    assert_eq!(request.package_name, "ffmpeg");
    assert_eq!(request.operation_key, "install-ffmpeg-01");
    assert_eq!(request.note.as_deref(), Some("Needed for local transcoding"));
}

#[test]
fn rejects_versions_urls_paths_architectures_and_apt_options() {
    for value in [
        "ffmpeg=7.0",
        "https://example.test/package.deb",
        "../ffmpeg",
        "ffmpeg:amd64",
        "--allow-unauthenticated",
    ] {
        let result = parse_package_install(&arguments(&[
            "package",
            "install",
            value,
            "--operation-key",
            "safe-key-12345678",
        ]));
        assert_eq!(result, Err(ParseError::InvalidPackageName), "{value}");
    }
}

#[test]
fn rejects_reordered_or_unknown_flags_and_unbounded_notes() {
    assert_eq!(
        parse_package_install(&arguments(&[
            "package",
            "install",
            "ffmpeg",
            "--note",
            "x",
            "--operation-key",
            "safe-key-12345678",
        ])),
        Err(ParseError::UnexpectedArgument)
    );
    assert_eq!(
        parse_package_install(&arguments(&[
            "package",
            "install",
            "ffmpeg",
            "--operation-key",
            "safe-key-12345678",
            "--apt-option",
            "x",
        ])),
        Err(ParseError::UnexpectedArgument)
    );
    assert_eq!(
        parse_package_install(&arguments(&[
            "package",
            "install",
            "ffmpeg",
            "--operation-key",
            "safe-key-12345678",
            "--note",
            &"x".repeat(513),
        ])),
        Err(ParseError::InvalidNote)
    );
}

#[test]
fn operation_keys_match_the_broker_opaque_key_contract() {
    for key in ["short-key", "contains.dot-123456", "contains/slash-1234"] {
        assert_eq!(
            parse_package_install(&arguments(&["package", "install", "ffmpeg", "--operation-key", key,])),
            Err(ParseError::InvalidOperationKey),
            "{key}"
        );
    }
}

#[test]
fn parser_errors_and_unavailable_responses_do_not_echo_input() {
    let secret_like_input = "https://attacker.invalid/token";
    let parsed = parse_package_install(&arguments(&[
        "package",
        "install",
        secret_like_input,
        "--operation-key",
        "safe-key-12345678",
    ]));
    assert_eq!(parsed, Err(ParseError::InvalidPackageName));

    let requester_json = broker_unavailable_json();
    let admin_json = admin_unavailable_json();
    assert_eq!(
        requester_json,
        r#"{"ok":false,"error":{"code":"temporarily_unavailable","message":"local broker RPC is not implemented"}}"#
    );
    assert_eq!(
        admin_json,
        r#"{"ok":false,"error":{"code":"temporarily_unavailable","message":"root administration RPC is not implemented"}}"#
    );
    assert!(!requester_json.contains(secret_like_input));
    assert_eq!(
        parse_error_json(ParseError::InvalidPackageName),
        r#"{"ok":false,"error":{"code":"invalid_package_name","message":"package name must be a Debian binary package base name"}}"#
    );
    assert_eq!(
        invalid_arguments_json(),
        r#"{"ok":false,"error":{"code":"invalid_arguments","message":"arguments must be valid UTF-8"}}"#
    );
}

#[test]
fn admin_boundary_reserves_only_known_actions() {
    assert_eq!(parse_admin_command(&arguments(&["start-pairing"])), Ok(AdminCommand::StartPairing));
    assert_eq!(parse_admin_command(&arguments(&["start-pairing", "extra"])), Err(ParseError::UnexpectedArgument));
    assert_eq!(parse_admin_command(&arguments(&["sudo"])), Err(ParseError::UnsupportedAdminCommand));
}

#[test]
fn missing_values_and_commands_are_reported() {
    assert_eq!(parse_package_install(&arguments(&["package"])), Err(ParseError::InvalidCommand));
    assert_eq!(parse_package_install(&arguments(&["package", "remove", "x"])), Err(ParseError::InvalidCommand));
    assert_eq!(parse_package_install(&arguments(&["package", "install"])), Err(ParseError::MissingValue));
    assert_eq!(parse_package_install(&arguments(&["package", "install", "ffmpeg"])), Err(ParseError::MissingValue));
    assert_eq!(
        parse_package_install(&arguments(&["package", "install", "ffmpeg", "--operation-key"])),
        Err(ParseError::MissingValue)
    );
    assert_eq!(
        parse_package_install(&arguments(&[
            "package",
            "install",
            "ffmpeg",
            "--operation-key",
            "safe-key-12345678",
            "--note"
        ])),
        Err(ParseError::MissingValue)
    );
    assert_eq!(
        parse_package_install(&arguments(&[
            "package",
            "install",
            "ffmpeg",
            "--operation-key",
            "safe-key-12345678",
            "--note",
            "bad\u{7}bell"
        ])),
        Err(ParseError::InvalidNote)
    );
    let parsed =
        parse_package_install(&arguments(&["package", "install", "0ad", "--operation-key", "safe_key_12345678"]))
            .unwrap();
    assert_eq!(parsed.note, None);
    assert_eq!(ParseError::UnsupportedAdminCommand.code(), "invalid_command");
    assert_eq!(parse_admin_command(&arguments(&["unenroll"])), Ok(AdminCommand::Unenroll));
}
