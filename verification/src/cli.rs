//! Strict command parsing for RootPermit clients: one typed requester
//! operation, the reserved root administration names, and fixed one-line JSON
//! answers that never echo their input.

use vstd::prelude::*;
use vstd::string::*;
use vstd::utf8::*;

verus! {

/// The only requester operation the client admits.
#[derive(Debug, PartialEq, Eq)]
pub struct PackageInstallRequest {
    /// A Debian binary package base name, never a version or architecture.
    pub package_name: String,
    /// Caller-selected idempotency key.
    pub operation_key: String,
    /// Bounded untrusted display text.
    pub note: Option<String>,
}

/// Root administration names reserved for the root-controlled client.
#[derive(Clone, Copy, Debug, PartialEq, Eq)]
pub enum AdminCommand {
    StartPairing,
    ChangeCredentials,
    Reconcile,
    Export,
    Purge,
    Unenroll,
}

/// Safe, bounded parser failures.
#[derive(Clone, Copy, Debug, PartialEq, Eq)]
pub enum ParseError {
    InvalidCommand,
    InvalidPackageName,
    InvalidOperationKey,
    InvalidNote,
    MissingValue,
    UnexpectedArgument,
    UnsupportedAdminCommand,
}

/// The stable code of a parser failure.
pub open spec fn error_code(e: ParseError) -> Seq<char> {
    match e {
        ParseError::InvalidCommand | ParseError::UnsupportedAdminCommand => "invalid_command"@,
        ParseError::InvalidPackageName => "invalid_package_name"@,
        ParseError::InvalidOperationKey => "invalid_operation_key"@,
        ParseError::InvalidNote => "invalid_note"@,
        ParseError::MissingValue | ParseError::UnexpectedArgument => "invalid_arguments"@,
    }
}

/// The fixed message of a parser failure.
pub open spec fn error_message(e: ParseError) -> Seq<char> {
    match e {
        ParseError::InvalidCommand => "only package install is supported"@,
        ParseError::InvalidPackageName => "package name must be a Debian binary package base name"@,
        ParseError::InvalidOperationKey => "operation key has an invalid format"@,
        ParseError::InvalidNote => "note exceeds the safe text contract"@,
        ParseError::MissingValue => "a required argument value is missing"@,
        ParseError::UnexpectedArgument => "unknown flag or unexpected argument"@,
        ParseError::UnsupportedAdminCommand => "unknown root administration command"@,
    }
}

impl ParseError {
    pub fn code(self) -> (r: &'static str)
        ensures
            r@ == error_code(self),
    {
        match self {
            ParseError::InvalidCommand | ParseError::UnsupportedAdminCommand => "invalid_command",
            ParseError::InvalidPackageName => "invalid_package_name",
            ParseError::InvalidOperationKey => "invalid_operation_key",
            ParseError::InvalidNote => "invalid_note",
            ParseError::MissingValue | ParseError::UnexpectedArgument => "invalid_arguments",
        }
    }

    pub fn message(self) -> (r: &'static str)
        ensures
            r@ == error_message(self),
    {
        match self {
            ParseError::InvalidCommand => "only package install is supported",
            ParseError::InvalidPackageName => "package name must be a Debian binary package base name",
            ParseError::InvalidOperationKey => "operation key has an invalid format",
            ParseError::InvalidNote => "note exceeds the safe text contract",
            ParseError::MissingValue => "a required argument value is missing",
            ParseError::UnexpectedArgument => "unknown flag or unexpected argument",
            ParseError::UnsupportedAdminCommand => "unknown root administration command",
        }
    }
}

/// Whether bytes are a Debian binary package base name as the client admits
/// it: 2 to 64 bytes of lowercase letters, digits, `+`, `-` and `.`, starting
/// with a lowercase letter or digit.
pub open spec fn binary_package_name(b: Seq<u8>) -> bool {
    &&& 2 <= b.len() <= 64
    &&& ((0x61 <= b[0] <= 0x7a) || (0x30 <= b[0] <= 0x39))
    &&& forall|i: int| 0 <= i < b.len() ==> {
        let c = #[trigger] b[i];
        (0x61 <= c <= 0x7a) || (0x30 <= c <= 0x39) || c == 0x2b || c == 0x2d || c == 0x2e
    }
}

/// Whether bytes are an opaque operation key: 16 to 128 ASCII letters,
/// digits, `-` and `_`.
pub open spec fn operation_key(b: Seq<u8>) -> bool {
    &&& 16 <= b.len() <= 128
    &&& forall|i: int| 0 <= i < b.len() ==> {
        let c = #[trigger] b[i];
        (0x61 <= c <= 0x7a) || (0x41 <= c <= 0x5a) || (0x30 <= c <= 0x39) || c == 0x2d || c == 0x5f
    }
}

/// Whether a character is a Unicode control code (general category Cc).
pub open spec fn is_control(c: char) -> bool {
    (c as u32) <= 0x1f || (0x7f <= (c as u32) && (c as u32) <= 0x9f)
}

/// Whether text is a safe note: at most 512 UTF-8 bytes, no control code.
pub open spec fn safe_note(t: Seq<char>) -> bool {
    &&& encode_utf8(t).len() <= 512
    &&& forall|i: int| 0 <= i < t.len() ==> !is_control(#[trigger] t[i])
}

/// The texts of the arguments.
pub open spec fn argument_texts(a: Seq<String>) -> Seq<Seq<char>> {
    a.map_values(|s: String| s@)
}

/// What the requester parser answers: the package name, operation key and
/// note, or the first failure, in argument order.
pub open spec fn spec_parse_package_install(a: Seq<Seq<char>>) -> Result<(Seq<char>, Seq<char>, Option<Seq<char>>), ParseError> {
    if !(a.len() > 1 && a[0] == "package"@ && a[1] == "install"@) {
        Err(ParseError::InvalidCommand)
    } else if a.len() <= 2 {
        Err(ParseError::MissingValue)
    } else if !binary_package_name(encode_utf8(a[2])) {
        Err(ParseError::InvalidPackageName)
    } else if !(a.len() > 3 && a[3] == "--operation-key"@) {
        if a.len() > 3 { Err(ParseError::UnexpectedArgument) } else { Err(ParseError::MissingValue) }
    } else if a.len() <= 4 {
        Err(ParseError::MissingValue)
    } else if !operation_key(encode_utf8(a[4])) {
        Err(ParseError::InvalidOperationKey)
    } else if a.len() == 5 {
        Ok((a[2], a[4], None))
    } else if a[5] != "--note"@ {
        Err(ParseError::UnexpectedArgument)
    } else if a.len() <= 6 {
        Err(ParseError::MissingValue)
    } else if !safe_note(a[6]) {
        Err(ParseError::InvalidNote)
    } else if a.len() != 7 {
        Err(ParseError::UnexpectedArgument)
    } else {
        Ok((a[2], a[4], Some(a[6])))
    }
}

/// What the administration parser answers.
pub open spec fn spec_parse_admin_command(a: Seq<Seq<char>>) -> Result<AdminCommand, ParseError> {
    if a.len() != 1 {
        Err(ParseError::UnexpectedArgument)
    } else if a[0] == "start-pairing"@ {
        Ok(AdminCommand::StartPairing)
    } else if a[0] == "change-credentials"@ {
        Ok(AdminCommand::ChangeCredentials)
    } else if a[0] == "reconcile"@ {
        Ok(AdminCommand::Reconcile)
    } else if a[0] == "export"@ {
        Ok(AdminCommand::Export)
    } else if a[0] == "purge"@ {
        Ok(AdminCommand::Purge)
    } else if a[0] == "unenroll"@ {
        Ok(AdminCommand::Unenroll)
    } else {
        Err(ParseError::UnsupportedAdminCommand)
    }
}

/// Whether a string holds exactly the text of a literal.
fn text_is(value: &String, literal: &str) -> (r: bool)
    ensures
        r == (value@ == literal@),
{
    let l = literal.to_owned();
    *value == l
}

/// Whether bytes are a binary package base name.
pub fn is_binary_package_name(b: &[u8]) -> (r: bool)
    ensures
        r == binary_package_name(b@),
{
    if b.len() < 2 || b.len() > 64 {
        return false;
    }
    if !((0x61 <= b[0] && b[0] <= 0x7a) || (0x30 <= b[0] && b[0] <= 0x39)) {
        return false;
    }
    let mut i: usize = 0;
    while i < b.len()
        invariant
            i <= b@.len(),
            forall|j: int| 0 <= j < i ==> {
                let c = #[trigger] b@[j];
                (0x61 <= c <= 0x7a) || (0x30 <= c <= 0x39) || c == 0x2b || c == 0x2d || c == 0x2e
            },
        decreases b@.len() - i,
    {
        let c = b[i];
        if !((0x61 <= c && c <= 0x7a) || (0x30 <= c && c <= 0x39) || c == 0x2b || c == 0x2d || c == 0x2e) {
            return false;
        }
        i = i + 1;
    }
    true
}

/// Whether bytes are an opaque operation key.
pub fn is_operation_key(b: &[u8]) -> (r: bool)
    ensures
        r == operation_key(b@),
{
    if b.len() < 16 || b.len() > 128 {
        return false;
    }
    let mut i: usize = 0;
    while i < b.len()
        invariant
            i <= b@.len(),
            forall|j: int| 0 <= j < i ==> {
                let c = #[trigger] b@[j];
                (0x61 <= c <= 0x7a) || (0x41 <= c <= 0x5a) || (0x30 <= c <= 0x39) || c == 0x2d || c == 0x5f
            },
        decreases b@.len() - i,
    {
        let c = b[i];
        if !((0x61 <= c && c <= 0x7a) || (0x41 <= c && c <= 0x5a) || (0x30 <= c && c <= 0x39) || c == 0x2d || c == 0x5f) {
            return false;
        }
        i = i + 1;
    }
    true
}

/// Whether text is a safe note.
pub fn is_safe_note(value: &String) -> (r: bool)
    ensures
        r == safe_note(value@),
{
    if value.as_str().as_bytes().len() > 512 {
        return false;
    }
    let n = value.as_str().unicode_len();
    let mut i: usize = 0;
    while i < n
        invariant
            n == value@.len(),
            i <= n,
            encode_utf8(value@).len() <= 512,
            forall|j: int| 0 <= j < i ==> !is_control(#[trigger] value@[j]),
        decreases n - i,
    {
        let c = value.as_str().get_char(i);
        let u = c as u32;
        if u <= 0x1f || (0x7f <= u && u <= 0x9f) {
            return false;
        }
        i = i + 1;
    }
    true
}

/// Parses exactly `package install <name> --operation-key <key> [--note <text>]`;
/// no other order, alias or flag is accepted.
pub fn parse_package_install(arguments: &[String]) -> (r: Result<PackageInstallRequest, ParseError>)
    ensures
        match spec_parse_package_install(argument_texts(arguments@)) {
            Ok((name, key, note)) => r matches Ok(x) && x.package_name@ == name && x.operation_key@ == key
                && match x.note { Some(t) => note == Some(t@), None => note is None },
            Err(e) => r == Err::<PackageInstallRequest, ParseError>(e),
        },
{
    let ghost a = argument_texts(arguments@);
    let n = arguments.len();
    if !(n > 1 && text_is(&arguments[0], "package") && text_is(&arguments[1], "install")) {
        return Err(ParseError::InvalidCommand);
    }
    if n <= 2 {
        return Err(ParseError::MissingValue);
    }
    let package_name = &arguments[2];
    if !is_binary_package_name(package_name.as_str().as_bytes()) {
        return Err(ParseError::InvalidPackageName);
    }
    if !(n > 3 && text_is(&arguments[3], "--operation-key")) {
        if n > 3 {
            return Err(ParseError::UnexpectedArgument);
        }
        return Err(ParseError::MissingValue);
    }
    if n <= 4 {
        return Err(ParseError::MissingValue);
    }
    let operation_key = &arguments[4];
    if !is_operation_key(operation_key.as_str().as_bytes()) {
        return Err(ParseError::InvalidOperationKey);
    }
    if n == 5 {
        return Ok(PackageInstallRequest {
            package_name: package_name.clone(),
            operation_key: operation_key.clone(),
            note: None,
        });
    }
    if !text_is(&arguments[5], "--note") {
        return Err(ParseError::UnexpectedArgument);
    }
    if n <= 6 {
        return Err(ParseError::MissingValue);
    }
    let note = &arguments[6];
    if !is_safe_note(note) {
        return Err(ParseError::InvalidNote);
    }
    if n != 7 {
        return Err(ParseError::UnexpectedArgument);
    }
    Ok(PackageInstallRequest {
        package_name: package_name.clone(),
        operation_key: operation_key.clone(),
        note: Some(note.clone()),
    })
}

/// Parses a reserved root administration name; it has no privileged effect.
pub fn parse_admin_command(arguments: &[String]) -> (r: Result<AdminCommand, ParseError>)
    ensures
        r == spec_parse_admin_command(argument_texts(arguments@)),
{
    if arguments.len() != 1 {
        return Err(ParseError::UnexpectedArgument);
    }
    let a = &arguments[0];
    if text_is(a, "start-pairing") {
        Ok(AdminCommand::StartPairing)
    } else if text_is(a, "change-credentials") {
        Ok(AdminCommand::ChangeCredentials)
    } else if text_is(a, "reconcile") {
        Ok(AdminCommand::Reconcile)
    } else if text_is(a, "export") {
        Ok(AdminCommand::Export)
    } else if text_is(a, "purge") {
        Ok(AdminCommand::Purge)
    } else if text_is(a, "unenroll") {
        Ok(AdminCommand::Unenroll)
    } else {
        Err(ParseError::UnsupportedAdminCommand)
    }
}

/// The one-line JSON error object with a code and a message.
pub open spec fn error_json_text(code: Seq<char>, message: Seq<char>) -> Seq<char> {
    "{\"ok\":false,\"error\":{\"code\":\""@ + code + "\",\"message\":\""@ + message + "\"}}"@
}

fn error_json(code: &str, message: &str) -> (r: String)
    ensures
        r@ == error_json_text(code@, message@),
{
    let s = String::from_str("{\"ok\":false,\"error\":{\"code\":\"");
    let s = s.concat(code);
    let s = s.concat("\",\"message\":\"");
    let s = s.concat(message);
    s.concat("\"}}")
}

/// A parser failure under the stable one-line JSON contract; the text
/// depends on the failure alone.
pub fn parse_error_json(error: ParseError) -> (r: String)
    ensures
        r@ == error_json_text(error_code(error), error_message(error)),
{
    error_json(error.code(), error.message())
}

/// The answer to arguments that are not valid UTF-8.
pub fn invalid_arguments_json() -> (r: String)
    ensures
        r@ == error_json_text("invalid_arguments"@, "arguments must be valid UTF-8"@),
{
    error_json("invalid_arguments", "arguments must be valid UTF-8")
}

/// The answer to a parsed request while no broker transport exists.
pub fn broker_unavailable_json() -> (r: String)
    ensures
        r@ == error_json_text("temporarily_unavailable"@, "local broker RPC is not implemented"@),
{
    error_json("temporarily_unavailable", "local broker RPC is not implemented")
}

/// The answer of the inert administration client.
pub fn admin_unavailable_json() -> (r: String)
    ensures
        r@ == error_json_text("temporarily_unavailable"@, "root administration RPC is not implemented"@),
{
    error_json("temporarily_unavailable", "root administration RPC is not implemented")
}

/// Whether a byte may follow the first byte of a Debian binary package
/// name: a lowercase ASCII letter, a digit, `+`, `-` or `.`.
pub open spec fn debian_name_tail_byte(c: u8) -> bool {
    (0x61u8 <= c && c <= 0x7au8) || (0x30u8 <= c && c <= 0x39u8) || c == 0x2bu8 || c == 0x2du8 || c == 0x2eu8
}

/// The package-install command accepts exactly the Debian binary package
/// names: 2 to 64 bytes, the first a lowercase letter or digit, the rest
/// lowercase letters, digits, `+`, `-` or `.`. With a well-formed operation
/// key and no note, such a name (such as `g++` or `libstdc++6`) is accepted
/// and returned unchanged; any other name is refused as an invalid package
/// name.
pub proof fn lemma_package_names(name: Seq<char>, key: Seq<char>)
    requires
        16 <= encode_utf8(key).len() <= 128,
        forall|i: int| 0 <= i < encode_utf8(key).len() ==> {
            let c = #[trigger] encode_utf8(key)[i];
            (0x61u8 <= c && c <= 0x7au8) || (0x41u8 <= c && c <= 0x5au8) || (0x30u8 <= c && c <= 0x39u8) || c == 0x2du8 || c == 0x5fu8
        },
    ensures
        ({
            let b = encode_utf8(name);
            let valid = 2 <= b.len() <= 64
                && ((0x61u8 <= b[0] && b[0] <= 0x7au8) || (0x30u8 <= b[0] && b[0] <= 0x39u8))
                && forall|i: int| 1 <= i < b.len() ==> debian_name_tail_byte(#[trigger] b[i]);
            let args = seq!["package"@, "install"@, name, "--operation-key"@, key];
            &&& valid ==> spec_parse_package_install(args) == Ok::<(Seq<char>, Seq<char>, Option<Seq<char>>), ParseError>((name, key, None))
            &&& !valid ==> spec_parse_package_install(args) == Err::<(Seq<char>, Seq<char>, Option<Seq<char>>), ParseError>(ParseError::InvalidPackageName)
        }),
{
    let b = encode_utf8(name);
    let args = seq!["package"@, "install"@, name, "--operation-key"@, key];
    assert(args[0] == "package"@ && args[1] == "install"@ && args[2] == name && args[3] == "--operation-key"@ && args[4] == key);
    assert(args.len() == 5);
    assert(operation_key(encode_utf8(key)));
    let valid = 2 <= b.len() <= 64
        && ((0x61u8 <= b[0] && b[0] <= 0x7au8) || (0x30u8 <= b[0] && b[0] <= 0x39u8))
        && forall|i: int| 1 <= i < b.len() ==> debian_name_tail_byte(#[trigger] b[i]);
    if valid {
        assert forall|i: int| 0 <= i < b.len() implies {
            let c = #[trigger] b[i];
            (0x61 <= c <= 0x7a) || (0x30 <= c <= 0x39) || c == 0x2b || c == 0x2d || c == 0x2e
        } by {
            if i >= 1 {
                assert(debian_name_tail_byte(b[i]));
            }
        }
        assert(binary_package_name(b));
    } else {
        if binary_package_name(b) {
            assert forall|i: int| 1 <= i < b.len() implies debian_name_tail_byte(#[trigger] b[i]) by {
                let c = b[i];
                assert((0x61 <= c <= 0x7a) || (0x30 <= c <= 0x39) || c == 0x2b || c == 0x2d || c == 0x2e);
            }
        }
    }
}

} // verus!
