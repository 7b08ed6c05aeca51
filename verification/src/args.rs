//! The command line: which command is asked for, and under which key.

use crate::cipher::{digest, sha256};
use crate::encoding::{base64_decode, base64_decoded, hex_decode, unhexed};
use crate::text::{chars_of, is_prefix, same_chars, starts_with};
use vstd::prelude::*;
use vstd::string::StrSliceExecFns;
use vstd::utf8::encode_utf8;

verus! {

/// What the program is asked to do, with the master key to do it under.
#[derive(Clone, Debug, PartialEq, Eq)]
pub enum Command {
    /// Compress and encrypt.
    Encrypt([u8; 32]),
    /// Decrypt and decompress.
    Decrypt([u8; 32]),
}

/// The direction of a command.
#[derive(Clone, Copy, Debug, PartialEq, Eq, Structural)]
pub enum Mode {
    /// Compress and encrypt.
    Encrypt,
    /// Decrypt and decompress.
    Decrypt,
}

/// What the first argument asks for.
#[derive(Clone, Copy, Debug, PartialEq, Eq, Structural)]
pub enum Verb {
    /// Compress and encrypt.
    Encrypt,
    /// Decrypt and decompress.
    Decrypt,
    /// Print the general help.
    Help,
}

/// Why a command line was refused.
#[derive(Clone, Copy, Debug, PartialEq, Eq, Structural)]
pub enum ArgError {
    /// No command was given.
    CommandMissing,
    /// The first argument begins no command's name.
    UnrecognizedCommand,
    /// The key option stands last, without its value.
    MissingKeyValue,
    /// Something follows the key.
    TooManyArguments,
    /// An option that the command does not have.
    UnknownArgument,
    /// No key option was given and the environment holds no key.
    MissingKey,
    /// The key begins with none of `raw:`, `hex:`, `b64:`, `src:`.
    UnrecognizedKeyFormat,
    /// The text after `hex:` is no hexadecimal string.
    InvalidHex,
    /// The text after `b64:` is no base64 string.
    InvalidBase64,
}

/// Bytes of a key's prefix, colon included.
pub const PREFIX_LEN: usize = 4;

/// The verb that `word` names. Any beginning of a command's name stands for the
/// command, the empty word too; where several fit, `encrypt` comes before `decrypt`
/// and `decrypt` before `help`.
pub open spec fn verb_of(word: Seq<char>) -> Option<Verb> {
    if is_prefix(word, "encrypt"@) {
        Some(Verb::Encrypt)
    } else if is_prefix(word, "decrypt"@) {
        Some(Verb::Decrypt)
    } else if is_prefix(word, "help"@) {
        Some(Verb::Help)
    } else {
        None
    }
}

/// Reads the first argument as a verb.
pub fn read_verb(word: &str) -> (r: Option<Verb>)
    ensures
        r == verb_of(word@),
{
    let given = chars_of(word);
    if starts_with(chars_of("encrypt").as_slice(), given.as_slice()) {
        Some(Verb::Encrypt)
    } else if starts_with(chars_of("decrypt").as_slice(), given.as_slice()) {
        Some(Verb::Decrypt)
    } else if starts_with(chars_of("help").as_slice(), given.as_slice()) {
        Some(Verb::Help)
    } else {
        None
    }
}

/// Tells whether two texts are the same.
pub fn same_text(a: &str, b: &str) -> (r: bool)
    ensures
        r == (a@ == b@),
{
    same_chars(chars_of(a).as_slice(), chars_of(b).as_slice())
}

/// What the options after the command say of the key, as mathematics.
pub enum KeyChoice {
    /// The key, still in its written form.
    Key(Seq<char>),
    /// Help was asked for.
    Help,
    /// The options were refused.
    Fail(ArgError),
}

/// What the options after the command say of the key.
pub enum KeyArg {
    /// The key, still in its written form.
    Key(String),
    /// Help was asked for.
    Help,
    /// The options were refused.
    Fail(ArgError),
}

impl KeyArg {
    /// The choice as mathematics.
    pub open spec fn view(&self) -> KeyChoice {
        match self {
            KeyArg::Key(key) => KeyChoice::Key(key@),
            KeyArg::Help => KeyChoice::Help,
            KeyArg::Fail(e) => KeyChoice::Fail(*e),
        }
    }
}

/// The texts of a run of arguments.
pub open spec fn texts(args: Seq<String>) -> Seq<Seq<char>> {
    args.map_values(|s: String| s@)
}

/// What `options`, the arguments after the command, say of the key. With no options
/// the key is the one from the environment. `-h` or `--help` in the first place asks
/// for help. `-k` or `--key` takes the next argument as the key and allows nothing
/// after it. Anything else is refused.
pub open spec fn key_choice(options: Seq<Seq<char>>, env_key: Option<Seq<char>>) -> KeyChoice {
    if options.len() == 0 {
        match env_key {
            Some(key) => KeyChoice::Key(key),
            None => KeyChoice::Fail(ArgError::MissingKey),
        }
    } else if options[0] == "-h"@ || options[0] == "--help"@ {
        KeyChoice::Help
    } else if options[0] == "-k"@ || options[0] == "--key"@ {
        if options.len() == 1 {
            KeyChoice::Fail(ArgError::MissingKeyValue)
        } else if options.len() > 2 {
            KeyChoice::Fail(ArgError::TooManyArguments)
        } else {
            KeyChoice::Key(options[1])
        }
    } else {
        KeyChoice::Fail(ArgError::UnknownArgument)
    }
}

/// Finds the key among the arguments from `from` on, or in the environment.
pub fn get_key_arg(args: &[String], from: usize, env_key: Option<String>) -> (r: KeyArg)
    requires
        from <= args@.len(),
    ensures
        r@ == key_choice(
            texts(args@).skip(from as int),
            match env_key {
                Some(key) => Some(key@),
                None => None,
            },
        ),
{
    let ghost options = texts(args@).skip(from as int);
    if from == args.len() {
        return match env_key {
            Some(key) => KeyArg::Key(key),
            None => KeyArg::Fail(ArgError::MissingKey),
        };
    }
    let option = args[from].as_str();
    assert(options[0] == option@);
    if same_text(option, "-h") || same_text(option, "--help") {
        return KeyArg::Help;
    }
    if same_text(option, "-k") || same_text(option, "--key") {
        if args.len() - from == 1 {
            return KeyArg::Fail(ArgError::MissingKeyValue);
        }
        if args.len() - from > 2 {
            return KeyArg::Fail(ArgError::TooManyArguments);
        }
        assert(options[1] == args@[from + 1]@);
        return KeyArg::Key(args[from + 1].clone());
    }
    KeyArg::Fail(ArgError::UnknownArgument)
}

/// Where a master key comes from, as mathematics.
pub enum KeyOrigin {
    /// The key itself.
    Ready(Seq<u8>),
    /// The key is the digest of the contents of the file at this path.
    Read(Seq<char>),
    /// The written form was refused.
    Fail(ArgError),
}

/// Where a master key comes from.
pub enum KeyPlan {
    /// The key itself.
    Ready([u8; 32]),
    /// The key is the digest of the contents of the file at this path.
    Read(String),
    /// The written form was refused.
    Fail(ArgError),
}

impl KeyPlan {
    /// The plan as mathematics.
    pub open spec fn view(&self) -> KeyOrigin {
        match self {
            KeyPlan::Ready(key) => KeyOrigin::Ready(key@),
            KeyPlan::Read(path) => KeyOrigin::Read(path@),
            KeyPlan::Fail(e) => KeyOrigin::Fail(*e),
        }
    }
}

/// The master key that a written key stands for. The key is always a SHA-256 digest:
/// after `raw:` of the text itself, after `hex:` and `b64:` of the bytes that the text
/// spells, after `src:` of the contents of the file that the text names.
pub open spec fn key_origin(arg: Seq<char>) -> KeyOrigin {
    let rest = arg.skip(PREFIX_LEN as int);
    if is_prefix("raw:"@, arg) {
        KeyOrigin::Ready(digest(encode_utf8(rest)))
    } else if is_prefix("hex:"@, arg) {
        match unhexed(encode_utf8(rest)) {
            Some(bytes) => KeyOrigin::Ready(digest(bytes)),
            None => KeyOrigin::Fail(ArgError::InvalidHex),
        }
    } else if is_prefix("b64:"@, arg) {
        match base64_decoded(encode_utf8(rest)) {
            Some(bytes) => KeyOrigin::Ready(digest(bytes)),
            None => KeyOrigin::Fail(ArgError::InvalidBase64),
        }
    } else if is_prefix("src:"@, arg) {
        KeyOrigin::Read(rest)
    } else {
        KeyOrigin::Fail(ArgError::UnrecognizedKeyFormat)
    }
}

/// The master key that the contents of a key file give: their SHA-256 digest.
pub fn hash_key(material: &[u8]) -> (r: [u8; 32])
    ensures
        r@ == digest(material@),
{
    sha256(material)
}

/// Reads a written key.
pub fn get_key(arg: &str) -> (r: KeyPlan)
    ensures
        r@ == key_origin(arg@),
{
    let given = chars_of(arg);
    let total: usize = given.len();
    proof {
        reveal_strlit("raw:");
        reveal_strlit("hex:");
        reveal_strlit("b64:");
        reveal_strlit("src:");
    }
    let raw = starts_with(given.as_slice(), chars_of("raw:").as_slice());
    let hex = starts_with(given.as_slice(), chars_of("hex:").as_slice());
    let b64 = starts_with(given.as_slice(), chars_of("b64:").as_slice());
    let src = starts_with(given.as_slice(), chars_of("src:").as_slice());
    if !(raw || hex || b64 || src) {
        return KeyPlan::Fail(ArgError::UnrecognizedKeyFormat);
    }
    let rest = arg.substring_char(PREFIX_LEN, total);
    assert(rest@ =~= arg@.skip(PREFIX_LEN as int));
    if raw {
        KeyPlan::Ready(sha256(rest.as_bytes()))
    } else if hex {
        match hex_decode(rest.as_bytes()) {
            Some(bytes) => KeyPlan::Ready(sha256(bytes.as_slice())),
            None => KeyPlan::Fail(ArgError::InvalidHex),
        }
    } else if b64 {
        match base64_decode(rest.as_bytes()) {
            Some(bytes) => KeyPlan::Ready(sha256(bytes.as_slice())),
            None => KeyPlan::Fail(ArgError::InvalidBase64),
        }
    } else {
        KeyPlan::Read(rest.to_owned())
    }
}

/// What a command line asks for, as mathematics.
pub enum Request {
    /// Run in this direction under this master key.
    Run(Mode, Seq<u8>),
    /// Read the key file at this path, then run in this direction.
    ReadKey(Mode, Seq<char>),
    /// Print the help of a command, or the general help.
    Help(Option<Mode>),
    /// Refuse the command line; the mode says whose help goes with the message.
    Fail(Option<Mode>, ArgError),
}

/// What a command line asks for.
pub enum Parsed {
    /// Run this command.
    Run(Command),
    /// Read the key file at this path, then run in this direction.
    ReadKey(Mode, String),
    /// Print the help of a command, or the general help.
    Help(Option<Mode>),
    /// Refuse the command line; the mode says whose help goes with the message.
    Fail(Option<Mode>, ArgError),
}

impl Parsed {
    /// The request as mathematics.
    pub open spec fn view(&self) -> Request {
        match self {
            Parsed::Run(Command::Encrypt(key)) => Request::Run(Mode::Encrypt, key@),
            Parsed::Run(Command::Decrypt(key)) => Request::Run(Mode::Decrypt, key@),
            Parsed::ReadKey(mode, path) => Request::ReadKey(*mode, path@),
            Parsed::Help(mode) => Request::Help(*mode),
            Parsed::Fail(mode, e) => Request::Fail(*mode, *e),
        }
    }
}

/// What the key options of a command in direction `mode` ask for.
pub open spec fn keyed_request(mode: Mode, choice: KeyChoice) -> Request {
    match choice {
        KeyChoice::Help => Request::Help(Some(mode)),
        KeyChoice::Fail(e) => Request::Fail(Some(mode), e),
        KeyChoice::Key(arg) => match key_origin(arg) {
            KeyOrigin::Ready(key) => Request::Run(mode, key),
            KeyOrigin::Read(path) => Request::ReadKey(mode, path),
            KeyOrigin::Fail(e) => Request::Fail(Some(mode), e),
        },
    }
}

/// What the arguments after the program's name ask for, with `env_key` the key that
/// the environment holds.
pub open spec fn request(args: Seq<Seq<char>>, env_key: Option<Seq<char>>) -> Request {
    if args.len() == 0 {
        Request::Fail(None, ArgError::CommandMissing)
    } else {
        match verb_of(args[0]) {
            None => Request::Fail(None, ArgError::UnrecognizedCommand),
            Some(Verb::Help) => Request::Help(None),
            Some(Verb::Encrypt) => keyed_request(Mode::Encrypt, key_choice(args.skip(1), env_key)),
            Some(Verb::Decrypt) => keyed_request(Mode::Decrypt, key_choice(args.skip(1), env_key)),
        }
    }
}

/// The command in direction `mode` under `key`.
pub fn command_for(mode: Mode, key: [u8; 32]) -> (r: Command)
    ensures
        Parsed::Run(r)@ == Request::Run(mode, key@),
{
    match mode {
        Mode::Encrypt => Command::Encrypt(key),
        Mode::Decrypt => Command::Decrypt(key),
    }
}

/// Reads the arguments after the program's name.
pub fn parse(args: &[String], env_key: Option<String>) -> (r: Parsed)
    ensures
        r@ == request(
            texts(args@),
            match env_key {
                Some(key) => Some(key@),
                None => None,
            },
        ),
{
    if args.len() == 0 {
        return Parsed::Fail(None, ArgError::CommandMissing);
    }
    assert(texts(args@)[0] == args@[0]@);
    let mode = match read_verb(args[0].as_str()) {
        None => {
            return Parsed::Fail(None, ArgError::UnrecognizedCommand);
        },
        Some(Verb::Help) => {
            return Parsed::Help(None);
        },
        Some(Verb::Encrypt) => Mode::Encrypt,
        Some(Verb::Decrypt) => Mode::Decrypt,
    };
    match get_key_arg(args, 1, env_key) {
        KeyArg::Help => Parsed::Help(Some(mode)),
        KeyArg::Fail(e) => Parsed::Fail(Some(mode), e),
        KeyArg::Key(arg) => match get_key(arg.as_str()) {
            KeyPlan::Ready(key) => Parsed::Run(command_for(mode, key)),
            KeyPlan::Read(path) => Parsed::ReadKey(mode, path),
            KeyPlan::Fail(e) => Parsed::Fail(Some(mode), e),
        },
    }
}

} // verus!
