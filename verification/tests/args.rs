use peanut::args::{
    command_for, get_key, get_key_arg, hash_key, parse, read_verb, same_text, ArgError, Command,
    KeyArg, KeyPlan, Mode, Parsed, Verb,
};

const SECRET: [u8; 32] = [
    43, 184, 13, 83, 123, 29, 163, 227, 139, 211, 3, 97, 170, 133, 86, 134, 189, 224, 234, 205,
    113, 98, 254, 246, 162, 95, 233, 123, 245, 39, 162, 91,
];

const DEAD_BEEF: [u8; 32] = [
    95, 120, 195, 50, 116, 228, 63, 169, 222, 86, 89, 38, 92, 29, 145, 126, 37, 192, 55, 34, 220,
    176, 184, 210, 125, 184, 213, 254, 170, 129, 57, 83,
];

fn args(words: &[&str]) -> Vec<String> {
    words.iter().map(|w| w.to_string()).collect()
}

fn ready(plan: KeyPlan) -> [u8; 32] {
    match plan {
        KeyPlan::Ready(key) => key,
        _ => panic!("no key"),
    }
}

fn refused(plan: KeyPlan) -> ArgError {
    match plan {
        KeyPlan::Fail(e) => e,
        _ => panic!("not refused"),
    }
}

#[test]
fn any_beginning_of_a_command_names_it() {
    for word in ["encrypt", "encryp", "enc", "e", ""] {
        assert_eq!(read_verb(word), Some(Verb::Encrypt), "{word:?}");
    }
    for word in ["decrypt", "dec", "d"] {
        assert_eq!(read_verb(word), Some(Verb::Decrypt), "{word:?}");
    }
    for word in ["help", "hel", "h"] {
        assert_eq!(read_verb(word), Some(Verb::Help), "{word:?}");
    }
    for word in ["encrypts", "x", "crypt", "Encrypt", "helpp", "-h", "é"] {
        assert_eq!(read_verb(word), None, "{word:?}");
    }
}

#[test]
fn texts_compare_by_their_characters() {
    assert!(same_text("", ""));
    assert!(same_text("--key", "--key"));
    assert!(!same_text("--key", "--ke"));
    assert!(!same_text("-k", "-K"));
    assert!(!same_text("a", ""));
}

#[test]
fn raw_key_is_hashed_as_written() {
    assert_eq!(ready(get_key("raw:secret")), SECRET);
    assert_eq!(hash_key(b"secret"), SECRET);
    assert_ne!(ready(get_key("raw:")), SECRET);
    assert_eq!(ready(get_key("raw:")), hash_key(b""));
    assert_eq!(ready(get_key("raw:hé")), hash_key("hé".as_bytes()));
}

#[test]
fn hex_key_is_decoded_then_hashed() {
    assert_eq!(ready(get_key("hex:deadbeef")), DEAD_BEEF);
    assert_eq!(ready(get_key("hex:DEADbeEF")), DEAD_BEEF);
    assert_eq!(hash_key(&[0xde, 0xad, 0xbe, 0xef]), DEAD_BEEF);
    assert_eq!(ready(get_key("hex:")), hash_key(b""));
    assert_eq!(ready(get_key("hex:00ff10")), hash_key(&[0x00, 0xff, 0x10]));
    assert_eq!(refused(get_key("hex:abc")), ArgError::InvalidHex);
    assert_eq!(refused(get_key("hex:zz")), ArgError::InvalidHex);
    assert_eq!(refused(get_key("hex:0g")), ArgError::InvalidHex);
    assert_eq!(refused(get_key("hex:é")), ArgError::InvalidHex);
    assert_eq!(refused(get_key("hex: 00")), ArgError::InvalidHex);
}

#[test]
fn base64_key_is_decoded_then_hashed() {
    assert_eq!(ready(get_key("b64:3q2+7w==")), DEAD_BEEF);
    assert_eq!(ready(get_key("b64:c2VjcmV0")), SECRET);
    assert_eq!(ready(get_key("b64:")), hash_key(b""));
    assert_eq!(refused(get_key("b64:3q2+7w")), ArgError::InvalidBase64);
    assert_eq!(refused(get_key("b64:3q2-7w==")), ArgError::InvalidBase64);
    assert_eq!(refused(get_key("b64:!!!!")), ArgError::InvalidBase64);
}

#[test]
fn key_file_is_left_to_the_caller() {
    assert!(matches!(get_key("src:/etc/key"), KeyPlan::Read(path) if path == "/etc/key"));
    assert!(matches!(get_key("src:"), KeyPlan::Read(path) if path.is_empty()));
    assert!(matches!(get_key("src:clé.bin"), KeyPlan::Read(path) if path == "clé.bin"));
}

#[test]
fn other_key_formats_are_refused() {
    for arg in ["", "raw", "secret", "RAW:secret", "hex", "b64;abc", " raw:x", "src", "é:"] {
        assert_eq!(refused(get_key(arg)), ArgError::UnrecognizedKeyFormat, "{arg:?}");
    }
}

#[test]
fn key_is_taken_from_the_option_or_the_environment() {
    let env = Some(String::from("raw:env"));
    assert!(matches!(get_key_arg(&args(&[]), 0, env.clone()), KeyArg::Key(k) if k == "raw:env"));
    assert!(matches!(get_key_arg(&args(&[]), 0, None), KeyArg::Fail(ArgError::MissingKey)));
    assert!(matches!(
        get_key_arg(&args(&["x", "-k", "raw:a"]), 1, env.clone()),
        KeyArg::Key(k) if k == "raw:a"
    ));
    assert!(matches!(
        get_key_arg(&args(&["--key", "raw:b"]), 0, None),
        KeyArg::Key(k) if k == "raw:b"
    ));
    assert!(matches!(get_key_arg(&args(&["-h"]), 0, None), KeyArg::Help));
    assert!(matches!(get_key_arg(&args(&["--help", "more"]), 0, env.clone()), KeyArg::Help));
    assert!(matches!(
        get_key_arg(&args(&["-k"]), 0, env.clone()),
        KeyArg::Fail(ArgError::MissingKeyValue)
    ));
    assert!(matches!(
        get_key_arg(&args(&["-k", "a", "b"]), 0, None),
        KeyArg::Fail(ArgError::TooManyArguments)
    ));
    assert!(matches!(
        get_key_arg(&args(&["--verbose"]), 0, env.clone()),
        KeyArg::Fail(ArgError::UnknownArgument)
    ));
    assert!(matches!(
        get_key_arg(&args(&["x"]), 1, env),
        KeyArg::Key(k) if k == "raw:env"
    ));
}

#[test]
fn command_carries_direction_and_key() {
    assert_eq!(command_for(Mode::Encrypt, SECRET), Command::Encrypt(SECRET));
    assert_eq!(command_for(Mode::Decrypt, DEAD_BEEF), Command::Decrypt(DEAD_BEEF));
}

#[test]
fn whole_command_lines_are_read() {
    assert!(matches!(
        parse(&args(&["encrypt", "-k", "raw:secret"]), None),
        Parsed::Run(Command::Encrypt(key)) if key == SECRET
    ));
    assert!(matches!(
        parse(&args(&["d", "--key", "hex:deadbeef"]), None),
        Parsed::Run(Command::Decrypt(key)) if key == DEAD_BEEF
    ));
    assert!(matches!(
        parse(&args(&["dec"]), Some(String::from("b64:3q2+7w=="))),
        Parsed::Run(Command::Decrypt(key)) if key == DEAD_BEEF
    ));
    assert!(matches!(
        parse(&args(&[""]), Some(String::from("raw:secret"))),
        Parsed::Run(Command::Encrypt(key)) if key == SECRET
    ));
    assert!(matches!(
        parse(&args(&["enc", "-k", "src:key.bin"]), None),
        Parsed::ReadKey(Mode::Encrypt, path) if path == "key.bin"
    ));
    assert!(matches!(
        parse(&args(&["decrypt"]), Some(String::from("src:/k"))),
        Parsed::ReadKey(Mode::Decrypt, path) if path == "/k"
    ));
}

#[test]
fn help_is_asked_for_by_verb_or_option() {
    assert!(matches!(parse(&args(&["help"]), None), Parsed::Help(None)));
    assert!(matches!(parse(&args(&["h", "anything"]), None), Parsed::Help(None)));
    assert!(matches!(parse(&args(&["encrypt", "-h"]), None), Parsed::Help(Some(Mode::Encrypt))));
    assert!(matches!(
        parse(&args(&["decrypt", "--help"]), Some(String::from("raw:x"))),
        Parsed::Help(Some(Mode::Decrypt))
    ));
}

#[test]
fn bad_command_lines_are_refused() {
    assert!(matches!(parse(&args(&[]), None), Parsed::Fail(None, ArgError::CommandMissing)));
    assert!(matches!(
        parse(&args(&[]), Some(String::from("raw:x"))),
        Parsed::Fail(None, ArgError::CommandMissing)
    ));
    assert!(matches!(
        parse(&args(&["list"]), None),
        Parsed::Fail(None, ArgError::UnrecognizedCommand)
    ));
    assert!(matches!(
        parse(&args(&["encrypt"]), None),
        Parsed::Fail(Some(Mode::Encrypt), ArgError::MissingKey)
    ));
    assert!(matches!(
        parse(&args(&["decrypt", "-k"]), None),
        Parsed::Fail(Some(Mode::Decrypt), ArgError::MissingKeyValue)
    ));
    assert!(matches!(
        parse(&args(&["encrypt", "-k", "raw:a", "b"]), None),
        Parsed::Fail(Some(Mode::Encrypt), ArgError::TooManyArguments)
    ));
    assert!(matches!(
        parse(&args(&["encrypt", "raw:a"]), None),
        Parsed::Fail(Some(Mode::Encrypt), ArgError::UnknownArgument)
    ));
    assert!(matches!(
        parse(&args(&["encrypt", "-k", "plain"]), None),
        Parsed::Fail(Some(Mode::Encrypt), ArgError::UnrecognizedKeyFormat)
    ));
    assert!(matches!(
        parse(&args(&["decrypt", "-k", "hex:xyz"]), None),
        Parsed::Fail(Some(Mode::Decrypt), ArgError::InvalidHex)
    ));
    assert!(matches!(
        parse(&args(&["decrypt", "-k", "b64:*"]), None),
        Parsed::Fail(Some(Mode::Decrypt), ArgError::InvalidBase64)
    ));
}
