//! Start-up configuration: the cipher kinds, the key sizes and the rules that
//! turn a command line into a validated configuration.
//!
//! Nothing here prints or terminates the process. [`parse_arguments`] says
//! what the command line asks for, [`exit_status`] says with which status a
//! process that stops there should stop, and the caller does the rest.

use crate::decimal::{parse_unsigned, parse_unsigned_spec};
use vstd::prelude::*;
use vstd::std_specs::iter::IteratorSpec;
use vstd::utf8::encode_utf8;

verus! {

/// Status of a process that stopped because it was asked for help or for
/// its version.
pub const SUCCESS: i32 = 0;

/// Status of a process that stopped on a command line it cannot serve.
pub const ERROR: i32 = 1;

/// The lowest port a server may listen on; the ports below are reserved.
pub const FIRST_FREE_PORT: u16 = 1024;

/// The cipher applied to the byte stream of every session.
#[derive(Clone, Copy, PartialEq, Eq, Structural, Debug)]
pub enum EncryptionInfo {
    AesCbc,
    AesCtr,
    /// Cryptographically weak: equal blocks encrypt to equal blocks.
    AesEcb,
    /// Cryptographically weak: the key stream is biased.
    Rc4,
}

impl EncryptionInfo {
    /// Whether the cipher is offered although it is known to be weak.
    pub open spec fn weak(self) -> bool {
        self == EncryptionInfo::AesEcb || self == EncryptionInfo::Rc4
    }

    /// Whether the cipher is offered although it is known to be weak.
    pub fn is_weak(&self) -> (weak: bool)
        ensures
            weak == self.weak(),
    {
        match self {
            EncryptionInfo::AesCbc => false,
            EncryptionInfo::AesCtr => false,
            EncryptionInfo::AesEcb => true,
            EncryptionInfo::Rc4 => true,
        }
    }
}

/// The length of the cipher key, in bits.
#[derive(Clone, Copy, PartialEq, Eq, Structural, Debug)]
pub enum KeySize {
    Size128,
    Size192,
    Size256,
}

impl KeySize {
    /// The number of bits this size stands for.
    pub open spec fn bits(self) -> nat {
        match self {
            KeySize::Size128 => 128,
            KeySize::Size192 => 192,
            KeySize::Size256 => 256,
        }
    }
}

impl From<KeySize> for usize {
    /// The number of bits of a key size.
    fn from(size: KeySize) -> (n: usize) {
        match size {
            KeySize::Size128 => 128,
            KeySize::Size192 => 192,
            KeySize::Size256 => 256,
        }
    }
}

impl vstd::std_specs::convert::FromSpecImpl<KeySize> for usize {
    open spec fn obeys_from_spec() -> bool {
        true
    }

    open spec fn from_spec(size: KeySize) -> usize {
        size.bits() as usize
    }
}

/// Why a command line, or a configuration, cannot be served.
#[derive(Clone, Copy, PartialEq, Eq, Structural, Debug)]
pub enum ArgError {
    /// More than a port, a cipher, a key size and a key were given.
    TooManyArguments,
    /// Fewer than a port, a cipher and a key size were given.
    MissingArguments,
    /// The port is a number, but one of the reserved range.
    ReservedPort,
    /// The port is no number that a port can be.
    InvalidPort,
    /// The key size is a number, but none of the sizes on offer.
    InvalidKeySize,
    /// The key size is no number at all.
    UnreadableKeySize,
    /// The cipher is none of the kinds on offer.
    InvalidEncryptionType,
    /// The key that was supplied is not as long as the key size asks.
    InvalidOptionalKey { expected: KeySize, actual_bits: u128 },
}

/// What a process was started to do.
pub struct KryptosConfig {
    pub enc_type: EncryptionInfo,
    pub key_size: KeySize,
    pub optional_key: Option<String>,
    pub port: u16,
}

/// A configuration as a mathematical value.
pub struct ConfigView {
    pub enc_type: EncryptionInfo,
    pub key_size: KeySize,
    pub optional_key: Option<Seq<char>>,
    pub port: u16,
}

/// The length of a key in bits: eight for each byte of its UTF-8 encoding.
pub open spec fn key_bit_length(key: Seq<char>) -> nat {
    8 * encode_utf8(key).len()
}

impl ConfigView {
    /// A configuration is valid unless it supplies a key whose length is not
    /// the configured key size.
    pub open spec fn valid(self) -> bool {
        match self.optional_key {
            Some(key) => key_bit_length(key) == self.key_size.bits(),
            None => true,
        }
    }
}

/// The characters of a key, if there is a key.
pub open spec fn key_text(key: Option<String>) -> Option<Seq<char>> {
    match key {
        Some(text) => Some(text@),
        None => None,
    }
}

impl View for KryptosConfig {
    type V = ConfigView;

    open spec fn view(&self) -> ConfigView {
        ConfigView {
            enc_type: self.enc_type,
            key_size: self.key_size,
            optional_key: key_text(self.optional_key),
            port: self.port,
        }
    }
}

/// What becomes of a key once it is held against the key size: it is kept
/// if there is none or if it has the right length.
pub open spec fn checked_key(key: Option<Seq<char>>, size: KeySize) -> Result<(), ArgError> {
    match key {
        Some(text) => if key_bit_length(text) == size.bits() {
            Ok(())
        } else {
            Err(
                ArgError::InvalidOptionalKey {
                    expected: size,
                    actual_bits: key_bit_length(text) as u128,
                },
            )
        },
        None => Ok(()),
    }
}

/// Holds an optional key against a key size.
pub fn check_key(key: &Option<String>, size: KeySize) -> (checked: Result<(), ArgError>)
    ensures
        checked == checked_key(key_text(*key), size),
{
    match key {
        Some(text) => {
            let bytes: usize = text.as_str().as_bytes().len();
            let actual_bits: u128 = 8 * (bytes as u128);
            let expected_bits: usize = size.into();
            if actual_bits == expected_bits as u128 {
                Ok(())
            } else {
                Err(ArgError::InvalidOptionalKey { expected: size, actual_bits })
            }
        },
        None => Ok(()),
    }
}

impl KryptosConfig {
    /// Says whether the configuration may be served, and if not, why.
    pub fn validate(&self) -> (checked: Result<(), ArgError>)
        ensures
            checked is Ok <==> self@.valid(),
            checked == checked_key(self@.optional_key, self.key_size),
    {
        check_key(&self.optional_key, self.key_size)
    }
}

/// The port that a command-line word names.
pub open spec fn port_of(word: Seq<char>) -> Result<u16, ArgError> {
    match parse_unsigned_spec(word, u16::MAX as u64) {
        Some(port) => if port < FIRST_FREE_PORT {
            Err(ArgError::ReservedPort)
        } else {
            Ok(port as u16)
        },
        None => Err(ArgError::InvalidPort),
    }
}

/// Reads the port from its command-line word.
pub fn parse_port(word: &str) -> (port: Result<u16, ArgError>)
    ensures
        port == port_of(word@),
{
    match parse_unsigned(word, u16::MAX as u64) {
        Some(port) => {
            if port < FIRST_FREE_PORT as u64 {
                Err(ArgError::ReservedPort)
            } else {
                Ok(port as u16)
            }
        },
        None => Err(ArgError::InvalidPort),
    }
}

/// The key size that a number of bits names, if it is one of those on offer.
pub open spec fn key_size_of_bits(bits: nat) -> Option<KeySize> {
    if bits == 128 {
        Some(KeySize::Size128)
    } else if bits == 192 {
        Some(KeySize::Size192)
    } else if bits == 256 {
        Some(KeySize::Size256)
    } else {
        None
    }
}

/// The key size that a command-line word names. A word that is a number
/// too large for the machine counts as no number.
pub open spec fn key_size_of(word: Seq<char>) -> Result<KeySize, ArgError> {
    match parse_unsigned_spec(word, usize::MAX as u64) {
        Some(bits) => match key_size_of_bits(bits as nat) {
            Some(size) => Ok(size),
            None => Err(ArgError::InvalidKeySize),
        },
        None => Err(ArgError::UnreadableKeySize),
    }
}

/// Reads the key size from its command-line word.
pub fn parse_key_size(word: &str) -> (size: Result<KeySize, ArgError>)
    ensures
        size == key_size_of(word@),
{
    match parse_unsigned(word, usize::MAX as u64) {
        Some(bits) => {
            if bits == 128 {
                Ok(KeySize::Size128)
            } else if bits == 192 {
                Ok(KeySize::Size192)
            } else if bits == 256 {
                Ok(KeySize::Size256)
            } else {
                Err(ArgError::InvalidKeySize)
            }
        },
        None => Err(ArgError::UnreadableKeySize),
    }
}

/// The cipher that a command-line word names. Names are case sensitive.
pub open spec fn encryption_of(word: Seq<char>) -> Result<EncryptionInfo, ArgError> {
    if word == "AesCbc"@ {
        Ok(EncryptionInfo::AesCbc)
    } else if word == "AesCtr"@ {
        Ok(EncryptionInfo::AesCtr)
    } else if word == "AesEcb"@ {
        Ok(EncryptionInfo::AesEcb)
    } else if word == "Rc4"@ {
        Ok(EncryptionInfo::Rc4)
    } else {
        Err(ArgError::InvalidEncryptionType)
    }
}

/// Whether a word is the given keyword, character for character.
fn is_keyword(word: &str, keyword: &str) -> (same: bool)
    ensures
        same == (word@ == keyword@),
{
    broadcast use vstd::string::group_string_axioms;

    let mut left = word.chars();
    let mut right = keyword.chars();
    let ghost mut seen: int = 0;
    loop
        invariant
            left.obeys_prophetic_iter_laws(),
            right.obeys_prophetic_iter_laws(),
            0 <= seen <= word@.len(),
            seen <= keyword@.len(),
            left.remaining() == word@.skip(seen),
            right.remaining() == keyword@.skip(seen),
            word@.take(seen) == keyword@.take(seen),
        decreases word@.len() - seen,
    {
        let a: Option<char> = left.next();
        let b: Option<char> = right.next();
        match (a, b) {
            (None, None) => {
                proof {
                    assert(word@.take(seen) =~= word@);
                    assert(keyword@.take(seen) =~= keyword@);
                }
                return true;
            },
            (Some(x), Some(y)) => {
                proof {
                    assert(x == word@[seen]);
                    assert(y == keyword@[seen]);
                }
                if x != y {
                    return false;
                }
                proof {
                    assert(word@.skip(seen).drop_first() =~= word@.skip(seen + 1));
                    assert(keyword@.skip(seen).drop_first() =~= keyword@.skip(seen + 1));
                    assert(word@.take(seen + 1) =~= word@.take(seen).push(x));
                    assert(keyword@.take(seen + 1) =~= keyword@.take(seen).push(y));
                    seen = seen + 1;
                }
            },
            _ => {
                return false;
            },
        }
    }
}

/// Reads the cipher from its command-line word.
pub fn parse_encryption_type(word: &str) -> (kind: Result<EncryptionInfo, ArgError>)
    ensures
        kind == encryption_of(word@),
{
    if is_keyword(word, "AesCbc") {
        Ok(EncryptionInfo::AesCbc)
    } else if is_keyword(word, "AesCtr") {
        Ok(EncryptionInfo::AesCtr)
    } else if is_keyword(word, "AesEcb") {
        Ok(EncryptionInfo::AesEcb)
    } else if is_keyword(word, "Rc4") {
        Ok(EncryptionInfo::Rc4)
    } else {
        Err(ArgError::InvalidEncryptionType)
    }
}

/// What a command line asks for.
pub enum Invocation {
    /// Print the usage, the ciphers and the key sizes, and stop.
    Help,
    /// Print the version, and stop.
    Version,
    /// Serve with this configuration.
    Serve(KryptosConfig),
}

/// An invocation as a mathematical value.
pub enum InvocationView {
    Help,
    Version,
    Serve(ConfigView),
}

impl View for Invocation {
    type V = InvocationView;

    open spec fn view(&self) -> InvocationView {
        match *self {
            Invocation::Help => InvocationView::Help,
            Invocation::Version => InvocationView::Version,
            Invocation::Serve(config) => InvocationView::Serve(config@),
        }
    }
}

/// The configuration that the words after the program's name describe,
/// `words[1]` being the port, `words[2]` the cipher, `words[3]` the key
/// size and `words[4]`, if there is one, the key. The first word at fault
/// decides the error, in the order port, key size, cipher, key.
pub open spec fn configuration_of(words: Seq<Seq<char>>) -> Result<ConfigView, ArgError>
    recommends
        4 <= words.len() <= 5,
{
    let key = if words.len() == 5 {
        Some(words[4])
    } else {
        None
    };
    match port_of(words[1]) {
        Err(e) => Err(e),
        Ok(port) => match key_size_of(words[3]) {
            Err(e) => Err(e),
            Ok(key_size) => match encryption_of(words[2]) {
                Err(e) => Err(e),
                Ok(enc_type) => match checked_key(key, key_size) {
                    Err(e) => Err(e),
                    Ok(_) => Ok(ConfigView { enc_type, key_size, optional_key: key, port }),
                },
            },
        },
    }
}

/// What a command line asks for, `words[0]` being the program's name.
///
/// Too many words are refused before anything is read. A first argument
/// `--help` or `--version` is served whatever follows it. Otherwise the
/// line must describe a configuration.
pub open spec fn invocation_of(words: Seq<Seq<char>>) -> Result<InvocationView, ArgError> {
    if words.len() > 5 {
        Err(ArgError::TooManyArguments)
    } else if words.len() < 2 {
        Err(ArgError::MissingArguments)
    } else if words[1] == "--help"@ {
        Ok(InvocationView::Help)
    } else if words[1] == "--version"@ {
        Ok(InvocationView::Version)
    } else if words.len() < 4 {
        Err(ArgError::MissingArguments)
    } else {
        match configuration_of(words) {
            Ok(config) => Ok(InvocationView::Serve(config)),
            Err(e) => Err(e),
        }
    }
}

/// An outcome of [`parse_arguments`] as a mathematical value.
pub open spec fn outcome_view(outcome: Result<Invocation, ArgError>) -> Result<
    InvocationView,
    ArgError,
> {
    match outcome {
        Ok(invocation) => Ok(invocation@),
        Err(e) => Err(e),
    }
}

/// Reads the command line of the process, the program's name first.
///
/// A configuration that comes back is valid and its port is not reserved.
pub fn parse_arguments(args: Vec<String>) -> (outcome: Result<Invocation, ArgError>)
    ensures
        outcome_view(outcome) == invocation_of(args.deep_view()),
        outcome matches Ok(Invocation::Serve(config)) ==> config@.valid() && config.port
            >= FIRST_FREE_PORT,
{
    let ghost words = args.deep_view();
    let use_key: bool = args.len() == 5;
    if args.len() > 5 {
        return Err(ArgError::TooManyArguments);
    }
    if args.len() < 2 {
        return Err(ArgError::MissingArguments);
    }
    assert(words[1] == args[1]@);
    if is_keyword(args[1].as_str(), "--help") {
        return Ok(Invocation::Help);
    }
    if is_keyword(args[1].as_str(), "--version") {
        return Ok(Invocation::Version);
    }
    if args.len() < 4 {
        return Err(ArgError::MissingArguments);
    }
    assert(words[2] == args[2]@);
    assert(words[3] == args[3]@);
    let port: u16 = match parse_port(args[1].as_str()) {
        Ok(port) => port,
        Err(e) => {
            return Err(e);
        },
    };
    let size: KeySize = match parse_key_size(args[3].as_str()) {
        Ok(size) => size,
        Err(e) => {
            return Err(e);
        },
    };
    let encryption_type: EncryptionInfo = match parse_encryption_type(args[2].as_str()) {
        Ok(kind) => kind,
        Err(e) => {
            return Err(e);
        },
    };
    let optional_key: Option<String> = if use_key {
        assert(words[4] == args[4]@);
        Some(args[4].clone())
    } else {
        None
    };
    match check_key(&optional_key, size) {
        Ok(_) => {},
        Err(e) => {
            return Err(e);
        },
    }
    Ok(
        Invocation::Serve(
            KryptosConfig { enc_type: encryption_type, key_size: size, optional_key, port },
        ),
    )
}

/// The status with which a process stops after [`parse_arguments`], if it
/// stops: [`SUCCESS`] once help or the version was asked for, [`ERROR`] on
/// a command line that cannot be served. A process that was given a
/// configuration goes on.
pub open spec fn exit_status_of(outcome: Result<Invocation, ArgError>) -> Option<i32> {
    match outcome {
        Ok(Invocation::Serve(_)) => None,
        Ok(_) => Some(SUCCESS),
        Err(_) => Some(ERROR),
    }
}

/// Says with which status the process stops after [`parse_arguments`], if
/// it stops.
pub fn exit_status(outcome: &Result<Invocation, ArgError>) -> (status: Option<i32>)
    ensures
        status == exit_status_of(*outcome),
{
    match outcome {
        Ok(Invocation::Serve(_)) => None,
        Ok(_) => Some(SUCCESS),
        Err(_) => Some(ERROR),
    }
}

} // verus!
