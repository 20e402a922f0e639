use kryptos::arg_handling::{
    check_key, exit_status, parse_arguments, parse_encryption_type, parse_key_size, parse_port,
    ArgError, EncryptionInfo, Invocation, KeySize, KryptosConfig, ERROR, FIRST_FREE_PORT, SUCCESS,
};

fn words(list: &[&str]) -> Vec<String> {
    list.iter().map(|w| w.to_string()).collect()
}

fn served(list: &[&str]) -> KryptosConfig {
    match parse_arguments(words(list)) {
        Ok(Invocation::Serve(config)) => config,
        Ok(Invocation::Help) => panic!("help instead of a configuration"),
        Ok(Invocation::Version) => panic!("version instead of a configuration"),
        Err(e) => panic!("refused: {:?}", e),
    }
}

fn refused(list: &[&str]) -> ArgError {
    match parse_arguments(words(list)) {
        Ok(_) => panic!("accepted"),
        Err(e) => e,
    }
}

#[test]
fn key_size_converts_to_its_number_of_bits() {
    let a: usize = KeySize::Size128.into();
    let b: usize = KeySize::Size192.into();
    let c: usize = KeySize::Size256.into();
    assert_eq!(a, 128);
    assert_eq!(b, 192);
    assert_eq!(c, 256);
    assert_eq!(usize::from(KeySize::Size256), 256);
}

#[test]
fn weak_ciphers_are_flagged() {
    assert!(!EncryptionInfo::AesCbc.is_weak());
    assert!(!EncryptionInfo::AesCtr.is_weak());
    assert!(EncryptionInfo::AesEcb.is_weak());
    assert!(EncryptionInfo::Rc4.is_weak());
}

#[test]
fn a_full_command_line_without_key_is_served() {
    let config = served(&["kryptos", "6969", "AesCbc", "128"]);
    assert_eq!(config.port, 6969);
    assert_eq!(config.enc_type, EncryptionInfo::AesCbc);
    assert_eq!(config.key_size, KeySize::Size128);
    assert_eq!(config.optional_key, None);
}

#[test]
fn a_full_command_line_with_key_is_served() {
    let config = served(&["kryptos", "8080", "Rc4", "256", "0123456789abcdef0123456789abcdef"]);
    assert_eq!(config.port, 8080);
    assert_eq!(config.enc_type, EncryptionInfo::Rc4);
    assert_eq!(config.key_size, KeySize::Size256);
    assert_eq!(config.optional_key, Some("0123456789abcdef0123456789abcdef".to_string()));
}

#[test]
fn every_cipher_name_is_read() {
    assert_eq!(served(&["k", "2000", "AesCbc", "128"]).enc_type, EncryptionInfo::AesCbc);
    assert_eq!(served(&["k", "2000", "AesCtr", "128"]).enc_type, EncryptionInfo::AesCtr);
    assert_eq!(served(&["k", "2000", "AesEcb", "128"]).enc_type, EncryptionInfo::AesEcb);
    assert_eq!(served(&["k", "2000", "Rc4", "128"]).enc_type, EncryptionInfo::Rc4);
    assert_eq!(parse_encryption_type("AesCtr"), Ok(EncryptionInfo::AesCtr));
}

#[test]
fn cipher_names_are_case_sensitive_and_exact() {
    assert_eq!(refused(&["k", "2000", "aescbc", "128"]), ArgError::InvalidEncryptionType);
    assert_eq!(refused(&["k", "2000", "AESCBC", "128"]), ArgError::InvalidEncryptionType);
    assert_eq!(refused(&["k", "2000", "AesCbc ", "128"]), ArgError::InvalidEncryptionType);
    assert_eq!(refused(&["k", "2000", "Aes", "128"]), ArgError::InvalidEncryptionType);
    assert_eq!(refused(&["k", "2000", "", "128"]), ArgError::InvalidEncryptionType);
    assert_eq!(refused(&["k", "2000", "Rc4x", "128"]), ArgError::InvalidEncryptionType);
    assert_eq!(parse_encryption_type("rc4"), Err(ArgError::InvalidEncryptionType));
}

#[test]
fn every_key_size_is_read() {
    assert_eq!(served(&["k", "2000", "AesCbc", "128"]).key_size, KeySize::Size128);
    assert_eq!(served(&["k", "2000", "AesCbc", "192"]).key_size, KeySize::Size192);
    assert_eq!(served(&["k", "2000", "AesCbc", "256"]).key_size, KeySize::Size256);
    assert_eq!(parse_key_size("+256"), Ok(KeySize::Size256));
    assert_eq!(parse_key_size("0128"), Ok(KeySize::Size128));
}

#[test]
fn a_number_that_is_no_key_size_is_refused() {
    assert_eq!(refused(&["k", "2000", "AesCbc", "64"]), ArgError::InvalidKeySize);
    assert_eq!(refused(&["k", "2000", "AesCbc", "0"]), ArgError::InvalidKeySize);
    assert_eq!(refused(&["k", "2000", "AesCbc", "129"]), ArgError::InvalidKeySize);
    assert_eq!(refused(&["k", "2000", "AesCbc", "512"]), ArgError::InvalidKeySize);
    assert_eq!(parse_key_size("1280"), Err(ArgError::InvalidKeySize));
}

#[test]
fn a_key_size_that_is_no_number_is_refused() {
    assert_eq!(refused(&["k", "2000", "AesCbc", "big"]), ArgError::UnreadableKeySize);
    assert_eq!(refused(&["k", "2000", "AesCbc", ""]), ArgError::UnreadableKeySize);
    assert_eq!(refused(&["k", "2000", "AesCbc", "-128"]), ArgError::UnreadableKeySize);
    assert_eq!(refused(&["k", "2000", "AesCbc", "128 "]), ArgError::UnreadableKeySize);
    assert_eq!(refused(&["k", "2000", "AesCbc", "12.8"]), ArgError::UnreadableKeySize);
    assert_eq!(
        refused(&["k", "2000", "AesCbc", "340282366920938463463374607431768211456"]),
        ArgError::UnreadableKeySize
    );
}

#[test]
fn ports_up_to_the_first_free_one_are_reserved() {
    assert_eq!(FIRST_FREE_PORT, 1024);
    assert_eq!(refused(&["k", "0", "AesCbc", "128"]), ArgError::ReservedPort);
    assert_eq!(refused(&["k", "80", "AesCbc", "128"]), ArgError::ReservedPort);
    assert_eq!(refused(&["k", "1023", "AesCbc", "128"]), ArgError::ReservedPort);
    assert_eq!(served(&["k", "1024", "AesCbc", "128"]).port, 1024);
    assert_eq!(parse_port("1023"), Err(ArgError::ReservedPort));
    assert_eq!(parse_port("1024"), Ok(1024));
}

#[test]
fn the_largest_port_is_accepted_and_the_next_number_is_not() {
    assert_eq!(served(&["k", "65535", "AesCbc", "128"]).port, 65535);
    assert_eq!(refused(&["k", "65536", "AesCbc", "128"]), ArgError::InvalidPort);
    assert_eq!(refused(&["k", "99999999999999999999", "AesCbc", "128"]), ArgError::InvalidPort);
}

#[test]
fn a_port_that_is_no_number_is_refused() {
    assert_eq!(refused(&["k", "port", "AesCbc", "128"]), ArgError::InvalidPort);
    assert_eq!(refused(&["k", "", "AesCbc", "128"]), ArgError::InvalidPort);
    assert_eq!(refused(&["k", "-1", "AesCbc", "128"]), ArgError::InvalidPort);
    assert_eq!(refused(&["k", " 8080", "AesCbc", "128"]), ArgError::InvalidPort);
    assert_eq!(refused(&["k", "8080\n", "AesCbc", "128"]), ArgError::InvalidPort);
    assert_eq!(refused(&["k", "8_080", "AesCbc", "128"]), ArgError::InvalidPort);
    assert_eq!(refused(&["k", "0x1F90", "AesCbc", "128"]), ArgError::InvalidPort);
    assert_eq!(refused(&["k", "+", "AesCbc", "128"]), ArgError::InvalidPort);
}

#[test]
fn a_port_may_carry_a_plus_sign_and_leading_zeros() {
    assert_eq!(served(&["k", "+8080", "AesCbc", "128"]).port, 8080);
    assert_eq!(served(&["k", "0008080", "AesCbc", "128"]).port, 8080);
    assert_eq!(served(&["k", "+0008080", "AesCbc", "128"]).port, 8080);
}

#[test]
fn help_is_served_whatever_follows_it() {
    assert!(matches!(parse_arguments(words(&["k", "--help"])), Ok(Invocation::Help)));
    assert!(matches!(parse_arguments(words(&["k", "--help", "x"])), Ok(Invocation::Help)));
    assert!(matches!(
        parse_arguments(words(&["k", "--help", "x", "y", "z"])),
        Ok(Invocation::Help)
    ));
}

#[test]
fn version_is_served_whatever_follows_it() {
    assert!(matches!(parse_arguments(words(&["k", "--version"])), Ok(Invocation::Version)));
    assert!(matches!(
        parse_arguments(words(&["k", "--version", "AesCbc", "128"])),
        Ok(Invocation::Version)
    ));
}

#[test]
fn help_is_only_read_as_the_first_argument() {
    assert_eq!(refused(&["k", "2000", "--help", "128"]), ArgError::InvalidEncryptionType);
    assert_eq!(refused(&["k", "-h"]), ArgError::MissingArguments);
    assert_eq!(refused(&["k", "--Help"]), ArgError::MissingArguments);
}

#[test]
fn too_many_arguments_are_refused_before_anything_is_read() {
    assert_eq!(
        refused(&["k", "2000", "AesCbc", "128", "0123456789abcdef", "more"]),
        ArgError::TooManyArguments
    );
    assert_eq!(refused(&["k", "--help", "a", "b", "c", "d"]), ArgError::TooManyArguments);
    assert_eq!(refused(&["k", "x", "x", "x", "x", "x", "x", "x"]), ArgError::TooManyArguments);
}

#[test]
fn too_few_arguments_are_refused() {
    assert_eq!(refused(&[]), ArgError::MissingArguments);
    assert_eq!(refused(&["k"]), ArgError::MissingArguments);
    assert_eq!(refused(&["k", "2000"]), ArgError::MissingArguments);
    assert_eq!(refused(&["k", "2000", "AesCbc"]), ArgError::MissingArguments);
    assert_eq!(refused(&["k", "nonsense", "nonsense"]), ArgError::MissingArguments);
}

#[test]
fn a_key_of_sixteen_bytes_fits_a_key_size_of_128() {
    let config = served(&["k", "2000", "AesCbc", "128", "0123456789abcdef"]);
    assert_eq!(config.optional_key, Some("0123456789abcdef".to_string()));
    assert_eq!(config.validate(), Ok(()));
}

#[test]
fn a_key_of_twenty_bytes_does_not_fit_a_key_size_of_128() {
    assert_eq!(
        refused(&["k", "2000", "AesCbc", "128", "0123456789abcdef0123"]),
        ArgError::InvalidOptionalKey { expected: KeySize::Size128, actual_bits: 160 }
    );
}

#[test]
fn a_key_fits_exactly_one_key_size() {
    let key16 = "0123456789abcdef";
    let key24 = "0123456789abcdef01234567";
    let key32 = "0123456789abcdef0123456789abcdef";
    for (key, bits) in [(key16, 128u128), (key24, 192u128), (key32, 256u128)] {
        for (word, size) in
            [("128", KeySize::Size128), ("192", KeySize::Size192), ("256", KeySize::Size256)]
        {
            let outcome = parse_arguments(words(&["k", "2000", "AesCtr", word, key]));
            let wanted: usize = size.into();
            if wanted as u128 == bits {
                assert!(matches!(outcome, Ok(Invocation::Serve(_))));
            } else {
                assert!(matches!(
                    outcome,
                    Err(ArgError::InvalidOptionalKey { expected, actual_bits })
                        if expected == size && actual_bits == bits
                ));
            }
        }
    }
}

#[test]
fn an_empty_key_is_a_key_of_no_bits() {
    assert_eq!(
        refused(&["k", "2000", "AesCbc", "128", ""]),
        ArgError::InvalidOptionalKey { expected: KeySize::Size128, actual_bits: 0 }
    );
}

#[test]
fn the_length_of_a_key_is_counted_in_bytes_not_in_characters() {
    let eight_letters_of_two_bytes = "éééééééé";
    assert_eq!(eight_letters_of_two_bytes.chars().count(), 8);
    assert_eq!(eight_letters_of_two_bytes.len(), 16);
    let config = served(&["k", "2000", "AesCbc", "128", eight_letters_of_two_bytes]);
    assert_eq!(config.optional_key, Some(eight_letters_of_two_bytes.to_string()));
    let sixteen_letters_of_two_bytes = "éééééééééééééééé";
    assert_eq!(
        refused(&["k", "2000", "AesCbc", "128", sixteen_letters_of_two_bytes]),
        ArgError::InvalidOptionalKey { expected: KeySize::Size128, actual_bits: 256 }
    );
    assert_eq!(
        check_key(&Some("日本語".to_string()), KeySize::Size192),
        Err(ArgError::InvalidOptionalKey { expected: KeySize::Size192, actual_bits: 72 })
    );
}

#[test]
fn the_first_word_at_fault_decides_the_error() {
    assert_eq!(refused(&["k", "80", "nothing", "1", "short"]), ArgError::ReservedPort);
    assert_eq!(refused(&["k", "x", "nothing", "1", "short"]), ArgError::InvalidPort);
    assert_eq!(refused(&["k", "2000", "nothing", "1", "short"]), ArgError::InvalidKeySize);
    assert_eq!(refused(&["k", "2000", "nothing", "x", "short"]), ArgError::UnreadableKeySize);
    assert_eq!(refused(&["k", "2000", "nothing", "128", "short"]), ArgError::InvalidEncryptionType);
    assert_eq!(
        refused(&["k", "2000", "AesCbc", "128", "short"]),
        ArgError::InvalidOptionalKey { expected: KeySize::Size128, actual_bits: 40 }
    );
}

#[test]
fn a_configuration_without_key_is_valid() {
    let config = KryptosConfig {
        enc_type: EncryptionInfo::AesEcb,
        key_size: KeySize::Size192,
        optional_key: None,
        port: 1,
    };
    assert_eq!(config.validate(), Ok(()));
    assert_eq!(check_key(&None, KeySize::Size256), Ok(()));
}

#[test]
fn a_configuration_is_valid_exactly_if_its_key_has_the_configured_length() {
    for size in [KeySize::Size128, KeySize::Size192, KeySize::Size256] {
        let wanted: usize = size.into();
        for bytes in 0..40usize {
            let config = KryptosConfig {
                enc_type: EncryptionInfo::AesCbc,
                key_size: size,
                optional_key: Some("k".repeat(bytes)),
                port: 6969,
            };
            if bytes * 8 == wanted {
                assert_eq!(config.validate(), Ok(()));
            } else {
                assert_eq!(
                    config.validate(),
                    Err(ArgError::InvalidOptionalKey {
                        expected: size,
                        actual_bits: 8 * bytes as u128
                    })
                );
            }
        }
    }
}

#[test]
fn a_process_stops_with_success_after_help_and_version() {
    assert_eq!(SUCCESS, 0);
    assert_eq!(exit_status(&Ok(Invocation::Help)), Some(SUCCESS));
    assert_eq!(exit_status(&Ok(Invocation::Version)), Some(SUCCESS));
    assert_eq!(exit_status(&parse_arguments(words(&["k", "--help"]))), Some(0));
}

#[test]
fn a_process_stops_with_an_error_on_every_refusal() {
    assert_ne!(ERROR, 0);
    for e in [
        ArgError::TooManyArguments,
        ArgError::MissingArguments,
        ArgError::ReservedPort,
        ArgError::InvalidPort,
        ArgError::InvalidKeySize,
        ArgError::UnreadableKeySize,
        ArgError::InvalidEncryptionType,
        ArgError::InvalidOptionalKey { expected: KeySize::Size128, actual_bits: 8 },
    ] {
        assert_eq!(exit_status(&Err(e)), Some(ERROR));
    }
    assert_eq!(exit_status(&parse_arguments(words(&["k"]))), Some(ERROR));
}

#[test]
fn a_process_that_got_a_configuration_goes_on() {
    assert_eq!(exit_status(&parse_arguments(words(&["k", "6969", "AesCbc", "128"]))), None);
}
