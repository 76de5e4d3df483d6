use corelib::errors::Error;
use corelib::hexcode::decode_hex;
use corelib::script::{evaluate, same_text, split_tokens, verify_signature};
use corelib::utils::{convert_u8_to_u832, convert_u8_to_u864};
use ed25519_dalek::{Signer, SigningKey};

#[test]
fn tokens_are_runs_without_white_space() {
    assert_eq!(split_tokens(""), Vec::<&str>::new());
    assert_eq!(split_tokens("  \t\n"), Vec::<&str>::new());
    assert_eq!(split_tokens("a"), vec!["a"]);
    assert_eq!(split_tokens(" ab  cd\te\u{a0}f\u{3000}"), vec!["ab", "cd", "e", "f"]);
    assert_eq!(split_tokens("été OP_CHECKSIG"), vec!["été", "OP_CHECKSIG"]);
    let text = "one two  three \n four";
    assert_eq!(split_tokens(text), text.split_whitespace().collect::<Vec<&str>>());
}

#[test]
fn same_text_compares_characters() {
    assert!(same_text("true", "true"));
    assert!(!same_text("true", "True"));
    assert!(!same_text("true", "tru"));
    assert!(same_text("", ""));
}

#[test]
fn hex_decoding() {
    assert_eq!(decode_hex(b"0aFf10"), Ok(vec![10, 255, 16]));
    assert_eq!(decode_hex(b""), Ok(vec![]));
    assert_eq!(decode_hex(b"abc"), Err(Error::HexcodeError));
    assert_eq!(decode_hex(b"0g"), Err(Error::HexcodeError));
}

#[test]
fn fixed_length_conversions() {
    assert_eq!(convert_u8_to_u832(&[3u8; 32]), Ok([3u8; 32]));
    assert_eq!(convert_u8_to_u832(&[3u8; 31]), Err(Error::InvalidU8Length(31)));
    assert_eq!(convert_u8_to_u864(&[4u8; 64]), Ok([4u8; 64]));
    assert_eq!(convert_u8_to_u864(&[4u8; 65]), Err(Error::InvalidU8Length(65)));
    let mut raw = [0u8; 32];
    for (i, b) in raw.iter_mut().enumerate() {
        *b = i as u8;
    }
    assert_eq!(convert_u8_to_u832(&raw), Ok(raw));
}

#[test]
fn signature_check_on_byte_strings() {
    let key = SigningKey::from_bytes(&[11u8; 32]);
    let public = key.verifying_key().to_bytes();
    let signature = key.sign(b"message").to_bytes();
    assert_eq!(verify_signature(&public, &signature, b"message"), Ok(()));
    assert_eq!(verify_signature(&public, &signature, b"other"), Err(Error::Signature));
    assert_eq!(
        verify_signature(&public[..31], &signature, b"message"),
        Err(Error::InvalidU8Length(31))
    );
    assert_eq!(
        verify_signature(&public, &signature[..10], b"message"),
        Err(Error::InvalidU8Length(10))
    );
}

#[test]
fn script_without_check_is_rejected() {
    assert_eq!(evaluate("", "true"), Ok(()));
    assert_eq!(evaluate("true", ""), Ok(()));
    assert_eq!(evaluate("true", "true"), Err(Error::InvalidUnlockingScript));
    assert_eq!(evaluate("", ""), Err(Error::InvalidUnlockingScript));
    assert_eq!(evaluate("OP_CHECKSIG", "a b"), Err(Error::InvalidUnlockingScript));
}

#[test]
fn ascii_white_space_is_the_space_and_tab_to_return() {
    for code in 0u8..128 {
        let c = code as char;
        let text = format!("a{}b", c);
        let white = c == ' ' || ('\u{9}'..='\u{d}').contains(&c);
        if white {
            assert_eq!(split_tokens(&text), vec!["a", "b"], "U+{:04X}", code);
        } else {
            assert_eq!(split_tokens(&text), vec![text.as_str()], "U+{:04X}", code);
        }
    }
    assert_eq!(split_tokens("a\u{85}b\u{2028}c\u{200b}d"), vec!["a", "b", "c\u{200b}d"]);
}
