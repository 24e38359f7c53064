use ashell::keys::{
    decode_inline_key, error_mentions_passphrase, finish_key_load, hash_alg_candidates,
    inline_key_outcome, join_errors, key_load_after_decode, load_key_error, key_path, key_source_label,
    normalize_inline_private_key, passphrase_option, private_keys_with_algs, start_key_load, HashChoice, KeyLoad, KeyPath,
};

/// Base64 of `data`, in lines of 64 characters.
fn base64_lines(data: &[u8]) -> String {
    let table: Vec<char> = ('A'..='Z').chain('a'..='z').chain('0'..='9').chain(['+', '/']).collect();
    let mut text = String::new();
    for chunk in data.chunks(3) {
        let b = [chunk[0], *chunk.get(1).unwrap_or(&0), *chunk.get(2).unwrap_or(&0)];
        let n = ((b[0] as u32) << 16) | ((b[1] as u32) << 8) | (b[2] as u32);
        for i in 0..4 {
            if i <= chunk.len() {
                text.push(table[((n >> (18 - 6 * i)) & 63) as usize]);
            } else {
                text.push('=');
            }
        }
    }
    let chars: Vec<char> = text.chars().collect();
    chars.chunks(64).map(|l| l.iter().collect::<String>()).collect::<Vec<_>>().join("\n")
}

/// A PEM block of the given kind (`OPENSSH`, or empty for PKCS#8) around `body`.
fn pem(kind: &str, body: &[u8]) -> String {
    let tag = if kind.is_empty() { "PRIVATE KEY".to_string() } else { format!("{} PRIVATE KEY", kind) };
    format!("-----BEGIN {}-----\n{}\n-----END {}-----", tag, base64_lines(body), tag)
}

const RSA_KEY_BYTES: [u8; 1294] = [
    111, 112, 101, 110, 115, 115, 104, 45, 107, 101, 121, 45, 118, 49, 0, 0, 0, 0, 4, 110, 111,
    110, 101, 0, 0, 0, 4, 110, 111, 110, 101, 0, 0, 0, 0, 0, 0, 0, 1, 0, 0, 1, 23, 0, 0, 0, 7,
    115, 115, 104, 45, 114, 115, 97, 0, 0, 0, 3, 1, 0, 1, 0, 0, 1, 1, 0, 185, 43, 208, 246, 110,
    250, 206, 20, 65, 226, 109, 1, 80, 163, 223, 215, 185, 112, 113, 200, 251, 41, 13, 80, 182,
    199, 186, 220, 3, 170, 63, 245, 88, 34, 218, 132, 31, 203, 167, 175, 19, 232, 129, 115, 65,
    130, 183, 2, 18, 111, 220, 112, 182, 89, 179, 33, 55, 170, 10, 119, 13, 20, 36, 146, 171,
    201, 133, 158, 142, 241, 80, 79, 177, 124, 99, 101, 235, 17, 10, 170, 5, 52, 39, 51, 203,
    227, 31, 209, 31, 208, 154, 244, 103, 166, 238, 126, 224, 48, 203, 207, 74, 123, 190, 187,
    17, 101, 111, 99, 139, 247, 61, 240, 172, 241, 121, 74, 39, 90, 9, 41, 149, 6, 130, 5, 130,
    205, 243, 190, 86, 117, 229, 24, 48, 107, 91, 212, 194, 223, 52, 33, 35, 215, 190, 227, 129,
    153, 119, 11, 59, 109, 45, 18, 183, 178, 238, 157, 114, 74, 48, 93, 197, 216, 191, 88, 15,
    76, 246, 64, 192, 150, 248, 244, 158, 55, 163, 84, 33, 87, 191, 181, 205, 220, 23, 190, 225,
    76, 235, 59, 152, 29, 219, 189, 100, 116, 138, 138, 190, 164, 213, 213, 206, 17, 61, 255,
    83, 226, 214, 27, 154, 31, 2, 143, 40, 197, 69, 175, 255, 187, 236, 234, 30, 204, 121, 168,
    240, 145, 71, 136, 4, 229, 152, 180, 63, 176, 25, 132, 111, 86, 156, 111, 143, 185, 242, 58,
    133, 173, 131, 232, 230, 209, 126, 167, 118, 123, 3, 249, 0, 0, 3, 200, 171, 87, 230, 64,
    171, 87, 230, 64, 0, 0, 0, 7, 115, 115, 104, 45, 114, 115, 97, 0, 0, 1, 1, 0, 185, 43, 208,
    246, 110, 250, 206, 20, 65, 226, 109, 1, 80, 163, 223, 215, 185, 112, 113, 200, 251, 41, 13,
    80, 182, 199, 186, 220, 3, 170, 63, 245, 88, 34, 218, 132, 31, 203, 167, 175, 19, 232, 129,
    115, 65, 130, 183, 2, 18, 111, 220, 112, 182, 89, 179, 33, 55, 170, 10, 119, 13, 20, 36,
    146, 171, 201, 133, 158, 142, 241, 80, 79, 177, 124, 99, 101, 235, 17, 10, 170, 5, 52, 39,
    51, 203, 227, 31, 209, 31, 208, 154, 244, 103, 166, 238, 126, 224, 48, 203, 207, 74, 123,
    190, 187, 17, 101, 111, 99, 139, 247, 61, 240, 172, 241, 121, 74, 39, 90, 9, 41, 149, 6,
    130, 5, 130, 205, 243, 190, 86, 117, 229, 24, 48, 107, 91, 212, 194, 223, 52, 33, 35, 215,
    190, 227, 129, 153, 119, 11, 59, 109, 45, 18, 183, 178, 238, 157, 114, 74, 48, 93, 197, 216,
    191, 88, 15, 76, 246, 64, 192, 150, 248, 244, 158, 55, 163, 84, 33, 87, 191, 181, 205, 220,
    23, 190, 225, 76, 235, 59, 152, 29, 219, 189, 100, 116, 138, 138, 190, 164, 213, 213, 206,
    17, 61, 255, 83, 226, 214, 27, 154, 31, 2, 143, 40, 197, 69, 175, 255, 187, 236, 234, 30,
    204, 121, 168, 240, 145, 71, 136, 4, 229, 152, 180, 63, 176, 25, 132, 111, 86, 156, 111,
    143, 185, 242, 58, 133, 173, 131, 232, 230, 209, 126, 167, 118, 123, 3, 249, 0, 0, 0, 3, 1,
    0, 1, 0, 0, 1, 0, 29, 16, 186, 161, 35, 244, 108, 74, 147, 184, 229, 225, 81, 246, 23, 25,
    182, 122, 230, 241, 100, 51, 34, 106, 235, 245, 215, 231, 215, 15, 111, 48, 164, 159, 251,
    234, 199, 78, 225, 72, 66, 248, 184, 241, 13, 116, 102, 35, 134, 31, 86, 219, 190, 83, 192,
    33, 83, 170, 118, 48, 15, 182, 124, 179, 37, 17, 225, 206, 108, 163, 134, 54, 172, 38, 89,
    55, 211, 56, 254, 146, 135, 116, 147, 62, 183, 31, 52, 140, 79, 209, 31, 177, 131, 95, 153,
    138, 2, 200, 198, 5, 8, 172, 249, 216, 69, 55, 197, 207, 59, 86, 24, 187, 225, 121, 153,
    207, 64, 244, 10, 2, 35, 233, 60, 153, 126, 217, 179, 11, 134, 9, 10, 44, 48, 83, 194, 190,
    219, 217, 241, 6, 23, 27, 21, 28, 105, 131, 0, 36, 176, 82, 250, 60, 36, 144, 176, 249, 120,
    203, 188, 175, 92, 103, 23, 251, 185, 105, 100, 63, 57, 227, 187, 249, 242, 173, 227, 34,
    65, 245, 131, 107, 65, 58, 235, 8, 185, 168, 169, 132, 48, 210, 181, 82, 97, 85, 210, 128,
    231, 150, 116, 42, 59, 182, 146, 240, 170, 177, 18, 37, 127, 87, 159, 174, 174, 55, 110, 84,
    96, 36, 81, 69, 11, 19, 89, 240, 42, 104, 150, 222, 37, 56, 120, 96, 250, 141, 238, 114, 50,
    11, 148, 35, 160, 140, 53, 124, 116, 29, 181, 96, 188, 102, 128, 222, 106, 251, 17, 77, 0,
    0, 0, 129, 0, 181, 63, 231, 139, 82, 65, 195, 21, 121, 229, 120, 33, 21, 173, 108, 75, 252,
    49, 113, 19, 41, 222, 45, 12, 247, 33, 172, 6, 119, 14, 220, 200, 6, 251, 191, 27, 24, 172,
    101, 47, 109, 85, 5, 147, 23, 162, 191, 127, 123, 164, 49, 203, 103, 149, 62, 183, 151, 14,
    96, 48, 89, 236, 110, 55, 50, 221, 160, 97, 245, 129, 185, 19, 111, 98, 17, 192, 245, 39,
    95, 223, 201, 185, 168, 240, 58, 92, 43, 230, 231, 87, 254, 23, 18, 39, 193, 223, 228, 193,
    18, 135, 211, 84, 71, 38, 228, 70, 178, 95, 248, 2, 155, 184, 14, 165, 104, 111, 204, 180,
    209, 85, 147, 99, 37, 122, 36, 19, 67, 145, 0, 0, 0, 129, 0, 223, 109, 165, 143, 182, 73,
    93, 242, 191, 160, 184, 76, 51, 244, 82, 248, 59, 218, 49, 230, 181, 131, 250, 184, 222,
    103, 81, 36, 84, 16, 178, 142, 23, 68, 34, 250, 32, 133, 103, 161, 149, 197, 120, 236, 107,
    48, 132, 65, 201, 86, 65, 195, 225, 82, 120, 30, 142, 107, 37, 156, 100, 204, 146, 164, 148,
    1, 163, 189, 6, 116, 147, 156, 222, 146, 91, 222, 59, 52, 79, 227, 246, 92, 15, 126, 254,
    60, 23, 75, 159, 10, 245, 175, 136, 146, 2, 228, 191, 213, 228, 127, 19, 70, 52, 172, 143,
    16, 76, 215, 11, 196, 16, 206, 248, 236, 212, 182, 230, 59, 159, 85, 46, 74, 60, 202, 156,
    7, 171, 247, 0, 0, 0, 129, 0, 212, 42, 105, 66, 200, 210, 167, 112, 107, 75, 230, 119, 112,
    30, 215, 233, 55, 96, 182, 116, 145, 170, 82, 64, 101, 72, 49, 61, 165, 146, 184, 74, 87,
    126, 109, 143, 177, 200, 22, 149, 15, 107, 139, 226, 180, 124, 220, 83, 11, 99, 98, 26, 133,
    123, 53, 69, 248, 156, 143, 108, 159, 197, 178, 149, 230, 17, 205, 32, 213, 241, 103, 66,
    158, 127, 74, 69, 48, 160, 221, 179, 155, 197, 41, 231, 97, 129, 122, 89, 42, 216, 153, 57,
    238, 99, 140, 205, 99, 180, 67, 60, 205, 184, 213, 127, 125, 226, 100, 211, 102, 246, 104,
    79, 43, 172, 10, 143, 65, 31, 174, 208, 12, 169, 68, 249, 179, 30, 115, 143, 0, 0, 0, 17,
    114, 111, 111, 116, 64, 49, 52, 48, 57, 49, 49, 53, 52, 57, 52, 48, 100, 1,
];

fn rsa_key() -> String {
    pem("OPENSSH", &RSA_KEY_BYTES)
}

const ED25519_KEY_BYTES: [u8; 48] = [
    48, 46, 2, 1, 0, 48, 5, 6, 3, 43, 101, 112, 4, 34, 4, 32, 212, 238, 114, 219, 249, 19, 88,
    74, 213, 182, 216, 241, 247, 105, 248, 173, 58, 254, 124, 40, 203, 241, 212, 251, 224, 151,
    168, 143, 68, 117, 88, 66,
];

fn ed25519_key() -> String {
    pem("", &ED25519_KEY_BYTES)
}

const ENCRYPTED_KEY_BYTES: [u8; 274] = [
    111, 112, 101, 110, 115, 115, 104, 45, 107, 101, 121, 45, 118, 49, 0, 0, 0, 0, 10, 97, 101,
    115, 50, 53, 54, 45, 99, 116, 114, 0, 0, 0, 6, 98, 99, 114, 121, 112, 116, 0, 0, 0, 24, 0,
    0, 0, 16, 245, 166, 25, 100, 187, 144, 54, 27, 180, 61, 136, 255, 131, 112, 231, 61, 0, 0,
    0, 16, 0, 0, 0, 1, 0, 0, 0, 51, 0, 0, 0, 11, 115, 115, 104, 45, 101, 100, 50, 53, 53, 49,
    57, 0, 0, 0, 32, 119, 139, 11, 89, 86, 136, 38, 43, 94, 199, 255, 243, 147, 191, 166, 70,
    212, 21, 158, 142, 24, 139, 120, 244, 245, 247, 159, 15, 34, 70, 133, 196, 0, 0, 0, 144,
    164, 69, 210, 203, 121, 100, 142, 241, 198, 143, 96, 232, 14, 38, 226, 94, 141, 106, 185,
    16, 173, 237, 230, 201, 202, 141, 93, 7, 79, 222, 58, 242, 98, 11, 236, 8, 128, 64, 3, 152,
    204, 89, 40, 235, 154, 115, 147, 94, 24, 157, 169, 195, 178, 227, 22, 2, 172, 11, 109, 205,
    41, 217, 253, 197, 26, 117, 240, 94, 156, 191, 131, 66, 174, 167, 121, 247, 240, 238, 63,
    43, 210, 214, 194, 197, 81, 169, 235, 32, 144, 148, 170, 224, 73, 151, 250, 115, 65, 242,
    237, 211, 68, 33, 77, 155, 36, 81, 177, 45, 238, 191, 145, 96, 161, 113, 64, 45, 255, 146,
    229, 230, 178, 59, 13, 84, 15, 37, 210, 224, 122, 18, 243, 190, 251, 9, 89, 30, 214, 249,
    193, 175, 39, 251, 203, 179,
];

fn encrypted_key() -> String {
    pem("OPENSSH", &ENCRYPTED_KEY_BYTES)
}

#[test]
fn normalize_trims_and_ends_with_newline() {
    assert_eq!(normalize_inline_private_key("  abc  "), "abc\n");
    assert_eq!(normalize_inline_private_key("abc\n"), "abc\n");
    assert_eq!(normalize_inline_private_key(""), "\n");
    assert_eq!(normalize_inline_private_key("   \n\t "), "\n");
}

#[test]
fn normalize_unescapes_line_breaks() {
    assert_eq!(normalize_inline_private_key("a\\nb"), "a\nb\n");
    assert_eq!(normalize_inline_private_key("a\\r\\nb"), "a\nb\n");
    assert_eq!(normalize_inline_private_key("a\r\nb"), "a\nb\n");
    assert_eq!(normalize_inline_private_key("a\\rb"), "a\\rb\n");
    assert_eq!(normalize_inline_private_key("a\\\\nb"), "a\\\nb\n");
    assert_eq!(normalize_inline_private_key("x\\n"), "x\n");
}

#[test]
fn key_source_labels() {
    assert_eq!(key_source_label("~/.ssh/id_ed25519", ""), "~/.ssh/id_ed25519");
    assert_eq!(key_source_label("  ", "KEY"), "inline key text");
    assert_eq!(key_source_label(" p ", "k"), "inline key or p");
    assert_eq!(key_source_label("", " \n "), "unknown key source");
}

#[test]
fn key_paths() {
    assert_eq!(key_path(""), None);
    assert_eq!(key_path("   "), None);
    assert_eq!(key_path("~"), Some(KeyPath::Home));
    assert_eq!(key_path(" ~ "), Some(KeyPath::Home));
    assert_eq!(key_path("~/.ssh/id"), Some(KeyPath::UnderHome(".ssh/id".to_string())));
    assert_eq!(key_path("~/"), Some(KeyPath::UnderHome(String::new())));
    assert_eq!(key_path("/etc/key"), Some(KeyPath::Plain("/etc/key".to_string())));
    assert_eq!(key_path("~user/key"), Some(KeyPath::Plain("~user/key".to_string())));
}

#[test]
fn passphrases() {
    assert_eq!(passphrase_option(""), None);
    assert_eq!(passphrase_option("  "), None);
    assert_eq!(passphrase_option(" pw "), Some("pw"));
}

#[test]
fn decodes_inline_keys() {
    assert!(decode_inline_key(&rsa_key(), "").is_ok());
    assert!(decode_inline_key(&ed25519_key(), "   ").is_ok());
    // Pasted with escaped line breaks and surrounding blanks.
    let escaped = format!("  {}  ", &rsa_key().replace('\n', "\\n"));
    assert!(decode_inline_key(&escaped, "").is_ok());
}

#[test]
fn decode_failures_are_reported() {
    match decode_inline_key("not a key", "") {
        Err(m) => {
            assert!(m.starts_with("decode private key content: "));
            assert!(m.len() > "decode private key content: ".len());
        }
        Ok(_) => panic!("garbage decoded"),
    }
    match decode_inline_key(&encrypted_key(), "") {
        Err(m) => {
            assert_eq!(m, "decode private key content: The key is encrypted");
            assert!(error_mentions_passphrase(&m));
        }
        Ok(_) => panic!("encrypted key decoded without passphrase"),
    }
}

#[test]
fn passphrase_errors() {
    assert!(error_mentions_passphrase("The key is encrypted"));
    assert!(error_mentions_passphrase("bad passphrase"));
    assert!(error_mentions_passphrase("could not decrypt"));
    assert!(!error_mentions_passphrase("Could not read key"));
    assert!(!error_mentions_passphrase(""));
}

#[test]
fn joins_errors() {
    assert_eq!(join_errors(&vec![]), "");
    assert_eq!(join_errors(&vec!["a".to_string()]), "a");
    assert_eq!(join_errors(&vec!["a".to_string(), "b".to_string(), "c".to_string()]), "a; b; c");
}

#[test]
fn hash_algorithms_per_key_type() {
    assert_eq!(
        hash_alg_candidates(true),
        vec![HashChoice::Sha512, HashChoice::Sha256, HashChoice::KeyDefault]
    );
    assert_eq!(hash_alg_candidates(false), vec![HashChoice::KeyDefault]);
    let rsa = decode_inline_key(&rsa_key(), "").ok().unwrap();
    let offered: Vec<HashChoice> = private_keys_with_algs(rsa).iter().map(|k| k.hash_choice()).collect();
    assert_eq!(offered, vec![HashChoice::Sha512, HashChoice::Sha256, HashChoice::KeyDefault]);
    let ed = decode_inline_key(&ed25519_key(), "").ok().unwrap();
    let offered: Vec<HashChoice> = private_keys_with_algs(ed).iter().map(|k| k.hash_choice()).collect();
    assert_eq!(offered, vec![HashChoice::KeyDefault]);
    let rsa = decode_inline_key(&rsa_key(), "").ok().unwrap();
    let algs: Vec<_> = private_keys_with_algs(rsa).into_iter().map(|k| k.into_key().hash_alg()).collect();
    assert!(matches!(
        algs.as_slice(),
        [Some(russh::keys::HashAlg::Sha512), Some(russh::keys::HashAlg::Sha256), None]
    ));
    let ed = decode_inline_key(&ed25519_key(), "").ok().unwrap();
    let algs: Vec<_> = private_keys_with_algs(ed).into_iter().map(|k| k.into_key().hash_alg()).collect();
    assert!(matches!(algs.as_slice(), [None]));
}

#[test]
fn key_loading_steps() {
    match start_key_load(&rsa_key(), "~/.ssh/id", "") {
        KeyLoad::Loaded(_) => {}
        _ => panic!("inline key should load"),
    }
    match start_key_load("", "~/.ssh/id", " pw ") {
        KeyLoad::ReadFile { path, passphrase, errors } => {
            assert_eq!(path, KeyPath::UnderHome(".ssh/id".to_string()));
            assert_eq!(passphrase, Some("pw".to_string()));
            assert_eq!(errors.len(), 1);
            assert!(errors[0].starts_with("decode private key content: "));
            match finish_key_load(errors.clone(), Some(Err("load key /h/.ssh/id: gone".to_string()))) {
                Err(m) => assert_eq!(m, format!("{}; load key /h/.ssh/id: gone", errors[0])),
                Ok(_) => panic!("should fail"),
            }
            match finish_key_load(errors.clone(), None) {
                Err(m) => assert_eq!(m, errors[0]),
                Ok(_) => panic!("should fail"),
            }
        }
        _ => panic!("should read the key file next"),
    }
    match start_key_load("garbage", "  ", "") {
        KeyLoad::Failed(m) => assert!(m.starts_with("decode private key content: ")),
        _ => panic!("should fail"),
    }
    let ed = decode_inline_key(&ed25519_key(), "").ok().unwrap();
    assert!(finish_key_load(vec!["x".to_string()], Some(Ok(ed))).is_ok());
}

#[test]
fn decode_results_become_outcomes() {
    match inline_key_outcome(Err("bad key".to_string())) {
        Err(m) => assert_eq!(m, "decode private key content: bad key"),
        Ok(_) => panic!("an error must stay an error"),
    }
    let ed = decode_inline_key(&ed25519_key(), "").ok().unwrap();
    assert!(inline_key_outcome(Ok(ed)).is_ok());
}

#[test]
fn next_step_after_decoding() {
    match key_load_after_decode(Err("e1".to_string()), "", "pw") {
        KeyLoad::Failed(m) => assert_eq!(m, "e1"),
        _ => panic!("no key path: loading fails"),
    }
    match key_load_after_decode(Err("e1".to_string()), " ~ ", "  ") {
        KeyLoad::ReadFile { path, passphrase, errors } => {
            assert_eq!(path, KeyPath::Home);
            assert_eq!(passphrase, None);
            assert_eq!(errors, vec!["e1".to_string()]);
        }
        _ => panic!("the key file is next"),
    }
    match key_load_after_decode(Err("e2".to_string()), "/k/id", " s ") {
        KeyLoad::ReadFile { path, passphrase, errors } => {
            assert_eq!(path, KeyPath::Plain("/k/id".to_string()));
            assert_eq!(passphrase, Some("s".to_string()));
            assert_eq!(errors, vec!["e2".to_string()]);
        }
        _ => panic!("the key file is next"),
    }
    let ed = decode_inline_key(&ed25519_key(), "").ok().unwrap();
    match key_load_after_decode(Ok(ed), "/k/id", "") {
        KeyLoad::Loaded(_) => {}
        _ => panic!("a decoded key is loaded"),
    }
}

#[test]
fn key_file_errors() {
    assert_eq!(load_key_error("/h/.ssh/id", "No such file"), "load key /h/.ssh/id: No such file");
}
