use rc5_cipher::rc5::config::RC5Config;
use rc5_cipher::rc5::error::RC5Error;
use rc5_cipher::rc5::RC5;
use rc5_cipher::{decode, encode};

fn setup_tests(key: Vec<u8>, number_of_rounds: u8, bytes_in_key: u8) -> Result<RC5, RC5Error> {
    let config = RC5Config::new(&32, &number_of_rounds, &bytes_in_key)?;
    let rc5 = RC5::new(config, key)?;

    Ok(rc5)
}

#[test]
fn encode_a() {
    let key = vec![
        0x00, 0x01, 0x02, 0x03, 0x04, 0x05, 0x06, 0x07, 0x08, 0x09, 0x0A, 0x0B, 0x0C, 0x0D, 0x0E,
        0x0F,
    ];
    let pt = vec![0x00, 0x11, 0x22, 0x33, 0x44, 0x55, 0x66, 0x77];
    let ct = vec![0x2D, 0xDC, 0x14, 0x9B, 0xCF, 0x08, 0x8B, 0x9E];
    let res = encode(key, pt);
    assert!(&ct[..] == &res.unwrap()[..]);
}

#[test]
fn encode_b() {
    let key = vec![
        0x2B, 0xD6, 0x45, 0x9F, 0x82, 0xC5, 0xB3, 0x00, 0x95, 0x2C, 0x49, 0x10, 0x48, 0x81, 0xFF,
        0x48,
    ];
    let pt = vec![0xEA, 0x02, 0x47, 0x14, 0xAD, 0x5C, 0x4D, 0x84];
    let ct = vec![0x11, 0xE4, 0x3B, 0x86, 0xD2, 0x31, 0xEA, 0x64];
    let res = encode(key, pt);
    assert!(&ct[..] == &res.unwrap()[..]);
}

#[test]
fn decode_a() {
    let key = vec![
        0x00, 0x01, 0x02, 0x03, 0x04, 0x05, 0x06, 0x07, 0x08, 0x09, 0x0A, 0x0B, 0x0C, 0x0D, 0x0E,
        0x0F,
    ];
    let pt = vec![0x96, 0x95, 0x0D, 0xDA, 0x65, 0x4A, 0x3D, 0x62];
    let ct = vec![0x00, 0x11, 0x22, 0x33, 0x44, 0x55, 0x66, 0x77];
    let res = decode(key, ct);
    assert!(&pt[..] == &res.unwrap()[..]);
}

#[test]
fn decode_b() {
    let key = vec![
        0x2B, 0xD6, 0x45, 0x9F, 0x82, 0xC5, 0xB3, 0x00, 0x95, 0x2C, 0x49, 0x10, 0x48, 0x81, 0xFF,
        0x48,
    ];
    let pt = vec![0x63, 0x8B, 0x3A, 0x5E, 0xF7, 0x2B, 0x66, 0x3F];
    let ct = vec![0xEA, 0x02, 0x47, 0x14, 0xAD, 0x5C, 0x4D, 0x84];
    let res = decode(key, ct);
    assert!(&pt[..] == &res.unwrap()[..]);
}

#[test]
fn config_invalid_config() {
    assert_eq!(RC5Error::UnsupportedWordSize, RC5Config::new(&64, &12, &16).unwrap_err());
    assert_eq!(RC5Error::UnsupportedWordSize, RC5Config::new(&16, &12, &16).unwrap_err());
}

#[test]
fn encrypt_decrypt_32_12_16() -> Result<(), RC5Error> {
    let key = vec![
        0x2B, 0xD6, 0x45, 0x9F, 0x82, 0xC5, 0xB3, 0x00, 0x95, 0x2C, 0x49, 0x10, 0x48, 0x81, 0xFF,
        0x48,
    ];
    let pt = vec![0xEA, 0x02, 0x47, 0x14, 0xAD, 0x5C, 0x4D, 0x84];
    let ct = vec![0x11, 0xE4, 0x3B, 0x86, 0xD2, 0x31, 0xEA, 0x64];
    let rc5 = setup_tests(key, 12, 16)?;

    let res = rc5.encrypt(pt)?;
    assert!(&ct[..] == &res[..]);

    let pt = vec![0xEA, 0x02, 0x47, 0x14, 0xAD, 0x5C, 0x4D, 0x84];
    let res = rc5.decrypt(ct)?;
    assert!(&pt[..] == &res[..]);

    Ok(())
}

#[test]
fn encrypt_decrypt_32_12_16_2() -> Result<(), RC5Error> {
    let key = vec![
        0x91, 0x5F, 0x46, 0x19, 0xBE, 0x41, 0xB2, 0x51, 0x63, 0x55, 0xA5, 0x01, 0x10, 0xA9, 0xCE,
        0x91,
    ];
    let pt = vec![0x21, 0xA5, 0xDB, 0xEE, 0x15, 0x4B, 0x8F, 0x6D];
    let ct = vec![0xF7, 0xC0, 0x13, 0xAC, 0x5B, 0x2B, 0x89, 0x52];
    let rc5 = setup_tests(key, 12, 16)?;

    let res = rc5.encrypt(pt)?;
    assert!(&ct[..] == &res[..]);

    let pt = vec![0x21, 0xA5, 0xDB, 0xEE, 0x15, 0x4B, 0x8F, 0x6D];
    let res = rc5.decrypt(ct)?;
    assert!(&pt[..] == &res[..]);

    Ok(())
}

#[test]
fn encrypt_decrypt_32_20_16() -> Result<(), RC5Error> {
    let key = vec![
        0x00, 0x01, 0x02, 0x03, 0x04, 0x05, 0x06, 0x07, 0x08, 0x09, 0x0A, 0x0B, 0x0C, 0x0D, 0x0E,
        0x0F,
    ];
    let pt = vec![0x00, 0x01, 0x02, 0x03, 0x04, 0x05, 0x06, 0x07];
    let ct = vec![0x2A, 0x0E, 0xDC, 0x0E, 0x94, 0x31, 0xFF, 0x73];
    let rc5 = setup_tests(key, 20, 16)?;

    let res = rc5.encrypt(pt)?;
    assert!(&ct[..] == &res[..]);

    let pt = vec![0x00, 0x01, 0x02, 0x03, 0x04, 0x05, 0x06, 0x07];
    let res = rc5.decrypt(ct)?;
    assert!(&pt[..] == &res[..]);

    Ok(())
}

#[test]
fn mod_invalid_config() {
    let config = RC5Config::new(&32, &12, &16).unwrap();
    let key15 = vec![
        0x00, 0x01, 0x02, 0x03, 0x04, 0x05, 0x06, 0x07, 0x08, 0x09, 0x0A, 0x0B, 0x0C, 0x0D, 0x0E,
    ];
    let key17 = vec![
        0x00, 0x01, 0x02, 0x03, 0x04, 0x05, 0x06, 0x07, 0x08, 0x09, 0x0A, 0x0B, 0x0C, 0x0D, 0x0E,
        0x0F, 0x10,
    ];

    let err = RC5::new(config.clone(), key15).err().unwrap();
    assert_eq!(err, RC5Error::UnsupportedKeyLength);

    let err = RC5::new(config.clone(), key17).err().unwrap();
    assert_eq!(err, RC5Error::UnsupportedKeyLength);

    let key = vec![
        0x00, 0x01, 0x02, 0x03, 0x04, 0x05, 0x06, 0x07, 0x08, 0x09, 0x0A, 0x0B, 0x0C, 0x0D, 0x0E,
        0x0F,
    ];
    let rc5 = RC5::new(config.clone(), key).unwrap();

    let phrase: Vec<u8> = Vec::new();
    let err = rc5.encrypt(phrase).err().unwrap();
    assert_eq!(err, RC5Error::InvalidPhraseSize);

    let phrase = vec![0x00, 0x01, 0x02, 0x03, 0x04, 0x05, 0x06];
    let err = rc5.encrypt(phrase).err().unwrap();
    assert_eq!(err, RC5Error::InvalidPhraseSize);

    let phrase = vec![0x00, 0x01, 0x02, 0x03, 0x04, 0x05, 0x06];
    let err = rc5.encrypt(phrase).err().unwrap();
    assert_eq!(err, RC5Error::InvalidPhraseSize);
}
