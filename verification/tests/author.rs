use trex_pow::author::{decode_author, from_hex, Author, AuthorError};
use trex_pow::uint::H256;

#[test]
fn author_is_an_account_in_hex() {
    let mut text = String::from("0x");
    let mut bytes = [0u8; 32];
    for (index, byte) in bytes.iter_mut().enumerate() {
        *byte = (index * 7 + 3) as u8;
        text.push_str(&format!("{:02x}", *byte));
    }
    assert_eq!(decode_author(Some(&text)), Ok(Author::Account(H256 { bytes })));
    assert_eq!(
        decode_author(Some(&text.to_uppercase().replace("0X", "0x"))),
        Ok(Author::Account(H256 { bytes }))
    );
    assert_eq!(
        decode_author(Some("0xABCDEFabcdef0123456789000000000000000000000000000000000000000000")),
        Ok(Author::Account(H256 {
            bytes: [
                0xab, 0xcd, 0xef, 0xab, 0xcd, 0xef, 0x01, 0x23, 0x45, 0x67, 0x89, 0, 0, 0, 0, 0, 0,
                0, 0, 0, 0, 0, 0, 0, 0, 0, 0, 0, 0, 0, 0, 0
            ]
        }))
    );
}

#[test]
fn author_that_is_no_hex_account_is_an_address() {
    let account = "ab".repeat(32);
    assert_eq!(decode_author(Some(&account)), Ok(Author::Address));
    assert_eq!(decode_author(Some("")), Ok(Author::Address));
    assert_eq!(decode_author(Some("0")), Ok(Author::Address));
    assert_eq!(decode_author(Some("0X00")), Ok(Author::Address));
    assert_eq!(
        decode_author(Some("5GrwvaEF5zXb26Fz9rcQpDWS57CtERHpNehXCPcNoHGKutQY")),
        Ok(Author::Address)
    );
}

#[test]
fn no_author_asks_for_a_fresh_key() {
    assert_eq!(decode_author(None), Ok(Author::Fresh));
}

#[test]
fn hex_author_that_is_not_an_account_is_refused() {
    assert_eq!(decode_author(Some("0x")), Err(AuthorError::InvalidAccount));
    for count in [31, 33] {
        let text = format!("0x{}", "ab".repeat(count));
        assert_eq!(decode_author(Some(&text)), Err(AuthorError::InvalidAccount));
    }
    for tail in ["a", "zz", "\u{e9}"] {
        let text = format!("0x{}{}", "ab".repeat(31), tail);
        assert_eq!(decode_author(Some(&text)), Err(AuthorError::InvalidAccount));
    }
    assert_eq!(AuthorError::InvalidAccount.message(), "Invalid author account");
    assert_eq!(AuthorError::InvalidAddress.message(), "Invalid author address");
}

#[test]
fn hex_digits_pair_up_to_bytes() {
    assert_eq!(from_hex(b"", 0), Some(vec![]));
    assert_eq!(from_hex(b"00ff10", 0), Some(vec![0x00, 0xff, 0x10]));
    assert_eq!(from_hex(b"0x0aF9", 2), Some(vec![0x0a, 0xf9]));
    assert_eq!(from_hex(b"0x0aF9", 6), Some(vec![]));
    assert_eq!(from_hex(b"abc", 0), None);
    assert_eq!(from_hex(b"ag", 0), None);
    assert_eq!(from_hex(b"g0", 0), None);
    assert_eq!(from_hex(b"/0", 0), None);
    assert_eq!(from_hex(b":0", 0), None);
    assert_eq!(from_hex(b"@0", 0), None);
    assert_eq!(from_hex(b"G0", 0), None);
    assert_eq!(from_hex(b"`0", 0), None);
}
