use kin_royalty_ledger::account::RoyaltyAccount;
use kin_royalty_ledger::contract::burn_royalty;
use kin_royalty_ledger::contract::instantiate;
use kin_royalty_ledger::contract::record_royalty;
use kin_royalty_ledger::error::ContractError;
use kin_royalty_ledger::ledger::Ledger;
use kin_royalty_ledger::msg::InstantiateMsg;
use kin_royalty_ledger::payload::SettlementPayload;
use kin_royalty_ledger::text::decimal_string;
use kin_royalty_ledger::transport::base64_string;

fn settled(user: &str, address: &str, amount: u128) -> (Ledger, kin_royalty_ledger::contract::Settlement) {
    let mut ledger = instantiate(InstantiateMsg { admin: None }, true).unwrap();
    ledger
        .accrue("collector", user, true, address.to_string(), amount)
        .unwrap();
    let done = ledger.settle("anyone", user, true, None).unwrap();
    (ledger, done)
}

#[test]
fn amounts_are_written_in_decimal() {
    assert_eq!(decimal_string(0), "0");
    assert_eq!(decimal_string(7), "7");
    assert_eq!(decimal_string(10), "10");
    assert_eq!(decimal_string(500_000), "500000");
    assert_eq!(decimal_string(1_000_000_007), "1000000007");
    assert_eq!(
        decimal_string(u128::MAX),
        "340282366920938463463374607431768211455"
    );
    for n in [1u128, 9, 99, 100, 101, 65_535, 1 << 64, (1 << 100) + 12345] {
        assert_eq!(decimal_string(n), n.to_string());
    }
}

#[test]
fn base64_of_known_bytes() {
    let cases: [(&str, &str); 7] = [
        ("", ""),
        ("f", "Zg=="),
        ("fo", "Zm8="),
        ("foo", "Zm9v"),
        ("foob", "Zm9vYg=="),
        ("fooba", "Zm9vYmE="),
        ("foobar", "Zm9vYmFy"),
    ];
    for (plain, encoded) in cases {
        assert_eq!(base64_string(&plain.as_bytes().to_vec()), encoded);
    }
    assert_eq!(base64_string(&vec![0xfb, 0xff]), "+/8=");
    assert_eq!(base64_string(&vec![0x00, 0x10, 0x83, 0x10, 0x51, 0x87]), "ABCDEFGH");
    assert_eq!(base64_string(&vec![0xff, 0xff, 0xff]), "////");
}

#[test]
fn base64_agrees_with_the_host_encoding() {
    let all: Vec<u8> = (0..=255u8).collect();
    for len in 0..all.len() {
        let bytes = all[..len].to_vec();
        let expected = cosmwasm_std::Binary::from(bytes.clone()).to_base64();
        assert_eq!(base64_string(&bytes), expected);
    }
}

#[test]
fn payload_is_canonical_json() {
    let payload = SettlementPayload {
        evm_recipient: "0xuser".to_string(),
        amount: "500000".to_string(),
        user_id: "sei1burn".to_string(),
    };
    let bytes = payload.to_json().unwrap();
    assert_eq!(
        String::from_utf8(bytes).unwrap(),
        r#"{"evm_recipient":"0xuser","amount":"500000","user_id":"sei1burn"}"#
    );
}

#[test]
fn payload_strings_are_escaped() {
    let payload = SettlementPayload {
        evm_recipient: "a\"b\\c/d".to_string(),
        amount: "\u{8}\t\n\u{c}\r\u{0}\u{1f}\u{7f}".to_string(),
        user_id: "é\u{10348} ".to_string(),
    };
    let bytes = payload.to_json().unwrap();
    assert_eq!(
        String::from_utf8(bytes.clone()).unwrap(),
        "{\"evm_recipient\":\"a\\\"b\\\\c/d\",\"amount\":\"\\b\\t\\n\\f\\r\\u0000\\u001f\u{7f}\",\"user_id\":\"é\u{10348} \"}"
    );
    let parsed: serde_json::Value = serde_json::from_slice(&bytes).unwrap();
    assert_eq!(parsed["evm_recipient"].as_str().unwrap(), payload.evm_recipient);
    assert_eq!(parsed["amount"].as_str().unwrap(), payload.amount);
    assert_eq!(parsed["user_id"].as_str().unwrap(), payload.user_id);
}

#[test]
fn settlement_carries_its_payload() {
    let (_, done) = settled("sei1burn", "0xuser", 500_000);
    assert_eq!(done.amount, 500_000);
    assert_eq!(done.remaining, 0);
    assert_eq!(
        done.payload,
        SettlementPayload {
            evm_recipient: "0xuser".to_string(),
            amount: "500000".to_string(),
            user_id: "sei1burn".to_string(),
        }
    );
    let json = r#"{"evm_recipient":"0xuser","amount":"500000","user_id":"sei1burn"}"#;
    assert_eq!(done.payload_json, json.as_bytes().to_vec());
    assert_eq!(
        done.payload_hex,
        "7b2265766d5f726563697069656e74223a22307875736572222c22616d6f756e74223a22353030303030222c22757365725f6964223a22736569316275726e227d"
    );
    assert_eq!(
        done.payload_base64,
        "eyJldm1fcmVjaXBpZW50IjoiMHh1c2VyIiwiYW1vdW50IjoiNTAwMDAwIiwidXNlcl9pZCI6InNlaTFidXJuIn0="
    );
}

#[test]
fn hex_is_lower_case_and_two_digits_a_byte() {
    // the payout address is taken as it is by `accrue`, so every byte value
    // below 0x80 can be put through the hexadecimal encoding
    let address: String = (0u8..0x80).map(|b| b as char).collect();
    let (_, done) = settled("u", &address, 1);
    assert_eq!(done.payload_hex.len(), 2 * done.payload_json.len());
    assert_eq!(done.payload_hex, hex::encode(&done.payload_json));
    assert!(done
        .payload_hex
        .chars()
        .all(|c| c.is_ascii_digit() || ('a'..='f').contains(&c)));
    assert!(done.payload_hex.starts_with("7b22"));
    assert!(done.payload_hex.ends_with("227d"));
    assert!(done.payload_hex.contains("5c6e"));
}

#[test]
fn payload_round_trip() {
    let cases: [(&str, &str, u128); 4] = [
        ("sei1burn", "0xuser", 500_000),
        ("sei1\"quoted\"", "0x\\back\nslash", 1),
        ("ユーザー", "0x\u{1}\u{1f}é\u{10348}", u128::MAX),
        ("", "", 42),
    ];
    for (user, address, amount) in cases {
        let (_, done) = settled(user, address, amount);

        let from_hex = hex::decode(&done.payload_hex).unwrap();
        assert_eq!(from_hex, done.payload_json);
        let from_base64 = cosmwasm_std::Binary::from_base64(&done.payload_base64)
            .unwrap()
            .to_vec();
        assert_eq!(from_base64, done.payload_json);

        let parsed: serde_json::Value = serde_json::from_slice(&from_hex).unwrap();
        let members = parsed.as_object().unwrap();
        assert_eq!(members.len(), 3);
        assert_eq!(members["evm_recipient"].as_str().unwrap(), address);
        assert_eq!(members["amount"].as_str().unwrap(), amount.to_string());
        assert_eq!(members["user_id"].as_str().unwrap(), user);
    }
}

#[test]
fn reported_payload_decodes_to_the_settlement() {
    let mut ledger = instantiate(InstantiateMsg { admin: None }, true).unwrap();
    record_royalty(&mut ledger, "collector", "sei1burn", true, "0xUSER", 2_000_000).unwrap();
    let done = burn_royalty(&mut ledger, 1, "anyone", "sei1burn", true, Some(500_000)).unwrap();
    let hex_text = done.value_of("payload_hex").unwrap();
    let base64_text = done.value_of("payload_base64").unwrap();
    let bytes = hex::decode(hex_text).unwrap();
    assert_eq!(
        cosmwasm_std::Binary::from_base64(base64_text).unwrap().to_vec(),
        bytes
    );
    let parsed: serde_json::Value = serde_json::from_slice(&bytes).unwrap();
    assert_eq!(parsed["evm_recipient"].as_str().unwrap(), "0xuser");
    assert_eq!(parsed["amount"].as_str().unwrap(), "500000");
    assert_eq!(parsed["user_id"].as_str().unwrap(), "sei1burn");
}

#[test]
fn payout_address_is_lower_cased_as_unicode() {
    let mut ledger = instantiate(InstantiateMsg { admin: None }, true).unwrap();
    let done = record_royalty(&mut ledger, "collector", "u", true, "0xÀBÇ-Σ", 1).unwrap();
    assert_eq!(done.value_of("evm_recipient").unwrap(), "0xàbç-σ");
    // `accrue` takes the address as it is
    ledger
        .accrue("collector", "v", true, "0xABC".to_string(), 1)
        .unwrap();
    assert_eq!(ledger.get("v").unwrap().evm_address, "0xABC");
}

#[test]
fn account_arithmetic_is_checked() {
    let account = RoyaltyAccount::new("0xabc".to_string());
    assert_eq!(account.accrued_amount, 0);
    assert_eq!(account.total_burned, 0);
    let account = account.credit("0xdef".to_string(), 10).unwrap();
    assert_eq!(account.evm_address, "0xdef");
    assert_eq!(account.accrued_amount, 10);
    assert_eq!(
        account.credit("0xdef".to_string(), u128::MAX - 9).unwrap_err(),
        ContractError::ArithmeticOverflow
    );
    assert_eq!(
        account
            .credit("0xdef".to_string(), u128::MAX - 10)
            .unwrap()
            .accrued_amount,
        u128::MAX
    );

    let (left, amount) = account.debit(Some(4), true).unwrap();
    assert_eq!((left.accrued_amount, left.total_burned, amount), (6, 4, 4));
    let (left, amount) = left.debit(None, true).unwrap();
    assert_eq!((left.accrued_amount, left.total_burned, amount), (0, 10, 6));
    assert_eq!(left.debit(None, true).unwrap_err(), ContractError::InvalidAmount);
    assert_eq!(left.debit(Some(0), true).unwrap_err(), ContractError::InvalidAmount);
    assert_eq!(
        left.debit(Some(1), true).unwrap_err(),
        ContractError::InsufficientFunds
    );
    let (left, amount) = account.debit(Some(10), false).unwrap();
    assert_eq!((left.accrued_amount, left.total_burned, amount), (0, 0, 10));
    assert_eq!(left.clone(), left);

    let full = RoyaltyAccount {
        evm_address: "0xabc".to_string(),
        accrued_amount: 2,
        total_burned: u128::MAX - 1,
    };
    assert_eq!(
        full.debit(Some(2), true).unwrap_err(),
        ContractError::ArithmeticOverflow
    );
    assert_eq!(full.debit(Some(1), true).unwrap().0.total_burned, u128::MAX);
    assert_eq!(full.debit(Some(2), false).unwrap().0.total_burned, u128::MAX - 1);
}

#[test]
fn amounts_are_written_as_the_host_writes_them() {
    for n in [0u128, 1, 10, 99, 500_000, u128::MAX / 3, u128::MAX] {
        assert_eq!(decimal_string(n), cosmwasm_std::Uint128::new(n).to_string());
    }
    let account = RoyaltyAccount::new("0xabc".to_string())
        .credit("0xabc".to_string(), u128::MAX - 1)
        .unwrap();
    for amount in [0u128, 1, 2, u128::MAX] {
        let host = cosmwasm_std::Uint128::new(u128::MAX - 1)
            .checked_add(cosmwasm_std::Uint128::new(amount));
        let own = account.credit("0xabc".to_string(), amount);
        assert_eq!(own.is_ok(), host.is_ok());
        if let (Ok(own), Ok(host)) = (own, host) {
            assert_eq!(own.accrued_amount, host.u128());
        }
    }
}
