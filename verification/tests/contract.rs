use kin_royalty_ledger::contract::burn_royalty;
use kin_royalty_ledger::contract::instantiate;
use kin_royalty_ledger::contract::query_all_royalties;
use kin_royalty_ledger::contract::query_royalty;
use kin_royalty_ledger::contract::record_royalty;
use kin_royalty_ledger::error::ContractError;
use kin_royalty_ledger::msg::Attribute;
use kin_royalty_ledger::msg::InstantiateMsg;

#[test]
fn record_and_query() {
    let mut ledger = instantiate(InstantiateMsg { admin: None }, true).unwrap();

    let response = record_royalty(
        &mut ledger,
        "collector",
        "sei1user",
        true,
        "0xABCDEF",
        1_000_000,
    )
    .unwrap();

    assert_eq!(
        response.attributes[0],
        Attribute::new("action", "record_royalty".to_string())
    );

    let result = query_royalty(&ledger, "sei1user".to_string(), true).unwrap();
    assert_eq!(result.user, "sei1user");
    assert_eq!(result.evm_address, "0xabcdef");
    assert_eq!(result.accrued_amount, 1_000_000);
}

#[test]
fn burn_updates_account_and_payload() {
    let mut ledger = instantiate(InstantiateMsg { admin: None }, true).unwrap();

    record_royalty(
        &mut ledger,
        "collector",
        "sei1burn",
        true,
        "0xUSER",
        2_000_000,
    )
    .unwrap();

    let res = burn_royalty(
        &mut ledger,
        1_571_797_419,
        "anyone",
        "sei1burn",
        true,
        Some(500_000),
    )
    .unwrap();

    assert_eq!(
        res.attributes
            .iter()
            .find(|a| a.key == "amount")
            .unwrap()
            .value,
        "500000"
    );
    let payload_hex = res
        .attributes
        .iter()
        .find(|a| a.key == "payload_hex")
        .unwrap();
    assert!(payload_hex.value.contains("7b"));

    let account = query_royalty(&ledger, "sei1burn".to_string(), true).unwrap();
    assert_eq!(account.accrued_amount, 1_500_000);
    assert_eq!(account.total_burned, 500_000);
}

#[test]
fn cannot_burn_more_than_accrued() {
    let mut ledger = instantiate(InstantiateMsg { admin: None }, true).unwrap();

    record_royalty(&mut ledger, "collector", "sei1limit", true, "0xUSER", 1).unwrap();

    let err = burn_royalty(
        &mut ledger,
        1_571_797_419,
        "anyone",
        "sei1limit",
        true,
        Some(2),
    )
    .unwrap_err();

    assert_eq!(err, ContractError::InsufficientFunds);
}

#[test]
fn iterate_accounts() {
    let mut ledger = instantiate(InstantiateMsg { admin: None }, true).unwrap();

    for idx in 0..3u8 {
        let user = format!("sei1user{}", idx);
        record_royalty(
            &mut ledger,
            "collector",
            &user,
            true,
            &format!("0xADDR{}", idx),
            100,
        )
        .unwrap();
    }

    let list = query_all_royalties(&ledger, None, true, Some(2)).unwrap();
    assert_eq!(list.accounts.len(), 2);
    assert_eq!(list.accounts[0].user, "sei1user0");

    let start = list.accounts.last().map(|item| item.user.clone()).unwrap();
    let list_next = query_all_royalties(&ledger, Some(start), true, Some(2)).unwrap();
    assert_eq!(list_next.accounts.len(), 1);
    assert_eq!(list_next.accounts[0].user, "sei1user2");
}
