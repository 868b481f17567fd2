use kin_royalty_ledger::contract::burn_royalty;
use kin_royalty_ledger::contract::execute;
use kin_royalty_ledger::contract::instantiate;
use kin_royalty_ledger::contract::query;
use kin_royalty_ledger::contract::query_config;
use kin_royalty_ledger::contract::query_royalty;
use kin_royalty_ledger::contract::record_royalty;
use kin_royalty_ledger::contract::update_admin;
use kin_royalty_ledger::error::ContractError;
use kin_royalty_ledger::ledger::Ledger;
use kin_royalty_ledger::msg::ExecuteMsg;
use kin_royalty_ledger::msg::InstantiateMsg;
use kin_royalty_ledger::msg::QueryMsg;
use kin_royalty_ledger::msg::QueryResponse;
use kin_royalty_ledger::msg::Response;

const NOW: u64 = 1_700_000_000;

fn open_ledger() -> Ledger {
    instantiate(InstantiateMsg { admin: None }, true).unwrap()
}

fn gated_ledger() -> Ledger {
    instantiate(
        InstantiateMsg {
            admin: Some("sei1admin".to_string()),
        },
        true,
    )
    .unwrap()
}

fn value(response: &Response, key: &str) -> String {
    response.value_of(key).unwrap().clone()
}

#[test]
fn open_ledger_settles_everything_and_keeps_the_account() {
    let mut ledger = open_ledger();
    record_royalty(&mut ledger, "collector", "sei1u", true, "0xabc", 1000).unwrap();
    let shown = query_royalty(&ledger, "sei1u".to_string(), true).unwrap();
    assert_eq!(shown.accrued_amount, 1000);
    assert_eq!(shown.evm_address, "0xabc");

    let done = burn_royalty(&mut ledger, NOW, "anyone", "sei1u", true, None).unwrap();
    assert_eq!(value(&done, "action"), "burn_royalty");
    assert_eq!(value(&done, "user"), "sei1u");
    assert_eq!(value(&done, "evm_recipient"), "0xabc");
    assert_eq!(value(&done, "amount"), "1000");
    assert_eq!(value(&done, "remaining"), "0");
    assert_eq!(value(&done, "timestamp"), "1700000000");

    let shown = query_royalty(&ledger, "sei1u".to_string(), true).unwrap();
    assert_eq!(shown.accrued_amount, 0);
    assert_eq!(shown.total_burned, 1000);

    let again = burn_royalty(&mut ledger, NOW, "anyone", "sei1u", true, None).unwrap_err();
    assert_eq!(again, ContractError::InvalidAmount);
    let more = burn_royalty(&mut ledger, NOW, "anyone", "sei1u", true, Some(1)).unwrap_err();
    assert_eq!(more, ContractError::InsufficientFunds);
}

#[test]
fn gated_ledger_settles_everything_and_drops_the_account() {
    let mut ledger = gated_ledger();
    record_royalty(&mut ledger, "sei1admin", "sei1u", true, "0xabc", 1000).unwrap();
    assert_eq!(
        query_royalty(&ledger, "sei1u".to_string(), true)
            .unwrap()
            .accrued_amount,
        1000
    );

    let done = burn_royalty(&mut ledger, NOW, "sei1admin", "sei1u", true, None).unwrap();
    assert_eq!(value(&done, "amount"), "1000");
    assert_eq!(value(&done, "remaining"), "0");
    assert_eq!(ledger.len(), 0);
    assert_eq!(
        query_royalty(&ledger, "sei1u".to_string(), true).unwrap_err(),
        ContractError::NotFound
    );
    assert_eq!(
        burn_royalty(&mut ledger, NOW, "sei1admin", "sei1u", true, None).unwrap_err(),
        ContractError::NotFound
    );
}

#[test]
fn gated_ledger_keeps_no_burn_history() {
    let mut ledger = gated_ledger();
    record_royalty(&mut ledger, "sei1admin", "sei1u", true, "0xabc", 1000).unwrap();
    burn_royalty(&mut ledger, NOW, "sei1admin", "sei1u", true, Some(400)).unwrap();
    let shown = query_royalty(&ledger, "sei1u".to_string(), true).unwrap();
    assert_eq!(shown.accrued_amount, 600);
    assert_eq!(shown.total_burned, 0);
}

#[test]
fn two_accruals_then_partial_settlement() {
    let mut ledger = open_ledger();
    let first = record_royalty(&mut ledger, "collector", "sei1u", true, "0xabc", 2000).unwrap();
    assert_eq!(value(&first, "accrued"), "2000");
    let second = record_royalty(&mut ledger, "collector", "sei1u", true, "0xabc", 500).unwrap();
    assert_eq!(value(&second, "amount"), "500");
    assert_eq!(value(&second, "accrued"), "2500");

    let done = burn_royalty(&mut ledger, NOW, "anyone", "sei1u", true, Some(1500)).unwrap();
    assert_eq!(value(&done, "amount"), "1500");
    assert_eq!(value(&done, "remaining"), "1000");

    let before = ledger.clone();
    let refused = burn_royalty(&mut ledger, NOW, "anyone", "sei1u", true, Some(2000)).unwrap_err();
    assert_eq!(refused, ContractError::InsufficientFunds);
    assert_eq!(ledger, before);
    let shown = query_royalty(&ledger, "sei1u".to_string(), true).unwrap();
    assert_eq!(shown.accrued_amount, 1000);
    assert_eq!(shown.total_burned, 1500);
}

#[test]
fn balance_is_accruals_less_settlements() {
    let mut ledger = open_ledger();
    let accruals: [u128; 5] = [7, 1_000_000, 3, 250, 99];
    let settlements: [u128; 3] = [5, 500_000, 49];
    let mut accrued: u128 = 0;
    let mut settled: u128 = 0;
    for (i, amount) in accruals.iter().enumerate() {
        record_royalty(&mut ledger, "collector", "sei1u", true, "0xabc", *amount).unwrap();
        record_royalty(&mut ledger, "collector", "sei1other", true, "0xdef", 5).unwrap();
        accrued += *amount;
        if i < settlements.len() {
            burn_royalty(&mut ledger, NOW, "anyone", "sei1u", true, Some(settlements[i]))
                .unwrap();
            settled += settlements[i];
        }
        // refused commands change nothing
        record_royalty(&mut ledger, "collector", "sei1u", true, "0xabc", 0).unwrap_err();
        burn_royalty(&mut ledger, NOW, "anyone", "sei1u", true, Some(u128::MAX)).unwrap_err();
        let shown = query_royalty(&ledger, "sei1u".to_string(), true).unwrap();
        assert_eq!(shown.accrued_amount, accrued - settled);
        assert_eq!(shown.total_burned, settled);
    }
    let other = query_royalty(&ledger, "sei1other".to_string(), true).unwrap();
    assert_eq!(other.accrued_amount, 25);
    assert_eq!(other.total_burned, 0);
}

#[test]
fn zero_accrual_creates_no_account() {
    let mut ledger = open_ledger();
    let refused = record_royalty(&mut ledger, "collector", "sei1u", true, "0xabc", 0).unwrap_err();
    assert_eq!(refused, ContractError::InvalidAmount);
    assert_eq!(ledger.len(), 0);
    assert_eq!(ledger, open_ledger());

    record_royalty(&mut ledger, "collector", "sei1u", true, "0xabc", 5).unwrap();
    let before = ledger.clone();
    let refused = record_royalty(&mut ledger, "collector", "sei1u", true, "0xdef", 0).unwrap_err();
    assert_eq!(refused, ContractError::InvalidAmount);
    assert_eq!(ledger, before);
}

#[test]
fn zero_accrual_is_refused_before_the_identity_is_looked_at() {
    let mut ledger = gated_ledger();
    let refused = record_royalty(&mut ledger, "mallory", "bad id", false, "0xabc", 0).unwrap_err();
    assert_eq!(refused, ContractError::InvalidAmount);
    let refused = record_royalty(&mut ledger, "mallory", "bad id", false, "0xabc", 1).unwrap_err();
    assert_eq!(refused, ContractError::InvalidIdentity);
}

#[test]
fn zero_settlement_is_refused() {
    let mut ledger = open_ledger();
    record_royalty(&mut ledger, "collector", "sei1u", true, "0xabc", 5).unwrap();
    let before = ledger.clone();
    let refused = burn_royalty(&mut ledger, NOW, "anyone", "sei1u", true, Some(0)).unwrap_err();
    assert_eq!(refused, ContractError::InvalidAmount);
    assert_eq!(ledger, before);
}

#[test]
fn settlement_of_exactly_the_balance_is_accepted() {
    let mut ledger = open_ledger();
    record_royalty(&mut ledger, "collector", "sei1u", true, "0xabc", 5).unwrap();
    let done = burn_royalty(&mut ledger, NOW, "anyone", "sei1u", true, Some(5)).unwrap();
    assert_eq!(value(&done, "remaining"), "0");
    let refused = burn_royalty(&mut ledger, NOW, "anyone", "sei1u", true, Some(6)).unwrap_err();
    assert_eq!(refused, ContractError::InsufficientFunds);
}

#[test]
fn unauthorized_caller_changes_nothing() {
    let mut ledger = gated_ledger();
    record_royalty(&mut ledger, "sei1admin", "sei1u", true, "0xabc", 1000).unwrap();
    let before = ledger.clone();

    let refused = record_royalty(&mut ledger, "mallory", "sei1u", true, "0xevil", 1).unwrap_err();
    assert_eq!(refused, ContractError::Unauthorized);
    let refused = burn_royalty(&mut ledger, NOW, "mallory", "sei1u", true, None).unwrap_err();
    assert_eq!(refused, ContractError::Unauthorized);
    let refused = burn_royalty(&mut ledger, NOW, "mallory", "nobody", false, Some(0)).unwrap_err();
    assert_eq!(refused, ContractError::Unauthorized);
    let refused = update_admin(&mut ledger, "mallory", "mallory", true).unwrap_err();
    assert_eq!(refused, ContractError::Unauthorized);
    assert_eq!(ledger, before);
}

#[test]
fn administration_is_handed_over() {
    let mut ledger = gated_ledger();
    assert_eq!(query_config(&ledger).unwrap().admin, "sei1admin");

    let refused = update_admin(&mut ledger, "sei1admin", "not valid", false).unwrap_err();
    assert_eq!(refused, ContractError::InvalidIdentity);
    assert_eq!(query_config(&ledger).unwrap().admin, "sei1admin");

    let done = update_admin(&mut ledger, "sei1admin", "sei1next", true).unwrap();
    assert_eq!(value(&done, "action"), "update_admin");
    assert_eq!(value(&done, "admin"), "sei1next");
    assert_eq!(query_config(&ledger).unwrap().admin, "sei1next");

    let refused = record_royalty(&mut ledger, "sei1admin", "sei1u", true, "0xabc", 1).unwrap_err();
    assert_eq!(refused, ContractError::Unauthorized);
    record_royalty(&mut ledger, "sei1next", "sei1u", true, "0xabc", 1).unwrap();
}

#[test]
fn open_ledger_has_no_administration() {
    let mut ledger = open_ledger();
    assert_eq!(query_config(&ledger).unwrap_err(), ContractError::NotFound);
    assert!(ledger.config().is_none());
    let refused = update_admin(&mut ledger, "anyone", "anyone", true).unwrap_err();
    assert_eq!(refused, ContractError::Unauthorized);
    assert_eq!(ledger, open_ledger());
}

#[test]
fn instantiate_refuses_a_malformed_administrator() {
    let refused = instantiate(
        InstantiateMsg {
            admin: Some("???".to_string()),
        },
        false,
    )
    .unwrap_err();
    assert_eq!(refused, ContractError::InvalidIdentity);
    // without an administrator the verdict is not looked at
    let ledger = instantiate(InstantiateMsg { admin: None }, false).unwrap();
    assert_eq!(ledger.len(), 0);
    assert!(ledger.authorizes("anyone"));
    let ledger = gated_ledger();
    assert!(ledger.authorizes("sei1admin"));
    assert!(!ledger.authorizes("sei1admin2"));
    assert_eq!(ledger.config().unwrap().admin, "sei1admin");
}

#[test]
fn latest_payout_address_wins() {
    let mut ledger = open_ledger();
    record_royalty(&mut ledger, "collector", "sei1u", true, "0xAAA", 1).unwrap();
    let second = record_royalty(&mut ledger, "collector", "sei1u", true, "0xBbB", 1).unwrap();
    assert_eq!(value(&second, "evm_recipient"), "0xbbb");
    let shown = query_royalty(&ledger, "sei1u".to_string(), true).unwrap();
    assert_eq!(shown.evm_address, "0xbbb");
    assert_eq!(shown.accrued_amount, 2);
}

#[test]
fn accrual_reports_its_attributes_in_order() {
    let mut ledger = open_ledger();
    let done = record_royalty(&mut ledger, "collector", "sei1u", true, "0xABC", 42).unwrap();
    let shown: Vec<(&str, &str)> = done
        .attributes
        .iter()
        .map(|a| (a.key.as_str(), a.value.as_str()))
        .collect();
    assert_eq!(
        shown,
        vec![
            ("action", "record_royalty"),
            ("user", "sei1u"),
            ("evm_recipient", "0xabc"),
            ("amount", "42"),
            ("accrued", "42"),
        ]
    );
    assert!(done.value_of("remaining").is_none());
}

#[test]
fn settlement_reports_its_attributes_in_order() {
    let mut ledger = open_ledger();
    record_royalty(&mut ledger, "collector", "sei1u", true, "0xABC", 42).unwrap();
    let done = burn_royalty(&mut ledger, 7, "anyone", "sei1u", true, Some(2)).unwrap();
    let keys: Vec<&str> = done.attributes.iter().map(|a| a.key.as_str()).collect();
    assert_eq!(
        keys,
        vec![
            "action",
            "user",
            "evm_recipient",
            "amount",
            "remaining",
            "payload_hex",
            "payload_base64",
            "timestamp",
        ]
    );
    assert_eq!(value(&done, "remaining"), "40");
    assert_eq!(value(&done, "timestamp"), "7");
}

#[test]
fn balance_that_does_not_fit_is_refused() {
    let mut ledger = open_ledger();
    record_royalty(&mut ledger, "collector", "sei1u", true, "0xabc", u128::MAX).unwrap();
    let before = ledger.clone();
    let refused = record_royalty(&mut ledger, "collector", "sei1u", true, "0xdef", 1).unwrap_err();
    assert_eq!(refused, ContractError::ArithmeticOverflow);
    assert_eq!(ledger, before);
    assert_eq!(
        query_royalty(&ledger, "sei1u".to_string(), true)
            .unwrap()
            .evm_address,
        "0xabc"
    );
}

#[test]
fn burn_history_that_does_not_fit_is_refused() {
    let mut ledger = open_ledger();
    record_royalty(&mut ledger, "collector", "sei1u", true, "0xabc", u128::MAX).unwrap();
    burn_royalty(&mut ledger, NOW, "anyone", "sei1u", true, None).unwrap();
    record_royalty(&mut ledger, "collector", "sei1u", true, "0xabc", 1).unwrap();
    let before = ledger.clone();
    let refused = burn_royalty(&mut ledger, NOW, "anyone", "sei1u", true, None).unwrap_err();
    assert_eq!(refused, ContractError::ArithmeticOverflow);
    assert_eq!(ledger, before);
}

#[test]
fn malformed_or_unknown_user_is_refused() {
    let mut ledger = open_ledger();
    let refused = record_royalty(&mut ledger, "collector", "x", false, "0xabc", 1).unwrap_err();
    assert_eq!(refused, ContractError::InvalidIdentity);
    let refused = burn_royalty(&mut ledger, NOW, "anyone", "x", false, None).unwrap_err();
    assert_eq!(refused, ContractError::InvalidIdentity);
    let refused = query_royalty(&ledger, "x".to_string(), false).unwrap_err();
    assert_eq!(refused, ContractError::InvalidIdentity);
    let refused = burn_royalty(&mut ledger, NOW, "anyone", "sei1u", true, Some(0)).unwrap_err();
    assert_eq!(refused, ContractError::NotFound);
    let refused = query_royalty(&ledger, "sei1u".to_string(), true).unwrap_err();
    assert_eq!(refused, ContractError::NotFound);
    assert_eq!(ledger.len(), 0);
}

#[test]
fn execute_and_query_dispatch() {
    let mut ledger = gated_ledger();
    let record = ExecuteMsg::RecordRoyalty {
        user: "sei1u".to_string(),
        evm_address: "0xABC".to_string(),
        amount: 10,
    };
    assert_eq!(record.identity(), "sei1u");
    let done = execute(&mut ledger, NOW, "sei1admin", record, true).unwrap();
    assert_eq!(value(&done, "accrued"), "10");

    let burn = ExecuteMsg::BurnRoyalty {
        user: "sei1u".to_string(),
        amount: Some(4),
    };
    assert_eq!(burn.identity(), "sei1u");
    let refused = execute(&mut ledger, NOW, "mallory", burn.clone(), true).unwrap_err();
    assert_eq!(refused, ContractError::Unauthorized);
    let done = execute(&mut ledger, NOW, "sei1admin", burn, true).unwrap();
    assert_eq!(value(&done, "remaining"), "6");

    let hand = ExecuteMsg::UpdateAdmin {
        admin: "sei1next".to_string(),
    };
    assert_eq!(hand.identity(), "sei1next");
    execute(&mut ledger, NOW, "sei1admin", hand, true).unwrap();

    let config = QueryMsg::Config {};
    assert!(config.identity().is_none());
    match query(&ledger, config, false).unwrap() {
        QueryResponse::Config(config) => assert_eq!(config.admin, "sei1next"),
        other => panic!("unexpected answer {:?}", other),
    }
    let one = QueryMsg::Royalty {
        user: "sei1u".to_string(),
    };
    assert_eq!(one.identity().unwrap(), "sei1u");
    match query(&ledger, one, true).unwrap() {
        QueryResponse::Royalty(account) => {
            assert_eq!(account.user, "sei1u");
            assert_eq!(account.accrued_amount, 6);
            assert_eq!(account.total_burned, 0);
        }
        other => panic!("unexpected answer {:?}", other),
    }
    let all = QueryMsg::AllRoyalties {
        start_after: None,
        limit: None,
    };
    assert!(all.identity().is_none());
    match query(&ledger, all, false).unwrap() {
        QueryResponse::AllRoyalties(list) => assert_eq!(list.accounts.len(), 1),
        other => panic!("unexpected answer {:?}", other),
    }
    let after = QueryMsg::AllRoyalties {
        start_after: Some("sei1u".to_string()),
        limit: Some(1),
    };
    assert_eq!(after.identity().unwrap(), "sei1u");
    assert_eq!(
        query(&ledger, after.clone(), false).unwrap_err(),
        ContractError::InvalidIdentity
    );
    match query(&ledger, after, true).unwrap() {
        QueryResponse::AllRoyalties(list) => assert!(list.accounts.is_empty()),
        other => panic!("unexpected answer {:?}", other),
    }
}

#[test]
fn errors_have_messages() {
    assert_eq!(ContractError::Unauthorized.message(), "unauthorised");
    assert_eq!(ContractError::InvalidIdentity.message(), "invalid identity");
    assert_eq!(
        ContractError::InvalidAmount.message(),
        "amount must be greater than zero"
    );
    assert_eq!(ContractError::NotFound.message(), "royalty account not found");
    assert_eq!(
        ContractError::InsufficientFunds.message(),
        "insufficient accrued royalty to burn"
    );
    assert_eq!(
        ContractError::ArithmeticOverflow.message(),
        "arithmetic overflow"
    );
    assert_eq!(
        ContractError::ArithmeticUnderflow.message(),
        "arithmetic underflow"
    );
    assert_eq!(
        ContractError::PayloadSerialisation.message(),
        "payload serialisation error"
    );
}

#[test]
fn first_attribute_of_a_key_is_found() {
    use_attributes(Response {
        attributes: vec![
            kin_royalty_ledger::msg::Attribute::new("a", "1".to_string()),
            kin_royalty_ledger::msg::Attribute::new("b", "2".to_string()),
            kin_royalty_ledger::msg::Attribute::new("a", "3".to_string()),
        ],
    });
}

fn use_attributes(response: Response) {
    assert_eq!(response.value_of("a").unwrap(), "1");
    assert_eq!(response.value_of("b").unwrap(), "2");
    assert!(response.value_of("c").is_none());
    assert!(response.value_of("").is_none());
    assert_eq!(response.attributes[2].key, "a");
    assert_eq!(response.attributes[2].value, "3");
}
