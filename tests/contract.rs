use terraport_token::contract::{
    execute_burn, execute_mint, execute_send, execute_transfer, execute_update_marketing,
    execute_update_minter, execute_upload_logo, instantiate, query_balance, query_marketing_info,
    query_minter, Event, InstantiateMarketingInfo, InstantiateMsg, Token,
};
use terraport_token::error::ContractError;
use terraport_token::ledger::MinterData;
use terraport_token::logo::Logo;

const HEIGHT: u64 = 12_345;
const CONTRACT: &str = "cosmos2contract";

fn setup(marketing: &str) -> Token {
    let msg = InstantiateMsg {
        name: "Test".to_string(),
        symbol: "TEST".to_string(),
        decimals: 6,
        initial_balances: vec![],
        mint: Some(MinterData {
            minter: "governance".to_string(),
            cap: Some(1000000000u128),
        }),
        marketing: Some(InstantiateMarketingInfo {
            project: Some("mark".to_string()),
            description: Some("mark".to_string()),
            marketing: Some(marketing.to_string()),
            logo: Some(Logo::Url("".to_string())),
        }),
    };
    instantiate(msg, HEIGHT).unwrap()
}

fn governance() -> String {
    "governance".to_string()
}

#[test]
fn proper_initialization() {
    let mut token = setup("mark");
    execute_mint(&mut token, &governance(), &governance(), 1000000u128, HEIGHT).unwrap();
    assert_eq!(query_balance(&token, &governance()), 1000000u128);
}

#[test]
fn mint_with_different_minter() {
    let mut token = setup("mark");
    let err = execute_mint(&mut token, &"user".to_string(), &governance(), 1000000u128, HEIGHT)
        .unwrap_err();
    assert_eq!(err, ContractError::Unauthorized);
}

#[test]
fn transfer_with_insufficient_balance() {
    let mut token = setup("mark");
    execute_mint(&mut token, &governance(), &governance(), 1000000u128, HEIGHT).unwrap();
    let err = execute_transfer(&mut token, &governance(), &"user".to_string(), 10000000u128, HEIGHT)
        .unwrap_err();
    assert_eq!(query_balance(&token, &governance()), 1000000u128);
    assert_eq!(err, ContractError::InsufficientFunds);
}

#[test]
fn transfer() {
    let mut token = setup("mark");
    execute_mint(&mut token, &governance(), &governance(), 1000000u128, HEIGHT).unwrap();
    execute_transfer(&mut token, &governance(), &"user".to_string(), 1000000u128, HEIGHT).unwrap();
    assert_eq!(query_balance(&token, &governance()), 0);
    assert_eq!(query_balance(&token, &"user".to_string()), 1000000u128);
}

#[test]
fn send_with_insufficient_balance() {
    let mut token = setup("mark");
    execute_mint(&mut token, &governance(), &governance(), 1000000u128, HEIGHT).unwrap();
    let err = execute_send(
        &mut token,
        &governance(),
        &CONTRACT.to_string(),
        10000000u128,
        vec![],
        HEIGHT,
    )
    .err()
    .unwrap();
    assert_eq!(query_balance(&token, &governance()), 1000000u128);
    assert_eq!(err, ContractError::InsufficientFunds);
}

#[test]
fn send() {
    let mut token = setup("mark");
    execute_mint(&mut token, &governance(), &governance(), 1000000u128, HEIGHT).unwrap();
    let (event, notice) = execute_send(
        &mut token,
        &governance(),
        &CONTRACT.to_string(),
        1000000u128,
        vec![],
        HEIGHT,
    )
    .ok()
    .unwrap();
    assert_eq!(query_balance(&token, &governance()), 0);
    assert_eq!(query_balance(&token, &CONTRACT.to_string()), 1000000u128);
    assert_eq!(notice.contract, CONTRACT);
    assert_eq!(notice.sender, "governance");
    assert_eq!(notice.amount, 1000000u128);
    assert_eq!(
        event,
        Event::Send { from: governance(), to: CONTRACT.to_string(), amount: 1000000u128 }
    );
}

#[test]
fn burn() {
    let mut token = setup("mark");
    execute_mint(&mut token, &governance(), &governance(), 1000000u128, HEIGHT).unwrap();
    execute_burn(&mut token, &governance(), 1000000u128, HEIGHT).unwrap();
    assert_eq!(query_balance(&token, &governance()), 0);
}

#[test]
fn update_marketing_with_wrong_sender() {
    let mut token = setup("governance");
    execute_mint(&mut token, &governance(), &governance(), 1000000u128, HEIGHT).unwrap();
    let err = execute_update_marketing(
        &mut token,
        &"user2".to_string(),
        Some("".to_string()),
        Some("".to_string()),
        Some("user".to_string()),
    )
    .unwrap_err();
    assert_eq!(err, ContractError::Unauthorized);
}

#[test]
fn update_marketing() {
    let mut token = setup("governance");
    execute_mint(&mut token, &governance(), &governance(), 1000000u128, HEIGHT).unwrap();
    execute_update_marketing(
        &mut token,
        &governance(),
        Some("".to_string()),
        Some("".to_string()),
        Some("user".to_string()),
    )
    .unwrap();
}

#[test]
fn update_logo_with_wrong_sender() {
    let mut token = setup("governance");
    execute_mint(&mut token, &governance(), &governance(), 1000000u128, HEIGHT).unwrap();
    let err = execute_upload_logo(&mut token, &"user2".to_string(), Logo::Url("".to_string()))
        .unwrap_err();
    assert_eq!(err, ContractError::Unauthorized);
}

#[test]
fn update_logo() {
    let mut token = setup("governance");
    execute_mint(&mut token, &governance(), &governance(), 1000000u128, HEIGHT).unwrap();
    execute_upload_logo(&mut token, &governance(), Logo::Url("".to_string())).unwrap();
}

#[test]
fn update_minter_with_wrong_sender() {
    let mut token = setup("governance");
    execute_mint(&mut token, &governance(), &governance(), 1000000u128, HEIGHT).unwrap();
    let err = execute_update_minter(&mut token, &"user2".to_string(), Some("user".to_string()))
        .unwrap_err();
    assert_eq!(err, ContractError::Unauthorized);
}

#[test]
fn update_minter() {
    let mut token = setup("governance");
    execute_mint(&mut token, &governance(), &governance(), 1000000u128, HEIGHT).unwrap();
    execute_update_minter(&mut token, &governance(), Some("user".to_string())).unwrap();
    let m = query_minter(&token).unwrap();
    assert_eq!(m.minter, "user");
    assert_eq!(m.cap, Some(1000000000u128));
}

#[test]
fn blank_marketing_fields_are_cleared() {
    let mut token = setup("governance");
    execute_update_marketing(
        &mut token,
        &governance(),
        Some("  \t".to_string()),
        Some("new words".to_string()),
        None,
    )
    .unwrap();
    let info = query_marketing_info(&token);
    assert_eq!(info.project, None);
    assert_eq!(info.description, Some("new words".to_string()));
    assert_eq!(info.marketing, Some("governance".to_string()));
}

#[test]
fn each_operation_logs_its_event() {
    let mut token = setup("governance");
    let gov = governance();
    let user = "user".to_string();
    assert_eq!(
        execute_mint(&mut token, &gov, &user, 0, HEIGHT),
        Ok(Event::Mint { to: user.clone(), amount: 0 })
    );
    assert_eq!(
        execute_mint(&mut token, &gov, &gov, 5, HEIGHT),
        Ok(Event::Mint { to: gov.clone(), amount: 5 })
    );
    assert_eq!(
        execute_transfer(&mut token, &gov, &user, 0, HEIGHT),
        Ok(Event::Transfer { from: gov.clone(), to: user.clone(), amount: 0 })
    );
    assert_eq!(
        execute_transfer(&mut token, &gov, &user, 2, HEIGHT),
        Ok(Event::Transfer { from: gov.clone(), to: user.clone(), amount: 2 })
    );
    assert_eq!(
        execute_burn(&mut token, &user, 0, HEIGHT),
        Ok(Event::Burn { from: user.clone(), amount: 0 })
    );
    assert_eq!(
        execute_update_marketing(&mut token, &gov, None, None, None),
        Ok(Event::UpdateMarketing)
    );
    assert_eq!(
        execute_upload_logo(&mut token, &gov, Logo::Url("x".to_string())),
        Ok(Event::UploadLogo)
    );
    assert_eq!(
        execute_update_minter(&mut token, &gov, None),
        Ok(Event::UpdateMinter { new_minter: None })
    );
    assert_eq!(query_balance(&token, &gov), 3);
    assert_eq!(query_balance(&token, &user), 2);
}
