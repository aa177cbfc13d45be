use terraport_token::allowance::BlockInfo;
use terraport_token::contract::{
    execute, instantiate, query, Event, ExecuteMsg, InstantiateMsg, QueryMsg, QueryResponse,
};
use terraport_token::error::ContractError;
use terraport_token::ledger::MinterData;

fn s(x: &str) -> String {
    x.to_string()
}

fn at(height: u64) -> BlockInfo {
    BlockInfo { height, time: 1_000 + height }
}

fn balance(t: &terraport_token::contract::Token, q: QueryMsg) -> u128 {
    match query(t, q) {
        Ok(QueryResponse::Balance(b)) => b,
        _ => panic!("no balance answer"),
    }
}

#[test]
fn execute_runs_each_operation() {
    let msg = InstantiateMsg {
        name: s("Test"),
        symbol: s("TEST"),
        decimals: 6,
        initial_balances: vec![],
        mint: Some(MinterData { minter: s("gov"), cap: Some(1_000) }),
        marketing: None,
    };
    let mut t = instantiate(msg, 1).unwrap();
    let r = execute(&mut t, &s("gov"), at(2), ExecuteMsg::Mint { recipient: s("a"), amount: 600 })
        .ok()
        .unwrap();
    assert_eq!(r.event, Event::Mint { to: s("a"), amount: 600 });
    assert!(r.notice.is_none());
    let r = execute(&mut t, &s("a"), at(3), ExecuteMsg::Mint { recipient: s("a"), amount: 1 });
    assert!(matches!(r, Err(ContractError::Unauthorized)));
    let r = execute(&mut t, &s("gov"), at(3), ExecuteMsg::Mint { recipient: s("a"), amount: 401 });
    assert!(matches!(r, Err(ContractError::CapExceeded)));
    let r = execute(
        &mut t,
        &s("a"),
        at(4),
        ExecuteMsg::Send { contract: s("c"), amount: 100, msg: vec![7] },
    );
    let r = r.ok().unwrap();
    assert_eq!(r.event, Event::Send { from: s("a"), to: s("c"), amount: 100 });
    let m = r.notice.unwrap();
    assert_eq!(m.contract, "c");
    assert_eq!(m.sender, "a");
    assert_eq!(m.amount, 100);
    assert_eq!(m.msg, vec![7u8]);
    let r = execute(
        &mut t,
        &s("a"),
        at(5),
        ExecuteMsg::IncreaseAllowance { spender: s("sp"), amount: 50, expires: None },
    );
    assert_eq!(
        r.ok().unwrap().event,
        Event::IncreaseAllowance { owner: s("a"), spender: s("sp"), amount: 50 }
    );
    let r = execute(
        &mut t,
        &s("sp"),
        at(6),
        ExecuteMsg::BurnFrom { owner: s("a"), amount: 60 },
    );
    assert!(matches!(r, Err(ContractError::InsufficientAllowance)));
    let r = execute(&mut t, &s("sp"), at(6), ExecuteMsg::BurnFrom { owner: s("a"), amount: 50 });
    assert_eq!(r.ok().unwrap().event, Event::BurnFrom { from: s("a"), by: s("sp"), amount: 50 });
    assert_eq!(balance(&t, QueryMsg::Balance { address: s("a") }), 450);
    assert_eq!(balance(&t, QueryMsg::BalanceAt { address: s("a"), height: 3 }), 600);
    assert_eq!(balance(&t, QueryMsg::TotalSupplyAt { block: 5 }), 600);
    assert_eq!(balance(&t, QueryMsg::TotalSupplyAt { block: 6 }), 550);
    assert_eq!(balance(&t, QueryMsg::TotalSupplyAt { block: 1 }), 0);
    match query(&t, QueryMsg::TokenInfo) {
        Ok(QueryResponse::TokenInfo(i)) => {
            assert_eq!(i.name, "Test");
            assert_eq!(i.total_supply, 550);
        }
        _ => panic!("no token info"),
    }
    match query(&t, QueryMsg::AllAccounts { start_after: None, limit: None }) {
        Ok(QueryResponse::Accounts(a)) => assert_eq!(a, vec![s("a"), s("c")]),
        _ => panic!("no accounts"),
    }
    match query(&t, QueryMsg::AllAccounts { start_after: Some(s("a")), limit: Some(5) }) {
        Ok(QueryResponse::Accounts(a)) => assert_eq!(a, vec![s("c")]),
        _ => panic!("no accounts"),
    }
    match query(&t, QueryMsg::AllAllowances { owner: s("a"), start_after: None, limit: None }) {
        Ok(QueryResponse::Allowances(a)) => assert!(a.is_empty()),
        _ => panic!("no allowances"),
    }
    assert!(matches!(query(&t, QueryMsg::DownloadLogo), Err(ContractError::NotFound)));
    let r = execute(&mut t, &s("gov"), at(7), ExecuteMsg::UpdateMinter { new_minter: None });
    assert_eq!(r.ok().unwrap().event, Event::UpdateMinter { new_minter: None });
    assert!(matches!(query(&t, QueryMsg::Minter), Ok(QueryResponse::Minter(None))));
}
