use terraport_token::allowance::{AllowanceInfo, AllowanceStore, BlockInfo, Expiration};
use terraport_token::contract::{
    execute_burn_from, execute_decrease_allowance, execute_increase_allowance,
    execute_send_from, execute_transfer_from, get_total_supply_at, instantiate, query_allowance,
    query_balance, query_balance_at, query_download_logo, InstantiateMarketingInfo,
    Event, InstantiateMsg, Token,
};
use terraport_token::error::ContractError;
use terraport_token::history::History;
use terraport_token::ledger::{validate_accounts, InitialBalance, MinterData, TokenLedger};
use terraport_token::logo::{
    verify_logo, verify_png_logo, verify_xml_logo, verify_xml_preamble, EmbeddedLogo, Logo,
    LOGO_SIZE_CAP,
};

fn s(x: &str) -> String {
    x.to_string()
}

fn minter(cap: Option<u128>) -> Option<MinterData> {
    Some(MinterData { minter: s("a"), cap })
}

fn opening(balances: Vec<(&str, u128)>) -> Vec<InitialBalance> {
    balances
        .into_iter()
        .map(|(a, n)| InitialBalance { address: s(a), amount: n })
        .collect()
}

fn token_with(balances: Vec<(&str, u128)>) -> Token {
    let msg = InstantiateMsg {
        name: s("Test"),
        symbol: s("TEST"),
        decimals: 6,
        initial_balances: opening(balances),
        mint: minter(Some(1_000_000_000)),
        marketing: None,
    };
    instantiate(msg, 1).unwrap()
}

fn block(height: u64, time: u64) -> BlockInfo {
    BlockInfo { height, time }
}

fn balance_sum(l: &TokenLedger, h: u64) -> u128 {
    l.all_accounts(&None, Some(30)).iter().map(|a| l.query_balance_at(a, h)).sum()
}

#[test]
fn mint_transfer_and_overdraw_scenario() {
    let mut l = TokenLedger::new(&vec![], minter(Some(1_000_000_000)), 1).unwrap();
    l.mint(&s("a"), &s("a"), 1_000_000, 1).unwrap();
    assert_eq!(l.query_balance(&s("a")), 1_000_000);
    assert_eq!(l.query_total_supply(), 1_000_000);
    l.transfer(&s("a"), &s("b"), 1_000_000, 2).unwrap();
    assert_eq!(l.query_balance(&s("a")), 0);
    assert_eq!(l.query_balance(&s("b")), 1_000_000);
    assert_eq!(l.transfer(&s("a"), &s("b"), 10_000_000, 3), Err(ContractError::InsufficientFunds));
    assert_eq!(l.query_balance(&s("a")), 0);
    assert_eq!(l.query_balance(&s("b")), 1_000_000);
}

#[test]
fn mint_by_stranger_changes_nothing() {
    let mut l = TokenLedger::new(&opening(vec![("a", 5)]), minter(None), 1).unwrap();
    assert_eq!(l.mint(&s("z"), &s("z"), 10, 2), Err(ContractError::Unauthorized));
    assert_eq!(l.query_total_supply(), 5);
    assert_eq!(l.query_balance(&s("a")), 5);
    assert_eq!(l.query_balance(&s("z")), 0);
}

#[test]
fn balances_add_up_to_supply_at_every_height() {
    let mut l = TokenLedger::new(&opening(vec![("a", 100), ("b", 50)]), minter(None), 1).unwrap();
    l.transfer(&s("a"), &s("c"), 30, 3).unwrap();
    l.mint(&s("a"), &s("d"), 20, 5).unwrap();
    l.burn(&s("b"), 10, 7).unwrap();
    l.transfer(&s("b"), &s("b"), 40, 7).unwrap();
    for h in 0..10u64 {
        assert_eq!(balance_sum(&l, h), l.get_total_supply_at(h), "height {}", h);
    }
    assert_eq!(l.get_total_supply_at(0), 0);
    assert_eq!(l.get_total_supply_at(4), 150);
    assert_eq!(l.get_total_supply_at(6), 170);
    assert_eq!(l.get_total_supply_at(9), 160);
    assert_eq!(l.query_balance(&s("b")), 40);
}

#[test]
fn cap_is_enforced_and_reachable() {
    let mut l = TokenLedger::new(&vec![], minter(Some(100)), 1).unwrap();
    l.mint(&s("a"), &s("b"), 60, 1).unwrap();
    assert_eq!(l.mint(&s("a"), &s("b"), 41, 2), Err(ContractError::CapExceeded));
    assert_eq!(l.query_total_supply(), 60);
    assert_eq!(l.query_balance(&s("b")), 60);
    l.mint(&s("a"), &s("b"), 40, 2).unwrap();
    assert_eq!(l.query_total_supply(), 100);
}

#[test]
fn uncapped_mint_overflow_is_refused() {
    let mut l = TokenLedger::new(&opening(vec![("a", u128::MAX)]), minter(None), 1).unwrap();
    assert_eq!(l.mint(&s("a"), &s("a"), 1, 2), Err(ContractError::ArithmeticOverflow));
    l.mint(&s("a"), &s("a"), 0, 2).unwrap();
    assert_eq!(l.query_total_supply(), u128::MAX);
}

#[test]
fn opening_errors() {
    assert_eq!(
        validate_accounts(&opening(vec![("a", 1), ("b", 2), ("a", 3)])),
        Err(ContractError::DuplicateAddress)
    );
    assert_eq!(validate_accounts(&opening(vec![("a", 1), ("b", 2)])), Ok(()));
    assert!(matches!(
        TokenLedger::new(&opening(vec![("a", u128::MAX), ("b", 1)]), None, 1),
        Err(ContractError::ArithmeticOverflow)
    ));
    assert!(matches!(
        TokenLedger::new(&opening(vec![("a", 60), ("b", 41)]), minter(Some(100)), 1),
        Err(ContractError::CapExceeded)
    ));
    let l = TokenLedger::create_accounts(&opening(vec![("a", 60), ("b", 41)]), 4).unwrap();
    assert_eq!(l.query_total_supply(), 101);
    assert_eq!(l.get_total_supply_at(3), 0);
    assert_eq!(l.query_balance_at(&s("b"), 3), 0);
    assert_eq!(l.query_balance_at(&s("b"), 4), 41);
}

#[test]
fn burn_beyond_balance_changes_nothing() {
    let mut l = TokenLedger::new(&opening(vec![("a", 10), ("b", 10)]), None, 1).unwrap();
    assert_eq!(l.burn(&s("a"), 11, 2), Err(ContractError::InsufficientFunds));
    assert_eq!(l.query_balance(&s("a")), 10);
    assert_eq!(l.query_total_supply(), 20);
    l.burn(&s("a"), 0, 2).unwrap();
    assert_eq!(l.query_balance(&s("a")), 10);
}

#[test]
fn update_minter_to_none_ends_minting() {
    let mut l = TokenLedger::new(&vec![], minter(Some(10)), 1).unwrap();
    assert_eq!(l.update_minter(&s("b"), None), Err(ContractError::Unauthorized));
    l.update_minter(&s("a"), None).unwrap();
    assert!(l.query_minter().is_none());
    assert_eq!(l.mint(&s("a"), &s("a"), 1, 2), Err(ContractError::Unauthorized));
}

#[test]
fn history_reads_the_last_write_at_or_before() {
    let mut h = History::new();
    assert_eq!(h.get_at(5), None);
    h.put(3, 10);
    h.put(3, 11);
    h.put(7, 20);
    assert_eq!(h.get_at(2), None);
    assert_eq!(h.amount_at(2), 0);
    assert_eq!(h.get_at(3), Some(11));
    assert_eq!(h.get_at(6), Some(11));
    assert_eq!(h.get_at(7), Some(20));
    assert_eq!(h.get_at(1000), Some(20));
    assert_eq!(h.get_latest(), Some(20));
    assert_eq!(h.newest_height(), Some(7));
}

#[test]
fn ledger_history_per_height() {
    let mut l = TokenLedger::new(&opening(vec![("a", 100)]), None, 2).unwrap();
    l.transfer(&s("a"), &s("b"), 40, 5).unwrap();
    assert_eq!(l.query_balance_at(&s("a"), 1), 0);
    assert_eq!(l.query_balance_at(&s("a"), 4), 100);
    assert_eq!(l.query_balance_at(&s("a"), 5), 60);
    assert_eq!(l.query_balance_at(&s("b"), 4), 0);
    assert_eq!(l.query_balance_at(&s("b"), 99), 40);
    assert_eq!(l.height(), 5);
}

#[test]
fn allowance_increase_then_decrease_to_zero_removes_it() {
    let mut a = AllowanceStore::new();
    a.increase_allowance(&s("o"), &s("sp"), 50, None).unwrap();
    assert_eq!(a.query_allowance(&s("o"), &s("sp")).allowance, 50);
    a.decrease_allowance(&s("o"), &s("sp"), 50, None, block(1, 1)).unwrap();
    assert_eq!(
        a.decrease_allowance(&s("o"), &s("sp"), 1, None, block(1, 1)),
        Err(ContractError::NotFound)
    );
    let r = a.query_allowance(&s("o"), &s("sp"));
    assert_eq!(r.allowance, 0);
    assert_eq!(r.expires, Expiration::Never);
}

#[test]
fn allowance_decrease_keeps_future_expiry_and_floors_at_zero() {
    let mut a = AllowanceStore::new();
    a.increase_allowance(&s("o"), &s("sp"), 5, Some(Expiration::AtHeight(100))).unwrap();
    a.decrease_allowance(&s("o"), &s("sp"), 9, None, block(10, 0)).unwrap();
    let r = a.query_allowance(&s("o"), &s("sp"));
    assert_eq!(r.allowance, 0);
    assert_eq!(r.expires, Expiration::AtHeight(100));
    a.decrease_allowance(&s("o"), &s("sp"), 0, None, block(100, 0)).unwrap();
    assert_eq!(
        a.decrease_allowance(&s("o"), &s("sp"), 0, None, block(100, 0)),
        Err(ContractError::NotFound)
    );
}

#[test]
fn allowance_increase_overflow() {
    let mut a = AllowanceStore::new();
    a.increase_allowance(&s("o"), &s("sp"), u128::MAX, None).unwrap();
    assert_eq!(
        a.increase_allowance(&s("o"), &s("sp"), 1, None),
        Err(ContractError::ArithmeticOverflow)
    );
    assert_eq!(a.query_allowance(&s("o"), &s("sp")).allowance, u128::MAX);
}

#[test]
fn transfer_from_spends_the_allowance() {
    let mut t = token_with(vec![("o", 100)]);
    execute_increase_allowance(&mut t, &s("o"), &s("sp"), 30, None).unwrap();
    execute_transfer_from(&mut t, &s("sp"), &s("o"), &s("r"), 20, block(2, 0)).unwrap();
    assert_eq!(query_balance(&t, &s("o")), 80);
    assert_eq!(query_balance(&t, &s("r")), 20);
    assert_eq!(query_allowance(&t, &s("o"), &s("sp")).allowance, 10);
    execute_transfer_from(&mut t, &s("sp"), &s("o"), &s("r"), 10, block(2, 0)).unwrap();
    assert_eq!(query_allowance(&t, &s("o"), &s("sp")).allowance, 0);
    assert_eq!(query_balance_at(&t, &s("r"), 1), 0);
    assert_eq!(get_total_supply_at(&t, 2), 100);
}

#[test]
fn transfer_from_beyond_allowance_changes_nothing() {
    let mut t = token_with(vec![("o", 100)]);
    execute_increase_allowance(&mut t, &s("o"), &s("sp"), 30, None).unwrap();
    assert_eq!(
        execute_transfer_from(&mut t, &s("sp"), &s("o"), &s("r"), 31, block(2, 0)),
        Err(ContractError::InsufficientAllowance)
    );
    assert_eq!(query_allowance(&t, &s("o"), &s("sp")).allowance, 30);
    assert_eq!(query_balance(&t, &s("o")), 100);
    assert_eq!(query_balance(&t, &s("r")), 0);
}

#[test]
fn transfer_from_beyond_balance_keeps_the_allowance() {
    let mut t = token_with(vec![("o", 10)]);
    execute_increase_allowance(&mut t, &s("o"), &s("sp"), 30, None).unwrap();
    assert_eq!(
        execute_transfer_from(&mut t, &s("sp"), &s("o"), &s("r"), 20, block(2, 0)),
        Err(ContractError::InsufficientFunds)
    );
    assert_eq!(query_allowance(&t, &s("o"), &s("sp")).allowance, 30);
    assert_eq!(query_balance(&t, &s("o")), 10);
}

#[test]
fn spending_an_expired_allowance_fails() {
    let mut t = token_with(vec![("o", 100)]);
    execute_increase_allowance(&mut t, &s("o"), &s("sp"), 30, Some(Expiration::AtTime(50)))
        .unwrap();
    assert_eq!(
        execute_burn_from(&mut t, &s("sp"), &s("o"), 5, block(2, 50)),
        Err(ContractError::Expired)
    );
    execute_burn_from(&mut t, &s("sp"), &s("o"), 5, block(2, 49)).unwrap();
    assert_eq!(query_balance(&t, &s("o")), 95);
    assert_eq!(get_total_supply_at(&t, 2), 95);
    assert_eq!(get_total_supply_at(&t, 1), 100);
}

#[test]
fn send_from_hands_back_the_notice() {
    let mut t = token_with(vec![("o", 100)]);
    execute_increase_allowance(&mut t, &s("o"), &s("sp"), 30, None).unwrap();
    let (event, notice) =
        execute_send_from(&mut t, &s("sp"), &s("o"), &s("c"), 30, vec![1, 2], block(3, 0))
            .ok()
            .unwrap();
    assert_eq!(event, Event::SendFrom { from: s("o"), to: s("c"), by: s("sp"), amount: 30 });
    assert_eq!(notice.contract, "c");
    assert_eq!(notice.sender, "sp");
    assert_eq!(notice.amount, 30);
    assert_eq!(notice.msg, vec![1u8, 2]);
    assert_eq!(query_balance(&t, &s("c")), 30);
    assert_eq!(
        execute_decrease_allowance(&mut t, &s("o"), &s("sp"), 1, None, block(3, 0)),
        Err(ContractError::NotFound)
    );
}

fn png(len: usize) -> Vec<u8> {
    let mut v = vec![0x89, b'P', b'N', b'G', 0x0d, 0x0a, 0x1a, 0x0a];
    v.resize(len, 0);
    v
}

#[test]
fn logo_checks() {
    assert_eq!(verify_xml_preamble(b"<?xml version=\"1.0\"?><svg/>"), Ok(()));
    assert_eq!(verify_xml_preamble(b"<?xml ?>"), Ok(()));
    assert_eq!(verify_xml_preamble(b""), Err(ContractError::InvalidXmlPreamble));
    assert_eq!(verify_xml_preamble(b"<?xml version"), Err(ContractError::InvalidXmlPreamble));
    assert_eq!(verify_xml_preamble(b"<svg><?xml ?>"), Err(ContractError::InvalidXmlPreamble));
    assert_eq!(verify_xml_preamble(b"<?xml a>?>"), Err(ContractError::InvalidXmlPreamble));
    let mut big = b"<?xml ?>".to_vec();
    big.resize(LOGO_SIZE_CAP + 1, b' ');
    assert_eq!(verify_xml_logo(&big), Err(ContractError::LogoTooBig));
    big.truncate(LOGO_SIZE_CAP);
    assert_eq!(verify_xml_logo(&big), Ok(()));
    assert_eq!(verify_png_logo(&png(8)), Ok(()));
    assert_eq!(verify_png_logo(&png(LOGO_SIZE_CAP)), Ok(()));
    assert_eq!(verify_png_logo(&png(LOGO_SIZE_CAP + 1)), Err(ContractError::LogoTooBig));
    assert_eq!(verify_png_logo(&png(7)), Err(ContractError::InvalidPngHeader));
    assert_eq!(verify_png_logo(b"GIF89a.."), Err(ContractError::InvalidPngHeader));
    assert_eq!(verify_logo(&Logo::Url(s("anything"))), Ok(()));
    assert_eq!(
        verify_logo(&Logo::Embedded(EmbeddedLogo::Svg(b"<svg/>".to_vec()))),
        Err(ContractError::InvalidXmlPreamble)
    );
}

#[test]
fn download_logo_by_kind() {
    let open = |logo: Logo| {
        let msg = InstantiateMsg {
            name: s("T"),
            symbol: s("T"),
            decimals: 0,
            initial_balances: vec![],
            mint: None,
            marketing: Some(InstantiateMarketingInfo {
                project: None,
                description: None,
                marketing: None,
                logo: Some(logo),
            }),
        };
        instantiate(msg, 1)
    };
    let t = open(Logo::Embedded(EmbeddedLogo::Png(png(9)))).unwrap();
    let d = query_download_logo(&t).unwrap();
    assert_eq!(d.mime_type, "image/png");
    assert_eq!(d.data, png(9));
    let t = open(Logo::Embedded(EmbeddedLogo::Svg(b"<?xml ?>".to_vec()))).unwrap();
    assert_eq!(query_download_logo(&t).unwrap().mime_type, "image/svg+xml");
    let t = open(Logo::Url(s("x"))).unwrap();
    assert_eq!(query_download_logo(&t), Err(ContractError::NotFound));
    assert!(matches!(
        open(Logo::Embedded(EmbeddedLogo::Png(png(3)))),
        Err(ContractError::InvalidPngHeader)
    ));
}

#[test]
fn allowances_listed_by_owner_and_by_spender() {
    let mut a = AllowanceStore::new();
    a.increase_allowance(&s("o1"), &s("x"), 5, None).unwrap();
    a.increase_allowance(&s("o2"), &s("x"), 7, Some(Expiration::AtHeight(9))).unwrap();
    a.increase_allowance(&s("o1"), &s("y"), 3, None).unwrap();
    a.increase_allowance(&s("o1"), &s("x"), 1, None).unwrap();
    assert_eq!(
        a.page_allowances(&s("o1"), true, &None, None),
        vec![
            AllowanceInfo { party: s("x"), allowance: 6, expires: Expiration::Never },
            AllowanceInfo { party: s("y"), allowance: 3, expires: Expiration::Never },
        ]
    );
    assert_eq!(
        a.page_allowances(&s("x"), false, &None, None),
        vec![
            AllowanceInfo { party: s("o1"), allowance: 6, expires: Expiration::Never },
            AllowanceInfo { party: s("o2"), allowance: 7, expires: Expiration::AtHeight(9) },
        ]
    );
    assert_eq!(a.page_allowances(&s("nobody"), true, &None, None), vec![]);
}

#[test]
fn accounts_are_paged_in_ascending_order() {
    let names = ["m", "b", "zz", "a", "ab", "z", "é", "B"];
    let l = TokenLedger::new(&opening(names.iter().map(|n| (*n, 1u128)).collect()), None, 1)
        .unwrap();
    assert_eq!(
        l.all_accounts(&None, None),
        vec![s("B"), s("a"), s("ab"), s("b"), s("m"), s("z"), s("zz"), s("é")]
    );
    assert_eq!(l.all_accounts(&None, Some(3)), vec![s("B"), s("a"), s("ab")]);
    assert_eq!(l.all_accounts(&Some(s("ab")), Some(2)), vec![s("b"), s("m")]);
    assert_eq!(l.all_accounts(&Some(s("aa")), Some(1)), vec![s("ab")]);
    assert_eq!(l.all_accounts(&Some(s("é")), None), Vec::<String>::new());
    assert_eq!(l.all_accounts(&None, Some(0)), Vec::<String>::new());
}

#[test]
fn page_limit_defaults_and_caps() {
    let many: Vec<String> = (0..40).map(|i| format!("acct{:02}", i)).collect();
    let l = TokenLedger::new(
        &many.iter().map(|a| InitialBalance { address: a.clone(), amount: 1 }).collect(),
        None,
        1,
    )
    .unwrap();
    assert_eq!(l.all_accounts(&None, None), many[..10].to_vec());
    assert_eq!(l.all_accounts(&None, Some(100)), many[..30].to_vec());
    assert_eq!(l.all_accounts(&Some(s("acct35")), Some(100)), many[36..].to_vec());
}

#[test]
fn allowances_paged_by_party() {
    let mut a = AllowanceStore::new();
    for sp in ["d", "b", "c", "a"] {
        a.increase_allowance(&s("o"), &s(sp), 1, None).unwrap();
    }
    let parties = |v: Vec<AllowanceInfo>| v.into_iter().map(|i| i.party).collect::<Vec<_>>();
    assert_eq!(parties(a.page_allowances(&s("o"), true, &None, None)), vec!["a", "b", "c", "d"]);
    assert_eq!(parties(a.page_allowances(&s("o"), true, &Some(s("b")), Some(1))), vec!["c"]);
}

#[test]
fn history_update_applies_or_leaves_alone() {
    let mut h = History::new();
    assert_eq!(h.update(2, 7, |v| Ok::<u128, ContractError>(v + 1)), Ok(8));
    assert_eq!(h.get_at(2), Some(8));
    assert_eq!(
        h.update(3, 0, |v| v.checked_sub(9).ok_or(ContractError::InsufficientFunds)),
        Err(ContractError::InsufficientFunds)
    );
    assert_eq!(h.newest_height(), Some(2));
    assert_eq!(h.update(3, 0, |v| Ok::<u128, ContractError>(v * 2)), Ok(16));
    assert_eq!(h.get_at(2), Some(8));
    assert_eq!(h.get_at(3), Some(16));
}
