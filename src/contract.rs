use vstd::prelude::*;

use crate::allowance::{after_spend, spend_check, AllowanceStore, BlockInfo, Expiration};
use crate::error::ContractError;
use crate::ledger::{
    burned, distinct_addresses, initial_amount, initial_total, minter_cap, minter_view, supply_limit,
    transferred, minted, InitialBalance, MinterData, TokenLedger,
};
use crate::scan::{effective_limit, is_page, opt_text, texts};
use crate::logo::{logo_result, verify_logo, DownloadLogoResponse, EmbeddedLogo, Logo};
use vstd::string::StringExecFns;

verus! {

/// The token's name, ticker symbol and decimal places.
pub struct TokenInfo {
    pub name: String,
    pub symbol: String,
    pub decimals: u8,
}

/// What is recorded of a logo: its link, or that the image is stored here.
pub enum LogoInfo {
    Url(String),
    Embedded,
}

/// The token's marketing record; `marketing` is the address allowed to
/// change it.
pub struct MarketingInfo {
    pub project: Option<String>,
    pub description: Option<String>,
    pub marketing: Option<String>,
    pub logo: Option<LogoInfo>,
}

/// The marketing record a token opens with.
pub struct InstantiateMarketingInfo {
    pub project: Option<String>,
    pub description: Option<String>,
    pub marketing: Option<String>,
    pub logo: Option<Logo>,
}

/// Everything a token opens with. Addresses are already validated.
pub struct InstantiateMsg {
    pub name: String,
    pub symbol: String,
    pub decimals: u8,
    pub initial_balances: Vec<InitialBalance>,
    pub mint: Option<MinterData>,
    pub marketing: Option<InstantiateMarketingInfo>,
}

/// The notice that a send hands to the receiving contract.
pub struct ReceiveMsg {
    pub contract: String,
    pub sender: String,
    pub amount: u128,
    pub msg: Vec<u8>,
}

/// The log entry of an operation that went through: what was done, by and
/// to whom, and how much. An operation on a zero amount leaves its entry too.
#[derive(Debug, Clone, PartialEq, Eq)]
pub enum Event {
    Transfer { from: String, to: String, amount: u128 },
    Send { from: String, to: String, amount: u128 },
    Burn { from: String, amount: u128 },
    Mint { to: String, amount: u128 },
    IncreaseAllowance { owner: String, spender: String, amount: u128 },
    DecreaseAllowance { owner: String, spender: String, amount: u128 },
    TransferFrom { from: String, to: String, by: String, amount: u128 },
    BurnFrom { from: String, by: String, amount: u128 },
    SendFrom { from: String, to: String, by: String, amount: u128 },
    UpdateMinter { new_minter: Option<String> },
    UpdateMarketing,
    UploadLogo,
}

/// A token: its description, its ledger, its allowances and its marketing
/// record. Every operation takes it as an explicit handle.
pub struct Token {
    pub info: TokenInfo,
    pub ledger: TokenLedger,
    pub allowances: AllowanceStore,
    pub marketing: Option<MarketingInfo>,
    pub logo: Option<Logo>,
}

impl Token {
    pub open spec fn wf(&self) -> bool {
        self.ledger.wf() && self.allowances.wf()
    }
}

/// `a` and `b` differ in their ledgers at most.
pub open spec fn same_but_ledger(a: Token, b: Token) -> bool {
    a.info == b.info && a.allowances == b.allowances && a.marketing == b.marketing && a.logo
        == b.logo
}

/// `a` and `b` differ in their ledgers and allowances at most.
pub open spec fn same_but_accounts(a: Token, b: Token) -> bool {
    a.info == b.info && a.marketing == b.marketing && a.logo == b.logo
}

/// The check of the logo that a marketing record opens with.
pub open spec fn opening_logo_result(m: Option<InstantiateMarketingInfo>) -> Result<(), ContractError> {
    match m {
        Some(mi) => match mi.logo {
            Some(l) => logo_result(l),
            None => Ok(()),
        },
        None => Ok(()),
    }
}

/// The record kept of a logo.
pub open spec fn logo_info_of(l: Logo) -> LogoInfo {
    match l {
        Logo::Url(u) => LogoInfo::Url(u),
        Logo::Embedded(_) => LogoInfo::Embedded,
    }
}

fn logo_info(l: &Logo) -> (r: LogoInfo)
    ensures
        r == logo_info_of(*l),
{
    match l {
        Logo::Url(u) => LogoInfo::Url(u.clone()),
        Logo::Embedded(_) => LogoInfo::Embedded,
    }
}

/// Opens a token at `height`: the opening balances must name distinct
/// addresses, and their sum must fit and stay within the cap; then a logo
/// given with the marketing record must pass its check.
pub fn instantiate(msg: InstantiateMsg, height: u64) -> (r: Result<Token, ContractError>)
    ensures
        r is Ok <==> distinct_addresses(msg.initial_balances@) && initial_total(
            msg.initial_balances@,
        ) <= u128::MAX && initial_total(msg.initial_balances@) <= supply_limit(
            minter_cap(msg.mint),
        ) && opening_logo_result(msg.marketing) is Ok,
        !distinct_addresses(msg.initial_balances@) ==> r == Err::<Token, ContractError>(
            ContractError::DuplicateAddress,
        ),
        distinct_addresses(msg.initial_balances@) && initial_total(msg.initial_balances@)
            > u128::MAX ==> r == Err::<Token, ContractError>(ContractError::ArithmeticOverflow),
        distinct_addresses(msg.initial_balances@) && initial_total(msg.initial_balances@)
            <= u128::MAX && initial_total(msg.initial_balances@) > supply_limit(
            minter_cap(msg.mint),
        ) ==> r == Err::<Token, ContractError>(ContractError::CapExceeded),
        distinct_addresses(msg.initial_balances@) && initial_total(msg.initial_balances@)
            <= supply_limit(minter_cap(msg.mint)) && opening_logo_result(msg.marketing) is Err
            ==> r is Err && r->Err_0 == opening_logo_result(msg.marketing)->Err_0,
        r matches Ok(t) ==> {
            &&& t.wf()
            &&& t.info == TokenInfo { name: msg.name, symbol: msg.symbol, decimals: msg.decimals }
            &&& t.ledger.clock() == height
            &&& t.ledger.minter() == minter_view(msg.mint)
            &&& t.ledger.cap() == minter_cap(msg.mint)
            &&& forall|h: u64| #[trigger]
                t.ledger.supply_at(h) == if h >= height {
                    initial_total(msg.initial_balances@)
                } else {
                    0
                }
            &&& forall|a: Seq<char>, h: u64| #[trigger]
                t.ledger.balance_at(a, h) == if h >= height {
                    initial_amount(msg.initial_balances@, a)
                } else {
                    0
                }
            &&& t.allowances@ == Map::<(Seq<char>, Seq<char>), crate::allowance::AllowanceResponse>::empty()
            &&& match msg.marketing {
                Some(mi) => t.logo == mi.logo && t.marketing == Some(
                    MarketingInfo {
                        project: mi.project,
                        description: mi.description,
                        marketing: mi.marketing,
                        logo: match mi.logo {
                            Some(l) => Some(logo_info_of(l)),
                            None => None,
                        },
                    },
                ),
                None => t.logo is None && t.marketing is None,
            }
        },
{
    let ledger = TokenLedger::new(&msg.initial_balances, msg.mint, height)?;
    let info = TokenInfo { name: msg.name, symbol: msg.symbol, decimals: msg.decimals };
    let (marketing, logo) = match msg.marketing {
        Some(mi) => {
            let recorded = match &mi.logo {
                Some(l) => {
                    verify_logo(l)?;
                    Some(logo_info(l))
                },
                None => None,
            };
            (
                Some(
                    MarketingInfo {
                        project: mi.project,
                        description: mi.description,
                        marketing: mi.marketing,
                        logo: recorded,
                    },
                ),
                mi.logo,
            )
        },
        None => (None, None),
    };
    Ok(Token { info, ledger, allowances: AllowanceStore::new(), marketing, logo })
}

/// Moves `amount` from the sender to `recipient` at `height`.
pub fn execute_transfer(
    token: &mut Token,
    sender: &String,
    recipient: &String,
    amount: u128,
    height: u64,
) -> (r: Result<Event, ContractError>)
    requires
        old(token).wf(),
        height >= old(token).ledger.clock(),
    ensures
        final(token).wf(),
        r is Err <==> amount > old(token).ledger.balance(sender@),
        r is Err ==> r == Err::<Event, ContractError>(ContractError::InsufficientFunds) && *final(token) == *old(token),
        r is Ok ==> transferred(old(token).ledger, final(token).ledger, sender@, recipient@, amount, height)
            && same_but_ledger(*old(token), *final(token)),
        r is Ok ==> r->Ok_0 == (Event::Transfer { from: *sender, to: *recipient, amount }),
{
    token.ledger.transfer(sender, recipient, amount, height)?;
    Ok(Event::Transfer { from: sender.clone(), to: recipient.clone(), amount })
}

/// Moves `amount` from the sender to `contract` at `height`, and hands back
/// the notice to deliver to that contract.
pub fn execute_send(
    token: &mut Token,
    sender: &String,
    contract: &String,
    amount: u128,
    msg: Vec<u8>,
    height: u64,
) -> (r: Result<(Event, ReceiveMsg), ContractError>)
    requires
        old(token).wf(),
        height >= old(token).ledger.clock(),
    ensures
        final(token).wf(),
        r is Err <==> amount > old(token).ledger.balance(sender@),
        r is Err ==> r == Err::<(Event, ReceiveMsg), ContractError>(ContractError::InsufficientFunds) && *final(token) == *old(token),
        r is Ok ==> transferred(old(token).ledger, final(token).ledger, sender@, contract@, amount, height)
            && same_but_ledger(*old(token), *final(token)) && r->Ok_0.1 == (ReceiveMsg {
            contract: *contract,
            sender: *sender,
            amount,
            msg,
        }) && r->Ok_0.0 == (Event::Send { from: *sender, to: *contract, amount }),
{
    token.ledger.transfer(sender, contract, amount, height)?;
    let event = Event::Send { from: sender.clone(), to: contract.clone(), amount };
    Ok((event, ReceiveMsg { contract: contract.clone(), sender: sender.clone(), amount, msg }))
}

/// Destroys `amount` of the sender's tokens at `height`.
pub fn execute_burn(token: &mut Token, sender: &String, amount: u128, height: u64) -> (r: Result<
    Event,
    ContractError,
>)
    requires
        old(token).wf(),
        height >= old(token).ledger.clock(),
    ensures
        final(token).wf(),
        r is Err <==> amount > old(token).ledger.balance(sender@),
        r is Err ==> r == Err::<Event, ContractError>(ContractError::InsufficientFunds) && *final(token) == *old(token),
        r is Ok ==> burned(old(token).ledger, final(token).ledger, sender@, amount, height)
            && same_but_ledger(*old(token), *final(token)),
        r is Ok ==> r->Ok_0 == (Event::Burn { from: *sender, amount }),
{
    token.ledger.burn(sender, amount, height)?;
    Ok(Event::Burn { from: sender.clone(), amount })
}

/// Mints `amount` for `recipient` at `height`, where the sender is the minter
/// and the cap allows it.
pub fn execute_mint(
    token: &mut Token,
    sender: &String,
    recipient: &String,
    amount: u128,
    height: u64,
) -> (r: Result<Event, ContractError>)
    requires
        old(token).wf(),
        height >= old(token).ledger.clock(),
    ensures
        final(token).wf(),
        r is Ok <==> crate::ledger::authorized(old(token).ledger.minter(), sender@)
            && old(token).ledger.total_supply() + amount <= supply_limit(old(token).ledger.cap()),
        !crate::ledger::authorized(old(token).ledger.minter(), sender@) ==> r == Err::<Event, ContractError>(ContractError::Unauthorized),
        crate::ledger::authorized(old(token).ledger.minter(), sender@)
            && old(token).ledger.total_supply() + amount > supply_limit(old(token).ledger.cap())
            ==> r == Err::<Event, ContractError>(
            if old(token).ledger.cap() is Some {
                ContractError::CapExceeded
            } else {
                ContractError::ArithmeticOverflow
            },
        ),
        r is Err ==> *final(token) == *old(token),
        r is Ok ==> minted(old(token).ledger, final(token).ledger, recipient@, amount, height)
            && same_but_ledger(*old(token), *final(token)),
        r is Ok ==> r->Ok_0 == (Event::Mint { to: *recipient, amount }),
{
    token.ledger.mint(sender, recipient, amount, height)?;
    Ok(Event::Mint { to: recipient.clone(), amount })
}

/// Hands the mint authority to `new_minter`, keeping the cap, or ends minting
/// for good; only the current minter may do so.
pub fn execute_update_minter(token: &mut Token, sender: &String, new_minter: Option<String>) -> (r:
    Result<Event, ContractError>)
    requires
        old(token).wf(),
    ensures
        final(token).wf(),
        r is Ok <==> crate::ledger::authorized(old(token).ledger.minter(), sender@),
        r is Err ==> r == Err::<Event, ContractError>(ContractError::Unauthorized) && *final(token) == *old(token),
        r is Ok ==> {
            &&& final(token).ledger.minter() == crate::ledger::opt_view(new_minter)
            &&& final(token).ledger.cap() == (if new_minter is Some {
                old(token).ledger.cap()
            } else {
                None
            })
            &&& final(token).ledger.clock() == old(token).ledger.clock()
            &&& forall|h: u64| #[trigger]
                final(token).ledger.supply_at(h) == old(token).ledger.supply_at(h)
            &&& forall|a: Seq<char>, h: u64| #[trigger]
                final(token).ledger.balance_at(a, h) == old(token).ledger.balance_at(a, h)
            &&& same_but_ledger(*old(token), *final(token))
            &&& r->Ok_0 == (Event::UpdateMinter { new_minter })
        },
{
    let logged = copy_text(&new_minter);
    token.ledger.update_minter(sender, new_minter)?;
    Ok(Event::UpdateMinter { new_minter: logged })
}

/// Raises what the sender lets `spender` take by `amount`.
pub fn execute_increase_allowance(
    token: &mut Token,
    sender: &String,
    spender: &String,
    amount: u128,
    expires: Option<Expiration>,
) -> (r: Result<Event, ContractError>)
    requires
        old(token).wf(),
    ensures
        final(token).wf(),
        r is Ok <==> crate::allowance::current(old(token).allowances@, (sender@, spender@)).allowance
            + amount <= u128::MAX,
        r is Err ==> r == Err::<Event, ContractError>(ContractError::ArithmeticOverflow) && final(token).allowances@ == old(token).allowances@,
        r is Ok ==> final(token).allowances@ == crate::allowance::after_increase(
            old(token).allowances@,
            (sender@, spender@),
            amount,
            expires,
        ),
        final(token).ledger == old(token).ledger,
        same_but_accounts(*old(token), *final(token)),
        r is Ok ==> r->Ok_0 == (Event::IncreaseAllowance { owner: *sender, spender: *spender, amount }),
{
    token.allowances.increase_allowance(sender, spender, amount, expires)?;
    Ok(Event::IncreaseAllowance { owner: sender.clone(), spender: spender.clone(), amount })
}

/// Lowers what the sender lets `spender` take by `amount`, down to zero.
pub fn execute_decrease_allowance(
    token: &mut Token,
    sender: &String,
    spender: &String,
    amount: u128,
    expires: Option<Expiration>,
    block: BlockInfo,
) -> (r: Result<Event, ContractError>)
    requires
        old(token).wf(),
    ensures
        final(token).wf(),
        r is Ok <==> old(token).allowances@.contains_key((sender@, spender@)),
        r is Err ==> r == Err::<Event, ContractError>(ContractError::NotFound) && final(token).allowances@ == old(token).allowances@,
        r is Ok ==> final(token).allowances@ == crate::allowance::after_decrease(
            old(token).allowances@,
            (sender@, spender@),
            amount,
            expires,
            block,
        ),
        final(token).ledger == old(token).ledger,
        same_but_accounts(*old(token), *final(token)),
        r is Ok ==> r->Ok_0 == (Event::DecreaseAllowance { owner: *sender, spender: *spender, amount }),
{
    token.allowances.decrease_allowance(sender, spender, amount, expires, block)?;
    Ok(Event::DecreaseAllowance { owner: sender.clone(), spender: spender.clone(), amount })
}

/// Whether a delegated debit of `amount` from `owner` by `spender` goes
/// through: the allowance first, then the owner's balance.
pub open spec fn delegated_check(
    t: Token,
    spender: Seq<char>,
    owner: Seq<char>,
    amount: u128,
    block: BlockInfo,
) -> Result<(), ContractError> {
    if spend_check(t.allowances@, (owner, spender), amount, block) is Err {
        spend_check(t.allowances@, (owner, spender), amount, block)
    } else if amount > t.ledger.balance(owner) {
        Err(ContractError::InsufficientFunds)
    } else {
        Ok(())
    }
}

/// Moves `amount` from `owner` to `recipient` on the strength of what
/// `owner` lets the sender take. Nothing changes unless both the allowance
/// and the balance suffice.
pub fn execute_transfer_from(
    token: &mut Token,
    sender: &String,
    owner: &String,
    recipient: &String,
    amount: u128,
    block: BlockInfo,
) -> (r: Result<Event, ContractError>)
    requires
        old(token).wf(),
        block.height >= old(token).ledger.clock(),
    ensures
        final(token).wf(),
        r is Ok <==> delegated_check(*old(token), sender@, owner@, amount, block) is Ok,
        r is Err ==> r->Err_0 == delegated_check(*old(token), sender@, owner@, amount, block)->Err_0,
        r is Ok ==> r->Ok_0 == (Event::TransferFrom { from: *owner, to: *recipient, by: *sender, amount }),
        r is Err ==> *final(token) == *old(token),
        r is Ok ==> final(token).allowances@ == after_spend(
            old(token).allowances@,
            (owner@, sender@),
            amount,
        ) && transferred(old(token).ledger, final(token).ledger, owner@, recipient@, amount, block.height)
            && same_but_accounts(*old(token), *final(token)),
{
    token.allowances.check_spend(owner, sender, amount, block)?;
    if amount > token.ledger.query_balance(owner) {
        return Err(ContractError::InsufficientFunds);
    }
    token.allowances.spend_allowance(owner, sender, amount, block)?;
    token.ledger.transfer(owner, recipient, amount, block.height)?;
    Ok(Event::TransferFrom { from: owner.clone(), to: recipient.clone(), by: sender.clone(), amount })
}

/// Destroys `amount` of `owner`'s tokens on the strength of what `owner`
/// lets the sender take.
pub fn execute_burn_from(
    token: &mut Token,
    sender: &String,
    owner: &String,
    amount: u128,
    block: BlockInfo,
) -> (r: Result<Event, ContractError>)
    requires
        old(token).wf(),
        block.height >= old(token).ledger.clock(),
    ensures
        final(token).wf(),
        r is Ok <==> delegated_check(*old(token), sender@, owner@, amount, block) is Ok,
        r is Err ==> r->Err_0 == delegated_check(*old(token), sender@, owner@, amount, block)->Err_0,
        r is Ok ==> r->Ok_0 == (Event::BurnFrom { from: *owner, by: *sender, amount }),
        r is Err ==> *final(token) == *old(token),
        r is Ok ==> final(token).allowances@ == after_spend(
            old(token).allowances@,
            (owner@, sender@),
            amount,
        ) && burned(old(token).ledger, final(token).ledger, owner@, amount, block.height)
            && same_but_accounts(*old(token), *final(token)),
{
    token.allowances.check_spend(owner, sender, amount, block)?;
    if amount > token.ledger.query_balance(owner) {
        return Err(ContractError::InsufficientFunds);
    }
    token.allowances.spend_allowance(owner, sender, amount, block)?;
    token.ledger.burn(owner, amount, block.height)?;
    Ok(Event::BurnFrom { from: owner.clone(), by: sender.clone(), amount })
}

/// Moves `amount` from `owner` to `contract` on the strength of what `owner`
/// lets the sender take, and hands back the notice for that contract.
pub fn execute_send_from(
    token: &mut Token,
    sender: &String,
    owner: &String,
    contract: &String,
    amount: u128,
    msg: Vec<u8>,
    block: BlockInfo,
) -> (r: Result<(Event, ReceiveMsg), ContractError>)
    requires
        old(token).wf(),
        block.height >= old(token).ledger.clock(),
    ensures
        final(token).wf(),
        r is Ok <==> delegated_check(*old(token), sender@, owner@, amount, block) is Ok,
        r matches Err(e) ==> delegated_check(*old(token), sender@, owner@, amount, block) == Err::<
            (),
            ContractError,
        >(e) && *final(token) == *old(token),
        r is Ok ==> final(token).allowances@ == after_spend(
            old(token).allowances@,
            (owner@, sender@),
            amount,
        ) && transferred(old(token).ledger, final(token).ledger, owner@, contract@, amount, block.height)
            && same_but_accounts(*old(token), *final(token)) && r->Ok_0.1 == (ReceiveMsg {
            contract: *contract,
            sender: *sender,
            amount,
            msg,
        }) && r->Ok_0.0 == (Event::SendFrom { from: *owner, to: *contract, by: *sender, amount }),
{
    execute_transfer_from(token, sender, owner, contract, amount, block)?;
    let event = Event::SendFrom {
        from: owner.clone(),
        to: contract.clone(),
        by: sender.clone(),
        amount,
    };
    Ok((event, ReceiveMsg { contract: contract.clone(), sender: sender.clone(), amount, msg }))
}

/// The text with leading and trailing white space removed.
pub uninterp spec fn trim_of(s: Seq<char>) -> Seq<char>;

/// Relies on `str::trim`: the text without its leading and trailing white
/// space, which depends on its characters alone; an empty text stays empty.
#[verifier::external_body]
fn trimmed<'a>(s: &'a String) -> (r: &'a str)
    ensures
        r@ == trim_of(s@),
        s@.len() == 0 ==> r@.len() == 0,
{
    s.trim()
}

/// The text holds nothing once white space is trimmed from both ends.
pub open spec fn blank(s: Seq<char>) -> bool {
    trim_of(s).len() == 0
}

fn is_blank(s: &String) -> (r: bool)
    ensures
        r == blank(s@),
{
    trimmed(s).is_empty()
}

/// A marketing field after an update: a blank value clears it, another value
/// replaces it, and no value leaves it as it was.
pub open spec fn updated_field(cur: Option<String>, update: Option<String>, is_blank: bool) -> Option<String> {
    match update {
        Some(u) => if is_blank {
            None
        } else {
            Some(u)
        },
        None => cur,
    }
}

/// The marketing record after an update of its three text fields; a record
/// left with no field at all is dropped.
pub open spec fn marketing_after(
    info: MarketingInfo,
    project: Option<String>,
    project_blank: bool,
    description: Option<String>,
    description_blank: bool,
    marketing: Option<String>,
    marketing_blank: bool,
) -> Option<MarketingInfo> {
    let m = MarketingInfo {
        project: updated_field(info.project, project, project_blank),
        description: updated_field(info.description, description, description_blank),
        marketing: updated_field(info.marketing, marketing, marketing_blank),
        logo: info.logo,
    };
    if m.project is None && m.description is None && m.marketing is None && m.logo is None {
        None
    } else {
        Some(m)
    }
}

/// Whether an update value is blank; no value is not.
pub open spec fn blank_update(u: Option<String>) -> bool {
    match u {
        Some(s) => blank(s@),
        None => false,
    }
}

fn update_field(cur: Option<String>, update: Option<String>, is_blank: bool) -> (r: Option<String>)
    ensures
        r == updated_field(cur, update, is_blank),
{
    match update {
        Some(u) => if is_blank {
            None
        } else {
            Some(u)
        },
        None => cur,
    }
}

/// Applies an update of the three text fields to a marketing record, given
/// for each value whether it is blank.
pub fn apply_marketing_update(
    info: MarketingInfo,
    project: Option<String>,
    project_blank: bool,
    description: Option<String>,
    description_blank: bool,
    marketing: Option<String>,
    marketing_blank: bool,
) -> (r: Option<MarketingInfo>)
    ensures
        r == marketing_after(
            info,
            project,
            project_blank,
            description,
            description_blank,
            marketing,
            marketing_blank,
        ),
{
    let m = MarketingInfo {
        project: update_field(info.project, project, project_blank),
        description: update_field(info.description, description, description_blank),
        marketing: update_field(info.marketing, marketing, marketing_blank),
        logo: info.logo,
    };
    if m.project.is_none() && m.description.is_none() && m.marketing.is_none() && m.logo.is_none() {
        None
    } else {
        Some(m)
    }
}

fn update_is_blank(u: &Option<String>) -> (r: bool)
    ensures
        r == blank_update(*u),
{
    match u {
        Some(s) => is_blank(s),
        None => false,
    }
}

/// The sender holds the marketing authority of `t`.
pub open spec fn marketing_authorized(t: Token, sender: Seq<char>) -> bool {
    match t.marketing {
        Some(m) => crate::ledger::authorized(crate::ledger::opt_view(m.marketing), sender),
        None => false,
    }
}

/// Updates the marketing record, where the sender holds its authority. A
/// blank value clears its field.
pub fn execute_update_marketing(
    token: &mut Token,
    sender: &String,
    project: Option<String>,
    description: Option<String>,
    marketing: Option<String>,
) -> (r: Result<Event, ContractError>)
    requires
        old(token).wf(),
    ensures
        final(token).wf(),
        r is Ok <==> marketing_authorized(*old(token), sender@),
        r is Err ==> r == Err::<Event, ContractError>(ContractError::Unauthorized) && *final(token) == *old(token),
        r is Ok ==> final(token).marketing == marketing_after(
            old(token).marketing->Some_0,
            project,
            blank_update(project),
            description,
            blank_update(description),
            marketing,
            blank_update(marketing),
        ) && final(token).ledger == old(token).ledger && final(token).allowances == old(token).allowances
            && final(token).info == old(token).info && final(token).logo == old(token).logo,
        r is Ok ==> r->Ok_0 == Event::UpdateMarketing,
{
    let permitted = match &token.marketing {
        Some(m) => crate::ledger::is_authorized(&m.marketing, sender),
        None => false,
    };
    if !permitted {
        return Err(ContractError::Unauthorized);
    }
    let project_blank = update_is_blank(&project);
    let description_blank = update_is_blank(&description);
    let marketing_blank = update_is_blank(&marketing);
    match token.marketing.take() {
        Some(cur) => {
            token.marketing = apply_marketing_update(
                cur,
                project,
                project_blank,
                description,
                description_blank,
                marketing,
                marketing_blank,
            );
        },
        None => {},
    }
    Ok(Event::UpdateMarketing)
}

/// Whether a logo upload by `sender` goes through: a marketing record must
/// exist, the logo must pass its check, and the sender must hold the
/// marketing authority.
pub open spec fn upload_check(t: Token, sender: Seq<char>, logo: Logo) -> Result<(), ContractError> {
    match t.marketing {
        None => Err(ContractError::Unauthorized),
        Some(m) => if logo_result(logo) is Err {
            logo_result(logo)
        } else if !crate::ledger::authorized(crate::ledger::opt_view(m.marketing), sender) {
            Err(ContractError::Unauthorized)
        } else {
            Ok(())
        },
    }
}

/// Stores a new logo, where the sender holds the marketing authority.
pub fn execute_upload_logo(token: &mut Token, sender: &String, logo: Logo) -> (r: Result<
    Event,
    ContractError,
>)
    requires
        old(token).wf(),
    ensures
        final(token).wf(),
        r is Ok <==> upload_check(*old(token), sender@, logo) is Ok,
        r is Err ==> r->Err_0 == upload_check(*old(token), sender@, logo)->Err_0,
        r is Err ==> *final(token) == *old(token),
        r is Ok ==> {
            let m = old(token).marketing->Some_0;
            &&& final(token).logo == Some(logo)
            &&& final(token).marketing == Some(
                MarketingInfo {
                    project: m.project,
                    description: m.description,
                    marketing: m.marketing,
                    logo: Some(logo_info_of(logo)),
                },
            )
            &&& final(token).ledger == old(token).ledger
            &&& final(token).allowances == old(token).allowances
            &&& final(token).info == old(token).info
            &&& r->Ok_0 == Event::UploadLogo
        },
{
    let permitted = match &token.marketing {
        Some(m) => {
            verify_logo(&logo)?;
            crate::ledger::is_authorized(&m.marketing, sender)
        },
        None => {
            return Err(ContractError::Unauthorized);
        },
    };
    if !permitted {
        return Err(ContractError::Unauthorized);
    }
    let recorded = logo_info(&logo);
    match token.marketing.take() {
        Some(m) => {
            token.marketing = Some(
                MarketingInfo {
                    project: m.project,
                    description: m.description,
                    marketing: m.marketing,
                    logo: Some(recorded),
                },
            );
        },
        None => {},
    }
    token.logo = Some(logo);
    Ok(Event::UploadLogo)
}

/// The current balance of `address`.
pub fn query_balance(token: &Token, address: &String) -> (r: u128)
    requires
        token.wf(),
    ensures
        r == token.ledger.balance(address@),
{
    token.ledger.query_balance(address)
}

/// The balance of `address` as of height `block`.
pub fn query_balance_at(token: &Token, address: &String, block: u64) -> (r: u128)
    requires
        token.wf(),
    ensures
        r == token.ledger.balance_at(address@, block),
{
    token.ledger.query_balance_at(address, block)
}

/// The total supply as of height `block`.
pub fn get_total_supply_at(token: &Token, block: u64) -> (r: u128)
    ensures
        r == token.ledger.supply_at(block),
{
    token.ledger.get_total_supply_at(block)
}

/// The token's description and current total supply.
pub struct TokenInfoResponse {
    pub name: String,
    pub symbol: String,
    pub decimals: u8,
    pub total_supply: u128,
}

/// The token's description and current total supply.
pub fn query_token_info(token: &Token) -> (r: TokenInfoResponse)
    requires
        token.wf(),
    ensures
        r.name == token.info.name,
        r.symbol == token.info.symbol,
        r.decimals == token.info.decimals,
        r.total_supply == token.ledger.total_supply(),
{
    TokenInfoResponse {
        name: token.info.name.clone(),
        symbol: token.info.symbol.clone(),
        decimals: token.info.decimals,
        total_supply: token.ledger.query_total_supply(),
    }
}

/// Who may mint, and the cap.
pub struct MinterResponse {
    pub minter: String,
    pub cap: Option<u128>,
}

/// The minter and the cap, or nothing where minting is disabled.
pub fn query_minter(token: &Token) -> (r: Option<MinterResponse>)
    ensures
        match r {
            Some(m) => token.ledger.minter() == Some(m.minter@) && token.ledger.cap() == m.cap,
            None => token.ledger.minter() is None,
        },
{
    match token.ledger.query_minter() {
        Some(m) => Some(MinterResponse { minter: m.minter.clone(), cap: m.cap }),
        None => None,
    }
}

fn copy_text(o: &Option<String>) -> (r: Option<String>)
    ensures
        r == *o,
{
    match o {
        Some(s) => Some(s.clone()),
        None => None,
    }
}

fn copy_bytes(v: &Vec<u8>) -> (r: Vec<u8>)
    ensures
        r@ == v@,
{
    let mut out: Vec<u8> = Vec::new();
    let mut i: usize = 0;
    while i < v.len()
        invariant
            0 <= i <= v@.len(),
            out@ == v@.subrange(0, i as int),
        decreases v@.len() - i,
    {
        out.push(v[i]);
        i = i + 1;
        assert(out@ =~= v@.subrange(0, i as int));
    }
    assert(v@.subrange(0, v@.len() as int) =~= v@);
    out
}

/// The marketing record; all fields empty where there is none.
pub fn query_marketing_info(token: &Token) -> (r: MarketingInfo)
    ensures
        match token.marketing {
            Some(m) => r == m,
            None => r.project is None && r.description is None && r.marketing is None
                && r.logo is None,
        },
{
    match &token.marketing {
        Some(m) => MarketingInfo {
            project: copy_text(&m.project),
            description: copy_text(&m.description),
            marketing: copy_text(&m.marketing),
            logo: match &m.logo {
                Some(LogoInfo::Url(u)) => Some(LogoInfo::Url(u.clone())),
                Some(LogoInfo::Embedded) => Some(LogoInfo::Embedded),
                None => None,
            },
        },
        None => MarketingInfo { project: None, description: None, marketing: None, logo: None },
    }
}

/// The stored logo image with its MIME type. A logo kept as a link, or no
/// logo at all, is not found.
pub fn query_download_logo(token: &Token) -> (r: Result<DownloadLogoResponse, ContractError>)
    ensures
        match token.logo {
            Some(Logo::Embedded(EmbeddedLogo::Svg(d))) => r matches Ok(resp) && resp.mime_type@
                == "image/svg+xml"@ && resp.data@ == d@,
            Some(Logo::Embedded(EmbeddedLogo::Png(d))) => r matches Ok(resp) && resp.mime_type@
                == "image/png"@ && resp.data@ == d@,
            _ => r == Err::<DownloadLogoResponse, ContractError>(ContractError::NotFound),
        },
{
    match &token.logo {
        Some(Logo::Embedded(EmbeddedLogo::Svg(d))) => Ok(
            DownloadLogoResponse {
                mime_type: String::from_str("image/svg+xml"),
                data: copy_bytes(d),
            },
        ),
        Some(Logo::Embedded(EmbeddedLogo::Png(d))) => Ok(
            DownloadLogoResponse { mime_type: String::from_str("image/png"), data: copy_bytes(d) },
        ),
        _ => Err(ContractError::NotFound),
    }
}

/// What `owner` lets `spender` take.
pub fn query_allowance(token: &Token, owner: &String, spender: &String) -> (r:
    crate::allowance::AllowanceResponse)
    requires
        token.wf(),
    ensures
        r == crate::allowance::current(token.allowances@, (owner@, spender@)),
{
    token.allowances.query_allowance(owner, spender)
}

/// The allowances that `owner` gives, by ascending spender: the page after
/// `start_after`, at most `limit` long.
pub fn query_owner_allowances(
    token: &Token,
    owner: &String,
    start_after: Option<String>,
    limit: Option<u32>,
) -> (r: Vec<crate::allowance::AllowanceInfo>)
    requires
        token.wf(),
    ensures
        crate::allowance::is_allowance_page(
            token.allowances@,
            owner@,
            true,
            opt_text(start_after),
            effective_limit(limit),
            r@,
        ),
{
    token.allowances.page_allowances(owner, true, &start_after, limit)
}

/// The allowances that `spender` holds, by ascending owner: the page after
/// `start_after`, at most `limit` long.
pub fn query_spender_allowances(
    token: &Token,
    spender: &String,
    start_after: Option<String>,
    limit: Option<u32>,
) -> (r: Vec<crate::allowance::AllowanceInfo>)
    requires
        token.wf(),
    ensures
        crate::allowance::is_allowance_page(
            token.allowances@,
            spender@,
            false,
            opt_text(start_after),
            effective_limit(limit),
            r@,
        ),
{
    token.allowances.page_allowances(spender, false, &start_after, limit)
}

/// The addresses that hold a balance record, in ascending order: the page
/// after `start_after`, at most `limit` long.
pub fn query_all_accounts(token: &Token, start_after: Option<String>, limit: Option<u32>) -> (r: Vec<
    String,
>)
    ensures
        is_page(
            token.ledger.addresses().to_set(),
            opt_text(start_after),
            effective_limit(limit),
            texts(r@),
        ),
{
    token.ledger.all_accounts(&start_after, limit)
}

/// An operation on the token, as the sender asks for it.
pub enum ExecuteMsg {
    Transfer { recipient: String, amount: u128 },
    Burn { amount: u128 },
    Send { contract: String, amount: u128, msg: Vec<u8> },
    Mint { recipient: String, amount: u128 },
    IncreaseAllowance { spender: String, amount: u128, expires: Option<Expiration> },
    DecreaseAllowance { spender: String, amount: u128, expires: Option<Expiration> },
    TransferFrom { owner: String, recipient: String, amount: u128 },
    BurnFrom { owner: String, amount: u128 },
    SendFrom { owner: String, contract: String, amount: u128, msg: Vec<u8> },
    UpdateMarketing {
        project: Option<String>,
        description: Option<String>,
        marketing: Option<String>,
    },
    UploadLogo(Logo),
    UpdateMinter { new_minter: Option<String> },
}

/// What an operation hands back: its log entry, and for a send the notice to
/// deliver to the receiving contract.
pub struct Response {
    pub event: Event,
    pub notice: Option<ReceiveMsg>,
}

/// The outcome of a delegated debit, as `delegated_check` decides it.
pub open spec fn delegated_outcome(
    before: Token,
    after: Token,
    sender: Seq<char>,
    owner: Seq<char>,
    amount: u128,
    block: BlockInfo,
    r: Result<Response, ContractError>,
) -> bool {
    &&& r is Ok <==> delegated_check(before, sender, owner, amount, block) is Ok
    &&& r is Err ==> r->Err_0 == delegated_check(before, sender, owner, amount, block)->Err_0
        && after == before
    &&& r is Ok ==> after.allowances@ == after_spend(before.allowances@, (owner, sender), amount)
        && same_but_accounts(before, after)
}

/// The answer of an operation that logs `event` and delivers nothing.
pub open spec fn logged(event: Event) -> Result<Response, ContractError> {
    Ok(Response { event, notice: None })
}

/// What `execute` does with each operation: the same as the function for
/// that operation, with the same log entry.
pub open spec fn executed(
    before: Token,
    after: Token,
    caller: String,
    block: BlockInfo,
    msg: ExecuteMsg,
    r: Result<Response, ContractError>,
) -> bool {
    let sender = caller@;
    match msg {
        ExecuteMsg::Transfer { recipient, amount } => {
            &&& r is Err <==> amount > before.ledger.balance(sender)
            &&& r is Err ==> r == Err::<Response, ContractError>(ContractError::InsufficientFunds)
                && after == before
            &&& r is Ok ==> r == logged(Event::Transfer { from: caller, to: recipient, amount })
                && transferred(before.ledger, after.ledger, sender, recipient@, amount, block.height)
                && same_but_ledger(before, after)
        },
        ExecuteMsg::Burn { amount } => {
            &&& r is Err <==> amount > before.ledger.balance(sender)
            &&& r is Err ==> r == Err::<Response, ContractError>(ContractError::InsufficientFunds)
                && after == before
            &&& r is Ok ==> r == logged(Event::Burn { from: caller, amount }) && burned(
                before.ledger,
                after.ledger,
                sender,
                amount,
                block.height,
            ) && same_but_ledger(before, after)
        },
        ExecuteMsg::Send { contract, amount, msg } => {
            &&& r is Err <==> amount > before.ledger.balance(sender)
            &&& r is Err ==> r == Err::<Response, ContractError>(ContractError::InsufficientFunds)
                && after == before
            &&& r is Ok ==> r == Ok::<Response, ContractError>(
                Response {
                    event: Event::Send { from: caller, to: contract, amount },
                    notice: Some(ReceiveMsg { contract, sender: caller, amount, msg }),
                },
            ) && transferred(before.ledger, after.ledger, sender, contract@, amount, block.height)
                && same_but_ledger(before, after)
        },
        ExecuteMsg::Mint { recipient, amount } => {
            &&& r is Ok <==> crate::ledger::authorized(before.ledger.minter(), sender)
                && before.ledger.total_supply() + amount <= supply_limit(before.ledger.cap())
            &&& !crate::ledger::authorized(before.ledger.minter(), sender) ==> r == Err::<
                Response,
                ContractError,
            >(ContractError::Unauthorized)
            &&& crate::ledger::authorized(before.ledger.minter(), sender)
                && before.ledger.total_supply() + amount > supply_limit(before.ledger.cap())
                ==> r == Err::<Response, ContractError>(
                if before.ledger.cap() is Some {
                    ContractError::CapExceeded
                } else {
                    ContractError::ArithmeticOverflow
                },
            )
            &&& r is Err ==> after == before
            &&& r is Ok ==> r == logged(Event::Mint { to: recipient, amount }) && minted(
                before.ledger,
                after.ledger,
                recipient@,
                amount,
                block.height,
            ) && same_but_ledger(before, after)
        },
        ExecuteMsg::IncreaseAllowance { spender, amount, expires } => {
            let k = (sender, spender@);
            let cur = crate::allowance::current(before.allowances@, k);
            &&& r is Ok <==> cur.allowance + amount <= u128::MAX
            &&& r is Err ==> r == Err::<Response, ContractError>(ContractError::ArithmeticOverflow)
                && after.allowances@ == before.allowances@
            &&& r is Ok ==> r == logged(
                Event::IncreaseAllowance { owner: caller, spender, amount },
            ) && after.allowances@ == crate::allowance::after_increase(
                before.allowances@,
                k,
                amount,
                expires,
            )
            &&& after.ledger == before.ledger && same_but_accounts(before, after)
        },
        ExecuteMsg::DecreaseAllowance { spender, amount, expires } => {
            let k = (sender, spender@);
            &&& r is Ok <==> before.allowances@.contains_key(k)
            &&& r is Err ==> r == Err::<Response, ContractError>(ContractError::NotFound)
                && after.allowances@ == before.allowances@
            &&& r is Ok ==> r == logged(
                Event::DecreaseAllowance { owner: caller, spender, amount },
            ) && after.allowances@ == crate::allowance::after_decrease(
                before.allowances@,
                k,
                amount,
                expires,
                block,
            )
            &&& after.ledger == before.ledger && same_but_accounts(before, after)
        },
        ExecuteMsg::TransferFrom { owner, recipient, amount } => {
            &&& delegated_outcome(before, after, sender, owner@, amount, block, r)
            &&& r is Ok ==> r == logged(
                Event::TransferFrom { from: owner, to: recipient, by: caller, amount },
            ) && transferred(before.ledger, after.ledger, owner@, recipient@, amount, block.height)
        },
        ExecuteMsg::BurnFrom { owner, amount } => {
            &&& delegated_outcome(before, after, sender, owner@, amount, block, r)
            &&& r is Ok ==> r == logged(Event::BurnFrom { from: owner, by: caller, amount })
                && burned(before.ledger, after.ledger, owner@, amount, block.height)
        },
        ExecuteMsg::SendFrom { owner, contract, amount, msg } => {
            &&& delegated_outcome(before, after, sender, owner@, amount, block, r)
            &&& r is Ok ==> r == Ok::<Response, ContractError>(
                Response {
                    event: Event::SendFrom { from: owner, to: contract, by: caller, amount },
                    notice: Some(ReceiveMsg { contract, sender: caller, amount, msg }),
                },
            ) && transferred(before.ledger, after.ledger, owner@, contract@, amount, block.height)
        },
        ExecuteMsg::UpdateMarketing { project, description, marketing } => {
            &&& r is Ok <==> marketing_authorized(before, sender)
            &&& r is Err ==> r == Err::<Response, ContractError>(ContractError::Unauthorized)
                && after == before
            &&& r is Ok ==> r == logged(Event::UpdateMarketing) && after.marketing
                == marketing_after(
                before.marketing->Some_0,
                project,
                blank_update(project),
                description,
                blank_update(description),
                marketing,
                blank_update(marketing),
            ) && after.ledger == before.ledger && after.allowances == before.allowances
                && after.info == before.info && after.logo == before.logo
        },
        ExecuteMsg::UploadLogo(logo) => {
            &&& r is Ok <==> upload_check(before, sender, logo) is Ok
            &&& r is Err ==> r->Err_0 == upload_check(before, sender, logo)->Err_0 && after
                == before
            &&& r is Ok ==> r == logged(Event::UploadLogo) && after.logo == Some(logo)
                && after.marketing == Some(
                MarketingInfo {
                    project: before.marketing->Some_0.project,
                    description: before.marketing->Some_0.description,
                    marketing: before.marketing->Some_0.marketing,
                    logo: Some(logo_info_of(logo)),
                },
            ) && after.ledger == before.ledger && after.allowances == before.allowances
                && after.info == before.info
        },
        ExecuteMsg::UpdateMinter { new_minter } => {
            &&& r is Ok <==> crate::ledger::authorized(before.ledger.minter(), sender)
            &&& r is Err ==> r == Err::<Response, ContractError>(ContractError::Unauthorized)
                && after == before
            &&& r is Ok ==> r == logged(Event::UpdateMinter { new_minter })
                && after.ledger.minter() == crate::ledger::opt_view(new_minter)
                && after.ledger.cap() == (if new_minter is Some {
                before.ledger.cap()
            } else {
                None
            }) && after.ledger.clock() == before.ledger.clock() && (forall|h: u64| #[trigger]
                after.ledger.supply_at(h) == before.ledger.supply_at(h)) && (forall|
                a: Seq<char>,
                h: u64,
            | #[trigger] after.ledger.balance_at(a, h) == before.ledger.balance_at(a, h))
                && same_but_ledger(before, after)
        },
    }
}

fn done(r: Result<Event, ContractError>) -> (out: Result<Response, ContractError>)
    ensures
        r is Ok ==> out == logged(r->Ok_0),
        r is Err ==> out is Err && out->Err_0 == r->Err_0,
{
    match r {
        Ok(event) => Ok(Response { event, notice: None }),
        Err(e) => Err(e),
    }
}

fn deliver(r: Result<(Event, ReceiveMsg), ContractError>) -> (out: Result<Response, ContractError>)
    ensures
        r is Ok ==> out == Ok::<Response, ContractError>(
            Response { event: r->Ok_0.0, notice: Some(r->Ok_0.1) },
        ),
        r is Err ==> out is Err && out->Err_0 == r->Err_0,
{
    match r {
        Ok((event, notice)) => Ok(Response { event, notice: Some(notice) }),
        Err(e) => Err(e),
    }
}

/// Runs one operation for `sender` at `block`.
pub fn execute(token: &mut Token, sender: &String, block: BlockInfo, msg: ExecuteMsg) -> (r: Result<
    Response,
    ContractError,
>)
    requires
        old(token).wf(),
        block.height >= old(token).ledger.clock(),
    ensures
        final(token).wf(),
        executed(*old(token), *final(token), *sender, block, msg, r),
{
    let height = block.height;
    match msg {
        ExecuteMsg::Transfer { recipient, amount } => done(
            execute_transfer(token, sender, &recipient, amount, height),
        ),
        ExecuteMsg::Burn { amount } => done(execute_burn(token, sender, amount, height)),
        ExecuteMsg::Send { contract, amount, msg } => deliver(
            execute_send(token, sender, &contract, amount, msg, height),
        ),
        ExecuteMsg::Mint { recipient, amount } => done(
            execute_mint(token, sender, &recipient, amount, height),
        ),
        ExecuteMsg::IncreaseAllowance { spender, amount, expires } => done(
            execute_increase_allowance(token, sender, &spender, amount, expires),
        ),
        ExecuteMsg::DecreaseAllowance { spender, amount, expires } => done(
            execute_decrease_allowance(token, sender, &spender, amount, expires, block),
        ),
        ExecuteMsg::TransferFrom { owner, recipient, amount } => done(
            execute_transfer_from(token, sender, &owner, &recipient, amount, block),
        ),
        ExecuteMsg::BurnFrom { owner, amount } => done(
            execute_burn_from(token, sender, &owner, amount, block),
        ),
        ExecuteMsg::SendFrom { owner, contract, amount, msg } => deliver(
            execute_send_from(token, sender, &owner, &contract, amount, msg, block),
        ),
        ExecuteMsg::UpdateMarketing { project, description, marketing } => done(
            execute_update_marketing(token, sender, project, description, marketing),
        ),
        ExecuteMsg::UploadLogo(logo) => done(execute_upload_logo(token, sender, logo)),
        ExecuteMsg::UpdateMinter { new_minter } => done(
            execute_update_minter(token, sender, new_minter),
        ),
    }
}

/// A read of the token's state.
pub enum QueryMsg {
    Balance { address: String },
    BalanceAt { address: String, height: u64 },
    TokenInfo,
    TotalSupplyAt { block: u64 },
    Minter,
    Allowance { owner: String, spender: String },
    AllAllowances { owner: String, start_after: Option<String>, limit: Option<u32> },
    AllSpenderAllowances { spender: String, start_after: Option<String>, limit: Option<u32> },
    AllAccounts { start_after: Option<String>, limit: Option<u32> },
    MarketingInfo,
    DownloadLogo,
}

/// The answer to a read.
pub enum QueryResponse {
    Balance(u128),
    TokenInfo(TokenInfoResponse),
    Minter(Option<MinterResponse>),
    Allowance(crate::allowance::AllowanceResponse),
    Allowances(Vec<crate::allowance::AllowanceInfo>),
    Accounts(Vec<String>),
    MarketingInfo(MarketingInfo),
    DownloadLogo(DownloadLogoResponse),
}

/// What `query` answers to each read.
pub open spec fn answered(t: Token, msg: QueryMsg, r: Result<QueryResponse, ContractError>) -> bool {
    match msg {
        QueryMsg::Balance { address } => r == Ok::<QueryResponse, ContractError>(
            QueryResponse::Balance(t.ledger.balance(address@)),
        ),
        QueryMsg::BalanceAt { address, height } => r == Ok::<QueryResponse, ContractError>(
            QueryResponse::Balance(t.ledger.balance_at(address@, height)),
        ),
        QueryMsg::TotalSupplyAt { block } => r == Ok::<QueryResponse, ContractError>(
            QueryResponse::Balance(t.ledger.supply_at(block)),
        ),
        QueryMsg::TokenInfo => r is Ok && r->Ok_0 is TokenInfo && r->Ok_0->TokenInfo_0 == (
        TokenInfoResponse {
            name: t.info.name,
            symbol: t.info.symbol,
            decimals: t.info.decimals,
            total_supply: t.ledger.total_supply(),
        }),
        QueryMsg::Minter => r is Ok && r->Ok_0 is Minter && match r->Ok_0->Minter_0 {
            Some(m) => t.ledger.minter() == Some(m.minter@) && t.ledger.cap() == m.cap,
            None => t.ledger.minter() is None,
        },
        QueryMsg::Allowance { owner, spender } => r == Ok::<QueryResponse, ContractError>(
            QueryResponse::Allowance(
                crate::allowance::current(t.allowances@, (owner@, spender@)),
            ),
        ),
        QueryMsg::AllAllowances { owner, start_after, limit } => r is Ok && r->Ok_0 is Allowances
            && crate::allowance::is_allowance_page(
            t.allowances@,
            owner@,
            true,
            opt_text(start_after),
            effective_limit(limit),
            r->Ok_0->Allowances_0@,
        ),
        QueryMsg::AllSpenderAllowances { spender, start_after, limit } => r is Ok && r->Ok_0
            is Allowances && crate::allowance::is_allowance_page(
            t.allowances@,
            spender@,
            false,
            opt_text(start_after),
            effective_limit(limit),
            r->Ok_0->Allowances_0@,
        ),
        QueryMsg::AllAccounts { start_after, limit } => r is Ok && r->Ok_0 is Accounts && is_page(
            t.ledger.addresses().to_set(),
            opt_text(start_after),
            effective_limit(limit),
            texts(r->Ok_0->Accounts_0@),
        ),
        QueryMsg::MarketingInfo => r is Ok && r->Ok_0 is MarketingInfo && match t.marketing {
            Some(m) => r->Ok_0->MarketingInfo_0 == m,
            None => r->Ok_0->MarketingInfo_0 == (MarketingInfo {
                project: None,
                description: None,
                marketing: None,
                logo: None,
            }),
        },
        QueryMsg::DownloadLogo => match t.logo {
            Some(Logo::Embedded(EmbeddedLogo::Svg(d))) => r is Ok && r->Ok_0 is DownloadLogo
                && r->Ok_0->DownloadLogo_0.mime_type@ == "image/svg+xml"@
                && r->Ok_0->DownloadLogo_0.data@ == d@,
            Some(Logo::Embedded(EmbeddedLogo::Png(d))) => r is Ok && r->Ok_0 is DownloadLogo
                && r->Ok_0->DownloadLogo_0.mime_type@ == "image/png"@
                && r->Ok_0->DownloadLogo_0.data@ == d@,
            _ => r == Err::<QueryResponse, ContractError>(ContractError::NotFound),
        },
    }
}

/// Answers one read of the token's state.
pub fn query(token: &Token, msg: QueryMsg) -> (r: Result<QueryResponse, ContractError>)
    requires
        token.wf(),
    ensures
        answered(*token, msg, r),
{
    match msg {
        QueryMsg::Balance { address } => Ok(QueryResponse::Balance(query_balance(token, &address))),
        QueryMsg::BalanceAt { address, height } => Ok(
            QueryResponse::Balance(query_balance_at(token, &address, height)),
        ),
        QueryMsg::TokenInfo => Ok(QueryResponse::TokenInfo(query_token_info(token))),
        QueryMsg::TotalSupplyAt { block } => Ok(
            QueryResponse::Balance(get_total_supply_at(token, block)),
        ),
        QueryMsg::Minter => Ok(QueryResponse::Minter(query_minter(token))),
        QueryMsg::Allowance { owner, spender } => Ok(
            QueryResponse::Allowance(query_allowance(token, &owner, &spender)),
        ),
        QueryMsg::AllAllowances { owner, start_after, limit } => Ok(
            QueryResponse::Allowances(query_owner_allowances(token, &owner, start_after, limit)),
        ),
        QueryMsg::AllSpenderAllowances { spender, start_after, limit } => Ok(
            QueryResponse::Allowances(
                query_spender_allowances(token, &spender, start_after, limit),
            ),
        ),
        QueryMsg::AllAccounts { start_after, limit } => Ok(
            QueryResponse::Accounts(query_all_accounts(token, start_after, limit)),
        ),
        QueryMsg::MarketingInfo => Ok(QueryResponse::MarketingInfo(query_marketing_info(token))),
        QueryMsg::DownloadLogo => match query_download_logo(token) {
            Ok(d) => Ok(QueryResponse::DownloadLogo(d)),
            Err(e) => Err(e),
        },
    }
}

/// A delegated debit beyond what is left of the allowance fails with
/// `InsufficientAllowance`, and one against an expired allowance with
/// `Expired`; a failed delegated transfer or burn leaves the token, both
/// balances and the allowance included, as it was.
pub proof fn lemma_delegated_spend_refused(
    t: Token,
    spender: Seq<char>,
    owner: Seq<char>,
    amount: u128,
    block: BlockInfo,
)
    ensures
        amount > crate::allowance::current(t.allowances@, (owner, spender)).allowance
            && !crate::allowance::expired(
            crate::allowance::current(t.allowances@, (owner, spender)).expires,
            block,
        ) ==> delegated_check(t, spender, owner, amount, block) == Err::<(), ContractError>(
            ContractError::InsufficientAllowance,
        ),
        crate::allowance::expired(
            crate::allowance::current(t.allowances@, (owner, spender)).expires,
            block,
        ) ==> delegated_check(t, spender, owner, amount, block) == Err::<(), ContractError>(
            ContractError::Expired,
        ),
{
}

} // verus!
