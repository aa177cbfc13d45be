use vstd::prelude::*;

verus! {

/// Every way in which an operation of the token can fail. A failed operation
/// leaves all state untouched.
#[derive(Debug, Clone, Copy, PartialEq, Eq, Structural)]
pub enum ContractError {
    /// The caller lacks the authority that the operation asks for.
    Unauthorized,
    /// A debit would take a balance below zero.
    InsufficientFunds,
    /// A delegated spend exceeds what the allowance still holds.
    InsufficientAllowance,
    /// A delegated spend against an allowance past its expiry.
    Expired,
    /// Minting would push the total supply above the cap.
    CapExceeded,
    /// The initial account list names one address twice.
    DuplicateAddress,
    /// An address failed validation.
    AddressInvalid,
    /// A credit or a supply increase would not fit in 128 bits.
    ArithmeticOverflow,
    /// A query or an update names a record that does not exist.
    NotFound,
    /// The supply history disagrees with the balances.
    InconsistentSupply,
    /// An SVG logo does not open with an XML preamble.
    InvalidXmlPreamble,
    /// An embedded logo is larger than the size cap.
    LogoTooBig,
    /// A PNG logo does not start with the PNG signature.
    InvalidPngHeader,
}

} // verus!
