//! The command-line surface, as plain data.
//!
//! The binary parses its arguments into these shapes and hands them on;
//! file locations are carried as plain strings.

use vstd::prelude::*;

verus! {

/// The tool's invocation: one command to perform.
pub struct Cli {
    /// Command to perform
    pub command: Commands,
}

pub enum Commands {
    /// Authorize application
    Authorize(AuthorizeCmd),
    /// Refresh authorization
    Refresh(RefreshCmd),
    /// Bank related commands
    Bank(BankCmd),
}

pub struct AuthorizeCmd {
    /// Config file
    pub config: String,
    /// State file
    pub state: String,
}

pub struct RefreshCmd {
    /// State file
    pub state: String,
}

pub struct BankCmd {
    /// State file
    pub state: String,
    pub command: BankCmds,
}

pub enum BankCmds {
    /// List Banks
    List(BankListCmd),
    /// Authorize a Bank
    Authorize(BankAuthorizeCmd),
    /// List Accounts
    Account(BankAccountCmd),
}

pub struct BankListCmd {
    /// Country to list
    pub country: Option<String>,
}

pub struct BankAuthorizeCmd {
    /// Bank ID
    pub bank_id: String,
    /// Bank Authorization file
    pub auth: String,
}

pub struct BankAccountCmd {
    /// Bank Auth State file
    pub auth: String,
    pub command: BankAccountCmds,
}

pub enum BankAccountCmds {
    List(BankAccountListCmd),
    Transactions(BankAccountTransactionsCmd),
    Balance(BankAccountBalanceCmd),
}

pub struct BankAccountListCmd {}

pub struct BankAccountTransactionsCmd {
    /// Account IBAN
    pub iban: String,
}

pub struct BankAccountBalanceCmd {
    /// Account IBAN
    pub iban: String,
}

} // verus!
