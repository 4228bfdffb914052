//! The chart of accounts.

use vstd::prelude::*;

verus! {

/// Classifies an account within the double-entry chart of accounts.
#[derive(Debug, Clone, Copy, PartialEq, Eq, Hash, Structural)]
pub enum AccountClass {
    Asset,
    Liability,
    Equity,
    Expense,
    Revenue,
}

/// The canonical chart of accounts.
#[derive(Debug, Clone, Copy, PartialEq, Eq, PartialOrd, Ord, Hash, Structural)]
pub enum StandardAccount {
    /// BTC under custodial control (hot and cold aggregated).
    AssetCustodiedBtc,
    /// BTC in cold storage.
    AssetColdBtc,
    /// BTC in the hot wallet.
    AssetHotBtc,
    /// Liabilities owed to platform users.
    LiabilityUserBalances,
    /// Withdrawals that have been requested but not yet settled.
    LiabilityPendingWithdrawals,
    /// Internal reserves set aside for operational purposes.
    LiabilityInternalReserved,
    /// Platform equity and retained earnings.
    EquityPlatform,
    /// Bitcoin miner fees paid out.
    ExpenseMinerFees,
    /// Platform fees collected from users.
    RevenuePlatformFees,
}

/// The accounting class of an account.
pub open spec fn account_class(a: StandardAccount) -> AccountClass {
    match a {
        StandardAccount::AssetCustodiedBtc
        | StandardAccount::AssetColdBtc
        | StandardAccount::AssetHotBtc => AccountClass::Asset,
        StandardAccount::LiabilityUserBalances
        | StandardAccount::LiabilityPendingWithdrawals
        | StandardAccount::LiabilityInternalReserved => AccountClass::Liability,
        StandardAccount::EquityPlatform => AccountClass::Equity,
        StandardAccount::ExpenseMinerFees => AccountClass::Expense,
        StandardAccount::RevenuePlatformFees => AccountClass::Revenue,
    }
}

impl StandardAccount {
    /// The accounting class of this account.
    pub fn class(&self) -> (r: AccountClass)
        ensures
            r == account_class(*self),
    {
        match self {
            StandardAccount::AssetCustodiedBtc
            | StandardAccount::AssetColdBtc
            | StandardAccount::AssetHotBtc => AccountClass::Asset,
            StandardAccount::LiabilityUserBalances
            | StandardAccount::LiabilityPendingWithdrawals
            | StandardAccount::LiabilityInternalReserved => AccountClass::Liability,
            StandardAccount::EquityPlatform => AccountClass::Equity,
            StandardAccount::ExpenseMinerFees => AccountClass::Expense,
            StandardAccount::RevenuePlatformFees => AccountClass::Revenue,
        }
    }
}

/// The name of a variant.
pub open spec fn account_name(v: StandardAccount) -> Seq<char> {
    match v {
        StandardAccount::AssetCustodiedBtc => "AssetCustodiedBtc"@,
        StandardAccount::AssetColdBtc => "AssetColdBtc"@,
        StandardAccount::AssetHotBtc => "AssetHotBtc"@,
        StandardAccount::LiabilityUserBalances => "LiabilityUserBalances"@,
        StandardAccount::LiabilityPendingWithdrawals => "LiabilityPendingWithdrawals"@,
        StandardAccount::LiabilityInternalReserved => "LiabilityInternalReserved"@,
        StandardAccount::EquityPlatform => "EquityPlatform"@,
        StandardAccount::ExpenseMinerFees => "ExpenseMinerFees"@,
        StandardAccount::RevenuePlatformFees => "RevenuePlatformFees"@,
    }
}

impl StandardAccount {
    /// The name of this variant.
    pub fn name(&self) -> (r: &'static str)
        ensures
            r@ == account_name(*self),
    {
        match self {
            StandardAccount::AssetCustodiedBtc => "AssetCustodiedBtc",
            StandardAccount::AssetColdBtc => "AssetColdBtc",
            StandardAccount::AssetHotBtc => "AssetHotBtc",
            StandardAccount::LiabilityUserBalances => "LiabilityUserBalances",
            StandardAccount::LiabilityPendingWithdrawals => "LiabilityPendingWithdrawals",
            StandardAccount::LiabilityInternalReserved => "LiabilityInternalReserved",
            StandardAccount::EquityPlatform => "EquityPlatform",
            StandardAccount::ExpenseMinerFees => "ExpenseMinerFees",
            StandardAccount::RevenuePlatformFees => "RevenuePlatformFees",
        }
    }
}

/// Every account belongs to the class that its name says.
pub proof fn lemma_accounts_by_class(a: StandardAccount)
    ensures
        account_class(a) is Asset <==> a is AssetCustodiedBtc || a is AssetColdBtc
            || a is AssetHotBtc,
        account_class(a) is Liability <==> a is LiabilityUserBalances
            || a is LiabilityPendingWithdrawals || a is LiabilityInternalReserved,
        account_class(a) is Equity <==> a is EquityPlatform,
        account_class(a) is Expense <==> a is ExpenseMinerFees,
        account_class(a) is Revenue <==> a is RevenuePlatformFees,
{
}

/// Different accounts have different names.
pub proof fn lemma_account_names_differ(a: StandardAccount, b: StandardAccount)
    requires
        account_name(a) == account_name(b),
    ensures
        a == b,
{
    reveal_strlit("AssetCustodiedBtc");
    reveal_strlit("AssetColdBtc");
    reveal_strlit("AssetHotBtc");
    reveal_strlit("LiabilityUserBalances");
    reveal_strlit("LiabilityPendingWithdrawals");
    reveal_strlit("LiabilityInternalReserved");
    reveal_strlit("EquityPlatform");
    reveal_strlit("ExpenseMinerFees");
    reveal_strlit("RevenuePlatformFees");
    assert("AssetCustodiedBtc"@.len() == 17);
    assert("AssetColdBtc"@.len() == 12);
    assert("AssetHotBtc"@.len() == 11);
    assert("LiabilityUserBalances"@.len() == 21);
    assert("LiabilityPendingWithdrawals"@.len() == 27);
    assert("LiabilityInternalReserved"@.len() == 25);
    assert("EquityPlatform"@.len() == 14);
    assert("ExpenseMinerFees"@.len() == 16);
    assert("RevenuePlatformFees"@.len() == 19);
    assert(account_name(a).len() == account_name(b).len());
}

} // verus!
