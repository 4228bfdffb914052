use kerosene_node::ledger::account::{AccountClass, StandardAccount};

#[test]
fn account_classification() {
    assert_eq!(
        StandardAccount::AssetCustodiedBtc.class(),
        AccountClass::Asset
    );
    assert_eq!(StandardAccount::AssetColdBtc.class(), AccountClass::Asset);
    assert_eq!(StandardAccount::AssetHotBtc.class(), AccountClass::Asset);
    assert_eq!(
        StandardAccount::LiabilityUserBalances.class(),
        AccountClass::Liability
    );
    assert_eq!(
        StandardAccount::LiabilityPendingWithdrawals.class(),
        AccountClass::Liability
    );
    assert_eq!(
        StandardAccount::LiabilityInternalReserved.class(),
        AccountClass::Liability
    );
    assert_eq!(StandardAccount::EquityPlatform.class(), AccountClass::Equity);
    assert_eq!(
        StandardAccount::ExpenseMinerFees.class(),
        AccountClass::Expense
    );
    assert_eq!(
        StandardAccount::RevenuePlatformFees.class(),
        AccountClass::Revenue
    );
}
