//! Consistency checks on the balances of a wallet.

use crate::ledger::error::{outcome, ErrorModel, LedgerError};
use crate::ledger::wallet::BalanceView;
use vstd::prelude::*;

verus! {

/// The verdict on balances that may come from an overflow.
pub open spec fn saturation_checked(v: BalanceView) -> Result<(), ErrorModel> {
    if v.internal_available_sats == u64::MAX {
        Err(
            ErrorModel::InvariantViolation(
                "internal_available_sats is at MAX, possible overflow"@,
            ),
        )
    } else if v.onchain_confirmed_sats == u64::MAX {
        Err(
            ErrorModel::InvariantViolation(
                "onchain_confirmed_sats is at MAX, possible overflow"@,
            ),
        )
    } else {
        Ok(())
    }
}

/// Checks that no available balance stands at the maximum, as it would after
/// a saturated overflow.
pub fn check_available_non_negative(view: &BalanceView) -> (r: Result<(), LedgerError>)
    ensures
        outcome(r) == saturation_checked(*view),
{
    if view.internal_available_sats == u64::MAX {
        return Err(
            LedgerError::InvariantViolation(
                "internal_available_sats is at MAX, possible overflow".to_owned(),
            ),
        );
    }
    if view.onchain_confirmed_sats == u64::MAX {
        return Err(
            LedgerError::InvariantViolation(
                "onchain_confirmed_sats is at MAX, possible overflow".to_owned(),
            ),
        );
    }
    Ok(())
}

/// The verdict on reserved balances.
pub open spec fn reserved_checked(v: BalanceView) -> Result<(), ErrorModel> {
    if v.internal_reserved_sats > v.internal_available_sats {
        Err(
            ErrorModel::ReservedExceedsAvailable {
                reserved: v.internal_reserved_sats,
                available: v.internal_available_sats,
            },
        )
    } else if v.onchain_reserved_sats > v.onchain_confirmed_sats {
        Err(
            ErrorModel::ReservedExceedsAvailable {
                reserved: v.onchain_reserved_sats,
                available: v.onchain_confirmed_sats,
            },
        )
    } else {
        Ok(())
    }
}

/// Checks that nothing is reserved beyond what is available.
pub fn check_reserved_not_exceed_available(view: &BalanceView) -> (r: Result<(), LedgerError>)
    ensures
        outcome(r) == reserved_checked(*view),
{
    if view.internal_reserved_sats > view.internal_available_sats {
        return Err(
            LedgerError::ReservedExceedsAvailable {
                reserved: view.internal_reserved_sats,
                available: view.internal_available_sats,
            },
        );
    }
    if view.onchain_reserved_sats > view.onchain_confirmed_sats {
        return Err(
            LedgerError::ReservedExceedsAvailable {
                reserved: view.onchain_reserved_sats,
                available: view.onchain_confirmed_sats,
            },
        );
    }
    Ok(())
}

/// Checks that pending outgoing transfers are covered.
pub fn check_pending_outgoing_not_exceed_available(view: &BalanceView) -> (r: Result<
    (),
    LedgerError,
>)
    ensures
        outcome(r) == (if view.pending_outgoing_sats > view.internal_available_sats {
            Err(
                ErrorModel::PendingOutgoingExceedsAvailable {
                    outgoing: view.pending_outgoing_sats,
                    available: view.internal_available_sats,
                },
            )
        } else {
            Ok::<(), ErrorModel>(())
        }),
        r is Ok <==> view.pending_outgoing_sats <= view.internal_available_sats,
{
    if view.pending_outgoing_sats > view.internal_available_sats {
        return Err(
            LedgerError::PendingOutgoingExceedsAvailable {
                outgoing: view.pending_outgoing_sats,
                available: view.internal_available_sats,
            },
        );
    }
    Ok(())
}

/// Whether the platform controls any balance of a wallet.
pub open spec fn controlled(v: BalanceView) -> bool {
    v.internal_available_sats != 0 || v.onchain_confirmed_sats != 0 || v.onchain_unconfirmed_sats
        != 0
}

/// Checks that a wallet which the platform cannot spend from shows no balance
/// under the platform's control.
pub fn check_spendable_consistency(view: &BalanceView) -> (r: Result<(), LedgerError>)
    ensures
        outcome(r) == (if view.spendable_by_kerosene_sats == 0 && controlled(*view) {
            Err(
                ErrorModel::InvariantViolation(
                    "spendable_by_kerosene is 0 but Kerosene-controlled balances are non-zero"@,
                ),
            )
        } else {
            Ok::<(), ErrorModel>(())
        }),
        r is Ok <==> view.spendable_by_kerosene_sats > 0 || (view.internal_available_sats == 0
            && view.onchain_confirmed_sats == 0 && view.onchain_unconfirmed_sats == 0),
{
    if view.spendable_by_kerosene_sats == 0 {
        if view.internal_available_sats != 0 || view.onchain_confirmed_sats != 0
            || view.onchain_unconfirmed_sats != 0 {
            return Err(
                LedgerError::InvariantViolation(
                    "spendable_by_kerosene is 0 but Kerosene-controlled balances are non-zero"
                        .to_owned(),
                ),
            );
        }
    }
    Ok(())
}

/// The place for a check of the version against an earlier snapshot. A single
/// snapshot cannot go back, so it always passes.
pub fn check_state_version_monotonic(_view: &BalanceView) -> (r: Result<(), LedgerError>)
    ensures
        r is Ok,
{
    Ok(())
}

/// The place for a check of derived balances. Each balance is a 64-bit number
/// of its own, so it always passes.
pub fn check_no_balance_overflow(_view: &BalanceView) -> (r: Result<(), LedgerError>)
    ensures
        r is Ok,
{
    Ok(())
}

/// Balances pass exactly when neither is at its limit, and reservations pass
/// exactly when both are covered; some balance is controlled exactly when one
/// is not zero.
pub proof fn lemma_balance_checks_are_exact(v: BalanceView)
    ensures
        saturation_checked(v) is Ok <==> v.internal_available_sats < u64::MAX
            && v.onchain_confirmed_sats < u64::MAX,
        reserved_checked(v) is Ok <==> v.internal_reserved_sats <= v.internal_available_sats
            && v.onchain_reserved_sats <= v.onchain_confirmed_sats,
        controlled(v) <==> v.internal_available_sats > 0 || v.onchain_confirmed_sats > 0
            || v.onchain_unconfirmed_sats > 0,
{
}

} // verus!
