//! Tiered pricing of one sub-account.
use crate::codec::Tier;
use vstd::prelude::*;

verus! {

/// What is being paid for.
#[derive(Debug, Clone, Copy, PartialEq, Eq, Structural)]
pub enum Action {
    /// `create_sub_account`: priced at the tiers' price for new accounts.
    CreateSubAccount,
    /// `renew_sub_account`: priced at the tiers' renewal price.
    RenewSubAccount,
    /// `get_price`: not performed.
    GetPrice,
}

/// The price a tier asks for creating (`create`) or renewing.
pub open spec fn pick(t: Tier, create: bool) -> u64 {
    if create {
        t.1
    } else {
        t.2
    }
}

/// The price of the last tier whose length is exactly `len` (0 if none).
pub open spec fn exact_price(tiers: Seq<Tier>, len: int, create: bool) -> u64
    decreases tiers.len(),
{
    if tiers.len() == 0 {
        0
    } else if tiers.last().0 == len {
        pick(tiers.last(), create)
    } else {
        exact_price(tiers.drop_last(), len, create)
    }
}

/// The yearly price of an account of `len` segments: the last tier's price
/// when `len` reaches the last tier's length, else the exact match.
pub open spec fn unit_price(tiers: Seq<Tier>, len: int, create: bool) -> u64 {
    if tiers.len() > 0 && len >= tiers.last().0 {
        pick(tiers.last(), create)
    } else {
        exact_price(tiers, len, create)
    }
}

/// Each tier's length is greater than the one before.
pub open spec fn strictly_increasing(tiers: Seq<Tier>) -> bool {
    forall|i: int| 0 < i < tiers.len() ==> #[trigger] tiers[i].0 > tiers[i - 1].0
}

/// The reference price of an account of `account_len` segments for
/// `expiration_years` years.
pub fn get_price(action: &Action, configs: &[Tier], account_len: usize, expiration_years: u64) -> (r:
    u128)
    requires
        configs@.len() > 0,
    ensures
        r == unit_price(configs@, account_len as int, *action == Action::CreateSubAccount)
            * expiration_years,
{
    let create = match action {
        Action::CreateSubAccount => true,
        _ => false,
    };
    let mut unit_price: u64 = 0;
    let mut max_length: u8 = 0;
    let mut i: usize = 0;
    while i < configs.len()
        invariant
            0 <= i <= configs@.len(),
            create == (*action == Action::CreateSubAccount),
            unit_price == exact_price(configs@.subrange(0, i as int), account_len as int, create),
            i > 0 ==> max_length == configs@[i - 1].0,
        decreases configs@.len() - i,
    {
        let config = configs[i];
        max_length = config.0;
        assert(configs@.subrange(0, i + 1).drop_last() =~= configs@.subrange(0, i as int));
        if account_len == config.0 as usize {
            unit_price = if create {
                config.1
            } else {
                config.2
            };
        }
        i = i + 1;
    }
    assert(configs@.subrange(0, i as int) =~= configs@);
    if account_len >= max_length as usize {
        let last = configs[configs.len() - 1];
        unit_price = if create {
            last.1
        } else {
            last.2
        };
    }
    let u = unit_price as u128;
    let y = expiration_years as u128;
    assert(u * y <= 0xffff_ffff_ffff_ffffu128 * 0xffff_ffff_ffff_ffffu128) by (nonlinear_arith)
        requires
            u <= 0xffff_ffff_ffff_ffffu128,
            y <= 0xffff_ffff_ffff_ffffu128,
    ;
    let r = u * y;
    r
}

proof fn lemma_below_last(tiers: Seq<Tier>, i: int)
    requires
        strictly_increasing(tiers),
        0 <= i < tiers.len() - 1,
    ensures
        tiers[i].0 < tiers.last().0,
    decreases tiers.len() - i,
{
    assert(tiers[i + 1].0 > tiers[i].0);
    if i + 1 < tiers.len() - 1 {
        lemma_below_last(tiers, i + 1);
    }
}

proof fn lemma_exact_price_at(tiers: Seq<Tier>, len: int, create: bool, i: int)
    requires
        strictly_increasing(tiers),
        0 <= i < tiers.len(),
        tiers[i].0 == len,
    ensures
        exact_price(tiers, len, create) == pick(tiers[i], create),
    decreases tiers.len(),
{
    if i < tiers.len() - 1 {
        lemma_below_last(tiers, i);
        let rest = tiers.drop_last();
        assert(strictly_increasing(rest)) by {
            assert forall|k: int| 0 < k < rest.len() implies #[trigger] rest[k].0 > rest[k - 1].0 by {
                assert(tiers[k].0 > tiers[k - 1].0);
            }
        }
        assert(rest[i] == tiers[i]);
        lemma_exact_price_at(rest, len, create, i);
    }
}

/// Tier selection on a valid fee table: an account whose length reaches the
/// last tier's length pays the last tier's price, whatever else matches; one
/// whose length is exactly a shorter tier's length pays that tier's price.
pub proof fn lemma_tier_selection(tiers: Seq<Tier>, len: int, create: bool)
    requires
        tiers.len() > 0,
        strictly_increasing(tiers),
    ensures
        len >= tiers.last().0 ==> unit_price(tiers, len, create) == pick(tiers.last(), create),
        forall|i: int|
            0 <= i < tiers.len() && #[trigger] tiers[i].0 == len && len < tiers.last().0
                ==> unit_price(tiers, len, create) == pick(tiers[i], create),
{
    assert forall|i: int|
        0 <= i < tiers.len() && #[trigger] tiers[i].0 == len && len < tiers.last().0
            implies unit_price(tiers, len, create) == pick(tiers[i], create) by {
        lemma_exact_price_at(tiers, len, create, i);
    }
}

} // verus!
