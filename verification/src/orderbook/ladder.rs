//! Ordered queries on a ladder of price levels.

use vstd::prelude::*;
use std::collections::BTreeMap;
use crate::orderbook::price_levels::PriceLevel;
use crate::orderbook::state::{at_least, at_most, is_highest, is_lowest};
use crate::protocol::Price;

verus! {

/// The greatest price in `levels` that does not exceed `ceiling`.
///
/// Calls `BTreeMap::range` with the bound `..=ceiling` and takes the last
/// entry of that range with `next_back`. The contract relies on the
/// standard library's promise that a `BTreeMap` range walks, in ascending
/// key order, exactly the entries whose keys lie within the bound. This is
/// assumed, not proved.
#[verifier::external_body]
pub(crate) fn highest_price_at_most(levels: &BTreeMap<Price, PriceLevel>, ceiling: Price) -> (found:
    Option<Price>)
    ensures
        match found {
            Some(p) => is_highest(at_most(levels@.dom(), ceiling as int), p),
            None => forall|q: Price| levels@.contains_key(q) ==> q > ceiling,
        },
{
    levels.range(..=ceiling).next_back().map(|(price, _)| *price)
}

/// The least price in `levels` that is not below `floor`.
///
/// Calls `BTreeMap::range` with the bound `floor..` and takes the first
/// entry of that range with `next`. The contract relies on the standard
/// library's promise that a `BTreeMap` range walks, in ascending key order,
/// exactly the entries whose keys lie within the bound. This is assumed,
/// not proved.
#[verifier::external_body]
pub(crate) fn lowest_price_at_least(levels: &BTreeMap<Price, PriceLevel>, floor: Price) -> (found:
    Option<Price>)
    ensures
        match found {
            Some(p) => is_lowest(at_least(levels@.dom(), floor as int), p),
            None => forall|q: Price| levels@.contains_key(q) ==> q < floor,
        },
{
    levels.range(floor..).next().map(|(price, _)| *price)
}

} // verus!
