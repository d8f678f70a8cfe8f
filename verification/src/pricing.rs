//! Which price a named store's request is charged at, and when a request is
//! reported as lacking a price. The price table belongs to the caller and is
//! reached through its two lookups.
use vstd::prelude::*;
use crate::entry::{total_usage_tokens, CostMode, TokenUsage};

verus! {

/// A price table's lookups: by exact model name, and by the table's own
/// model-name matching.
pub struct PricingLookup<FE, FF> {
    pub find_exact: FE,
    pub find: FF,
}

/// Whether both lookups of `pricing` accept every model name.
pub open spec fn lookups_total<P, FE: Fn(&str) -> Option<P>, FF: Fn(&str) -> Option<P>>(
    pricing: Option<&PricingLookup<FE, FF>>,
) -> bool {
    pricing matches Some(pr) ==> (forall|m: &str| #[trigger] pr.find_exact.requires((m,))) && (
    forall|m: &str| #[trigger] pr.find.requires((m,)))
}

/// `price` is what the table's raw-model lookup may give for `raw_model`:
/// nothing without a raw model.
pub open spec fn raw_lookup_outcome<P, FE: Fn(&str) -> Option<P>, FF: Fn(&str) -> Option<P>>(
    raw_model: Option<&str>,
    pr: &PricingLookup<FE, FF>,
    price: Option<P>,
) -> bool {
    match raw_model {
        None => price is None,
        Some(m) => pr.find.ensures((m,), price),
    }
}

/// `price` is what `store_pricing` may return: no price without a table;
/// otherwise the exact-name price of the display model (`[store] model`)
/// when there is one, else the table's price for the raw model.
pub open spec fn store_pricing_outcome<P, FE: Fn(&str) -> Option<P>, FF: Fn(&str) -> Option<P>>(
    raw_model: Option<&str>,
    display_model: Option<&str>,
    pricing: Option<&PricingLookup<FE, FF>>,
    price: Option<P>,
) -> bool {
    match pricing {
        None => price is None,
        Some(pr) => match display_model {
            None => raw_lookup_outcome(raw_model, pr, price),
            Some(d) => (price is Some && pr.find_exact.ensures((d,), price)) || (
            pr.find_exact.ensures((d,), None::<P>) && raw_lookup_outcome(raw_model, pr, price)),
        },
    }
}

/// The price for a named store's request: a price set for the display model
/// (`[store] model`) wins over one found for the raw model, so a store's
/// name never makes an unrelated model's price apply.
pub fn store_pricing<P, FE: Fn(&str) -> Option<P>, FF: Fn(&str) -> Option<P>>(
    raw_model: Option<&str>,
    display_model: Option<&str>,
    pricing: Option<&PricingLookup<FE, FF>>,
) -> (price: Option<P>)
    requires
        lookups_total(pricing),
    ensures
        store_pricing_outcome(raw_model, display_model, pricing, price),
{
    let pr = match pricing {
        None => {
            return None;
        },
        Some(pr) => pr,
    };
    let exact = match display_model {
        Some(d) => (pr.find_exact)(d),
        None => None,
    };
    match exact {
        Some(p) => Some(p),
        None => match raw_model {
            Some(m) => (pr.find)(m),
            None => None,
        },
    }
}

/// Whether no price is wanted for the request: costs come from the log, the
/// log gives this request's cost, or it used no tokens.
pub open spec fn price_not_wanted<C>(usage: TokenUsage, display_cost: Option<C>, mode: CostMode) -> bool {
    mode == CostMode::Display || (mode == CostMode::Auto && display_cost is Some)
        || total_usage_tokens(usage) == 0
}

/// `missing` is what `missing_store_pricing_model` may return: nothing
/// when no price is wanted or the request names no model; otherwise nothing
/// when the store's price lookup finds a price, and the resolved raw model
/// name when it finds none.
pub open spec fn missing_model_outcome<
    C,
    P,
    FE: Fn(&str) -> Option<P>,
    FF: Fn(&str) -> Option<P>,
    FR: Fn(&str) -> String,
>(
    raw_model: Option<&str>,
    display_model: Option<&str>,
    usage: TokenUsage,
    display_cost: Option<C>,
    mode: CostMode,
    pricing: Option<&PricingLookup<FE, FF>>,
    resolve_model_name: FR,
    missing: Option<String>,
) -> bool {
    if price_not_wanted(usage, display_cost, mode) || raw_model is None {
        missing is None
    } else {
        exists|price: Option<P>|
            {
                &&& #[trigger] store_pricing_outcome(raw_model, display_model, pricing, price)
                &&& price is Some ==> missing is None
                &&& price is None ==> exists|name: String|
                    #[trigger] resolve_model_name.ensures((raw_model->0,), name) && missing == Some(
                        name,
                    )
            }
    }
}

/// The model to report as lacking a price for a named store's request:
/// none when no price is wanted or the request names no model; otherwise the
/// resolved name of the raw model exactly when `store_pricing` finds no price.
pub fn missing_store_pricing_model<
    C,
    P,
    FE: Fn(&str) -> Option<P>,
    FF: Fn(&str) -> Option<P>,
    FR: Fn(&str) -> String,
>(
    raw_model: Option<&str>,
    display_model: Option<&str>,
    usage: TokenUsage,
    display_cost: &Option<C>,
    mode: CostMode,
    pricing: Option<&PricingLookup<FE, FF>>,
    resolve_model_name: FR,
) -> (missing: Option<String>)
    requires
        lookups_total(pricing),
        forall|m: &str| #[trigger] resolve_model_name.requires((m,)),
    ensures
        missing_model_outcome(
            raw_model,
            display_model,
            usage,
            *display_cost,
            mode,
            pricing,
            resolve_model_name,
            missing,
        ),
{
    if mode == CostMode::Display {
        return None;
    }
    if mode == CostMode::Auto && display_cost.is_some() {
        return None;
    }
    if usage.input_tokens == 0 && usage.output_tokens == 0 && usage.cache_creation_input_tokens == 0
        && usage.cache_read_input_tokens == 0 {
        return None;
    }
    let raw = match raw_model {
        Some(m) => m,
        None => {
            return None;
        },
    };
    let price = store_pricing(Some(raw), display_model, pricing);
    if price.is_none() {
        Some(resolve_model_name(raw))
    } else {
        None
    }
}

/// The cost of a named store's request by cost mode: the log's cost in
/// display mode (`zero` when it has none), the log's cost in auto mode when
/// it has one, and otherwise the cost `from_tokens` works out.
pub fn store_cost<C: Copy, F: FnOnce() -> C>(
    mode: CostMode,
    display_cost: Option<C>,
    zero: C,
    from_tokens: F,
) -> (cost: C)
    requires
        from_tokens.requires(()),
    ensures
        mode == CostMode::Display ==> cost == match display_cost {
            Some(c) => c,
            None => zero,
        },
        (mode == CostMode::Auto && display_cost is Some) ==> cost == display_cost->0,
        (mode == CostMode::Calculate || (mode == CostMode::Auto && display_cost is None))
            ==> from_tokens.ensures((), cost),
{
    match mode {
        CostMode::Display => match display_cost {
            Some(c) => c,
            None => zero,
        },
        CostMode::Auto => match display_cost {
            Some(c) => c,
            None => from_tokens(),
        },
        CostMode::Calculate => from_tokens(),
    }
}

/// The cost of a named store's request from its tokens: `zero` when
/// `store_pricing` finds no price, else what `cost_of_price` gives for the
/// price found.
pub fn store_cost_from_tokens<
    C,
    P,
    FE: Fn(&str) -> Option<P>,
    FF: Fn(&str) -> Option<P>,
    FP: Fn(&P) -> C,
>(
    raw_model: Option<&str>,
    display_model: Option<&str>,
    pricing: Option<&PricingLookup<FE, FF>>,
    zero: C,
    cost_of_price: FP,
) -> (cost: C)
    requires
        lookups_total(pricing),
        forall|p: &P| #[trigger] cost_of_price.requires((p,)),
    ensures
        exists|price: Option<P>|
            {
                &&& #[trigger] store_pricing_outcome(raw_model, display_model, pricing, price)
                &&& price is None ==> cost == zero
                &&& price is Some ==> cost_of_price.ensures((&price->0,), cost)
            },
{
    match store_pricing(raw_model, display_model, pricing) {
        Some(p) => cost_of_price(&p),
        None => zero,
    }
}


/// With a display model, the price of a named store's request is the
/// exact-name price of the display model when that lookup finds one;
/// otherwise that lookup found nothing and the price is what the table's
/// matching gives for the raw model (nothing without a raw model). The
/// table's matching is never applied to the display model.
pub proof fn lemma_store_pricing_sources<P, FE: Fn(&str) -> Option<P>, FF: Fn(&str) -> Option<P>>(
    raw_model: Option<&str>,
    display: &str,
    pr: &PricingLookup<FE, FF>,
    price: Option<P>,
)
    requires
        store_pricing_outcome(raw_model, Some(display), Some(pr), price),
    ensures
        (price is Some && pr.find_exact.ensures((display,), price)) || (pr.find_exact.ensures(
            (display,),
            None::<P>,
        ) && match raw_model {
            Some(m) => pr.find.ensures((m,), price),
            None => price is None,
        }),
{
}

/// Without a table no price is found; without a display model the price is
/// what the table's matching gives for the raw model.
pub proof fn lemma_store_pricing_without_display<
    P,
    FE: Fn(&str) -> Option<P>,
    FF: Fn(&str) -> Option<P>,
>(raw_model: Option<&str>, pricing: Option<&PricingLookup<FE, FF>>, price: Option<P>)
    requires
        store_pricing_outcome(raw_model, None, pricing, price),
    ensures
        pricing is None ==> price is None,
        pricing matches Some(pr) ==> match raw_model {
            Some(m) => pr.find.ensures((m,), price),
            None => price is None,
        },
{
}

/// When the cost comes from prices (calculate mode, or auto mode without a
/// logged cost), a request with tokens and a raw model is reported unpriced
/// exactly when the store's lookup finds no price, whatever cost the log
/// carries, and then under the resolved name of its raw model. In display
/// mode, and in auto mode with a logged cost, nothing is reported.
pub proof fn lemma_unpriced_when_prices_decide<
    C,
    P,
    FE: Fn(&str) -> Option<P>,
    FF: Fn(&str) -> Option<P>,
    FR: Fn(&str) -> String,
>(
    raw_model: Option<&str>,
    display_model: Option<&str>,
    usage: TokenUsage,
    display_cost: Option<C>,
    mode: CostMode,
    pricing: Option<&PricingLookup<FE, FF>>,
    resolve_model_name: FR,
    missing: Option<String>,
)
    requires
        missing_model_outcome(
            raw_model,
            display_model,
            usage,
            display_cost,
            mode,
            pricing,
            resolve_model_name,
            missing,
        ),
    ensures
        (mode == CostMode::Calculate || (mode == CostMode::Auto && display_cost is None))
            && total_usage_tokens(usage) > 0 && raw_model is Some ==> exists|price: Option<P>|
            #[trigger] store_pricing_outcome(raw_model, display_model, pricing, price) && (
            missing is None <==> price is Some),
        missing matches Some(name) ==> resolve_model_name.ensures((raw_model->0,), name),
        mode == CostMode::Display || (mode == CostMode::Auto && display_cost is Some)
            ==> missing is None,
        total_usage_tokens(usage) == 0 || raw_model is None ==> missing is None,
{
}

} // verus!
