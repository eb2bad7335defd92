//! The emitter: the header and the rows of the output.

use crate::notices::texts;
use crate::query::{logged_code, logged_ref, ProviderView, Query};
use crate::records::{price_views, rate_views, Network, NetworkView, Price, PriceView, Rate, RateView};
use crate::text::{decimal_string, decimal_text};
use std::collections::HashMap;
use vstd::prelude::*;

verus! {

broadcast use vstd::std_specs::hash::group_hash_axioms;

/// The header line of the output.
pub open spec fn header_text() -> Seq<char> {
    "npi,tin_type,tin_value"@ + ","@ + "group_id"@ + ","@
        + "negotiation_arrangement,name,billing_code_type,billing_code_type_version,billing_code,description"@
        + ","@
        + "negotiated_type,negotiated_rate,expiration_date,service_code,billing_class,billing_code_modifier"@
        + "\n"@
}

/// One row: the provider tuple, the provider reference, the fields of the
/// network and the fields of the price, separated by commas, and a line end.
pub open spec fn row_text(
    tuple: Seq<char>,
    reference: u64,
    net: NetworkView,
    price: PriceView,
) -> Seq<char> {
    tuple + ","@ + decimal_text(reference as nat) + ","@ + net.text() + ","@ + price.text() + "\n"@
}

/// The rows of one provider tuple: one for each price, in the order of the
/// prices.
pub open spec fn price_rows(
    tuple: Seq<char>,
    reference: u64,
    net: NetworkView,
    prices: Seq<PriceView>,
) -> Seq<Seq<char>> {
    Seq::new(prices.len(), |k: int| row_text(tuple, reference, net, prices[k]))
}

/// The rows of one provider reference: those of each of its provider tuples,
/// in the order of the tuples.
pub open spec fn tuple_rows(
    tuples: Seq<Seq<char>>,
    reference: u64,
    net: NetworkView,
    prices: Seq<PriceView>,
) -> Seq<Seq<char>>
    decreases tuples.len(),
{
    if tuples.len() == 0 {
        Seq::empty()
    } else {
        tuple_rows(tuples.drop_last(), reference, net, prices) + price_rows(
            tuples.last(),
            reference,
            net,
            prices,
        )
    }
}

/// The rows of one rate: those of each of its provider references, in the
/// order of the references.
pub open spec fn ref_rows(
    refs: Seq<u64>,
    tuples: Map<u64, Seq<Seq<char>>>,
    net: NetworkView,
    prices: Seq<PriceView>,
) -> Seq<Seq<char>>
    decreases refs.len(),
{
    if refs.len() == 0 {
        Seq::empty()
    } else {
        ref_rows(refs.drop_last(), tuples, net, prices) + tuple_rows(
            tuples[refs.last()],
            refs.last(),
            net,
            prices,
        )
    }
}

/// The rows of one `in_network` element: those of each of its rates, in the
/// order of the rates.
pub open spec fn rate_rows(
    rates: Seq<RateView>,
    tuples: Map<u64, Seq<Seq<char>>>,
    net: NetworkView,
) -> Seq<Seq<char>>
    decreases rates.len(),
{
    if rates.len() == 0 {
        Seq::empty()
    } else {
        rate_rows(rates.drop_last(), tuples, net) + ref_rows(
            rates.last().refs,
            tuples,
            net,
            rates.last().prices,
        )
    }
}

/// The text of a sequence of rows, one behind the other.
pub open spec fn concat(rows: Seq<Seq<char>>) -> Seq<char>
    decreases rows.len(),
{
    if rows.len() == 0 {
        Seq::empty()
    } else {
        concat(rows.drop_last()) + rows.last()
    }
}

/// The text of two sequences of rows is the text of the first and then that
/// of the second.
pub proof fn lemma_concat_add(a: Seq<Seq<char>>, b: Seq<Seq<char>>)
    ensures
        concat(a + b) == concat(a) + concat(b),
    decreases b.len(),
{
    if b.len() == 0 {
        assert(a + b =~= a);
        assert(concat(a) + concat(b) =~= concat(a));
    } else {
        lemma_concat_add(a, b.drop_last());
        assert((a + b).drop_last() =~= a + b.drop_last());
        assert((a + b).last() == b.last());
        assert(concat(a + b) =~= concat(a) + concat(b));
    }
}

/// The provider tuples that a reference map holds for each group.
pub open spec fn tuples_of(m: Map<u64, Vec<String>>) -> Map<u64, Seq<Seq<char>>> {
    Map::new(|g: u64| m.contains_key(g), |g: u64| texts(m[g]@))
}

/// The providers after a match of each of the groups `refs`.
pub open spec fn logged_refs(providers: Seq<ProviderView>, refs: Seq<u64>) -> Seq<ProviderView>
    decreases refs.len(),
{
    if refs.len() == 0 {
        providers
    } else {
        logged_ref(logged_refs(providers, refs.drop_last()), refs.last())
    }
}

/// The providers after a match of each reference of each of the rates.
pub open spec fn logged_rates(providers: Seq<ProviderView>, rates: Seq<RateView>) -> Seq<
    ProviderView,
>
    decreases rates.len(),
{
    if rates.len() == 0 {
        providers
    } else {
        logged_refs(logged_rates(providers, rates.drop_last()), rates.last().refs)
    }
}

/// Prints the header for records to `out`.
pub fn print_header(out: &mut String)
    ensures
        final(out)@ == old(out)@ + header_text(),
{
    out.append("npi,tin_type,tin_value");
    out.append(",");
    out.append("group_id");
    out.append(",");
    out.append(
        "negotiation_arrangement,name,billing_code_type,billing_code_type_version,billing_code,description",
    );
    out.append(",");
    out.append(
        "negotiated_type,negotiated_rate,expiration_date,service_code,billing_class,billing_code_modifier",
    );
    out.append("\n");
    assert(out@ =~= old(out)@ + header_text());
}

/// Writes the rows of one provider tuple.
fn print_prices(out: &mut String, tuple: &str, reference: u64, network: &Network, prices: &Vec<Price>)
    ensures
        final(out)@ == old(out)@ + concat(
            price_rows(tuple@, reference, network@, price_views(prices@)),
        ),
{
    let ghost rows = price_rows(tuple@, reference, network@, price_views(prices@));
    let ref_text = decimal_string(reference);
    let mut k: usize = 0;
    assert(out@ =~= old(out)@ + concat(rows.take(0)));
    while k < prices.len()
        invariant
            k <= prices.len(),
            rows == price_rows(tuple@, reference, network@, price_views(prices@)),
            ref_text@ == decimal_text(reference as nat),
            out@ == old(out)@ + concat(rows.take(k as int)),
        decreases prices.len() - k,
    {
        let ghost before = out@;
        out.append(tuple);
        out.append(",");
        out.append(ref_text.as_str());
        out.append(",");
        network.print_out(out);
        out.append(",");
        prices[k].print_out(out);
        out.append("\n");
        proof {
            assert(rows.take(k + 1).drop_last() =~= rows.take(k as int));
            assert(rows.take(k + 1).last() == rows[k as int]);
            assert(out@ =~= before + row_text(tuple@, reference, network@, prices[k as int]@));
            assert(out@ =~= old(out)@ + concat(rows.take(k + 1)));
        }
        k = k + 1;
    }
    assert(rows.take(k as int) =~= rows);
}

/// Writes the rows of one provider reference.
fn print_tuples(
    out: &mut String,
    tuples: &Vec<String>,
    reference: u64,
    network: &Network,
    prices: &Vec<Price>,
)
    ensures
        final(out)@ == old(out)@ + concat(
            tuple_rows(texts(tuples@), reference, network@, price_views(prices@)),
        ),
{
    let ghost all = texts(tuples@);
    let ghost ps = price_views(prices@);
    let mut t: usize = 0;
    assert(out@ =~= old(out)@ + concat(tuple_rows(all.take(0), reference, network@, ps)));
    while t < tuples.len()
        invariant
            t <= tuples.len(),
            all == texts(tuples@),
            ps == price_views(prices@),
            out@ == old(out)@ + concat(tuple_rows(all.take(t as int), reference, network@, ps)),
        decreases tuples.len() - t,
    {
        print_prices(out, tuples[t].as_str(), reference, network, prices);
        proof {
            assert(all.take(t + 1).drop_last() =~= all.take(t as int));
            assert(all.take(t + 1).last() == tuples[t as int]@);
            lemma_concat_add(
                tuple_rows(all.take(t as int), reference, network@, ps),
                price_rows(tuples[t as int]@, reference, network@, ps),
            );
            assert(out@ =~= old(out)@ + concat(
                tuple_rows(all.take(t + 1), reference, network@, ps),
            ));
        }
        t = t + 1;
    }
    assert(all.take(t as int) =~= all);
}

/// Writes the rows of one rate, and records each of its references in the
/// query.
fn print_refs(
    out: &mut String,
    query: &mut Query,
    ref_map: &HashMap<u64, Vec<String>>,
    network: &Network,
    rate: &Rate,
)
    requires
        forall|j: int|
            0 <= j < rate@.refs.len() ==> ref_map@.contains_key(#[trigger] rate@.refs[j]),
    ensures
        final(out)@ == old(out)@ + concat(
            ref_rows(rate@.refs, tuples_of(ref_map@), network@, rate@.prices),
        ),
        final(query)@.providers == logged_refs(old(query)@.providers, rate@.refs),
        final(query).codes == old(query).codes,
{
    let ghost refs = rate@.refs;
    let ghost tuples = tuples_of(ref_map@);
    let mut j: usize = 0;
    assert(out@ =~= old(out)@ + concat(ref_rows(refs.take(0), tuples, network@, rate@.prices)));
    while j < rate.provider_references.len()
        invariant
            j <= rate.provider_references.len(),
            refs == rate@.refs,
            tuples == tuples_of(ref_map@),
            forall|j: int| 0 <= j < refs.len() ==> ref_map@.contains_key(#[trigger] refs[j]),
            out@ == old(out)@ + concat(
                ref_rows(refs.take(j as int), tuples, network@, rate@.prices),
            ),
            query@.providers == logged_refs(old(query)@.providers, refs.take(j as int)),
            query.codes == old(query).codes,
        decreases rate.provider_references.len() - j,
    {
        let reference = rate.provider_references[j];
        assert(reference == refs[j as int]);
        query.log_ref(reference);
        match ref_map.get(&reference) {
            Some(provs) => {
                print_tuples(out, provs, reference, network, &rate.negotiated_prices);
            },
            None => {},
        }
        proof {
            assert(refs.take(j + 1).drop_last() =~= refs.take(j as int));
            assert(refs.take(j + 1).last() == reference);
            lemma_concat_add(
                ref_rows(refs.take(j as int), tuples, network@, rate@.prices),
                tuple_rows(tuples[reference], reference, network@, rate@.prices),
            );
            assert(out@ =~= old(out)@ + concat(
                ref_rows(refs.take(j + 1), tuples, network@, rate@.prices),
            ));
        }
        j = j + 1;
    }
    assert(refs.take(j as int) =~= refs);
}

/// Whether every provider reference of the rates is a group of `m`.
pub open spec fn rates_known(rates: Seq<RateView>, m: Map<u64, Vec<String>>) -> bool {
    forall|i: int, j: int|
        0 <= i < rates.len() && 0 <= j < rates[i].refs.len() ==> m.contains_key(
            #[trigger] rates[i].refs[j],
        )
}

/// Writes the matching data records of one `in_network` element to `out`: for
/// each rate, each of its references, each provider tuple of the reference
/// and each price of the rate, one row. Records the references and the
/// billing code in the query.
pub fn print_record(
    network: &Network,
    query: &mut Query,
    ref_map: &HashMap<u64, Vec<String>>,
    out: &mut String,
)
    requires
        network@.rates is Some,
        rates_known(network@.rates->0, ref_map@),
    ensures
        final(out)@ == old(out)@ + concat(
            rate_rows(network@.rates->0, tuples_of(ref_map@), network@),
        ),
        final(query)@.providers == logged_rates(old(query)@.providers, network@.rates->0),
        final(query)@.codes == logged_code(
            old(query)@.codes,
            network@.billing_code,
            network@.billing_code_type,
        ),
{
    let ghost tuples = tuples_of(ref_map@);
    match &network.negotiated_rates {
        Some(neg_rates) => {
            let ghost rates = rate_views(neg_rates@);
            let mut i: usize = 0;
            assert(out@ =~= old(out)@ + concat(rate_rows(rates.take(0), tuples, network@)));
            while i < neg_rates.len()
                invariant
                    i <= neg_rates.len(),
                    rates == rate_views(neg_rates@),
                    tuples == tuples_of(ref_map@),
                    rates_known(rates, ref_map@),
                    out@ == old(out)@ + concat(rate_rows(rates.take(i as int), tuples, network@)),
                    query@.providers == logged_rates(old(query)@.providers, rates.take(i as int)),
                    query.codes == old(query).codes,
                decreases neg_rates.len() - i,
            {
                proof {
                    assert(rates[i as int] == neg_rates[i as int]@);
                    assert forall|j: int| 0 <= j < neg_rates[i as int]@.refs.len() implies ref_map@.contains_key(
                     #[trigger] neg_rates[i as int]@.refs[j]) by {
                        assert(rates[i as int].refs[j] == neg_rates[i as int]@.refs[j]);
                    }
                }
                print_refs(out, query, ref_map, network, &neg_rates[i]);
                proof {
                    assert(rates.take(i + 1).drop_last() =~= rates.take(i as int));
                    assert(rates.take(i + 1).last() == neg_rates[i as int]@);
                    lemma_concat_add(
                        rate_rows(rates.take(i as int), tuples, network@),
                        ref_rows(rates[i as int].refs, tuples, network@, rates[i as int].prices),
                    );
                    assert(out@ =~= old(out)@ + concat(
                        rate_rows(rates.take(i + 1), tuples, network@),
                    ));
                }
                i = i + 1;
            }
            assert(rates.take(i as int) =~= rates);
        },
        None => {},
    }
    query.log_code(&network.billing_code, &network.billing_code_type);
}

} // verus!
