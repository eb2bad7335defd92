//! What holds of every run: the shape of the rows, the soundness and the
//! completeness of the filters, and the meaning of the wildcard.

use crate::emit::{
    concat,
    header_text,
    lemma_concat_add,
    price_rows,
    rate_rows,
    ref_rows,
    row_text,
    tuple_rows,
};
use crate::network::{
    code_wanted,
    element_rows,
    emitted_out,
    is_emitted,
    lemma_net_step_shortens,
    net_field_of,
    net_step,
    net_walk,
    ref_tuples,
    NetResult,
    NetState,
};
use crate::frame::lemma_net_walk_same;
use crate::notices::NoticesView;
use crate::prices::{
    price_field_of, prices_step, prices_walk, PriceField, PricesResult, PricesState,
};
use crate::skip::bypassed;
use crate::query::{
    is_complete,
    lemma_tuples_come_from_providers,
    tuple_text,
    tuples_for,
    upper_codes,
    CodeView,
    ProviderView,
};
use crate::rates::{lemma_rates_walk_within, rates_of, rates_start, rates_within};
use crate::records::{NetworkView, PriceView, RateView};
use crate::event::EventView;
use crate::text::{ascii_upper, decimal_text};
use crate::walk::Step;
use vstd::prelude::*;

verus! {

/// The fields, one behind the other, with a comma between each two.
pub open spec fn joined(fields: Seq<Seq<char>>) -> Seq<char>
    decreases fields.len(),
{
    if fields.len() == 0 {
        Seq::empty()
    } else if fields.len() == 1 {
        fields[0]
    } else {
        joined(fields.drop_last()) + ","@ + fields.last()
    }
}

/// The sixteen fields of the row of a provider, a provider reference, a
/// network and a price.
pub open spec fn row_fields(
    p: ProviderView,
    reference: u64,
    net: NetworkView,
    price: PriceView,
) -> Seq<Seq<char>> {
    seq![
        decimal_text(p.npi as nat),
        p.tin_type->0,
        p.tin_value->0,
        decimal_text(reference as nat),
        net.negotiation_arrangement,
        net.name,
        net.billing_code_type,
        net.billing_code_type_version,
        net.billing_code,
        net.description,
        price.negotiated_type,
        price.negotiated_rate,
        price.expiration_date,
        price.service_code,
        price.billing_class,
        price.billing_code_modifier,
    ]
}

/// Joining one field more puts a comma and the field behind the others.
pub proof fn lemma_joined_push(fields: Seq<Seq<char>>, field: Seq<char>)
    requires
        fields.len() > 0,
    ensures
        joined(fields.push(field)) == joined(fields) + ","@ + field,
{
    assert(fields.push(field).drop_last() =~= fields);
}

/// Emission schema: a row is its sixteen fields, joined by commas, and a line
/// end.
pub proof fn lemma_row_is_sixteen_fields(
    p: ProviderView,
    reference: u64,
    net: NetworkView,
    price: PriceView,
)
    ensures
        row_fields(p, reference, net, price).len() == 16,
        row_text(tuple_text(p), reference, net, price) == joined(
            row_fields(p, reference, net, price),
        ) + "\n"@,
{
    let f = row_fields(p, reference, net, price);
    let part1 = seq![f[0]];
    let part2 = part1.push(f[1]);
    let part3 = part2.push(f[2]);
    let part4 = part3.push(f[3]);
    let part5 = part4.push(f[4]);
    let part6 = part5.push(f[5]);
    let part7 = part6.push(f[6]);
    let part8 = part7.push(f[7]);
    let part9 = part8.push(f[8]);
    let part10 = part9.push(f[9]);
    let part11 = part10.push(f[10]);
    let part12 = part11.push(f[11]);
    let part13 = part12.push(f[12]);
    let part14 = part13.push(f[13]);
    let part15 = part14.push(f[14]);
    let part16 = part15.push(f[15]);
    assert(part16 =~= f);
    lemma_joined_push(part1, f[1]);
    lemma_joined_push(part2, f[2]);
    lemma_joined_push(part3, f[3]);
    assert(joined(part4) =~= tuple_text(p) + ","@ + decimal_text(reference as nat));
    lemma_joined_push(part4, f[4]);
    lemma_joined_push(part5, f[5]);
    lemma_joined_push(part6, f[6]);
    lemma_joined_push(part7, f[7]);
    lemma_joined_push(part8, f[8]);
    lemma_joined_push(part9, f[9]);
    assert(joined(part10) =~= joined(part4) + ","@ + net.text());
    lemma_joined_push(part10, f[10]);
    lemma_joined_push(part11, f[11]);
    lemma_joined_push(part12, f[12]);
    lemma_joined_push(part13, f[13]);
    lemma_joined_push(part14, f[14]);
    lemma_joined_push(part15, f[15]);
    assert(joined(part16) =~= joined(part10) + ","@ + price.text());
    assert(row_text(tuple_text(p), reference, net, price) =~= joined(part16) + "\n"@);
}

/// How often `c` stands in `s`.
pub open spec fn count_char(s: Seq<char>, c: char) -> nat
    decreases s.len(),
{
    if s.len() == 0 {
        0
    } else {
        count_char(s.drop_last(), c) + if s.last() == c {
            1nat
        } else {
            0nat
        }
    }
}

/// A character stands in two texts, one behind the other, as often as in the
/// first and in the second together.
pub proof fn lemma_count_char_add(a: Seq<char>, b: Seq<char>, c: char)
    ensures
        count_char(a + b, c) == count_char(a, c) + count_char(b, c),
    decreases b.len(),
{
    if b.len() == 0 {
        assert(a + b =~= a);
    } else {
        lemma_count_char_add(a, b.drop_last(), c);
        assert((a + b).drop_last() =~= a + b.drop_last());
    }
}

/// Fields that hold no comma, joined, hold one comma less than there are
/// fields: the commas of a row then separate its fields and nothing else.
pub proof fn lemma_joined_commas(fields: Seq<Seq<char>>)
    requires
        fields.len() > 0,
        forall|i: int| 0 <= i < fields.len() ==> count_char(#[trigger] fields[i], ',') == 0,
    ensures
        count_char(joined(fields), ',') == fields.len() - 1,
    decreases fields.len(),
{
    if fields.len() > 1 {
        let before = fields.drop_last();
        assert forall|i: int| 0 <= i < before.len() implies count_char(
            #[trigger] before[i],
            ',',
        ) == 0 by {
            assert(before[i] == fields[i]);
        }
        lemma_joined_commas(before);
        reveal_strlit(",");
        assert(","@ =~= seq![',']);
        assert(count_char(","@, ',') == 1) by {
            assert(","@.drop_last() =~= Seq::<char>::empty());
            reveal_with_fuel(count_char, 2);
        }
        lemma_count_char_add(joined(before), ","@, ',');
        lemma_count_char_add(joined(before) + ","@, fields.last(), ',');
    }
}

/// The decimal text of a number holds no comma.
pub proof fn lemma_decimal_text_has_no_comma(n: nat)
    ensures
        count_char(decimal_text(n), ',') == 0,
    decreases n,
{
    if n < 10 {
        assert(decimal_text(n).drop_last() =~= Seq::<char>::empty());
        reveal_with_fuel(count_char, 2);
    } else {
        lemma_decimal_text_has_no_comma(n / 10);
        assert(decimal_text(n).drop_last() =~= decimal_text(n / 10));
    }
}

/// Emission schema, counted: in a row whose fields hold no comma, fifteen
/// commas separate the sixteen fields.
pub proof fn lemma_row_has_fifteen_commas(
    p: ProviderView,
    reference: u64,
    net: NetworkView,
    price: PriceView,
)
    requires
        forall|i: int|
            0 <= i < 16 && i != 0 && i != 3 ==> count_char(
                #[trigger] row_fields(p, reference, net, price)[i],
                ',',
            ) == 0,
    ensures
        count_char(joined(row_fields(p, reference, net, price)), ',') == 15,
{
    let fields = row_fields(p, reference, net, price);
    lemma_decimal_text_has_no_comma(p.npi as nat);
    lemma_decimal_text_has_no_comma(reference as nat);
    assert forall|i: int| 0 <= i < fields.len() implies count_char(#[trigger] fields[i], ',')
        == 0 by {
        if i == 0 {
            assert(fields[0] == decimal_text(p.npi as nat));
        } else if i == 3 {
            assert(fields[3] == decimal_text(reference as nat));
        }
    }
    lemma_joined_commas(fields);
}

/// Where a row of the rows of some provider tuples comes from: the index of
/// its tuple and the index of its price.
pub proof fn lemma_tuple_row_source(
    tuples: Seq<Seq<char>>,
    reference: u64,
    net: NetworkView,
    prices: Seq<PriceView>,
    k: int,
) -> (w: (int, int))
    requires
        0 <= k < tuple_rows(tuples, reference, net, prices).len(),
    ensures
        0 <= w.0 < tuples.len(),
        0 <= w.1 < prices.len(),
        tuple_rows(tuples, reference, net, prices)[k] == row_text(
            tuples[w.0],
            reference,
            net,
            prices[w.1],
        ),
    decreases tuples.len(),
{
    let before = tuple_rows(tuples.drop_last(), reference, net, prices);
    if k < before.len() {
        let w = lemma_tuple_row_source(tuples.drop_last(), reference, net, prices, k);
        assert(tuples.drop_last()[w.0] == tuples[w.0]);
        w
    } else {
        (tuples.len() - 1, k - before.len())
    }
}

/// Where a row of the rows of a rate comes from: the index of its reference,
/// the index of its tuple among those of the reference, and the index of its
/// price.
pub proof fn lemma_ref_row_source(
    refs: Seq<u64>,
    tuples: Map<u64, Seq<Seq<char>>>,
    net: NetworkView,
    prices: Seq<PriceView>,
    k: int,
) -> (w: (int, int, int))
    requires
        0 <= k < ref_rows(refs, tuples, net, prices).len(),
    ensures
        0 <= w.0 < refs.len(),
        0 <= w.1 < tuples[refs[w.0]].len(),
        0 <= w.2 < prices.len(),
        ref_rows(refs, tuples, net, prices)[k] == row_text(
            tuples[refs[w.0]][w.1],
            refs[w.0],
            net,
            prices[w.2],
        ),
    decreases refs.len(),
{
    let before = ref_rows(refs.drop_last(), tuples, net, prices);
    if k < before.len() {
        let w = lemma_ref_row_source(refs.drop_last(), tuples, net, prices, k);
        assert(refs.drop_last()[w.0] == refs[w.0]);
        w
    } else {
        let v = lemma_tuple_row_source(
            tuples[refs.last()],
            refs.last(),
            net,
            prices,
            k - before.len(),
        );
        (refs.len() - 1, v.0, v.1)
    }
}

/// Where a row of the rows of an element comes from.
pub struct RowSource {
    /// The index of the rate.
    pub rate: int,
    /// The index of the provider reference among those of the rate.
    pub reference: int,
    /// The index of the provider tuple among those of the reference.
    pub tuple: int,
    /// The index of the price among those of the rate.
    pub price: int,
}

/// Where a row of the rows of some rates comes from.
pub proof fn lemma_rate_row_source(
    rates: Seq<RateView>,
    tuples: Map<u64, Seq<Seq<char>>>,
    net: NetworkView,
    k: int,
) -> (w: RowSource)
    requires
        0 <= k < rate_rows(rates, tuples, net).len(),
    ensures
        0 <= w.rate < rates.len(),
        0 <= w.reference < rates[w.rate].refs.len(),
        0 <= w.tuple < tuples[rates[w.rate].refs[w.reference]].len(),
        0 <= w.price < rates[w.rate].prices.len(),
        rate_rows(rates, tuples, net)[k] == row_text(
            tuples[rates[w.rate].refs[w.reference]][w.tuple],
            rates[w.rate].refs[w.reference],
            net,
            rates[w.rate].prices[w.price],
        ),
    decreases rates.len(),
{
    let before = rate_rows(rates.drop_last(), tuples, net);
    if k < before.len() {
        let w = lemma_rate_row_source(rates.drop_last(), tuples, net, k);
        assert(rates.drop_last()[w.rate] == rates[w.rate]);
        w
    } else {
        let v = lemma_ref_row_source(
            rates.last().refs,
            tuples,
            net,
            rates.last().prices,
            k - before.len(),
        );
        RowSource { rate: rates.len() - 1, reference: v.0, tuple: v.1, price: v.2 }
    }
}

/// Emission schema, and filter soundness of the references: every row of an
/// element is the sixteen fields of a complete provider of the query, of a
/// provider reference of the element that is the group of that provider, of
/// the network and of a price of the element, joined by commas.
pub proof fn lemma_every_row_has_sixteen_fields(
    providers: Seq<ProviderView>,
    net: NetworkView,
    k: int,
) -> (w: (ProviderView, u64, PriceView))
    requires
        net.rates is Some,
        0 <= k < element_rows(net, ref_tuples(providers)).len(),
        rates_within(net.rates->0, ref_tuples(providers).dom()),
    ensures
        providers.contains(w.0),
        is_complete(w.0),
        w.0.group_id == Some(w.1),
        ref_tuples(providers).contains_key(w.1),
        element_rows(net, ref_tuples(providers))[k] == joined(
            row_fields(w.0, w.1, net.with_defaults(), w.2),
        ) + "\n"@,
        row_fields(w.0, w.1, net.with_defaults(), w.2).len() == 16,
        row_fields(w.0, w.1, net.with_defaults(), w.2)[8] == net.billing_code,
{
    let rates = net.rates->0;
    let tuples = ref_tuples(providers);
    let src = lemma_rate_row_source(rates, tuples, net.with_defaults(), k);
    let reference = rates[src.rate].refs[src.reference];
    assert(tuples.dom().contains(reference));
    lemma_tuples_come_from_providers(providers, reference, src.tuple);
    let i = choose|i: int|
        0 <= i < providers.len() && is_complete(#[trigger] providers[i]) && providers[i].group_id
            == Some(reference) && tuples_for(providers, reference)[src.tuple] == tuple_text(
            providers[i],
        );
    let price = rates[src.rate].prices[src.price];
    lemma_row_is_sixteen_fields(providers[i], reference, net.with_defaults(), price);
    (providers[i], reference, price)
}

/// Filter completeness of the rows: an element that is written out with
/// rates that each have a reference of the query and a price has a row.
pub proof fn lemma_element_has_rows(providers: Seq<ProviderView>, net: NetworkView)
    requires
        net.rates is Some,
        net.rates->0.len() > 0,
        rates_within(net.rates->0, ref_tuples(providers).dom()),
        forall|i: int| 0 <= i < net.rates->0.len() ==> (#[trigger] net.rates->0[i]).prices.len() > 0,
    ensures
        element_rows(net, ref_tuples(providers)).len() > 0,
{
    let rates = net.rates->0;
    let tuples = ref_tuples(providers);
    let rate = rates.last();
    assert(rate == rates[rates.len() - 1]);
    let reference = rate.refs.last();
    assert(reference == rate.refs[rate.refs.len() - 1]);
    assert(tuples.dom().contains(reference));
    let ts = tuples[reference];
    assert(price_rows(ts.last(), reference, net.with_defaults(), rate.prices).len() > 0);
    assert(tuple_rows(ts, reference, net.with_defaults(), rate.prices).len() > 0);
    assert(ref_rows(rate.refs, tuples, net.with_defaults(), rate.prices).len() > 0);
}

/// An asterisk is its own upper case form.
pub proof fn lemma_asterisk_is_upper()
    ensures
        ascii_upper("*"@) == "*"@,
{
    reveal_strlit("*");
    assert(ascii_upper("*"@) =~= "*"@);
}

/// Wildcards: with a code of the query whose value is `*`, every billing
/// code passes the filter of the code set.
pub proof fn lemma_wildcard_code_wanted(codes: Seq<CodeView>, i: int, code: Seq<char>)
    requires
        0 <= i < codes.len(),
        codes[i].value == "*"@,
    ensures
        code_wanted(upper_codes(codes), code),
{
    lemma_asterisk_is_upper();
    assert(ascii_upper(codes[i].value) == "*"@);
}

/// Emission schema of the rate: a number that is the negotiated rate of a
/// price is kept as it is written in the document.
pub proof fn lemma_rate_is_kept_as_written(ev: Seq<EventView>, st: PricesState, n: Seq<char>)
    requires
        ev.len() > 0,
        ev[0] == EventView::Number(n),
        st.field is NegotiatedRate,
        st.price.negotiated_rate.len() == 0,
        n.len() > 0,
    ensures
        prices_step(ev, st) matches Step::Next(_, next) && next.price.with_defaults().negotiated_rate
            == n,
{
    assert(st.price.negotiated_rate + n =~= n);
}

/// Whether the walk writes out an element at the first of the events `ev`:
/// the object of an element ends, and the scratch holds a billing code and
/// rates.
pub open spec fn emits(ev: Seq<EventView>, st: NetState) -> bool {
    ev.len() > 0 && ev[0] is EndObject && st.cb == 1 && is_emitted(st.network)
}

/// The elements that the walk over the `in_network` array writes out from
/// state `st`, in their order.
pub open spec fn written(
    ev: Seq<EventView>,
    st: NetState,
    codes: Set<Seq<char>>,
    tuples: Map<u64, Seq<Seq<char>>>,
) -> Seq<NetworkView>
    decreases ev.len(),
{
    if ev.len() == 0 {
        Seq::empty()
    } else {
        let here = if emits(ev, st) {
            seq![st.network]
        } else {
            Seq::empty()
        };
        match net_step(ev, st, codes, tuples) {
            Step::Next(rest, next) => {
                proof {
                    lemma_net_step_shortens(ev, st, codes, tuples);
                }
                here + written(rest, next, codes, tuples)
            },
            _ => here,
        }
    }
}

/// The rows of some elements, element by element.
pub open spec fn rows_of_elements(
    elements: Seq<NetworkView>,
    tuples: Map<u64, Seq<Seq<char>>>,
) -> Seq<Seq<char>>
    decreases elements.len(),
{
    if elements.len() == 0 {
        Seq::empty()
    } else {
        element_rows(elements[0], tuples) + rows_of_elements(elements.skip(1), tuples)
    }
}

/// The output that a walk leaves behind, whether it ends well or not.
pub open spec fn left_out(
    r: Result<(NetResult, Seq<EventView>), (crate::error::Fatal, NetResult)>,
) -> Seq<char> {
    match r {
        Ok(((_, out, _), _)) => out,
        Err((_, (_, out, _))) => out,
    }
}

/// The header, where the walk from `st` writes it: before the first of the
/// rows, if no row was written before.
pub open spec fn header_of(st: NetState, rows: Seq<Seq<char>>) -> Seq<char> {
    if !st.header_written && rows.len() > 0 {
        header_text()
    } else {
        Seq::empty()
    }
}

/// The output of the walk over the `in_network` array is what was there,
/// then the header if there is a row, then the rows of the elements that the
/// walk writes out, and nothing else.
pub proof fn lemma_output_is_rows(
    ev: Seq<EventView>,
    st: NetState,
    codes: Set<Seq<char>>,
    tuples: Map<u64, Seq<Seq<char>>>,
)
    ensures
        left_out(net_walk(ev, st, codes, tuples)) == st.out + header_of(
            st,
            rows_of_elements(written(ev, st, codes, tuples), tuples),
        ) + concat(rows_of_elements(written(ev, st, codes, tuples), tuples)),
    decreases ev.len(),
{
    let elements = written(ev, st, codes, tuples);
    let rows = rows_of_elements(elements, tuples);
    if ev.len() == 0 {
        assert(st.out + header_of(st, rows) + concat(rows) =~= st.out);
    } else {
        lemma_net_step_shortens(ev, st, codes, tuples);
        match net_step(ev, st, codes, tuples) {
            Step::Next(rest, next) => {
                lemma_output_is_rows(rest, next, codes, tuples);
                let later = written(rest, next, codes, tuples);
                let later_rows = rows_of_elements(later, tuples);
                if emits(ev, st) {
                    let here = element_rows(st.network, tuples);
                    assert(elements == seq![st.network] + later);
                    assert(elements[0] == st.network);
                    assert(elements.skip(1) =~= later);
                    assert(rows == here + later_rows);
                    lemma_concat_add(here, later_rows);
                    assert(next.header_written == (st.header_written || here.len() > 0));
                    assert(next.out == emitted_out(
                        st.out,
                        st.header_written,
                        st.network,
                        tuples,
                    ));
                    if here.len() == 0 {
                        assert(rows =~= later_rows);
                        assert(concat(here) =~= Seq::<char>::empty());
                    }
                    assert(left_out(net_walk(ev, st, codes, tuples)) =~= st.out + header_of(
                        st,
                        rows,
                    ) + concat(rows));
                } else {
                    assert(elements =~= later);
                    assert(next.out == st.out);
                    assert(next.header_written == st.header_written);
                }
            },
            _ => {
                assert(elements =~= Seq::empty());
                assert(st.out + header_of(st, rows) + concat(rows) =~= st.out);
            },
        }
    }
}

/// Whether the scratch of a walk holds only what passed the filters: a
/// billing code that the code set wants, and rates with references of
/// `groups` only.
pub open spec fn net_sound(st: NetState, codes: Set<Seq<char>>, groups: Set<u64>) -> bool {
    &&& st.network.billing_code.len() > 0 ==> code_wanted(codes, st.network.billing_code)
    &&& st.network.rates is Some ==> st.network.rates->0.len() > 0 && rates_within(
        st.network.rates->0,
        groups,
    )
}

/// Whether an element passed the filters.
pub open spec fn element_sound(e: NetworkView, codes: Set<Seq<char>>, groups: Set<u64>) -> bool {
    &&& code_wanted(codes, e.billing_code)
    &&& e.rates is Some
    &&& e.rates->0.len() > 0
    &&& rates_within(e.rates->0, groups)
}

/// A step of the walk keeps in the scratch only what passed the filters.
pub proof fn lemma_net_step_sound(
    ev: Seq<EventView>,
    st: NetState,
    codes: Set<Seq<char>>,
    tuples: Map<u64, Seq<Seq<char>>>,
)
    requires
        ev.len() > 0,
        net_sound(st, codes, tuples.dom()),
    ensures
        net_step(ev, st, codes, tuples) matches Step::Next(_, next) ==> net_sound(
            next,
            codes,
            tuples.dom(),
        ),
{
    reveal(rates_of);
    lemma_rates_walk_within(ev.skip(1), rates_start(st.notices), tuples.dom());
}

/// Filter soundness: every element that the walk writes out has a billing
/// code that is in the code set, unless the code set holds `*`, and rates of
/// which every provider reference is a group of the reference map.
pub proof fn lemma_written_is_sound(
    ev: Seq<EventView>,
    st: NetState,
    codes: Set<Seq<char>>,
    tuples: Map<u64, Seq<Seq<char>>>,
)
    requires
        net_sound(st, codes, tuples.dom()),
    ensures
        forall|i: int|
            0 <= i < written(ev, st, codes, tuples).len() ==> element_sound(
                #[trigger] written(ev, st, codes, tuples)[i],
                codes,
                tuples.dom(),
            ),
    decreases ev.len(),
{
    if ev.len() > 0 {
        lemma_net_step_shortens(ev, st, codes, tuples);
        lemma_net_step_sound(ev, st, codes, tuples);
        match net_step(ev, st, codes, tuples) {
            Step::Next(rest, next) => {
                lemma_written_is_sound(rest, next, codes, tuples);
                let all = written(ev, st, codes, tuples);
                let later = written(rest, next, codes, tuples);
                assert forall|i: int| 0 <= i < all.len() implies element_sound(
                    #[trigger] all[i],
                    codes,
                    tuples.dom(),
                ) by {
                    if emits(ev, st) {
                        if i > 0 {
                            assert(all[i] == later[i - 1]);
                        }
                    } else {
                        assert(all[i] == later[i]);
                    }
                }
            },
            _ => {},
        }
    }
}

/// Filter completeness of the code: a billing code that the code set wants
/// stays in the scratch, with the rates that are there.
pub proof fn lemma_wanted_code_is_kept(
    ev: Seq<EventView>,
    st: NetState,
    codes: Set<Seq<char>>,
    tuples: Map<u64, Seq<Seq<char>>>,
    s: Seq<char>,
)
    requires
        ev.len() > 0,
        ev[0] == EventView::String(s),
        st.field is BillingCode,
        code_wanted(codes, ascii_upper(st.network.billing_code + s)),
    ensures
        net_step(ev, st, codes, tuples) matches Step::Next(rest, next) && rest == ev.skip(1)
            && next.network.billing_code == ascii_upper(st.network.billing_code + s)
            && next.network.rates == st.network.rates && next.cb == st.cb,
{
}

/// Filter completeness of the element: at the end of the object of an
/// element whose scratch holds a billing code and rates, the element is
/// written out: the output grows by the header, if it is due, and by the
/// rows of the element.
pub proof fn lemma_element_is_written(
    ev: Seq<EventView>,
    st: NetState,
    codes: Set<Seq<char>>,
    tuples: Map<u64, Seq<Seq<char>>>,
)
    requires
        emits(ev, st),
    ensures
        net_step(ev, st, codes, tuples) matches Step::Next(_, next) && next.out == emitted_out(
            st.out,
            st.header_written,
            st.network,
            tuples,
        ),
        written(ev, st, codes, tuples).len() > 0,
        written(ev, st, codes, tuples)[0] == st.network,
{
}

/// Filter completeness of the references: a provider reference that is a
/// group of the query is kept in the rate that is being read.
pub proof fn lemma_known_reference_is_kept(
    ev: Seq<EventView>,
    st: crate::rates::RatesState,
    groups: Set<u64>,
    n: Seq<char>,
)
    requires
        ev.len() > 0,
        ev[0] == EventView::Number(n),
        crate::text::parsed_u64(n) matches Some(reference) && groups.contains(reference),
    ensures
        crate::rates::rates_step(ev, st, groups) matches Step::Next(_, next) && next.rate.refs
            == st.rate.refs.push(crate::text::parsed_u64(n)->0) && next.rates == st.rates,
{
}

/// Filter completeness of the rates: at the end of its object, a rate that
/// holds a provider reference is kept with its prices.
pub proof fn lemma_rate_with_reference_is_kept(
    ev: Seq<EventView>,
    st: crate::rates::RatesState,
    groups: Set<u64>,
)
    requires
        ev.len() > 0,
        ev[0] is EndObject,
        st.cb == 1,
        st.rate.refs.len() > 0,
    ensures
        crate::rates::rates_step(ev, st, groups) matches Step::Next(_, next) && next.rates
            == st.rates.push(st.rate),
        crate::rates::finished_rates(st.rates.push(st.rate)) is Some,
{
}

/// The price of an object that holds a number under the key of the
/// negotiated rate and nothing else: the rate as it is written, and `null`
/// in every other field.
pub open spec fn price_of_rate(n: Seq<char>) -> PriceView {
    PriceView { negotiated_rate: n, ..PriceView::null() }
}

/// The events of a price object that holds the number `n` under the key of
/// the negotiated rate and nothing else.
pub open spec fn rate_object(n: Seq<char>) -> Seq<EventView> {
    seq![
        EventView::StartObject,
        EventView::ObjectKey("negotiated_rate"@),
        EventView::Number(n),
        EventView::EndObject,
    ]
}

/// Emission schema of the rate, for a whole price object: the price of an
/// object whose one member is a number under the key of the negotiated rate
/// has that number as its rate, character for character.
pub proof fn lemma_rate_of_object_is_kept_as_written(
    rest: Seq<EventView>,
    st: PricesState,
    n: Seq<char>,
)
    requires
        st.cb == 0,
        st.price == PriceView::empty(),
        n.len() > 0,
    ensures
        prices_walk(rate_object(n) + rest, st) == prices_walk(
            rest,
            PricesState {
                field: PriceField::NegotiatedRate,
                prices: st.prices.push(price_of_rate(n)),
                ..st
            },
        ),
{
    let e0 = rate_object(n) + rest;
    let e1 = e0.skip(1);
    let e2 = e1.skip(1);
    let e3 = e2.skip(1);
    let s1 = PricesState { cb: 1, ..st };
    let s2 = PricesState { field: PriceField::NegotiatedRate, ..s1 };
    let s3 = PricesState { price: PriceView { negotiated_rate: n, ..PriceView::empty() }, ..s2 };
    assert(e0[0] == EventView::StartObject);
    assert(e1[0] == EventView::ObjectKey("negotiated_rate"@));
    assert(e2[0] == EventView::Number(n));
    assert(e3[0] == EventView::EndObject);
    assert(e3.skip(1) =~= rest);
    assert(prices_step(e0, st) == Step::<PricesState, PricesResult, NoticesView>::Next(e1, s1));
    assert(price_field_of("negotiated_rate"@) == Some(
        PriceField::NegotiatedRate,
    )) by {
        reveal_strlit("negotiated_rate");
        reveal_strlit("negotiated_type");
        assert("negotiated_rate"@[11] == 'r');
        assert("negotiated_type"@[11] == 't');
    }
    assert(prices_step(e1, s1) == Step::<PricesState, PricesResult, NoticesView>::Next(e2, s2));
    assert(PriceView::empty().negotiated_rate + n =~= n);
    assert(prices_step(e2, s2) == Step::<PricesState, PricesResult, NoticesView>::Next(e3, s3));
    assert(s3.price.with_defaults() == price_of_rate(n));
    assert(prices_walk(e0, st) == prices_walk(e1, s1));
    assert(prices_walk(e1, s1) == prices_walk(e2, s2));
    assert(prices_walk(e2, s2) == prices_walk(e3, s3));
    let s4 = PricesState {
        field: PriceField::NegotiatedRate,
        prices: st.prices.push(price_of_rate(n)),
        ..st
    };
    assert(prices_step(e3, s3) == Step::<PricesState, PricesResult, NoticesView>::Next(rest, s4));
    assert(prices_walk(e3, s3) == prices_walk(rest, s4));
}

/// Split provider groups: the rows of a provider reference follow its
/// provider tuples in their order, one row for each tuple where the rate has
/// one price.
pub proof fn lemma_rows_follow_the_tuples(
    tuples: Seq<Seq<char>>,
    reference: u64,
    net: NetworkView,
    price: PriceView,
)
    ensures
        tuple_rows(tuples, reference, net, seq![price]) == Seq::new(
            tuples.len(),
            |k: int| row_text(tuples[k], reference, net, price),
        ),
    decreases tuples.len(),
{
    let rows = tuple_rows(tuples, reference, net, seq![price]);
    let wanted = Seq::new(tuples.len(), |k: int| row_text(tuples[k], reference, net, price));
    if tuples.len() == 0 {
        assert(rows =~= wanted);
    } else {
        lemma_rows_follow_the_tuples(tuples.drop_last(), reference, net, price);
        assert(price_rows(tuples.last(), reference, net, seq![price]) =~= seq![
            row_text(tuples.last(), reference, net, price),
        ]);
        assert(rows =~= wanted);
    }
}

/// Wildcards, for an element: with a code of the query whose value is `*`,
/// the billing code of an element stays in the scratch whatever it is.
pub proof fn lemma_wildcard_keeps_every_code(
    ev: Seq<EventView>,
    st: NetState,
    tuples: Map<u64, Seq<Seq<char>>>,
    s: Seq<char>,
    i: int,
)
    requires
        ev.len() > 0,
        ev[0] == EventView::String(s),
        st.field is BillingCode,
        0 <= i < st.query.codes.len(),
        st.query.codes[i].value == "*"@,
    ensures
        net_step(ev, st, upper_codes(st.query.codes), tuples) matches Step::Next(rest, next)
            && rest == ev.skip(1) && next.network.billing_code == ascii_upper(
            st.network.billing_code + s,
        ) && next.network.rates == st.network.rates,
{
    lemma_wildcard_code_wanted(st.query.codes, i, ascii_upper(st.network.billing_code + s));
}

/// Wildcards, for an element: when an element is written out, a code of the
/// query with `*` for both type and value is recorded.
pub proof fn lemma_wildcard_code_is_recorded(
    ev: Seq<EventView>,
    st: NetState,
    codes: Set<Seq<char>>,
    tuples: Map<u64, Seq<Seq<char>>>,
    i: int,
)
    requires
        emits(ev, st),
        0 <= i < st.query.codes.len(),
        st.query.codes[i].value == "*"@,
        st.query.codes[i].code_type == "*"@,
    ensures
        net_step(ev, st, codes, tuples) matches Step::Next(_, next) && next.query.codes.len()
            == st.query.codes.len() && next.query.codes[i].recorded,
{
}

/// Unknown keys: a member of an element under a key that the walk does not
/// know changes the notices and nothing else. The walk goes on behind its
/// value and leaves the query and the output that it leaves without the
/// member.
pub proof fn lemma_unknown_key_leaves_the_output(
    ev: Seq<EventView>,
    st: NetState,
    codes: Set<Seq<char>>,
    tuples: Map<u64, Seq<Seq<char>>>,
    key: Seq<char>,
)
    requires
        ev.len() > 0,
        ev[0] == EventView::ObjectKey(key),
        net_field_of(key) is None,
        key != "negotiated_rates"@,
        bypassed(ev.skip(1)) is Ok,
    ensures
        ({
            let after = bypassed(ev.skip(1))->Ok_0;
            let with = net_walk(ev, st, codes, tuples);
            let without = net_walk(after, st, codes, tuples);
            match without {
                Ok(((q, out, _), rest)) => with matches Ok(((p, o, _), r)) && p == q && o == out
                    && r == rest,
                Err((f, (q, out, _))) => with matches Err((g, (p, o, _))) && g == f && p == q
                    && o == out,
            }
        }),
{
    let after = bypassed(ev.skip(1))->Ok_0;
    let next = NetState { notices: st.notices.unsupported(key, "Network"@), ..st };
    lemma_net_step_shortens(ev, st, codes, tuples);
    assert(net_step(ev, st, codes, tuples) == Step::<NetState, NetResult, NetResult>::Next(
        after,
        next,
    ));
    lemma_net_walk_same(after, st, next, codes, tuples);
}

} // verus!
