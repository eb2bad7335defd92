//! The scratch records of one `in_network` element: its network fields, its
//! rates and their prices.

use vstd::prelude::*;

verus! {

/// A field as it is written out: the word `null` in place of nothing.
pub open spec fn or_null(s: Seq<char>) -> Seq<char> {
    if s.len() == 0 {
        "null"@
    } else {
        s
    }
}

/// Fills an empty field with `null`.
pub fn fill_null(s: &mut String)
    ensures
        final(s)@ == or_null(old(s)@),
{
    if s.as_str().is_empty() {
        s.append("null");
        assert(s@ =~= "null"@);
    }
}

/// Holds information for a negotiated price.
#[derive(Debug, PartialEq, Clone)]
pub struct Price {
    pub negotiated_type: String,
    pub negotiated_rate: String,
    pub expiration_date: String,
    pub service_code: String,
    pub billing_class: String,
    pub billing_code_modifier: String,
}

/// What a [`Price`] stands for in contracts.
pub struct PriceView {
    pub negotiated_type: Seq<char>,
    pub negotiated_rate: Seq<char>,
    pub expiration_date: Seq<char>,
    pub service_code: Seq<char>,
    pub billing_class: Seq<char>,
    pub billing_code_modifier: Seq<char>,
}

impl PriceView {
    /// The price with no field filled.
    pub open spec fn empty() -> PriceView {
        PriceView {
            negotiated_type: Seq::empty(),
            negotiated_rate: Seq::empty(),
            expiration_date: Seq::empty(),
            service_code: Seq::empty(),
            billing_class: Seq::empty(),
            billing_code_modifier: Seq::empty(),
        }
    }

    /// The price that stands for no price: every field is `null`.
    pub open spec fn null() -> PriceView {
        PriceView {
            negotiated_type: "null"@,
            negotiated_rate: "null"@,
            expiration_date: "null"@,
            service_code: "null"@,
            billing_class: "null"@,
            billing_code_modifier: "null"@,
        }
    }

    /// The price with each empty field filled with `null`.
    pub open spec fn with_defaults(self) -> PriceView {
        PriceView {
            negotiated_type: or_null(self.negotiated_type),
            negotiated_rate: or_null(self.negotiated_rate),
            expiration_date: or_null(self.expiration_date),
            service_code: or_null(self.service_code),
            billing_class: or_null(self.billing_class),
            billing_code_modifier: or_null(self.billing_code_modifier),
        }
    }

    /// The six fields of the price, separated by commas.
    pub open spec fn text(self) -> Seq<char> {
        self.negotiated_type + ","@ + self.negotiated_rate + ","@ + self.expiration_date + ","@
            + self.service_code + ","@ + self.billing_class + ","@ + self.billing_code_modifier
    }
}

impl View for Price {
    type V = PriceView;

    open spec fn view(&self) -> PriceView {
        PriceView {
            negotiated_type: self.negotiated_type@,
            negotiated_rate: self.negotiated_rate@,
            expiration_date: self.expiration_date@,
            service_code: self.service_code@,
            billing_class: self.billing_class@,
            billing_code_modifier: self.billing_code_modifier@,
        }
    }
}

impl Price {
    /// Creates a Price with every field empty.
    pub fn new() -> (r: Self)
        ensures
            r@ == PriceView::empty(),
    {
        Price {
            negotiated_type: String::new(),
            negotiated_rate: String::new(),
            expiration_date: String::new(),
            service_code: String::new(),
            billing_class: String::new(),
            billing_code_modifier: String::new(),
        }
    }

    /// Returns a new Price where all fields are set to the String "null".
    pub fn new_null() -> (r: Self)
        ensures
            r@ == PriceView::null(),
    {
        Price {
            negotiated_type: String::from_str("null"),
            negotiated_rate: String::from_str("null"),
            expiration_date: String::from_str("null"),
            service_code: String::from_str("null"),
            billing_class: String::from_str("null"),
            billing_code_modifier: String::from_str("null"),
        }
    }

    /// Empties all the fields.
    pub fn clear_fields(&mut self)
        ensures
            final(self)@ == PriceView::empty(),
    {
        self.negotiated_type = String::new();
        self.negotiated_rate = String::new();
        self.expiration_date = String::new();
        self.service_code = String::new();
        self.billing_class = String::new();
        self.billing_code_modifier = String::new();
    }

    /// Fills empty values with "null".
    pub fn push_defaults(&mut self)
        ensures
            final(self)@ == old(self)@.with_defaults(),
    {
        fill_null(&mut self.negotiated_type);
        fill_null(&mut self.negotiated_rate);
        fill_null(&mut self.expiration_date);
        fill_null(&mut self.service_code);
        fill_null(&mut self.billing_class);
        fill_null(&mut self.billing_code_modifier);
    }

    /// Writes the fields to `out`, in the order of the header.
    pub fn print_out(&self, out: &mut String)
        ensures
            final(out)@ == old(out)@ + self@.text(),
    {
        out.append(self.negotiated_type.as_str());
        out.append(",");
        out.append(self.negotiated_rate.as_str());
        out.append(",");
        out.append(self.expiration_date.as_str());
        out.append(",");
        out.append(self.service_code.as_str());
        out.append(",");
        out.append(self.billing_class.as_str());
        out.append(",");
        out.append(self.billing_code_modifier.as_str());
        assert(out@ =~= old(out)@ + self@.text());
    }
}

/// What a sequence of prices stands for in contracts.
pub open spec fn price_views(v: Seq<Price>) -> Seq<PriceView> {
    v.map_values(|p: Price| p@)
}

/// Holds negotiated prices and the provider references for which those prices
/// are valid, filtered to those that the query asks for.
#[derive(Debug, Clone, PartialEq)]
pub struct Rate {
    pub provider_references: Vec<u64>,
    pub negotiated_prices: Vec<Price>,
}

/// What a [`Rate`] stands for in contracts.
pub struct RateView {
    pub refs: Seq<u64>,
    pub prices: Seq<PriceView>,
}

impl RateView {
    /// The rate without references or prices.
    pub open spec fn empty() -> RateView {
        RateView { refs: Seq::empty(), prices: Seq::empty() }
    }
}

impl View for Rate {
    type V = RateView;

    open spec fn view(&self) -> RateView {
        RateView { refs: self.provider_references@, prices: price_views(self.negotiated_prices@) }
    }
}

impl Rate {
    /// Creates a new Rate without references or prices.
    pub fn new() -> (r: Self)
        ensures
            r@ == RateView::empty(),
    {
        let r = Rate { provider_references: Vec::new(), negotiated_prices: Vec::new() };
        assert(r@.prices =~= Seq::empty());
        r
    }

    /// Empties the references and the prices.
    pub fn clear_fields(&mut self)
        ensures
            final(self)@ == RateView::empty(),
    {
        self.provider_references = Vec::new();
        self.negotiated_prices = Vec::new();
        assert(self@.prices =~= Seq::empty());
    }
}

/// What a sequence of rates stands for in contracts.
pub open spec fn rate_views(v: Seq<Rate>) -> Seq<RateView> {
    v.map_values(|r: Rate| r@)
}

/// The rates behind an optional list of rates.
pub open spec fn optional_rates(v: Option<Vec<Rate>>) -> Option<Seq<RateView>> {
    match v {
        Some(rates) => Some(rate_views(rates@)),
        None => None,
    }
}

/// Holds the basic in-network billing information and the negotiated rates.
#[derive(Debug)]
pub struct Network {
    pub negotiation_arrangement: String,
    pub name: String,
    pub billing_code_type: String,
    pub billing_code_type_version: String,
    pub billing_code: String,
    pub description: String,
    pub negotiated_rates: Option<Vec<Rate>>,
}

/// What a [`Network`] stands for in contracts.
pub struct NetworkView {
    pub negotiation_arrangement: Seq<char>,
    pub name: Seq<char>,
    pub billing_code_type: Seq<char>,
    pub billing_code_type_version: Seq<char>,
    pub billing_code: Seq<char>,
    pub description: Seq<char>,
    pub rates: Option<Seq<RateView>>,
}

impl NetworkView {
    /// The network with no field filled and no rates.
    pub open spec fn empty() -> NetworkView {
        NetworkView {
            negotiation_arrangement: Seq::empty(),
            name: Seq::empty(),
            billing_code_type: Seq::empty(),
            billing_code_type_version: Seq::empty(),
            billing_code: Seq::empty(),
            description: Seq::empty(),
            rates: None,
        }
    }

    /// The network with each empty optional field filled with `null`. The
    /// billing code and the rates are mandatory and get no default.
    pub open spec fn with_defaults(self) -> NetworkView {
        NetworkView {
            negotiation_arrangement: or_null(self.negotiation_arrangement),
            name: or_null(self.name),
            billing_code_type: or_null(self.billing_code_type),
            billing_code_type_version: or_null(self.billing_code_type_version),
            description: or_null(self.description),
            ..self
        }
    }

    /// The six text fields of the network, separated by commas.
    pub open spec fn text(self) -> Seq<char> {
        self.negotiation_arrangement + ","@ + self.name + ","@ + self.billing_code_type + ","@
            + self.billing_code_type_version + ","@ + self.billing_code + ","@ + self.description
    }
}

impl View for Network {
    type V = NetworkView;

    open spec fn view(&self) -> NetworkView {
        NetworkView {
            negotiation_arrangement: self.negotiation_arrangement@,
            name: self.name@,
            billing_code_type: self.billing_code_type@,
            billing_code_type_version: self.billing_code_type_version@,
            billing_code: self.billing_code@,
            description: self.description@,
            rates: optional_rates(self.negotiated_rates),
        }
    }
}

impl Network {
    /// Creates a new Network with every field empty and no rates.
    pub fn new() -> (r: Self)
        ensures
            r@ == NetworkView::empty(),
    {
        Network {
            negotiation_arrangement: String::new(),
            name: String::new(),
            billing_code_type: String::new(),
            billing_code_type_version: String::new(),
            billing_code: String::new(),
            description: String::new(),
            negotiated_rates: None,
        }
    }

    /// Empties all the text fields and sets the rates to None.
    pub fn clear_entries(&mut self)
        ensures
            final(self)@ == NetworkView::empty(),
    {
        self.negotiation_arrangement = String::new();
        self.name = String::new();
        self.billing_code_type = String::new();
        self.billing_code_type_version = String::new();
        self.billing_code = String::new();
        self.description = String::new();
        self.negotiated_rates = None;
    }

    /// Fills each empty field with "null", except the billing code and the
    /// rates, which are not optional.
    pub fn push_defaults(&mut self)
        ensures
            final(self)@ == old(self)@.with_defaults(),
    {
        fill_null(&mut self.negotiation_arrangement);
        fill_null(&mut self.name);
        fill_null(&mut self.billing_code_type);
        fill_null(&mut self.billing_code_type_version);
        fill_null(&mut self.description);
    }

    /// Writes the text fields to `out`, in the order of the header.
    pub fn print_out(&self, out: &mut String)
        ensures
            final(out)@ == old(out)@ + self@.text(),
    {
        out.append(self.negotiation_arrangement.as_str());
        out.append(",");
        out.append(self.name.as_str());
        out.append(",");
        out.append(self.billing_code_type.as_str());
        out.append(",");
        out.append(self.billing_code_type_version.as_str());
        out.append(",");
        out.append(self.billing_code.as_str());
        out.append(",");
        out.append(self.description.as_str());
        assert(out@ =~= old(out)@ + self@.text());
    }
}

} // verus!
