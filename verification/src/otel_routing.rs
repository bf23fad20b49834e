//! Routing by OpenTelemetry context and custom headers.
use crate::http_parser::header_views;
use crate::text::{
    chars_of, concat3, decimal, ends_with, eq_ignore_case, find_char, first_index, format_u64,
    join, lemma_first_index, lower, opt_text, same, slice_string, split, split_string, starts_with,
    to_lowercase, trim, trim_string, unicode_lower, views,
};
use crate::text_map::{text_values, TextMap};
use vstd::prelude::*;

verus! {

pub const TRACEPARENT_HEADER: &'static str = "traceparent";

pub const TRACESTATE_HEADER: &'static str = "tracestate";

pub const BAGGAGE_HEADER: &'static str = "baggage";

pub const X_ROUTING_KEY: &'static str = "x-routing-key";

pub const X_SERVICE_VERSION: &'static str = "x-service-version";

pub const X_CANARY_DEPLOYMENT: &'static str = "x-canary-deployment";

/// An OpenTelemetry trace context.
#[derive(Debug, Clone)]
pub struct TraceContext {
    pub trace_id: Option<String>,
    pub span_id: Option<String>,
    pub trace_flags: Option<String>,
    pub trace_state: Option<String>,
    pub baggage: TextMap<String>,
}

/// What the headers of a request say about its routing.
#[derive(Debug, Clone)]
pub struct RoutingContext {
    pub trace_context: TraceContext,
    pub routing_key: Option<String>,
    pub service_version: Option<String>,
    pub canary_deployment: Option<String>,
    /// Further headers that may influence routing.
    pub custom_headers: TextMap<String>,
}

/// What a `TraceContext` holds.
pub struct TraceView {
    pub trace_id: Option<Seq<char>>,
    pub span_id: Option<Seq<char>>,
    pub trace_flags: Option<Seq<char>>,
    pub trace_state: Option<Seq<char>>,
    pub baggage: Map<Seq<char>, Seq<char>>,
}

/// What a `RoutingContext` holds.
pub struct RoutingView {
    pub trace_context: TraceView,
    pub routing_key: Option<Seq<char>>,
    pub service_version: Option<Seq<char>>,
    pub canary_deployment: Option<Seq<char>>,
    pub custom_headers: Map<Seq<char>, Seq<char>>,
}

impl View for TraceContext {
    type V = TraceView;

    open spec fn view(&self) -> TraceView {
        TraceView {
            trace_id: opt_text(self.trace_id),
            span_id: opt_text(self.span_id),
            trace_flags: opt_text(self.trace_flags),
            trace_state: opt_text(self.trace_state),
            baggage: self.baggage.texts(),
        }
    }
}

impl View for RoutingContext {
    type V = RoutingView;

    open spec fn view(&self) -> RoutingView {
        RoutingView {
            trace_context: self.trace_context@,
            routing_key: opt_text(self.routing_key),
            service_version: opt_text(self.service_version),
            canary_deployment: opt_text(self.canary_deployment),
            custom_headers: self.custom_headers.texts(),
        }
    }
}

/// The value of the first header of that name, up to ASCII case.
pub open spec fn header_ignoring_case(
    headers: Seq<(Seq<char>, Seq<char>)>,
    name: Seq<char>,
) -> Option<Seq<char>>
    decreases headers.len(),
{
    if headers.len() == 0 {
        None
    } else if lower(headers[0].0) == lower(name) {
        Some(headers[0].1)
    } else {
        header_ignoring_case(headers.drop_first(), name)
    }
}

/// The value of a header.
pub fn get_header_value(headers: &[(String, String)], name: &str) -> (r: Option<String>)
    ensures
        opt_text(r) == header_ignoring_case(header_views(headers@), name@),
{
    let ghost all = header_views(headers@);
    let mut i: usize = 0;
    proof {
        assert(all.skip(0) =~= all);
    }
    while i < headers.len()
        invariant
            i <= headers@.len(),
            all == header_views(headers@),
            header_ignoring_case(all, name@) == header_ignoring_case(all.skip(i as int), name@),
        decreases headers@.len() - i,
    {
        proof {
            assert(all.skip(i as int)[0] == all[i as int]);
            assert(all.skip(i as int).drop_first() =~= all.skip(i as int + 1));
        }
        if eq_ignore_case(headers[i].0.as_str(), name) {
            return Some(headers[i].1.clone());
        }
        i = i + 1;
    }
    None
}

/// The trace id, the span id and the flags of a `traceparent` value of four
/// dash-separated parts.
pub open spec fn traceparent_parts(value: Seq<char>) -> Option<(Seq<char>, Seq<char>, Seq<char>)> {
    let parts = split(value, '-');
    if parts.len() == 4 {
        Some((parts[1], parts[2], parts[3]))
    } else {
        None
    }
}

/// Takes a `traceparent` value apart.
pub fn parse_traceparent(traceparent: &str) -> (r: Option<(String, String, String)>)
    ensures
        match r {
            Some(p) => traceparent_parts(traceparent@) == Some((p.0@, p.1@, p.2@)),
            None => traceparent_parts(traceparent@) is None,
        },
{
    let parts: Vec<String> = split_string(traceparent, '-');
    proof {
        assert(views(parts@).len() == parts@.len());
    }
    if parts.len() != 4 {
        return None;
    }
    proof {
        assert(views(parts@)[1] == parts@[1]@);
        assert(views(parts@)[2] == parts@[2]@);
        assert(views(parts@)[3] == parts@[3]@);
    }
    Some((parts[1].clone(), parts[2].clone(), parts[3].clone()))
}

/// The key and the value of one item of a `baggage` value.
pub open spec fn baggage_item(item: Seq<char>) -> Option<(Seq<char>, Seq<char>)> {
    let t = trim(item);
    let eq = first_index(t, '=') as int;
    if eq < t.len() {
        Some((trim(t.take(eq)), trim(t.skip(eq + 1))))
    } else {
        None
    }
}

/// The pairs of a list of `baggage` items; a later pair replaces an earlier
/// one of the same key.
pub open spec fn baggage_pairs(items: Seq<Seq<char>>) -> Map<Seq<char>, Seq<char>>
    decreases items.len(),
{
    if items.len() == 0 {
        Map::empty()
    } else {
        match baggage_item(items.last()) {
            Some((key, value)) => baggage_pairs(items.drop_last()).insert(key, value),
            None => baggage_pairs(items.drop_last()),
        }
    }
}

fn read_baggage_item(item: &str) -> (r: Option<(String, String)>)
    ensures
        match r {
            Some(p) => baggage_item(item@) == Some((p.0@, p.1@)),
            None => baggage_item(item@) is None,
        },
{
    let trimmed: String = trim_string(item);
    let chars: Vec<char> = chars_of(trimmed.as_str());
    proof {
        assert(chars@.skip(0) =~= trimmed@);
        lemma_first_index(trimmed@, '=');
    }
    let eq: usize = find_char(&chars, 0, '=');
    if eq < chars.len() {
        let key: String = slice_string(&chars, 0, eq);
        let value: String = slice_string(&chars, eq + 1, chars.len());
        proof {
            assert(key@ =~= trimmed@.take(eq as int));
            assert(value@ =~= trimmed@.skip(eq as int + 1));
        }
        Some((trim_string(key.as_str()), trim_string(value.as_str())))
    } else {
        None
    }
}

/// Reads the pairs of a `baggage` value.
pub fn parse_baggage(baggage: &str) -> (r: TextMap<String>)
    ensures
        r.texts() == baggage_pairs(split(baggage@, ',')),
{
    let items: Vec<String> = split_string(baggage, ',');
    let ghost all = views(items@);
    let mut out: TextMap<String> = TextMap::new();
    let mut i: usize = 0;
    proof {
        assert(all.take(0) =~= Seq::<Seq<char>>::empty());
        assert(out.texts() =~= Map::<Seq<char>, Seq<char>>::empty());
    }
    while i < items.len()
        invariant
            i <= items@.len(),
            all == views(items@),
            out.texts() == baggage_pairs(all.take(i as int)),
        decreases items@.len() - i,
    {
        proof {
            assert(all.take(i as int + 1).drop_last() =~= all.take(i as int));
            assert(all.take(i as int + 1).last() == items@[i as int]@);
        }
        if let Some((key, value)) = read_baggage_item(items[i].as_str()) {
            let ghost before = out@;
            out.insert(key, value);
            proof {
                assert(out.texts() =~= text_values(before).insert(key@, value@));
            }
        }
        i = i + 1;
    }
    proof {
        assert(all.take(all.len() as int) =~= all);
    }
    out
}

/// The headers whose names begin with `x-routing-`; a later header replaces
/// an earlier one of the same name.
pub open spec fn custom_pairs(headers: Seq<(Seq<char>, Seq<char>)>) -> Map<Seq<char>, Seq<char>>
    decreases headers.len(),
{
    if headers.len() == 0 {
        Map::empty()
    } else if "x-routing-"@.is_prefix_of(headers.last().0) {
        custom_pairs(headers.drop_last()).insert(headers.last().0, headers.last().1)
    } else {
        custom_pairs(headers.drop_last())
    }
}

/// Collects the custom routing headers.
pub fn extract_custom_headers(headers: &[(String, String)]) -> (r: TextMap<String>)
    ensures
        r.texts() == custom_pairs(header_views(headers@)),
{
    let ghost all = header_views(headers@);
    let mut out: TextMap<String> = TextMap::new();
    let mut i: usize = 0;
    proof {
        assert(all.take(0) =~= Seq::<(Seq<char>, Seq<char>)>::empty());
        assert(out.texts() =~= Map::<Seq<char>, Seq<char>>::empty());
    }
    while i < headers.len()
        invariant
            i <= headers@.len(),
            all == header_views(headers@),
            out.texts() == custom_pairs(all.take(i as int)),
        decreases headers@.len() - i,
    {
        proof {
            assert(all.take(i as int + 1).drop_last() =~= all.take(i as int));
            assert(all.take(i as int + 1).last() == all[i as int]);
        }
        if starts_with(headers[i].0.as_str(), "x-routing-") {
            let ghost before = out@;
            out.insert(headers[i].0.clone(), headers[i].1.clone());
            proof {
                assert(out.texts() =~= text_values(before).insert(
                    headers@[i as int].0@,
                    headers@[i as int].1@,
                ));
            }
        }
        i = i + 1;
    }
    proof {
        assert(all.take(all.len() as int) =~= all);
    }
    out
}

/// The trace context of a request.
pub open spec fn trace_context_of(headers: Seq<(Seq<char>, Seq<char>)>) -> TraceView {
    let parent = match header_ignoring_case(headers, TRACEPARENT_HEADER@) {
        Some(v) => traceparent_parts(v),
        None => None,
    };
    TraceView {
        trace_id: match parent {
            Some(p) => Some(p.0),
            None => None,
        },
        span_id: match parent {
            Some(p) => Some(p.1),
            None => None,
        },
        trace_flags: match parent {
            Some(p) => Some(p.2),
            None => None,
        },
        trace_state: header_ignoring_case(headers, TRACESTATE_HEADER@),
        baggage: match header_ignoring_case(headers, BAGGAGE_HEADER@) {
            Some(v) => baggage_pairs(split(v, ',')),
            None => Map::empty(),
        },
    }
}

/// Reads the trace context of a request.
pub fn extract_trace_context(headers: &[(String, String)]) -> (r: TraceContext)
    ensures
        r@ == trace_context_of(header_views(headers@)),
{
    let parent: Option<(String, String, String)> = match get_header_value(
        headers,
        TRACEPARENT_HEADER,
    ) {
        Some(v) => parse_traceparent(v.as_str()),
        None => None,
    };
    let trace_state: Option<String> = get_header_value(headers, TRACESTATE_HEADER);
    let baggage: TextMap<String> = match get_header_value(headers, BAGGAGE_HEADER) {
        Some(v) => parse_baggage(v.as_str()),
        None => TextMap::new(),
    };
    proof {
        if header_ignoring_case(header_views(headers@), BAGGAGE_HEADER@) is None {
            assert(baggage.texts() =~= Map::<Seq<char>, Seq<char>>::empty());
        }
    }
    match parent {
        Some((trace_id, span_id, trace_flags)) => TraceContext {
            trace_id: Some(trace_id),
            span_id: Some(span_id),
            trace_flags: Some(trace_flags),
            trace_state,
            baggage,
        },
        None => TraceContext {
            trace_id: None,
            span_id: None,
            trace_flags: None,
            trace_state,
            baggage,
        },
    }
}

/// What the headers of a request say about its routing.
pub open spec fn routing_context_of(headers: Seq<(Seq<char>, Seq<char>)>) -> RoutingView {
    RoutingView {
        trace_context: trace_context_of(headers),
        routing_key: header_ignoring_case(headers, X_ROUTING_KEY@),
        service_version: header_ignoring_case(headers, X_SERVICE_VERSION@),
        canary_deployment: header_ignoring_case(headers, X_CANARY_DEPLOYMENT@),
        custom_headers: custom_pairs(headers),
    }
}

/// Reads what the headers of a request say about its routing.
pub fn extract_routing_context(headers: &[(String, String)]) -> (r: RoutingContext)
    ensures
        r@ == routing_context_of(header_views(headers@)),
{
    RoutingContext {
        trace_context: extract_trace_context(headers),
        routing_key: get_header_value(headers, X_ROUTING_KEY),
        service_version: get_header_value(headers, X_SERVICE_VERSION),
        canary_deployment: get_header_value(headers, X_CANARY_DEPLOYMENT),
        custom_headers: extract_custom_headers(headers),
    }
}

/// Where a request is routed to.
#[derive(Debug, Clone)]
pub enum RoutingTarget {
    Default { port: u16 },
    Canary { port: u16, weight: u8 },
    Version { port: u16, version: String },
    Premium { port: u16 },
    Custom { port: u16, key: String },
}

/// What a `RoutingTarget` holds.
pub enum TargetView {
    Default { port: u16 },
    Canary { port: u16, weight: u8 },
    Version { port: u16, version: Seq<char> },
    Premium { port: u16 },
    Custom { port: u16, key: Seq<char> },
}

impl View for RoutingTarget {
    type V = TargetView;

    open spec fn view(&self) -> TargetView {
        match self {
            RoutingTarget::Default { port } => TargetView::Default { port: *port },
            RoutingTarget::Canary { port, weight } => TargetView::Canary {
                port: *port,
                weight: *weight,
            },
            RoutingTarget::Version { port, version } => TargetView::Version {
                port: *port,
                version: version@,
            },
            RoutingTarget::Premium { port } => TargetView::Premium { port: *port },
            RoutingTarget::Custom { port, key } => TargetView::Custom { port: *port, key: key@ },
        }
    }
}

impl RoutingTarget {
    /// The port of a target.
    pub open spec fn port(&self) -> u16 {
        match self {
            RoutingTarget::Default { port } => *port,
            RoutingTarget::Canary { port, .. } => *port,
            RoutingTarget::Version { port, .. } => *port,
            RoutingTarget::Premium { port } => *port,
            RoutingTarget::Custom { port, .. } => *port,
        }
    }

    /// The text that describes a target in logs.
    pub open spec fn metadata(&self) -> Seq<char> {
        match self {
            RoutingTarget::Default { .. } => "default"@,
            RoutingTarget::Canary { weight, .. } => "canary("@ + decimal(*weight as nat) + "%)"@,
            RoutingTarget::Version { version, .. } => "version("@ + version@ + ")"@,
            RoutingTarget::Premium { .. } => "premium"@,
            RoutingTarget::Custom { key, .. } => "custom("@ + key@ + ")"@,
        }
    }

    pub fn get_port(&self) -> (r: u16)
        ensures
            r == self.port(),
    {
        match self {
            RoutingTarget::Default { port } => *port,
            RoutingTarget::Canary { port, .. } => *port,
            RoutingTarget::Version { port, .. } => *port,
            RoutingTarget::Premium { port } => *port,
            RoutingTarget::Custom { port, .. } => *port,
        }
    }

    pub fn get_metadata(&self) -> (r: String)
        ensures
            r@ == self.metadata(),
    {
        match self {
            RoutingTarget::Default { .. } => "default".to_owned(),
            RoutingTarget::Canary { weight, .. } => {
                let digits: String = format_u64(*weight as u64);
                concat3("canary(", digits.as_str(), "%)")
            },
            RoutingTarget::Version { version, .. } => concat3("version(", version.as_str(), ")"),
            RoutingTarget::Premium { .. } => "premium".to_owned(),
            RoutingTarget::Custom { key, .. } => concat3("custom(", key.as_str(), ")"),
        }
    }
}

/// A trace whose id ends in one of two reserved ways.
pub open spec fn high_priority(trace_id: Seq<char>) -> bool {
    "0001"@.is_suffix_of(trace_id) || "0002"@.is_suffix_of(trace_id)
}

/// Whether a trace has high priority.
pub fn is_high_priority_trace(trace_id: &str) -> (r: bool)
    ensures
        r == high_priority(trace_id@),
{
    ends_with(trace_id, "0001") || ends_with(trace_id, "0002")
}

/// Where a request with the given context is routed to: a canary before a
/// version, a version before a high-priority trace, that before a routing key.
pub open spec fn target_of(context: RoutingView, port: u16) -> TargetView {
    if context.canary_deployment matches Some(c) && unicode_lower(c) == "true"@ {
        TargetView::Canary { port, weight: 10 }
    } else {
        match context.service_version {
            Some(version) => TargetView::Version { port, version },
            None => if context.trace_context.trace_id matches Some(t) && high_priority(t) {
                TargetView::Premium { port }
            } else {
                match context.routing_key {
                    Some(key) => TargetView::Custom { port, key },
                    None => TargetView::Default { port },
                }
            },
        }
    }
}

/// Decides where a request is routed to.
pub fn determine_routing_target(routing_context: &RoutingContext, original_port: u16) -> (r:
    RoutingTarget)
    ensures
        r@ == target_of(routing_context@, original_port),
{
    if let Some(canary) = &routing_context.canary_deployment {
        let value: String = to_lowercase(canary.as_str());
        if same(value.as_str(), "true") {
            return RoutingTarget::Canary { port: original_port, weight: 10 };
        }
    }
    if let Some(version) = &routing_context.service_version {
        return RoutingTarget::Version { port: original_port, version: version.clone() };
    }
    if let Some(trace_id) = &routing_context.trace_context.trace_id {
        if is_high_priority_trace(trace_id.as_str()) {
            return RoutingTarget::Premium { port: original_port };
        }
    }
    if let Some(routing_key) = &routing_context.routing_key {
        return RoutingTarget::Custom { port: original_port, key: routing_key.clone() };
    }
    RoutingTarget::Default { port: original_port }
}

/// Whatever the headers say, a request stays on the port that it came for.
pub proof fn law_target_keeps_port(context: RoutingView, port: u16)
    ensures
        match target_of(context, port) {
            TargetView::Default { port: p } => p == port,
            TargetView::Canary { port: p, .. } => p == port,
            TargetView::Version { port: p, .. } => p == port,
            TargetView::Premium { port: p } => p == port,
            TargetView::Custom { port: p, .. } => p == port,
        },
{
}

pub proof fn lemma_first_ignoring_case(
    headers: Seq<(Seq<char>, Seq<char>)>,
    name: Seq<char>,
    i: int,
)
    requires
        0 <= i <= headers.len(),
        forall|j: int| 0 <= j < i ==> lower((#[trigger] headers[j]).0) != lower(name),
        i < headers.len() ==> lower(headers[i].0) == lower(name),
    ensures
        header_ignoring_case(headers, name) == (if i < headers.len() {
            Some(headers[i].1)
        } else {
            None
        }),
    decreases headers.len(),
{
    if headers.len() > 0 && i > 0 {
        let rest = headers.drop_first();
        assert(lower(headers[0].0) != lower(name));
        assert forall|j: int| 0 <= j < i - 1 implies lower((#[trigger] rest[j]).0) != lower(
            name,
        ) by {
            assert(rest[j] == headers[j + 1]);
        }
        lemma_first_ignoring_case(rest, name, i - 1);
    }
}

/// The value of a header is that of the first one with its name, in whatever
/// case: `i` is where that stands, or the number of headers where there is none.
pub proof fn law_first_header_counts(
    headers: &[(String, String)],
    name: &str,
    r: Option<String>,
    i: int,
)
    requires
        call_ensures(get_header_value, (headers, name), r),
        0 <= i <= headers@.len(),
        forall|j: int| 0 <= j < i ==> lower((#[trigger] headers@[j]).0@) != lower(name@),
        i < headers@.len() ==> lower(headers@[i].0@) == lower(name@),
    ensures
        opt_text(r) == (if i < headers@.len() {
            Some(headers@[i].1@)
        } else {
            None
        }),
{
    let all = header_views(headers@);
    assert forall|j: int| 0 <= j < i implies lower((#[trigger] all[j]).0) != lower(name@) by {
        assert(lower(headers@[j].0@) != lower(name@));
    }
    lemma_first_ignoring_case(all, name@, i);
}

/// A `traceparent` value of four parts without dashes of their own gives its
/// trace, its span and its flags; one of fewer or more parts gives nothing.
pub proof fn law_traceparent_is_taken_apart(
    value: &str,
    r: Option<(String, String, String)>,
    parts: Seq<Seq<char>>,
)
    requires
        call_ensures(parse_traceparent, (value,), r),
        parts.len() > 0,
        crate::tracestate::free_of(parts, '-'),
        value@ == join(parts, seq!['-']),
    ensures
        (r is Some) == (parts.len() == 4),
        r matches Some(p) ==> p.0@ == parts[1] && p.1@ == parts[2] && p.2@ == parts[3],
{
    crate::tracestate::law_split_join(parts, '-');
}

proof fn lemma_baggage_pairs(items: Seq<Seq<char>>, key: Seq<char>)
    ensures
        baggage_pairs(items).contains_key(key) <==> exists|i: int|
            0 <= i < items.len() && (baggage_item(#[trigger] items[i]) matches Some(p) && p.0
                == key),
        forall|i: int|
            0 <= i < items.len() && (baggage_item(#[trigger] items[i]) matches Some(p) && p.0
                == key) && (forall|j: int|
                i < j < items.len() ==> !(baggage_item(#[trigger] items[j]) matches Some(p) && p.0
                    == key)) ==> baggage_pairs(items)[key] == (baggage_item(items[i])->0).1,
    decreases items.len(),
{
    if items.len() > 0 {
        let n = items.len() - 1;
        let shorter = items.drop_last();
        lemma_baggage_pairs(shorter, key);
        assert(items[n] == items.last());
        assert forall|i: int| 0 <= i < n implies #[trigger] shorter[i] == items[i] by {}
        if exists|i: int|
            0 <= i < shorter.len() && (baggage_item(#[trigger] shorter[i]) matches Some(p) && p.0
                == key) {
            let i = choose|i: int|
                0 <= i < shorter.len() && (baggage_item(#[trigger] shorter[i]) matches Some(p)
                    && p.0 == key);
            assert(items[i] == shorter[i]);
        }
        if exists|i: int|
            0 <= i < items.len() && (baggage_item(#[trigger] items[i]) matches Some(p) && p.0
                == key) {
            let i = choose|i: int|
                0 <= i < items.len() && (baggage_item(#[trigger] items[i]) matches Some(p) && p.0
                    == key);
            if i < n {
                assert(shorter[i] == items[i]);
            }
        }
        assert forall|i: int|
            0 <= i < items.len() && (baggage_item(#[trigger] items[i]) matches Some(p) && p.0
                == key) && (forall|j: int|
                i < j < items.len() ==> !(baggage_item(#[trigger] items[j]) matches Some(p) && p.0
                    == key)) implies baggage_pairs(items)[key] == (baggage_item(items[i])->0).1 by {
            if i < n {
                assert(shorter[i] == items[i]);
                assert forall|j: int| i < j < shorter.len() implies !(baggage_item(
                    #[trigger] shorter[j],
                ) matches Some(p) && p.0 == key) by {
                    assert(shorter[j] == items[j]);
                }
                assert(!(baggage_item(items[n]) matches Some(p) && p.0 == key));
            }
        }
    }
}

/// The item is a pair with that key and that value: they stand before and
/// behind its first equals sign, without the white space around them.
pub open spec fn is_pair(item: Seq<char>, key: Seq<char>, value: Seq<char>) -> bool {
    exists|n: int|
        0 <= n < trim(item).len() && #[trigger] trim(item)[n] == '=' && (forall|j: int|
            0 <= j < n ==> trim(item)[j] != '=') && trim(trim(item).take(n)) == key && trim(
            trim(item).skip(n + 1),
        ) == value
}

proof fn lemma_is_pair(item: Seq<char>, key: Seq<char>, value: Seq<char>)
    ensures
        is_pair(item, key, value) <==> baggage_item(item) == Some((key, value)),
{
    let t = trim(item);
    lemma_first_index(t, '=');
    let n = first_index(t, '=') as int;
    if baggage_item(item) == Some((key, value)) {
        assert(t[n] == '=');
    }
    if is_pair(item, key, value) {
        let m = choose|m: int|
            0 <= m < trim(item).len() && #[trigger] trim(item)[m] == '=' && (forall|j: int|
                0 <= j < m ==> trim(item)[j] != '=') && trim(trim(item).take(m)) == key && trim(
                trim(item).skip(m + 1),
            ) == value;
        assert(n <= m) by {
            if m < n {
                assert(t[m] != '=');
            }
        }
        if n < m {
            assert(t[n] == '=');
        }
        assert(m == n);
    }
}

/// The pairs of a `baggage` value are just those of its items between commas,
/// and of two pairs with the same key the later one counts.
pub proof fn law_baggage_is_read(
    baggage: &str,
    r: TextMap<String>,
    i: int,
    key: Seq<char>,
    value: Seq<char>,
)
    requires
        call_ensures(parse_baggage, (baggage,), r),
    ensures
        0 <= i < split(baggage@, ',').len() && is_pair(split(baggage@, ',')[i], key, value) && (
        forall|j: int, v: Seq<char>|
            #![trigger is_pair(split(baggage@, ',')[j], key, v)]
            i < j < split(baggage@, ',').len() ==> !is_pair(split(baggage@, ',')[j], key, v))
            ==> r.texts().contains_key(key) && r.texts()[key] == value,
        (forall|j: int, v: Seq<char>|
            #![trigger is_pair(split(baggage@, ',')[j], key, v)]
            0 <= j < split(baggage@, ',').len() ==> !is_pair(split(baggage@, ',')[j], key, v))
            ==> !r.texts().contains_key(key),
{
    let items = split(baggage@, ',');
    lemma_baggage_pairs(items, key);
    if 0 <= i < items.len() && is_pair(items[i], key, value) && (forall|j: int, v: Seq<char>|
        #![trigger is_pair(items[j], key, v)]
        i < j < items.len() ==> !is_pair(items[j], key, v)) {
        lemma_is_pair(items[i], key, value);
        assert forall|j: int| i < j < items.len() implies !(baggage_item(
            #[trigger] items[j],
        ) matches Some(p) && p.0 == key) by {
            if let Some(p) = baggage_item(items[j]) {
                lemma_is_pair(items[j], p.0, p.1);
                if p.0 == key {
                    assert(is_pair(items[j], key, p.1));
                }
            }
        }
    }
    if forall|j: int, v: Seq<char>|
        #![trigger is_pair(items[j], key, v)]
        0 <= j < items.len() ==> !is_pair(items[j], key, v) {
        assert forall|j: int| 0 <= j < items.len() implies !(baggage_item(
            #[trigger] items[j],
        ) matches Some(p) && p.0 == key) by {
            if let Some(p) = baggage_item(items[j]) {
                lemma_is_pair(items[j], p.0, p.1);
                if p.0 == key {
                    assert(is_pair(items[j], key, p.1));
                }
            }
        }
    }
}

proof fn lemma_custom_last(headers: Seq<(Seq<char>, Seq<char>)>, i: int)
    requires
        0 <= i < headers.len(),
        "x-routing-"@.is_prefix_of(headers[i].0),
        forall|j: int| i < j < headers.len() ==> (#[trigger] headers[j]).0 != headers[i].0,
    ensures
        custom_pairs(headers).contains_key(headers[i].0),
        custom_pairs(headers)[headers[i].0] == headers[i].1,
    decreases headers.len(),
{
    if i < headers.len() - 1 {
        let shorter = headers.drop_last();
        assert(shorter[i] == headers[i]);
        assert forall|j: int| i < j < shorter.len() implies (#[trigger] shorter[j]).0
            != shorter[i].0 by {
            assert(shorter[j] == headers[j]);
        }
        lemma_custom_last(shorter, i);
        assert(headers[headers.len() - 1].0 != headers[i].0);
    }
}

proof fn lemma_custom_absent(headers: Seq<(Seq<char>, Seq<char>)>, name: Seq<char>)
    requires
        !"x-routing-"@.is_prefix_of(name) || forall|j: int|
            0 <= j < headers.len() ==> (#[trigger] headers[j]).0 != name,
    ensures
        !custom_pairs(headers).contains_key(name),
    decreases headers.len(),
{
    if headers.len() > 0 {
        let shorter = headers.drop_last();
        assert forall|j: int|
            0 <= j < shorter.len() && "x-routing-"@.is_prefix_of(name) implies (
        #[trigger] shorter[j]).0 != name by {
            assert(shorter[j] == headers[j]);
        }
        lemma_custom_absent(shorter, name);
        assert(headers[headers.len() - 1] == headers.last());
    }
}

/// A header whose name begins with `x-routing-` is among the custom headers,
/// the last one of its name; no other is.
pub proof fn law_custom_headers_are_collected(
    headers: &[(String, String)],
    r: TextMap<String>,
    name: Seq<char>,
    i: int,
)
    requires
        call_ensures(extract_custom_headers, (headers,), r),
    ensures
        0 <= i < headers@.len() && headers@[i].0@ == name && "x-routing-"@.is_prefix_of(name) && (
        forall|j: int| i < j < headers@.len() ==> (#[trigger] headers@[j]).0@ != name)
            ==> r.texts().contains_key(name) && r.texts()[name] == headers@[i].1@,
        (!"x-routing-"@.is_prefix_of(name) || forall|j: int|
            0 <= j < headers@.len() ==> (#[trigger] headers@[j]).0@ != name)
            ==> !r.texts().contains_key(name),
{
    let all = header_views(headers@);
    if 0 <= i < headers@.len() && headers@[i].0@ == name && "x-routing-"@.is_prefix_of(name) && (
    forall|j: int| i < j < headers@.len() ==> (#[trigger] headers@[j]).0@ != name) {
        assert(all[i] == (headers@[i].0@, headers@[i].1@));
        assert forall|j: int| i < j < all.len() implies (#[trigger] all[j]).0 != all[i].0 by {
            assert(headers@[j].0@ != name);
        }
        lemma_custom_last(all, i);
    }
    if !"x-routing-"@.is_prefix_of(name) {
        lemma_custom_absent(all, name);
    } else if forall|j: int| 0 <= j < headers@.len() ==> (#[trigger] headers@[j]).0@ != name {
        assert forall|j: int| 0 <= j < all.len() implies (#[trigger] all[j]).0 != name by {
            assert(headers@[j].0@ != name);
        }
        lemma_custom_absent(all, name);
    }
}

/// A request that asks for the canary goes to it, at the tenth part; else one
/// that asks for a version goes to that version; else one of a trace of high
/// priority goes to the premium target; else one with a routing key goes by
/// its key; and any other goes to the default. All stay on their port.
pub proof fn law_routing_target(context: RoutingContext, port: u16, r: RoutingTarget)
    requires
        call_ensures(determine_routing_target, (&context, port), r),
    ensures
        ({
            let canary = context.canary_deployment matches Some(c) && unicode_lower(c@)
                == "true"@;
            let premium = context.trace_context.trace_id matches Some(t) && (
            "0001"@.is_suffix_of(t@) || "0002"@.is_suffix_of(t@));
            match r {
                RoutingTarget::Canary { port: p, weight } => canary && p == port && weight == 10,
                RoutingTarget::Version { port: p, version } => !canary && p == port && (
                context.service_version matches Some(v) && v@ == version@),
                RoutingTarget::Premium { port: p } => !canary && context.service_version is None
                    && premium && p == port,
                RoutingTarget::Custom { port: p, key } => !canary && context.service_version
                    is None && !premium && p == port && (context.routing_key matches Some(k) && k@
                    == key@),
                RoutingTarget::Default { port: p } => !canary && context.service_version is None
                    && !premium && context.routing_key is None && p == port,
            }
        }),
{
    assert(r@ == target_of(context@, port));
}

/// The context of a request is what its headers say: the parts of the
/// `traceparent` header, the `tracestate` and `baggage` headers, and the
/// headers for the routing key, the version and the canary.
pub proof fn law_routing_context_is_read(
    headers: &[(String, String)],
    r: RoutingContext,
    parent: Option<String>,
    state: Option<String>,
    key: Option<String>,
    version: Option<String>,
    canary: Option<String>,
    custom: TextMap<String>,
)
    requires
        call_ensures(extract_routing_context, (headers,), r),
        call_ensures(get_header_value, (headers, "traceparent"), parent),
        call_ensures(get_header_value, (headers, "tracestate"), state),
        call_ensures(get_header_value, (headers, "x-routing-key"), key),
        call_ensures(get_header_value, (headers, "x-service-version"), version),
        call_ensures(get_header_value, (headers, "x-canary-deployment"), canary),
        call_ensures(extract_custom_headers, (headers,), custom),
    ensures
        opt_text(r.trace_context.trace_state) == opt_text(state),
        opt_text(r.routing_key) == opt_text(key),
        opt_text(r.service_version) == opt_text(version),
        opt_text(r.canary_deployment) == opt_text(canary),
        r.custom_headers.texts() == custom.texts(),
        parent is None ==> r.trace_context.trace_id is None && r.trace_context.span_id is None
            && r.trace_context.trace_flags is None,
        parent matches Some(v) ==> {
            let parts = split(v@, '-');
            if parts.len() == 4 {
                &&& opt_text(r.trace_context.trace_id) == Some(parts[1])
                &&& opt_text(r.trace_context.span_id) == Some(parts[2])
                &&& opt_text(r.trace_context.trace_flags) == Some(parts[3])
            } else {
                r.trace_context.trace_id is None && r.trace_context.span_id is None
                    && r.trace_context.trace_flags is None
            }
        },
{
    assert(r@ == routing_context_of(header_views(headers@)));
    assert(r@.trace_context == r.trace_context@);
}

/// Wherever a request is routed to, it is routed to the port that was asked for.
pub proof fn law_target_keeps_the_port(
    context: RoutingContext,
    port: u16,
    target: RoutingTarget,
    r: u16,
)
    requires
        call_ensures(determine_routing_target, (&context, port), target),
        call_ensures(RoutingTarget::get_port, (&target,), r),
    ensures
        r == port,
{
    law_routing_target(context, port, target);
}

} // verus!
