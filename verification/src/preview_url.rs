//! Preview links: how they are written, and what they lead to.
use crate::text::{
    bounded_value, concat, decimal, first_index, join, join_strings,
    law_decimal_round_trip, lemma_first_index, lemma_views_push, parse_unsigned, split, split_string,
    views,
};
use crate::tracestate::lemma_split_append;
use vstd::prelude::*;

verus! {

/// What a preview link says.
#[derive(Debug)]
pub struct PreviewUrlInfo {
    pub service_name: String,
    pub port: u16,
    pub environment_hash: String,
}

/// What a `PreviewUrlInfo` holds.
pub struct PreviewUrlView {
    pub service_name: Seq<char>,
    pub port: u16,
    pub environment_hash: Seq<char>,
}

impl View for PreviewUrlInfo {
    type V = PreviewUrlView;

    open spec fn view(&self) -> PreviewUrlView {
        PreviewUrlView {
            service_name: self.service_name@,
            port: self.port,
            environment_hash: self.environment_hash@,
        }
    }
}

/// Who may follow a preview link.
#[derive(Debug, Clone, Copy, PartialEq, Eq, Structural)]
pub enum PreviewUrlAccessLevel {
    Organization,
    Public,
}

/// What a preview link leads to.
#[derive(Debug)]
pub struct PreviewUrlTarget {
    pub cluster_id: u128,
    pub namespace: String,
    pub service_name: String,
    pub service_port: u16,
    pub access_level: PreviewUrlAccessLevel,
    pub protocol: String,
    pub environment_id: u128,
    pub organization_id: u128,
    pub preview_url_id: u128,
}

/// Why a preview link leads nowhere.
#[derive(Debug)]
pub enum PreviewUrlError {
    InvalidFormat,
    InvalidPort,
    EnvironmentNotFound,
    ServiceNotFound,
    PreviewUrlNotConfigured,
    AccessDenied,
    Database(String),
    SeaOrm(String),
}

impl PreviewUrlError {
    /// What the error shows.
    pub open spec fn text(&self) -> Seq<char> {
        match self {
            PreviewUrlError::InvalidFormat => "Invalid preview URL format"@,
            PreviewUrlError::InvalidPort => "Invalid port number"@,
            PreviewUrlError::EnvironmentNotFound => "Environment not found"@,
            PreviewUrlError::ServiceNotFound => "Service not found"@,
            PreviewUrlError::PreviewUrlNotConfigured => "Preview URL not configured"@,
            PreviewUrlError::AccessDenied => "Access denied"@,
            PreviewUrlError::Database(e) => "Database error: "@ + e@,
            PreviewUrlError::SeaOrm(e) => "SeaORM error: "@ + e@,
        }
    }

    pub fn message(&self) -> (r: String)
        ensures
            r@ == self.text(),
    {
        match self {
            PreviewUrlError::InvalidFormat => "Invalid preview URL format".to_owned(),
            PreviewUrlError::InvalidPort => "Invalid port number".to_owned(),
            PreviewUrlError::EnvironmentNotFound => "Environment not found".to_owned(),
            PreviewUrlError::ServiceNotFound => "Service not found".to_owned(),
            PreviewUrlError::PreviewUrlNotConfigured => "Preview URL not configured".to_owned(),
            PreviewUrlError::AccessDenied => "Access denied".to_owned(),
            PreviewUrlError::Database(e) => concat("Database error: ", e.as_str()),
            PreviewUrlError::SeaOrm(e) => concat("SeaORM error: ", e.as_str()),
        }
    }
}

/// The parts of a link between its first and its last, as one name.
pub open spec fn service_part(parts: Seq<Seq<char>>) -> Seq<char> {
    join(parts.subrange(1, parts.len() - 1), "-"@)
}

/// An environment as the database keeps it.
#[derive(Debug)]
pub struct EnvironmentRecord {
    pub id: u128,
    pub cluster_id: u128,
    pub namespace: String,
    pub organization_id: u128,
}

/// A service of an environment as the database keeps it.
#[derive(Debug)]
pub struct ServiceRecord {
    pub id: u128,
    pub name: String,
}

/// A preview link as the database keeps it. The access level is missing where
/// it cannot be read.
#[derive(Debug)]
pub struct PreviewUrlRecord {
    pub id: u128,
    pub access_level: Option<PreviewUrlAccessLevel>,
    pub protocol: String,
}

/// Finds out what a preview link leads to.
#[derive(Debug)]
pub struct PreviewUrlResolver;

impl PreviewUrlResolver {
    /// Reads the first label of the host of a preview link, which is a port,
    /// the name of a service and the hash of an environment, with hyphens
    /// between them. The name may hold hyphens itself.
    pub fn parse_preview_url(subdomain: &str) -> (r: Result<PreviewUrlInfo, PreviewUrlError>)
        ensures
            ({
                let parts = split(subdomain@, '-');
                match r {
                    Ok(info) => {
                        &&& parts.len() >= 3
                        &&& bounded_value(parts[0], 65535) == Some(info.port as nat)
                        &&& info.service_name@ == service_part(parts)
                        &&& info.environment_hash@ == parts.last()
                    },
                    Err(PreviewUrlError::InvalidFormat) => parts.len() < 3,
                    Err(PreviewUrlError::InvalidPort) => parts.len() >= 3 && bounded_value(
                        parts[0],
                        65535,
                    ) is None,
                    Err(_) => false,
                }
            }),
    {
        let parts: Vec<String> = split_string(subdomain, '-');
        let ghost all = views(parts@);
        if parts.len() < 3 {
            return Err(PreviewUrlError::InvalidFormat);
        }
        let port: u16 = match parse_unsigned(parts[0].as_str(), 65535) {
            Some(p) => p as u16,
            None => {
                return Err(PreviewUrlError::InvalidPort);
            },
        };
        let count: usize = parts.len();
        let mut middle: Vec<String> = Vec::new();
        let mut i: usize = 1;
        while i < count - 1
            invariant
                1 <= i <= count - 1,
                count == parts@.len(),
                all == views(parts@),
                views(middle@) =~= all.subrange(1, i as int),
            decreases count - i,
        {
            let part: String = parts[i].clone();
            proof {
                lemma_views_push(middle@, part);
            }
            middle.push(part);
            i = i + 1;
        }
        let service_name: String = join_strings(&middle, "-");
        Ok(PreviewUrlInfo { service_name, port, environment_hash: parts[count - 1].clone() })
    }

    /// What a link leads to, by what the database holds of it: the
    /// environment with the hash, its service with the name, and the preview
    /// link for that service and port.
    pub fn resolve_preview_url(
        info: PreviewUrlInfo,
        environment: Option<EnvironmentRecord>,
        service: Option<ServiceRecord>,
        preview_url: Option<PreviewUrlRecord>,
    ) -> (r: Result<PreviewUrlTarget, PreviewUrlError>)
        ensures
            match r {
                Ok(target) => {
                    &&& environment matches Some(e)
                    &&& service matches Some(s)
                    &&& preview_url matches Some(p)
                    &&& p.access_level == Some(target.access_level)
                    &&& target.cluster_id == e.cluster_id
                    &&& target.namespace == e.namespace
                    &&& target.service_name == s.name
                    &&& target.service_port == info.port
                    &&& target.protocol == p.protocol
                    &&& target.environment_id == e.id
                    &&& target.organization_id == e.organization_id
                    &&& target.preview_url_id == p.id
                },
                Err(PreviewUrlError::EnvironmentNotFound) => environment is None,
                Err(PreviewUrlError::ServiceNotFound) => environment is Some && service is None,
                Err(PreviewUrlError::PreviewUrlNotConfigured) => environment is Some
                    && service is Some && preview_url is None,
                Err(PreviewUrlError::AccessDenied) => environment is Some && service is Some && (
                preview_url matches Some(p) && p.access_level is None),
                Err(_) => false,
            },
    {
        let e: EnvironmentRecord = match environment {
            Some(e) => e,
            None => {
                return Err(PreviewUrlError::EnvironmentNotFound);
            },
        };
        let s: ServiceRecord = match service {
            Some(s) => s,
            None => {
                return Err(PreviewUrlError::ServiceNotFound);
            },
        };
        let p: PreviewUrlRecord = match preview_url {
            Some(p) => p,
            None => {
                return Err(PreviewUrlError::PreviewUrlNotConfigured);
            },
        };
        let access_level: PreviewUrlAccessLevel = match p.access_level {
            Some(level) => level,
            None => {
                return Err(PreviewUrlError::AccessDenied);
            },
        };
        Ok(
            PreviewUrlTarget {
                cluster_id: e.cluster_id,
                namespace: e.namespace,
                service_name: s.name,
                service_port: info.port,
                access_level,
                protocol: p.protocol,
                environment_id: e.id,
                organization_id: e.organization_id,
                preview_url_id: p.id,
            },
        )
    }
}

// ---------------------------------------------------------------------------
// Laws
// ---------------------------------------------------------------------------

/// How a preview link is written.
pub open spec fn preview_label(port: u16, service: Seq<char>, hash: Seq<char>) -> Seq<char> {
    decimal(port as nat) + "-"@ + service + "-"@ + hash
}

proof fn lemma_join_prepend(first: Seq<char>, rest: Seq<Seq<char>>, sep: Seq<char>)
    requires
        rest.len() > 0,
    ensures
        join(seq![first] + rest, sep) == first + sep + join(rest, sep),
    decreases rest.len(),
{
    let all = seq![first] + rest;
    if rest.len() == 1 {
        assert(all.drop_last() =~= seq![first]);
        assert(all.last() == rest[0]);
        assert(join(seq![first], sep) == first);
        assert(join(all, sep) == first + sep + rest[0]);
    } else {
        lemma_join_prepend(first, rest.drop_last(), sep);
        assert(all.drop_last() =~= seq![first] + rest.drop_last());
        assert(all.last() == rest.last());
        assert(join(all, sep) =~= first + sep + join(rest, sep));
    }
}

proof fn lemma_join_split(s: Seq<char>, sep: char)
    ensures
        join(split(s, sep), seq![sep]) == s,
        split(s, sep).len() > 0,
    decreases s.len(),
{
    lemma_first_index(s, sep);
    let n = first_index(s, sep) as int;
    if n < s.len() {
        lemma_join_split(s.skip(n + 1), sep);
        lemma_join_prepend(s.take(n), split(s.skip(n + 1), sep), seq![sep]);
        assert(s.take(n) + seq![sep] + s.skip(n + 1) =~= s);
    }
}

proof fn lemma_split_prepend(a: Seq<char>, sep: char, b: Seq<char>)
    requires
        forall|i: int| 0 <= i < a.len() ==> a[i] != sep,
    ensures
        split(a + seq![sep] + b, sep) == seq![a] + split(b, sep),
{
    let whole = a + seq![sep] + b;
    lemma_first_index(whole, sep);
    let n = first_index(whole, sep) as int;
    assert(whole[a.len() as int] == sep);
    assert forall|i: int| 0 <= i < a.len() implies whole[i] != sep by {
        assert(whole[i] == a[i]);
    }
    assert(n == a.len());
    assert(whole.take(n) =~= a);
    assert(whole.skip(n + 1) =~= b);
}

/// A link that is written as a port, a service and a hash without hyphens is
/// read as that port, that service and that hash.
pub proof fn law_preview_label_round_trip(port: u16, service: Seq<char>, hash: Seq<char>)
    requires
        forall|i: int| 0 <= i < hash.len() ==> hash[i] != '-',
    ensures
        ({
            let parts = split(preview_label(port, service, hash), '-');
            &&& parts.len() >= 3
            &&& bounded_value(parts[0], 65535) == Some(port as nat)
            &&& service_part(parts) == service
            &&& parts.last() == hash
        }),
{
    reveal_strlit("-");
    assert("-"@ =~= seq!['-']);
    let digits = decimal(port as nat);
    law_decimal_round_trip(port as nat);
    crate::text::lemma_decimal_digits(port as nat);
    assert forall|i: int| 0 <= i < digits.len() implies digits[i] != '-' by {
        assert(crate::text::is_digit(digits[i]));
    }
    let label = preview_label(port, service, hash);
    let head = digits + seq!['-'] + service;
    assert(label =~= head + seq!['-'] + hash);
    lemma_split_append(head, '-', hash);
    lemma_split_prepend(digits, '-', service);
    lemma_join_split(service, '-');
    let parts = split(label, '-');
    let middle = split(service, '-');
    assert(parts == (seq![digits] + middle).push(hash));
    assert(parts.len() == middle.len() + 2);
    assert(parts[0] == digits);
    assert(parts.last() == hash);
    assert(parts.subrange(1, parts.len() - 1) =~= middle);
}

/// A link that is written as a port, a service and a hash without hyphens
/// leads to that port, that service and that hash.
pub proof fn law_written_link_is_read(
    subdomain: &str,
    r: Result<PreviewUrlInfo, PreviewUrlError>,
    port: u16,
    service: Seq<char>,
    hash: Seq<char>,
)
    requires
        call_ensures(PreviewUrlResolver::parse_preview_url, (subdomain,), r),
        subdomain@ == decimal(port as nat) + "-"@ + service + "-"@ + hash,
        forall|i: int| 0 <= i < hash.len() ==> hash[i] != '-',
    ensures
        r matches Ok(info) && info.port == port && info.service_name@ == service
            && info.environment_hash@ == hash,
{
    law_preview_label_round_trip(port, service, hash);
}

/// What is read from a link is all of the link: the number that it begins
/// with, the service, and the hash, with hyphens between them. A link of fewer
/// than three parts has no such form, and one that begins with no port number
/// has no port.
pub proof fn law_read_link_is_the_link(
    subdomain: &str,
    r: Result<PreviewUrlInfo, PreviewUrlError>,
)
    requires
        call_ensures(PreviewUrlResolver::parse_preview_url, (subdomain,), r),
    ensures
        match r {
            Ok(info) => exists|first: Seq<char>| #[trigger]
                bounded_value(first, 65535) == Some(info.port as nat) && subdomain@ == first + "-"@
                    + info.service_name@ + "-"@ + info.environment_hash@,
            Err(PreviewUrlError::InvalidFormat) => split(subdomain@, '-').len() < 3,
            Err(PreviewUrlError::InvalidPort) => split(subdomain@, '-').len() >= 3
                && bounded_value(split(subdomain@, '-')[0], 65535) is None,
            Err(_) => false,
        },
{
    if let Ok(info) = r {
        reveal_strlit("-");
        assert("-"@ =~= seq!['-']);
        let parts = split(subdomain@, '-');
        let middle = parts.subrange(1, parts.len() - 1);
        lemma_join_split(subdomain@, '-');
        assert(parts =~= (seq![parts[0]] + middle).push(parts.last()));
        let front = seq![parts[0]] + middle;
        assert(parts.drop_last() =~= front);
        lemma_join_prepend(parts[0], middle, seq!['-']);
        assert(join(parts, seq!['-']) == join(front, seq!['-']) + seq!['-'] + parts.last());
        assert(subdomain@ =~= parts[0] + "-"@ + info.service_name@ + "-"@
            + info.environment_hash@);
        assert(bounded_value(parts[0], 65535) == Some(info.port as nat));
    }
}

/// A link leads somewhere just where its environment, its service and its
/// preview are known and the preview says who may follow it. What is missing
/// first is what is told.
pub proof fn law_link_is_resolved(
    info: PreviewUrlInfo,
    environment: Option<EnvironmentRecord>,
    service: Option<ServiceRecord>,
    preview: Option<PreviewUrlRecord>,
    r: Result<PreviewUrlTarget, PreviewUrlError>,
)
    requires
        call_ensures(
            PreviewUrlResolver::resolve_preview_url,
            (info, environment, service, preview),
            r,
        ),
    ensures
        (r is Ok) == (environment is Some && service is Some && (preview matches Some(p)
            && p.access_level is Some)),
        r matches Ok(target) ==> {
            &&& target.cluster_id == environment->0.cluster_id
            &&& target.namespace@ == environment->0.namespace@
            &&& target.environment_id == environment->0.id
            &&& target.organization_id == environment->0.organization_id
            &&& target.service_name@ == service->0.name@
            &&& target.service_port == info.port
            &&& target.access_level == preview->0.access_level->0
            &&& target.protocol@ == preview->0.protocol@
            &&& target.preview_url_id == preview->0.id
        },
        environment is None ==> r matches Err(PreviewUrlError::EnvironmentNotFound),
        environment is Some && service is None ==> r matches Err(PreviewUrlError::ServiceNotFound),
        environment is Some && service is Some && preview is None ==> r matches Err(
            PreviewUrlError::PreviewUrlNotConfigured,
        ),
{
}

} // verus!
