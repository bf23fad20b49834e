//! What a cluster offers: its nodes' resources, its provider and its region.
use crate::json::{
    get_in, json_of_texts, json_with, law_member_set, member, member_of, only_texts, text_in, text_of,
    texts_in, texts_of, Json, JsonView,
};
use crate::kube_rpc::NamespacedResourceResponse;
use crate::text::{
    concat, concat3, contains, ends_with, format_i64, is_digit, is_digits, is_text_le, occurs_at, opt_text, parse_i64,
    signed_decimal, signed_value, starts_with, strip_suffixes, text_le, trim, trim_end_matches,
    trim_string,
};
use crate::text_map::{text_values, TextMap};
use vstd::prelude::*;

verus! {

// ---------------------------------------------------------------------------
// Quantities
// ---------------------------------------------------------------------------

/// The number that a text writes, or zero where it writes none that an `i64`
/// holds.
pub open spec fn number_or_zero(s: Seq<char>) -> int {
    match signed_value(s) {
        Some(v) => if i64::MIN <= v <= i64::MAX {
            v
        } else {
            0
        },
        None => 0,
    }
}

fn read_number_or_zero(s: &str) -> (r: i64)
    ensures
        r == number_or_zero(s@),
{
    match parse_i64(s) {
        Some(v) => v,
        None => 0,
    }
}

/// The thousandths of a CPU that a quantity stands for.
pub open spec fn cpu_millicores(quantity: Option<Seq<char>>) -> int {
    match quantity {
        Some(q) => if "m"@.is_suffix_of(q) {
            number_or_zero(strip_suffixes(q, "m"@))
        } else {
            number_or_zero(q) * 1000
        },
        None => 0,
    }
}

/// The bytes of memory that a quantity stands for.
pub open spec fn memory_bytes(quantity: Option<Seq<char>>) -> int {
    match quantity {
        Some(q) => if "Ki"@.is_suffix_of(q) {
            number_or_zero(strip_suffixes(q, "Ki"@)) * 1024
        } else if "Mi"@.is_suffix_of(q) {
            number_or_zero(strip_suffixes(q, "Mi"@)) * 1048576
        } else if "Gi"@.is_suffix_of(q) {
            number_or_zero(strip_suffixes(q, "Gi"@)) * 1073741824
        } else {
            0
        },
        None => 0,
    }
}

proof fn lemma_number_end(t: Seq<char>)
    requires
        signed_value(t) is Some,
    ensures
        t.len() > 0,
        is_digit(t.last()),
{
    let rest = t.drop_first();
    if t.len() > 0 && (t[0] == '-' || t[0] == '+') {
        assert(is_digits(rest));
        assert(rest.last() == t.last());
        assert(is_digit(rest[rest.len() - 1]));
    } else {
        assert(is_digits(t));
        assert(is_digit(t[t.len() - 1]));
    }
}

proof fn lemma_unit_stripped(t: Seq<char>, unit: Seq<char>)
    requires
        signed_value(t) is Some,
        unit.len() > 0,
        !is_digit(unit.last()),
    ensures
        unit.is_suffix_of(t + unit),
        strip_suffixes(t + unit, unit) == t,
{
    lemma_number_end(t);
    let all = t + unit;
    assert(all.subrange(all.len() - unit.len(), all.len() as int) =~= unit);
    assert(all.take(all.len() - unit.len()) =~= t);
    if unit.is_suffix_of(t) {
        assert(t.subrange(t.len() - unit.len(), t.len() as int)[unit.len() - 1] == t.last());
    }
    assert(strip_suffixes(t, unit) == t);
}

/// A number before a unit of memory stands for so many times the unit.
pub proof fn law_memory_units(number: Seq<char>, n: int)
    requires
        signed_value(number) == Some(n),
        i64::MIN <= n <= i64::MAX,
    ensures
        memory_bytes(Some(number + "Ki"@)) == n * 1024,
        memory_bytes(Some(number + "Mi"@)) == n * 1048576,
        memory_bytes(Some(number + "Gi"@)) == n * 1073741824,
{
    reveal_strlit("Ki");
    reveal_strlit("Mi");
    reveal_strlit("Gi");
    lemma_unit_stripped(number, "Ki"@);
    lemma_unit_stripped(number, "Mi"@);
    lemma_unit_stripped(number, "Gi"@);
    let mi = number + "Mi"@;
    let gi = number + "Gi"@;
    let k = number.len() as int;
    assert(mi[k] == 'M' && gi[k] == 'G');
    assert(mi.subrange(k, k + 2)[0] == 'M');
    assert(gi.subrange(k, k + 2)[0] == 'G');
    assert(!"Ki"@.is_suffix_of(mi));
    assert(!"Ki"@.is_suffix_of(gi));
    assert(!"Mi"@.is_suffix_of(gi));
}

/// Equal amounts of memory in different units read alike.
pub proof fn law_equal_memory_reads_alike(gi: Seq<char>, mi: Seq<char>, ki: Seq<char>, n: int)
    requires
        signed_value(gi) == Some(n),
        signed_value(mi) == Some(n * 1024),
        signed_value(ki) == Some(n * 1048576),
        i64::MIN <= n * 1048576 <= i64::MAX,
    ensures
        memory_bytes(Some(gi + "Gi"@)) == memory_bytes(Some(mi + "Mi"@)),
        memory_bytes(Some(gi + "Gi"@)) == memory_bytes(Some(ki + "Ki"@)),
{
    law_memory_units(gi, n);
    law_memory_units(mi, n * 1024);
    law_memory_units(ki, n * 1048576);
}

/// A number of CPUs reads as a thousand times as many thousandths.
pub proof fn law_equal_cpu_reads_alike(cores: Seq<char>, millis: Seq<char>, n: int)
    requires
        signed_value(cores) == Some(n),
        signed_value(millis) == Some(n * 1000),
        i64::MIN <= n * 1000 <= i64::MAX,
    ensures
        cpu_millicores(Some(cores)) == n * 1000,
        cpu_millicores(Some(millis + "m"@)) == n * 1000,
{
    reveal_strlit("m");
    lemma_unit_stripped(millis, "m"@);
    lemma_number_end(cores);
    if "m"@.is_suffix_of(cores) {
        assert(cores.subrange(cores.len() - 1, cores.len() as int)[0] == cores.last());
    }
}

/// An optional text by its characters.
pub open spec fn opt_str(s: Option<&str>) -> Option<Seq<char>> {
    match s {
        Some(t) => Some(t@),
        None => None,
    }
}

/// Reads a CPU quantity. What it stands for has to fit.
pub fn parse_cpu_resource(quantity: Option<&str>) -> (r: i64)
    requires
        i64::MIN <= cpu_millicores(opt_str(quantity)) <= i64::MAX,
    ensures
        r == cpu_millicores(opt_str(quantity)),
{
    match quantity {
        Some(q) => {
            if ends_with(q, "m") {
                let digits: String = trim_end_matches(q, "m");
                read_number_or_zero(digits.as_str())
            } else {
                read_number_or_zero(q) * 1000
            }
        },
        None => 0,
    }
}

/// Reads a memory quantity. What it stands for has to fit.
pub fn parse_memory_resource(quantity: Option<&str>) -> (r: i64)
    requires
        i64::MIN <= memory_bytes(opt_str(quantity)) <= i64::MAX,
    ensures
        r == memory_bytes(opt_str(quantity)),
{
    match quantity {
        Some(q) => {
            if ends_with(q, "Ki") {
                let digits: String = trim_end_matches(q, "Ki");
                read_number_or_zero(digits.as_str()) * 1024
            } else if ends_with(q, "Mi") {
                let digits: String = trim_end_matches(q, "Mi");
                read_number_or_zero(digits.as_str()) * 1048576
            } else if ends_with(q, "Gi") {
                let digits: String = trim_end_matches(q, "Gi");
                read_number_or_zero(digits.as_str()) * 1073741824
            } else {
                0
            }
        },
        None => 0,
    }
}

// ---------------------------------------------------------------------------
// Nodes
// ---------------------------------------------------------------------------

/// A node of a cluster as far as it matters here.
#[derive(Debug)]
pub struct NodeInfo {
    pub provider_id: Option<String>,
    pub labels: Option<TextMap<String>>,
    pub allocatable: Option<TextMap<String>>,
}

/// What a resource of a node comes to, in text.
pub open spec fn allocatable_of(node: NodeInfo, key: Seq<char>) -> Option<Seq<char>> {
    match node.allocatable {
        Some(m) => if m.texts().contains_key(key) {
            Some(m.texts()[key])
        } else {
            None
        },
        None => None,
    }
}

/// The CPU of all nodes.
pub open spec fn total_cpu(nodes: Seq<NodeInfo>) -> int
    decreases nodes.len(),
{
    if nodes.len() == 0 {
        0
    } else {
        total_cpu(nodes.drop_last()) + cpu_millicores(allocatable_of(nodes.last(), "cpu"@))
    }
}

/// The memory of all nodes.
pub open spec fn total_memory(nodes: Seq<NodeInfo>) -> int
    decreases nodes.len(),
{
    if nodes.len() == 0 {
        0
    } else {
        total_memory(nodes.drop_last()) + memory_bytes(allocatable_of(nodes.last(), "memory"@))
    }
}

/// Every quantity and every sum up to a node fits.
pub open spec fn sums_fit(nodes: Seq<NodeInfo>) -> bool {
    &&& forall|i: int|
        0 <= i < nodes.len() ==> {
            let n = #[trigger] nodes[i];
            &&& i64::MIN <= cpu_millicores(allocatable_of(n, "cpu"@)) <= i64::MAX
            &&& i64::MIN <= memory_bytes(allocatable_of(n, "memory"@)) <= i64::MAX
        }
    &&& forall|i: int|
        0 <= i <= nodes.len() ==> {
            let t = #[trigger] nodes.take(i);
            &&& i64::MIN <= total_cpu(t) <= i64::MAX
            &&& i64::MIN <= total_memory(t) <= i64::MAX
        }
}

fn allocatable_in<'a>(node: &'a NodeInfo, key: &str) -> (r: Option<&'a str>)
    ensures
        opt_str(r) == allocatable_of(*node, key@),
{
    match &node.allocatable {
        Some(m) => match m.get(key) {
            Some(t) => Some(t.as_str()),
            None => None,
        },
        None => None,
    }
}

/// Adds up the CPU and the memory of all nodes.
pub fn calculate_cluster_resources(nodes: &Vec<NodeInfo>) -> (r: (i64, i64))
    requires
        sums_fit(nodes@),
    ensures
        r.0 == total_cpu(nodes@),
        r.1 == total_memory(nodes@),
{
    let mut cpu: i64 = 0;
    let mut memory: i64 = 0;
    let mut i: usize = 0;
    while i < nodes.len()
        invariant
            sums_fit(nodes@),
            i <= nodes@.len(),
            cpu == total_cpu(nodes@.take(i as int)),
            memory == total_memory(nodes@.take(i as int)),
        decreases nodes@.len() - i,
    {
        proof {
            assert(nodes@.take(i as int + 1).drop_last() =~= nodes@.take(i as int));
            assert(nodes@.take(i as int + 1).last() == nodes@[i as int]);
        }
        let node: &NodeInfo = &nodes[i];
        cpu = cpu + parse_cpu_resource(allocatable_in(node, "cpu"));
        memory = memory + parse_memory_resource(allocatable_in(node, "memory"));
        i = i + 1;
    }
    proof {
        assert(nodes@.take(nodes@.len() as int) =~= nodes@);
    }
    (cpu, memory)
}

/// A number that fits.
pub open spec fn fits(x: int) -> bool {
    i64::MIN <= x <= i64::MAX
}

fn in_range(x: i128) -> (r: bool)
    ensures
        r == fits(x as int),
{
    i64::MIN as i128 <= x && x <= i64::MAX as i128
}

fn wide_cpu(quantity: Option<&str>) -> (r: i128)
    ensures
        r == cpu_millicores(opt_str(quantity)),
        -0x1_0000_0000_0000_0000_0000 <= r <= 0x1_0000_0000_0000_0000_0000,
{
    match quantity {
        Some(q) => {
            if ends_with(q, "m") {
                let digits: String = trim_end_matches(q, "m");
                read_number_or_zero(digits.as_str()) as i128
            } else {
                read_number_or_zero(q) as i128 * 1000
            }
        },
        None => 0,
    }
}

fn wide_memory(quantity: Option<&str>) -> (r: i128)
    ensures
        r == memory_bytes(opt_str(quantity)),
        -0x1_0000_0000_0000_0000_0000_0000 <= r <= 0x1_0000_0000_0000_0000_0000_0000,
{
    match quantity {
        Some(q) => {
            if ends_with(q, "Ki") {
                let digits: String = trim_end_matches(q, "Ki");
                read_number_or_zero(digits.as_str()) as i128 * 1024
            } else if ends_with(q, "Mi") {
                let digits: String = trim_end_matches(q, "Mi");
                read_number_or_zero(digits.as_str()) as i128 * 1048576
            } else if ends_with(q, "Gi") {
                let digits: String = trim_end_matches(q, "Gi");
                read_number_or_zero(digits.as_str()) as i128 * 1073741824
            } else {
                0
            }
        },
        None => 0,
    }
}

/// Tells whether the resources of all nodes can be added up.
pub fn resources_fit(nodes: &Vec<NodeInfo>) -> (r: bool)
    ensures
        r == sums_fit(nodes@),
{
    let mut cpu: i128 = 0;
    let mut memory: i128 = 0;
    let mut i: usize = 0;
    while i < nodes.len()
        invariant
            i <= nodes@.len(),
            cpu == total_cpu(nodes@.take(i as int)),
            memory == total_memory(nodes@.take(i as int)),
            fits(cpu as int),
            fits(memory as int),
            forall|k: int|
                0 <= k < i ==> {
                    let n = #[trigger] nodes@[k];
                    &&& i64::MIN <= cpu_millicores(allocatable_of(n, "cpu"@)) <= i64::MAX
                    &&& i64::MIN <= memory_bytes(allocatable_of(n, "memory"@)) <= i64::MAX
                },
            forall|k: int|
                0 <= k <= i ==> {
                    let t = #[trigger] nodes@.take(k);
                    &&& i64::MIN <= total_cpu(t) <= i64::MAX
                    &&& i64::MIN <= total_memory(t) <= i64::MAX
                },
        decreases nodes@.len() - i,
    {
        let ghost next = nodes@.take(i as int + 1);
        proof {
            assert(next.drop_last() =~= nodes@.take(i as int));
            assert(next.last() == nodes@[i as int]);
        }
        let node: &NodeInfo = &nodes[i];
        let node_cpu: i128 = wide_cpu(allocatable_in(node, "cpu"));
        let node_memory: i128 = wide_memory(allocatable_in(node, "memory"));
        cpu = cpu + node_cpu;
        memory = memory + node_memory;
        if !in_range(node_cpu) || !in_range(node_memory) || !in_range(cpu) || !in_range(memory) {
            proof {
                assert(total_cpu(next) == cpu);
                assert(total_memory(next) == memory);
            }
            return false;
        }
        i = i + 1;
    }
    true
}

// ---------------------------------------------------------------------------
// Provider and region
// ---------------------------------------------------------------------------

/// Who runs a cluster.
#[derive(Debug, Clone, Copy, PartialEq, Eq, Structural)]
pub enum Provider {
    Aws,
    Gcp,
    Azure,
}

impl Provider {
    /// The name of a provider.
    pub open spec fn text(&self) -> Seq<char> {
        match self {
            Provider::Aws => "AWS"@,
            Provider::Gcp => "GCP"@,
            Provider::Azure => "Azure"@,
        }
    }

    pub fn name(&self) -> (r: &'static str)
        ensures
            r@ == self.text(),
    {
        match self {
            Provider::Aws => "AWS",
            Provider::Gcp => "GCP",
            Provider::Azure => "Azure",
        }
    }
}

/// The provider that a node's provider id shows.
pub open spec fn provider_by_id(id: Seq<char>) -> Option<Provider> {
    if "aws:///"@.is_prefix_of(id) {
        Some(Provider::Aws)
    } else if "gce://"@.is_prefix_of(id) {
        Some(Provider::Gcp)
    } else if "azure:///"@.is_prefix_of(id) {
        Some(Provider::Azure)
    } else {
        None
    }
}

pub fn detect_provider_from_provider_id(provider_id: &str) -> (r: Option<Provider>)
    ensures
        r == provider_by_id(provider_id@),
{
    if starts_with(provider_id, "aws:///") {
        Some(Provider::Aws)
    } else if starts_with(provider_id, "gce://") {
        Some(Provider::Gcp)
    } else if starts_with(provider_id, "azure:///") {
        Some(Provider::Azure)
    } else {
        None
    }
}

/// The text begins with one of these characters.
pub open spec fn begins_with_any(s: Seq<char>, chars: Seq<char>) -> bool {
    s.len() > 0 && chars.contains(s[0])
}

/// The provider that an instance type shows.
pub open spec fn provider_by_instance(instance: Seq<char>) -> Option<Provider> {
    if begins_with_any(instance, seq!['m', 'c', 'r', 't', 'a', 'i']) {
        Some(Provider::Aws)
    } else if begins_with_any(instance, seq!['n', 'e']) || exists|i: int| #[trigger]
        occurs_at(instance, "standard"@, i) {
        Some(Provider::Gcp)
    } else if "Standard_"@.is_prefix_of(instance) {
        Some(Provider::Azure)
    } else {
        None
    }
}

fn does_begin_with(s: &str, c: char) -> (r: bool)
    ensures
        r == (s@.len() > 0 && s@[0] == c),
{
    let chars: Vec<char> = crate::text::chars_of(s);
    chars.len() > 0 && chars[0] == c
}

pub fn detect_provider_from_instance_type(instance_type: &str) -> (r: Option<Provider>)
    ensures
        r == provider_by_instance(instance_type@),
{
    proof {
        let s = instance_type@;
        let aws = seq!['m', 'c', 'r', 't', 'a', 'i'];
        let gcp = seq!['n', 'e'];
        assert(aws[0] == 'm' && aws[1] == 'c' && aws[2] == 'r' && aws[3] == 't' && aws[4] == 'a'
            && aws[5] == 'i');
        assert(gcp[0] == 'n' && gcp[1] == 'e');
        assert(begins_with_any(s, aws) == (s.len() > 0 && (s[0] == 'm' || s[0] == 'c' || s[0] == 'r'
            || s[0] == 't' || s[0] == 'a' || s[0] == 'i')));
        assert(begins_with_any(s, gcp) == (s.len() > 0 && (s[0] == 'n' || s[0] == 'e')));
    }
    if does_begin_with(instance_type, 'm') || does_begin_with(instance_type, 'c')
        || does_begin_with(instance_type, 'r') || does_begin_with(instance_type, 't')
        || does_begin_with(instance_type, 'a') || does_begin_with(instance_type, 'i') {
        Some(Provider::Aws)
    } else if does_begin_with(instance_type, 'n') || does_begin_with(instance_type, 'e') || contains(
        instance_type,
        "standard",
    ) {
        Some(Provider::Gcp)
    } else if starts_with(instance_type, "Standard_") {
        Some(Provider::Azure)
    } else {
        None
    }
}

/// The provider that a node's labels show.
pub open spec fn provider_by_labels(labels: Map<Seq<char>, Seq<char>>) -> Option<Provider> {
    if labels.contains_key("eks.amazonaws.com/nodegroup"@) || labels.contains_key(
        "alpha.eksctl.io/nodegroup-name"@,
    ) || labels.contains_key("karpenter.sh/nodepool"@) {
        Some(Provider::Aws)
    } else if labels.contains_key("cloud.google.com/gke-nodepool"@) || labels.contains_key(
        "cloud.google.com/machine-family"@,
    ) || labels.contains_key("topology.gke.io/zone"@) {
        Some(Provider::Gcp)
    } else if labels.contains_key("kubernetes.azure.com/nodepool-name"@) || labels.contains_key(
        "agentpool"@,
    ) || labels.contains_key("azure.microsoft.com/machine"@) {
        Some(Provider::Azure)
    } else {
        None
    }
}

pub fn detect_provider_from_labels(labels: &TextMap<String>) -> (r: Option<Provider>)
    ensures
        r == provider_by_labels(labels.texts()),
{
    if labels.contains_key("eks.amazonaws.com/nodegroup") || labels.contains_key(
        "alpha.eksctl.io/nodegroup-name",
    ) || labels.contains_key("karpenter.sh/nodepool") {
        Some(Provider::Aws)
    } else if labels.contains_key("cloud.google.com/gke-nodepool") || labels.contains_key(
        "cloud.google.com/machine-family",
    ) || labels.contains_key("topology.gke.io/zone") {
        Some(Provider::Gcp)
    } else if labels.contains_key("kubernetes.azure.com/nodepool-name") || labels.contains_key(
        "agentpool",
    ) || labels.contains_key("azure.microsoft.com/machine") {
        Some(Provider::Azure)
    } else {
        None
    }
}

/// The provider that the provider ids show: that of the first node whose id
/// shows one.
pub open spec fn provider_by_ids(nodes: Seq<NodeInfo>) -> Option<Provider>
    decreases nodes.len(),
{
    if nodes.len() == 0 {
        None
    } else {
        match (match nodes[0].provider_id {
            Some(id) => provider_by_id(id@),
            None => None,
        }) {
            Some(p) => Some(p),
            None => provider_by_ids(nodes.drop_first()),
        }
    }
}

/// The value of a label.
pub open spec fn label_of(labels: Map<Seq<char>, Seq<char>>, key: Seq<char>) -> Option<Seq<char>> {
    if labels.contains_key(key) {
        Some(labels[key])
    } else {
        None
    }
}

/// The provider that one node's labels show, itself or by the instance type.
pub open spec fn provider_of_node(node: NodeInfo) -> Option<Provider> {
    match node.labels {
        Some(m) => match provider_by_labels(m.texts()) {
            Some(p) => Some(p),
            None => match label_of(m.texts(), "node.kubernetes.io/instance-type"@) {
                Some(instance) => provider_by_instance(instance),
                None => None,
            },
        },
        None => None,
    }
}

/// The region that one node's labels show.
pub open spec fn region_of_node(node: NodeInfo) -> Option<Seq<char>> {
    match node.labels {
        Some(m) => match label_of(m.texts(), "topology.kubernetes.io/region"@) {
            Some(r) => Some(r),
            None => label_of(m.texts(), "failure-domain.beta.kubernetes.io/region"@),
        },
        None => None,
    }
}

/// The provider that the labels show: that of the first node that shows one.
pub open spec fn provider_by_nodes(nodes: Seq<NodeInfo>) -> Option<Provider>
    decreases nodes.len(),
{
    if nodes.len() == 0 {
        None
    } else {
        match provider_of_node(nodes[0]) {
            Some(p) => Some(p),
            None => provider_by_nodes(nodes.drop_first()),
        }
    }
}

/// The region: that of the first node that shows one.
pub open spec fn region_by_nodes(nodes: Seq<NodeInfo>) -> Option<Seq<char>>
    decreases nodes.len(),
{
    if nodes.len() == 0 {
        None
    } else {
        match region_of_node(nodes[0]) {
            Some(r) => Some(r),
            None => region_by_nodes(nodes.drop_first()),
        }
    }
}

/// The provider of a cluster: provider ids go before labels.
pub open spec fn cluster_provider(nodes: Seq<NodeInfo>) -> Option<Provider> {
    match provider_by_ids(nodes) {
        Some(p) => Some(p),
        None => provider_by_nodes(nodes),
    }
}

fn find_provider_by_ids(nodes: &Vec<NodeInfo>) -> (r: Option<Provider>)
    ensures
        r == provider_by_ids(nodes@),
{
    let mut i: usize = 0;
    proof {
        assert(nodes@.skip(0) =~= nodes@);
    }
    while i < nodes.len()
        invariant
            i <= nodes@.len(),
            provider_by_ids(nodes@) == provider_by_ids(nodes@.skip(i as int)),
        decreases nodes@.len() - i,
    {
        proof {
            assert(nodes@.skip(i as int)[0] == nodes@[i as int]);
            assert(nodes@.skip(i as int).drop_first() =~= nodes@.skip(i as int + 1));
        }
        if let Some(id) = &nodes[i].provider_id {
            if let Some(p) = detect_provider_from_provider_id(id.as_str()) {
                return Some(p);
            }
        }
        i = i + 1;
    }
    None
}

fn node_provider(node: &NodeInfo) -> (r: Option<Provider>)
    ensures
        r == provider_of_node(*node),
{
    match &node.labels {
        Some(labels) => match detect_provider_from_labels(labels) {
            Some(p) => Some(p),
            None => match labels.get("node.kubernetes.io/instance-type") {
                Some(instance) => detect_provider_from_instance_type(instance.as_str()),
                None => None,
            },
        },
        None => None,
    }
}

fn node_region(node: &NodeInfo) -> (r: Option<String>)
    ensures
        opt_text(r) == region_of_node(*node),
{
    match &node.labels {
        Some(labels) => match labels.get("topology.kubernetes.io/region") {
            Some(r) => Some(r.clone()),
            None => match labels.get("failure-domain.beta.kubernetes.io/region") {
                Some(r) => Some(r.clone()),
                None => None,
            },
        },
        None => None,
    }
}

/// Finds the provider and the region of a cluster.
pub fn detect_provider_and_region(nodes: &Vec<NodeInfo>) -> (r: (Option<Provider>, Option<String>))
    ensures
        r.0 == cluster_provider(nodes@),
        opt_text(r.1) == region_by_nodes(nodes@),
{
    let mut provider: Option<Provider> = find_provider_by_ids(nodes);
    let mut region: Option<String> = None;
    let mut i: usize = 0;
    proof {
        assert(nodes@.skip(0) =~= nodes@);
    }
    while i < nodes.len() && (provider.is_none() || region.is_none())
        invariant
            i <= nodes@.len(),
            match provider {
                Some(p) => cluster_provider(nodes@) == Some(p),
                None => cluster_provider(nodes@) == provider_by_nodes(nodes@.skip(i as int)),
            },
            match region {
                Some(t) => region_by_nodes(nodes@) == Some(t@),
                None => region_by_nodes(nodes@) == region_by_nodes(nodes@.skip(i as int)),
            },
        decreases nodes@.len() - i,
    {
        proof {
            assert(nodes@.skip(i as int)[0] == nodes@[i as int]);
            assert(nodes@.skip(i as int).drop_first() =~= nodes@.skip(i as int + 1));
        }
        if region.is_none() {
            region = node_region(&nodes[i]);
        }
        if provider.is_none() {
            provider = node_provider(&nodes[i]);
        }
        i = i + 1;
    }
    (provider, region)
}

// ---------------------------------------------------------------------------
// The cluster
// ---------------------------------------------------------------------------

/// How a cluster fares. A manager that reports has reached its cluster.
#[derive(Debug, Clone, Copy, PartialEq, Eq, Structural)]
pub enum KubeClusterStatus {
    Ready,
}

impl KubeClusterStatus {
    /// The word under which the status is stored.
    pub open spec fn text(&self) -> Seq<char> {
        match self {
            KubeClusterStatus::Ready => "Ready"@,
        }
    }

    pub fn name(&self) -> (r: &'static str)
        ensures
            r@ == self.text(),
    {
        match self {
            KubeClusterStatus::Ready => "Ready",
        }
    }
}

/// What is reported of a cluster.
#[derive(Debug)]
pub struct KubeClusterInfo {
    pub cluster_version: String,
    pub node_count: u32,
    pub available_cpu: String,
    pub available_memory: String,
    pub provider: Option<String>,
    pub region: Option<String>,
    pub status: KubeClusterStatus,
    pub manager_namespace: Option<String>,
}

/// An optional text where there is one, else another.
pub open spec fn or_text(a: Option<Seq<char>>, b: Option<Seq<char>>) -> Option<Seq<char>> {
    match a {
        Some(t) => Some(t),
        None => b,
    }
}

/// Puts together what is reported of a cluster. The provider and the region
/// that are configured count where the nodes show none, and the cluster is
/// always reported as ready.
pub fn cluster_info(
    major: &str,
    minor: &str,
    nodes: &Vec<NodeInfo>,
    configured_provider: Option<String>,
    configured_region: Option<String>,
    manager_namespace: Option<String>,
) -> (r: KubeClusterInfo)
    requires
        sums_fit(nodes@),
    ensures
        r.cluster_version@ == major@ + "."@ + minor@,
        r.node_count == nodes@.len() % 0x1_0000_0000,
        r.available_cpu@ == signed_decimal(total_cpu(nodes@)) + "m"@,
        r.available_memory@ == signed_decimal(total_memory(nodes@)) + "bytes"@,
        opt_text(r.provider) == or_text(
            match cluster_provider(nodes@) {
                Some(p) => Some(p.text()),
                None => None,
            },
            opt_text(configured_provider),
        ),
        opt_text(r.region) == or_text(region_by_nodes(nodes@), opt_text(configured_region)),
        r.status == KubeClusterStatus::Ready,
        r.manager_namespace == manager_namespace,
{
    let (cpu, memory) = calculate_cluster_resources(nodes);
    let (provider, region) = detect_provider_and_region(nodes);
    let cpu_text: String = format_i64(cpu);
    let memory_text: String = format_i64(memory);
    let count: u64 = nodes.len() as u64;
    assert(count as u32 == count % 0x1_0000_0000) by (bit_vector);
    KubeClusterInfo {
        cluster_version: concat3(major, ".", minor),
        node_count: count as u32,
        available_cpu: concat(cpu_text.as_str(), "m"),
        available_memory: concat(memory_text.as_str(), "bytes"),
        provider: match provider {
            Some(p) => Some(p.name().to_owned()),
            None => configured_provider,
        },
        region: match region {
            Some(t) => Some(t),
            None => configured_region,
        },
        status: KubeClusterStatus::Ready,
        manager_namespace,
    }
}

/// The namespace that a setting names: trimmed, and none where it is empty.
pub open spec fn named_namespace(raw: Option<Seq<char>>) -> Option<Seq<char>> {
    match raw {
        Some(t) => if trim(t).len() > 0 {
            Some(trim(t))
        } else {
            None
        },
        None => None,
    }
}

fn read_namespace(raw: Option<&str>) -> (r: Option<String>)
    ensures
        opt_text(r) == named_namespace(opt_str(raw)),
{
    match raw {
        Some(t) => {
            let trimmed: String = trim_string(t);
            if trimmed.as_str().is_empty() {
                None
            } else {
                Some(trimmed)
            }
        },
        None => None,
    }
}

/// The namespace of the manager: that of the environment variable, else that
/// of the service account.
pub fn detect_manager_namespace(variable: Option<&str>, account_file: Option<&str>) -> (r: Option<
    String,
>)
    ensures
        opt_text(r) == or_text(
            named_namespace(opt_str(variable)),
            named_namespace(opt_str(account_file)),
        ),
{
    match read_namespace(variable) {
        Some(ns) => Some(ns),
        None => read_namespace(account_file),
    }
}

// ---------------------------------------------------------------------------
// Namespaces
// ---------------------------------------------------------------------------

/// A namespace of a cluster.
#[derive(Debug)]
pub struct KubeNamespaceInfo {
    pub name: String,
    pub status: String,
    pub created_at: Option<String>,
}

/// `list` with one more namespace before the first of a greater name.
pub open spec fn insert_sorted(list: Seq<KubeNamespaceInfo>, x: KubeNamespaceInfo) -> Seq<
    KubeNamespaceInfo,
>
    decreases list.len(),
{
    if list.len() == 0 || text_le(list.last().name@, x.name@) {
        list.push(x)
    } else {
        insert_sorted(list.drop_last(), x).push(list.last())
    }
}

/// The namespaces in the order of their names; those of one name stay in
/// their order.
pub open spec fn by_name(list: Seq<KubeNamespaceInfo>) -> Seq<KubeNamespaceInfo>
    decreases list.len(),
{
    if list.len() == 0 {
        seq![]
    } else {
        insert_sorted(by_name(list.drop_last()), list.last())
    }
}

fn insert_namespace(list: &mut Vec<KubeNamespaceInfo>, x: KubeNamespaceInfo)
    ensures
        final(list)@ == insert_sorted(old(list)@, x),
{
    let ghost all = list@;
    let mut at: usize = list.len();
    proof {
        assert(all.take(at as int) =~= all);
        assert(insert_sorted(all.take(at as int), x) + all.skip(at as int) =~= insert_sorted(
            all,
            x,
        ));
    }
    while at > 0 && !is_text_le(list[at - 1].name.as_str(), x.name.as_str())
        invariant
            at <= list@.len(),
            list@ == all,
            insert_sorted(all.take(at as int), x) + all.skip(at as int) == insert_sorted(all, x),
        decreases at,
    {
        proof {
            let t = all.take(at as int);
            assert(t.drop_last() =~= all.take(at as int - 1));
            assert(t.last() == all[at as int - 1]);
            assert(insert_sorted(t.drop_last(), x).push(t.last()) + all.skip(at as int)
                =~= insert_sorted(t.drop_last(), x) + all.skip(at as int - 1));
        }
        at = at - 1;
    }
    proof {
        let t = all.take(at as int);
        if at > 0 {
            assert(t.last() == all[at as int - 1]);
        }
        assert(insert_sorted(t, x) == t.push(x));
        assert(all.insert(at as int, x) =~= t.push(x) + all.skip(at as int));
    }
    list.insert(at, x);
}

/// Puts namespaces in the order of their names.
pub fn sort_namespaces(list: Vec<KubeNamespaceInfo>) -> (r: Vec<KubeNamespaceInfo>)
    ensures
        r@ == by_name(list@),
{
    let ghost all = list@;
    let mut out: Vec<KubeNamespaceInfo> = Vec::new();
    proof {
        assert(all.take(0) =~= Seq::<KubeNamespaceInfo>::empty());
    }
    for x in it: list
        invariant
            it.seq() == all,
            out@ == by_name(all.take(it.index() as int)),
    {
        let ghost i = it.index() as int;
        proof {
            assert(all.take(i + 1).drop_last() =~= all.take(i));
            assert(all.take(i + 1).last() == x);
        }
        insert_namespace(&mut out, x);
    }
    proof {
        assert(all.take(all.len() as int) =~= all);
    }
    out
}

/// A namespace of a name, in a phase that may be unknown.
pub fn namespace_info(
    name: Option<String>,
    phase: Option<String>,
    created_at: Option<String>,
) -> (r: KubeNamespaceInfo)
    ensures
        r.name@ == match name {
            Some(n) => n@,
            None => Seq::<char>::empty(),
        },
        r.status@ == match phase {
            Some(p) => p@,
            None => "Unknown"@,
        },
        r.created_at == created_at,
{
    KubeNamespaceInfo {
        name: match name {
            Some(n) => n,
            None => String::new(),
        },
        status: match phase {
            Some(p) => p,
            None => "Unknown".to_owned(),
        },
        created_at,
    }
}

proof fn lemma_text_le_total(a: Seq<char>, b: Seq<char>)
    ensures
        text_le(a, b) || text_le(b, a),
    decreases a.len(),
{
    if a.len() > 0 && b.len() > 0 && a[0] == b[0] {
        lemma_text_le_total(a.drop_first(), b.drop_first());
    }
}

proof fn lemma_text_le_transitive(a: Seq<char>, b: Seq<char>, c: Seq<char>)
    requires
        text_le(a, b),
        text_le(b, c),
    ensures
        text_le(a, c),
    decreases a.len(),
{
    if a.len() > 0 && b.len() > 0 && c.len() > 0 && a[0] == b[0] && b[0] == c[0] {
        lemma_text_le_transitive(a.drop_first(), b.drop_first(), c.drop_first());
    }
}

/// The names of the list never decrease.
pub open spec fn names_sorted(list: Seq<KubeNamespaceInfo>) -> bool {
    forall|i: int, j: int|
        0 <= i < j < list.len() ==> text_le((#[trigger] list[i]).name@, (#[trigger] list[j]).name@)
}

proof fn lemma_insert_sorted(list: Seq<KubeNamespaceInfo>, x: KubeNamespaceInfo)
    requires
        names_sorted(list),
    ensures
        names_sorted(insert_sorted(list, x)),
        insert_sorted(list, x).to_multiset() == list.to_multiset().insert(x),
        forall|i: int|
            0 <= i < insert_sorted(list, x).len() ==> insert_sorted(list, x)[i] == x
                || list.contains(#[trigger] insert_sorted(list, x)[i]),
    decreases list.len(),
{
    broadcast use vstd::seq_lib::group_to_multiset_ensures;

    let r = insert_sorted(list, x);
    if list.len() == 0 {
    } else if text_le(list.last().name@, x.name@) {
        assert forall|i: int, j: int| 0 <= i < j < r.len() implies text_le(
            (#[trigger] r[i]).name@,
            (#[trigger] r[j]).name@,
        ) by {
            if j == list.len() && i < list.len() - 1 {
                assert(text_le(list[i].name@, list[list.len() - 1].name@));
                lemma_text_le_transitive(list[i].name@, list.last().name@, x.name@);
            }
        }
    } else {
        let shorter = list.drop_last();
        lemma_text_le_total(list.last().name@, x.name@);
        lemma_insert_sorted(shorter, x);
        let inner = insert_sorted(shorter, x);
        assert(list =~= shorter.push(list.last()));
        assert forall|i: int, j: int| 0 <= i < j < r.len() implies text_le(
            (#[trigger] r[i]).name@,
            (#[trigger] r[j]).name@,
        ) by {
            if j < inner.len() {
                assert(text_le(inner[i].name@, inner[j].name@));
            } else {
                assert(r[i] == inner[i]);
                if inner[i] != x {
                    assert(shorter.contains(inner[i]));
                    let k = choose|k: int| 0 <= k < shorter.len() && shorter[k] == inner[i];
                    assert(text_le(list[k].name@, list[list.len() - 1].name@));
                }
            }
        }
        assert forall|i: int| 0 <= i < r.len() implies r[i] == x || list.contains(
            #[trigger] r[i],
        ) by {
            if i < inner.len() {
                assert(r[i] == inner[i]);
                if inner[i] != x {
                    let k = choose|k: int| 0 <= k < shorter.len() && shorter[k] == inner[i];
                    assert(list[k] == inner[i]);
                }
            } else {
                assert(r[i] == list[list.len() - 1]);
            }
        }
        assert(r.to_multiset() =~= list.to_multiset().insert(x));
    }
}

/// Sorting namespaces keeps them all and puts their names in order.
pub proof fn law_by_name_sorts(list: Seq<KubeNamespaceInfo>)
    ensures
        names_sorted(by_name(list)),
        by_name(list).to_multiset() == list.to_multiset(),
    decreases list.len(),
{
    broadcast use vstd::seq_lib::group_to_multiset_ensures;

    if list.len() > 0 {
        law_by_name_sorts(list.drop_last());
        lemma_insert_sorted(by_name(list.drop_last()), list.last());
        assert(list =~= list.drop_last().push(list.last()));
    } else {
        assert(by_name(list) =~= list);
    }
}

// ---------------------------------------------------------------------------
// Applying and deleting
// ---------------------------------------------------------------------------

/// Sets labels on top of those that a resource has.
pub fn add_labels(labels: &mut TextMap<String>, extra: &TextMap<String>)
    ensures
        final(labels)@ == old(labels)@.union_prefer_right(extra@),
{
    labels.extend_from(extra);
}

/// `r` is a manifest with its namespace set and labels set on top of its own.
/// Nothing else of it is changed.
pub open spec fn is_prepared(
    doc: JsonView,
    namespace: Seq<char>,
    labels: Map<Seq<char>, Seq<char>>,
    r: JsonView,
) -> bool {
    let before = member(doc, "metadata"@);
    let after = member(r, "metadata"@);
    &&& forall|k: Seq<char>| k != "metadata"@ ==> #[trigger] member(r, k) == member(doc, k)
    &&& forall|k: Seq<char>|
        k != "labels"@ && k != "namespace"@ ==> #[trigger] member_of(after, k) == member_of(
            before,
            k,
        )
    &&& text_of(member_of(after, "namespace"@)) == Some(namespace)
    &&& member_of(after, "labels"@) matches Some(own) && only_texts(own)
    &&& texts_of(member_of(after, "labels"@)) == texts_of(
        member_of(before, "labels"@),
    ).union_prefer_right(labels)
}

/// Prepares a manifest for a namespace: with the labels of the environment,
/// and in the namespace whatever it says itself.
pub fn prepare_manifest(doc: &Json, namespace: &str, labels: &TextMap<String>) -> (r: Json)
    ensures
        is_prepared(doc@, namespace@, labels.texts(), r@),
{
    let metadata: Option<&Json> = doc.get("metadata");
    let mut own: TextMap<String> = texts_in(get_in(metadata, "labels"));
    let ghost before = own@;
    add_labels(&mut own, labels);
    let labels_json: Json = json_of_texts(&own);
    let ghost shown = labels_json@;
    let empty = Json::Object(Vec::new());
    let base: &Json = match metadata {
        Some(m) => m,
        None => &empty,
    };
    let labelled: Json = json_with(base, "labels", labels_json);
    let placed: Json = json_with(&labelled, "namespace", Json::Text(namespace.to_owned()));
    let ghost after = placed@;
    let r: Json = json_with(doc, "metadata", placed);
    proof {
        reveal_strlit("labels");
        reveal_strlit("namespace");
        assert("labels"@.len() != "namespace"@.len());
        assert(empty@->Object_0 =~= Seq::<(Seq<char>, JsonView)>::empty());
        assert forall|k: Seq<char>| #[trigger] member(r@, k) == (if k == "metadata"@ {
            Some(after)
        } else {
            member(doc@, k)
        }) by {
            law_member_set(doc@, "metadata"@, after, k);
        }
        assert forall|k: Seq<char>| #[trigger] member(after, k) == (if k == "namespace"@ {
            Some(JsonView::Text(namespace@))
        } else if k == "labels"@ {
            Some(shown)
        } else {
            member(base@, k)
        }) by {
            law_member_set(base@, "labels"@, shown, k);
            law_member_set(labelled@, "namespace"@, JsonView::Text(namespace@), k);
        }
        assert(member_of(member(r@, "metadata"@), "labels"@) == Some(shown));
        assert(own.texts() =~= text_values(before).union_prefer_right(labels.texts()));
        assert forall|k: Seq<char>| k != "labels"@ && k != "namespace"@ implies #[trigger] member_of(
            member(r@, "metadata"@),
            k,
        ) == member_of(member(doc@, "metadata"@), k) by {
            assert(member(r@, "metadata"@) == Some(after));
            assert(member(after, k) == member(base@, k));
        }
    }
    r
}

/// A manifest that is prepared twice is as one that is prepared once.
pub proof fn law_preparing_again_changes_nothing(
    doc: JsonView,
    namespace: Seq<char>,
    labels: Map<Seq<char>, Seq<char>>,
    once: JsonView,
    twice: JsonView,
    key: Seq<char>,
)
    requires
        is_prepared(doc, namespace, labels, once),
        is_prepared(once, namespace, labels, twice),
    ensures
        key != "metadata"@ ==> member(twice, key) == member(once, key),
        key != "labels"@ && key != "namespace"@ ==> member_of(member(twice, "metadata"@), key)
            == member_of(member(once, "metadata"@), key),
        texts_of(member_of(member(twice, "metadata"@), "labels"@)) == texts_of(
            member_of(member(once, "metadata"@), "labels"@),
        ),
        text_of(member_of(member(twice, "metadata"@), "namespace"@)) == text_of(
            member_of(member(once, "metadata"@), "namespace"@),
        ),
{
    let own = texts_of(member_of(member(doc, "metadata"@), "labels"@));
    assert(own.union_prefer_right(labels).union_prefer_right(labels)
        =~= own.union_prefer_right(labels));
}

/// The name of a manifest.
pub fn manifest_name(doc: &Json) -> (r: Option<String>)
    ensures
        opt_text(r) == text_of(member_of(member(doc@, "metadata"@), "name"@)),
{
    text_in(get_in(doc.get("metadata"), "name"))
}

/// The manifests that could be read, by the name of their resource.
pub open spec fn gathered(manifests: Seq<(String, Option<String>)>) -> Map<Seq<char>, Seq<char>>
    decreases manifests.len(),
{
    if manifests.len() == 0 {
        Map::empty()
    } else {
        let earlier = gathered(manifests.drop_last());
        match manifests.last().1 {
            Some(yaml) => earlier.insert(manifests.last().0@, yaml@),
            None => earlier,
        }
    }
}

fn gather(manifests: Vec<(String, Option<String>)>) -> (r: TextMap<String>)
    ensures
        r.texts() == gathered(manifests@),
{
    let ghost all = manifests@;
    let mut out: TextMap<String> = TextMap::new();
    proof {
        assert(all.take(0) =~= Seq::<(String, Option<String>)>::empty());
        assert(out.texts() =~= Map::<Seq<char>, Seq<char>>::empty());
    }
    for pair in it: manifests
        invariant
            it.seq() == all,
            out.texts() == gathered(all.take(it.index() as int)),
    {
        let ghost i = it.index() as int;
        let ghost before = out@;
        proof {
            assert(all.take(i + 1).drop_last() =~= all.take(i));
            assert(pair == all[i]);
        }
        let (name, yaml) = pair;
        if let Some(text) = yaml {
            let ghost key = name@;
            let ghost value = text@;
            out.insert(name, text);
            proof {
                assert(out.texts() =~= text_values(before).insert(key, value));
            }
        }
    }
    proof {
        assert(all.take(all.len() as int) =~= all);
    }
    out
}

/// The answer to a request for resources of a namespace. A resource that
/// cannot be read is left out.
pub fn namespaced_resources(
    namespace: String,
    configmaps: Vec<(String, Option<String>)>,
    secrets: Vec<(String, Option<String>)>,
) -> (r: NamespacedResourceResponse)
    ensures
        r.namespace == namespace,
        r.configmaps.texts() == gathered(configmaps@),
        r.secrets.texts() == gathered(secrets@),
{
    NamespacedResourceResponse {
        namespace,
        configmaps: gather(configmaps),
        secrets: gather(secrets),
    }
}

/// How to bring a resource into the cluster.
#[derive(Debug, Clone, Copy, PartialEq, Eq, Structural)]
pub enum ApplyAction {
    Replace,
    Create,
}

/// A resource that exists is replaced; another one is created.
pub fn apply_action(exists_already: bool) -> (r: ApplyAction)
    ensures
        r == if exists_already {
            ApplyAction::Replace
        } else {
            ApplyAction::Create
        },
{
    if exists_already {
        ApplyAction::Replace
    } else {
        ApplyAction::Create
    }
}

/// The seconds that the deletion of a namespace may take.
pub const NAMESPACE_DELETION_SECONDS: u64 = 60;

/// What to do while a namespace is being deleted.
#[derive(Debug, Clone, Copy, PartialEq, Eq, Structural)]
pub enum DeletionStep {
    Done,
    TimedOut,
    /// Look again after a second.
    Wait,
}

/// Decides what to do while a namespace is being deleted. A namespace that is
/// gone is done with, however long it took.
pub fn deletion_step(still_there: bool, elapsed_seconds: u64) -> (r: DeletionStep)
    ensures
        r == if !still_there {
            DeletionStep::Done
        } else if elapsed_seconds >= NAMESPACE_DELETION_SECONDS {
            DeletionStep::TimedOut
        } else {
            DeletionStep::Wait
        },
{
    if !still_there {
        DeletionStep::Done
    } else if elapsed_seconds >= NAMESPACE_DELETION_SECONDS {
        DeletionStep::TimedOut
    } else {
        DeletionStep::Wait
    }
}

/// What came of the request to delete a namespace.
#[derive(Debug)]
pub enum DeleteOutcome {
    Accepted,
    /// The API server refused it with a status code.
    Refused { code: u16, text: String },
    Failed(String),
}

/// Whether the namespace has to be waited for after the request to delete
/// it. One that is not found is gone already.
pub fn after_delete(namespace: &str, outcome: &DeleteOutcome) -> (r: Result<bool, String>)
    ensures
        match *outcome {
            DeleteOutcome::Accepted => r == Ok::<bool, String>(true),
            DeleteOutcome::Refused { code, text } => if code == 404 {
                r == Ok::<bool, String>(false)
            } else {
                r matches Err(m) && m@ == "Failed to delete namespace '"@ + namespace@ + "': "@
                    + text@
            },
            DeleteOutcome::Failed(text) => r matches Err(m) && m@
                == "Failed to delete namespace '"@ + namespace@ + "': "@ + text@,
        },
{
    let text: &str = match outcome {
        DeleteOutcome::Accepted => {
            return Ok(true);
        },
        DeleteOutcome::Refused { code, text } => {
            if *code == 404 {
                return Ok(false);
            }
            text.as_str()
        },
        DeleteOutcome::Failed(text) => text.as_str(),
    };
    let mut out: String = "Failed to delete namespace '".to_owned();
    out.append(namespace);
    out.append("': ");
    out.append(text);
    Err(out)
}

/// What is said of a namespace that did not go in time.
pub fn deletion_timeout(namespace: &str) -> (r: String)
    ensures
        r@ == "Timed out waiting for namespace '"@ + namespace@ + "' deletion"@,
{
    concat3("Timed out waiting for namespace '", namespace, "' deletion")
}

// ---------------------------------------------------------------------------
// Laws
// ---------------------------------------------------------------------------

/// A number of cores is a thousand times as many thousandths, a number with an
/// `m` behind it is so many thousandths, and no quantity is none.
pub proof fn law_cpu_is_read(quantity: Option<&str>, r: i64, number: Seq<char>, n: int)
    requires
        call_ensures(parse_cpu_resource, (quantity,), r),
        signed_value(number) == Some(n),
        i64::MIN <= n <= i64::MAX,
    ensures
        quantity matches Some(q) ==> (q@ == number + "m"@ ==> r == n) && (q@ == number ==> r == n
            * 1000),
        quantity is None ==> r == 0,
{
    reveal_strlit("m");
    if let Some(q) = quantity {
        if q@ == number + "m"@ {
            lemma_unit_stripped(number, "m"@);
        }
        if q@ == number {
            lemma_number_end(number);
            if "m"@.is_suffix_of(number) {
                assert(number.subrange(number.len() - 1, number.len() as int)[0]
                    == number.last());
            }
        }
    }
}

/// A number before a unit of memory stands for so many times the unit, and no
/// quantity is none.
pub proof fn law_memory_is_read(quantity: Option<&str>, r: i64, number: Seq<char>, n: int)
    requires
        call_ensures(parse_memory_resource, (quantity,), r),
        signed_value(number) == Some(n),
        i64::MIN <= n <= i64::MAX,
    ensures
        quantity matches Some(q) ==> (q@ == number + "Ki"@ ==> r == n * 1024) && (q@ == number
            + "Mi"@ ==> r == n * 1024 * 1024) && (q@ == number + "Gi"@ ==> r == n * 1024 * 1024
            * 1024),
        quantity is None ==> r == 0,
{
    law_memory_units(number, n);
}

/// What is known of a node's resource.
pub open spec fn is_allocatable(node: NodeInfo, key: Seq<char>, quantity: Option<&str>) -> bool {
    match quantity {
        Some(q) => node.allocatable matches Some(m) && m.texts().contains_key(key) && m.texts()[key]
            == q@,
        None => !(node.allocatable matches Some(m) && m.texts().contains_key(key)),
    }
}

/// A cluster without nodes offers nothing, and one more node adds what it
/// offers itself, of CPU and of memory alike.
pub proof fn law_nodes_add_up(
    nodes: Vec<NodeInfo>,
    more: Vec<NodeInfo>,
    node: NodeInfo,
    before: (i64, i64),
    after: (i64, i64),
    cpu: Option<&str>,
    memory: Option<&str>,
    cores: i64,
    bytes: i64,
)
    requires
        sums_fit(nodes@),
        sums_fit(more@),
        call_ensures(calculate_cluster_resources, (&nodes,), before),
        call_ensures(calculate_cluster_resources, (&more,), after),
        is_allocatable(node, "cpu"@, cpu),
        is_allocatable(node, "memory"@, memory),
        call_ensures(parse_cpu_resource, (cpu,), cores),
        call_ensures(parse_memory_resource, (memory,), bytes),
    ensures
        nodes@.len() == 0 ==> before == (0i64, 0i64),
        more@ == nodes@.push(node) ==> after.0 == before.0 + cores && after.1 == before.1 + bytes,
{
    if more@ == nodes@.push(node) {
        assert(more@.drop_last() =~= nodes@);
        assert(opt_str(cpu) == allocatable_of(node, "cpu"@));
        assert(opt_str(memory) == allocatable_of(node, "memory"@));
    }
}

/// The identifier of a node shows its provider by what it begins with.
pub proof fn law_provider_of_an_id(id: &str, r: Option<Provider>)
    requires
        call_ensures(detect_provider_from_provider_id, (id,), r),
    ensures
        (r == Some(Provider::Aws)) == "aws:///"@.is_prefix_of(id@),
        (r == Some(Provider::Gcp)) == "gce://"@.is_prefix_of(id@),
        (r == Some(Provider::Azure)) == "azure:///"@.is_prefix_of(id@),
{
    reveal_strlit("aws:///");
    reveal_strlit("gce://");
    reveal_strlit("azure:///");
    if "aws:///"@.is_prefix_of(id@) {
        assert(id@.subrange(0, 7)[0] == 'a' && id@.subrange(0, 7)[1] == 'w');
        assert(id@[0] == 'a' && id@[1] == 'w');
    }
    if "gce://"@.is_prefix_of(id@) {
        assert(id@.subrange(0, 6)[0] == 'g');
        assert(id@[0] == 'g');
    }
    if "azure:///"@.is_prefix_of(id@) {
        assert(id@.subrange(0, 9)[0] == 'a' && id@.subrange(0, 9)[1] == 'z');
        assert(id@[0] == 'a' && id@[1] == 'z');
    }
}

/// An instance type shows its provider by its first letter, or by the word
/// that it holds or begins with.
pub proof fn law_provider_of_an_instance(instance: &str, r: Option<Provider>)
    requires
        call_ensures(detect_provider_from_instance_type, (instance,), r),
    ensures
        ({
            let s = instance@;
            let aws = s.len() > 0 && (s[0] == 'm' || s[0] == 'c' || s[0] == 'r' || s[0] == 't'
                || s[0] == 'a' || s[0] == 'i');
            let gcp = s.len() > 0 && (s[0] == 'n' || s[0] == 'e') || exists|i: int| #[trigger]
                occurs_at(s, "standard"@, i);
            &&& (r == Some(Provider::Aws)) == aws
            &&& (r == Some(Provider::Gcp)) == (!aws && gcp)
            &&& (r == Some(Provider::Azure)) == (!aws && !gcp && "Standard_"@.is_prefix_of(s))
        }),
{
    let s = instance@;
    let aws = seq!['m', 'c', 'r', 't', 'a', 'i'];
    let gcp = seq!['n', 'e'];
    assert(aws[0] == 'm' && aws[1] == 'c' && aws[2] == 'r' && aws[3] == 't' && aws[4] == 'a'
        && aws[5] == 'i');
    assert(gcp[0] == 'n' && gcp[1] == 'e');
    assert(begins_with_any(s, aws) == (s.len() > 0 && (s[0] == 'm' || s[0] == 'c' || s[0] == 'r'
        || s[0] == 't' || s[0] == 'a' || s[0] == 'i')));
    assert(begins_with_any(s, gcp) == (s.len() > 0 && (s[0] == 'n' || s[0] == 'e')));
}

/// The labels of a node show its provider by the keys that only that provider
/// sets.
pub proof fn law_provider_of_labels(labels: TextMap<String>, r: Option<Provider>)
    requires
        call_ensures(detect_provider_from_labels, (&labels,), r),
    ensures
        ({
            let has = |k: Seq<char>| labels.texts().contains_key(k);
            let aws = has("eks.amazonaws.com/nodegroup"@) || has(
                "alpha.eksctl.io/nodegroup-name"@,
            ) || has("karpenter.sh/nodepool"@);
            let gcp = has("cloud.google.com/gke-nodepool"@) || has(
                "cloud.google.com/machine-family"@,
            ) || has("topology.gke.io/zone"@);
            let azure = has("kubernetes.azure.com/nodepool-name"@) || has("agentpool"@) || has(
                "azure.microsoft.com/machine"@,
            );
            &&& (r == Some(Provider::Aws)) == aws
            &&& (r == Some(Provider::Gcp)) == (!aws && gcp)
            &&& (r == Some(Provider::Azure)) == (!aws && !gcp && azure)
        }),
{
}

/// The identifier of a node shows the provider.
pub open spec fn id_shows(node: NodeInfo, p: Option<Provider>) -> bool {
    p == (match node.provider_id {
        Some(id) => provider_by_id(id@),
        None => None,
    })
}

proof fn lemma_provider_by_ids(nodes: Seq<NodeInfo>, i: int)
    requires
        0 <= i <= nodes.len(),
        forall|j: int| 0 <= j < i ==> id_shows(#[trigger] nodes[j], None),
        i < nodes.len() ==> !id_shows(nodes[i], None),
    ensures
        i == nodes.len() ==> provider_by_ids(nodes) is None,
        i < nodes.len() ==> provider_by_ids(nodes) is Some && id_shows(
            nodes[i],
            provider_by_ids(nodes),
        ),
    decreases nodes.len(),
{
    if nodes.len() > 0 && i > 0 {
        let rest = nodes.drop_first();
        assert(id_shows(nodes[0], None));
        assert forall|j: int| 0 <= j < i - 1 implies id_shows(#[trigger] rest[j], None) by {
            assert(rest[j] == nodes[j + 1]);
        }
        if i < nodes.len() {
            assert(rest[i - 1] == nodes[i]);
        }
        lemma_provider_by_ids(rest, i - 1);
    }
}

proof fn lemma_provider_by_nodes(nodes: Seq<NodeInfo>, i: int)
    requires
        0 <= i <= nodes.len(),
        forall|j: int| 0 <= j < i ==> provider_of_node(#[trigger] nodes[j]) is None,
        i < nodes.len() ==> provider_of_node(nodes[i]) is Some,
    ensures
        i == nodes.len() ==> provider_by_nodes(nodes) is None,
        i < nodes.len() ==> provider_by_nodes(nodes) == provider_of_node(nodes[i]),
    decreases nodes.len(),
{
    if nodes.len() > 0 && i > 0 {
        let rest = nodes.drop_first();
        assert(provider_of_node(nodes[0]) is None);
        assert forall|j: int| 0 <= j < i - 1 implies provider_of_node(
            #[trigger] rest[j],
        ) is None by {
            assert(rest[j] == nodes[j + 1]);
        }
        if i < nodes.len() {
            assert(rest[i - 1] == nodes[i]);
        }
        lemma_provider_by_nodes(rest, i - 1);
    }
}

proof fn lemma_region_by_nodes(nodes: Seq<NodeInfo>, i: int)
    requires
        0 <= i <= nodes.len(),
        forall|j: int| 0 <= j < i ==> region_of_node(#[trigger] nodes[j]) is None,
        i < nodes.len() ==> region_of_node(nodes[i]) is Some,
    ensures
        i == nodes.len() ==> region_by_nodes(nodes) is None,
        i < nodes.len() ==> region_by_nodes(nodes) == region_of_node(nodes[i]),
    decreases nodes.len(),
{
    if nodes.len() > 0 && i > 0 {
        let rest = nodes.drop_first();
        assert(region_of_node(nodes[0]) is None);
        assert forall|j: int| 0 <= j < i - 1 implies region_of_node(
            #[trigger] rest[j],
        ) is None by {
            assert(rest[j] == nodes[j + 1]);
        }
        if i < nodes.len() {
            assert(rest[i - 1] == nodes[i]);
        }
        lemma_region_by_nodes(rest, i - 1);
    }
}

/// The provider of a cluster is the one that the first identifier shows which
/// shows any; `i` is where that stands.
pub proof fn law_ids_show_the_provider(
    nodes: Vec<NodeInfo>,
    r: (Option<Provider>, Option<String>),
    i: int,
    id: String,
    p: Provider,
)
    requires
        call_ensures(detect_provider_and_region, (&nodes,), r),
        0 <= i < nodes@.len(),
        nodes@[i].provider_id == Some(id),
        provider_by_id(id@) == Some(p),
        forall|j: int| 0 <= j < i ==> id_shows(#[trigger] nodes@[j], None),
    ensures
        r.0 == Some(p),
{
    lemma_provider_by_ids(nodes@, i);
}

/// Without an identifier that shows the provider, the labels of the first node
/// count which show one: by their keys, or else by the instance type.
pub proof fn law_labels_show_the_provider(
    nodes: Vec<NodeInfo>,
    r: (Option<Provider>, Option<String>),
    i: int,
    labels: TextMap<String>,
    by_labels: Option<Provider>,
    instance: &str,
    by_instance: Option<Provider>,
)
    requires
        call_ensures(detect_provider_and_region, (&nodes,), r),
        forall|j: int| 0 <= j < nodes@.len() ==> id_shows(#[trigger] nodes@[j], None),
        0 <= i < nodes@.len(),
        nodes@[i].labels == Some(labels),
        forall|j: int| 0 <= j < i ==> (#[trigger] nodes@[j]).labels is None,
        call_ensures(detect_provider_from_labels, (&labels,), by_labels),
        labels.texts().contains_key("node.kubernetes.io/instance-type"@),
        labels.texts()["node.kubernetes.io/instance-type"@] == instance@,
        call_ensures(detect_provider_from_instance_type, (instance,), by_instance),
    ensures
        by_labels matches Some(p) ==> r.0 == Some(p),
        by_labels is None && by_instance is Some ==> r.0 == by_instance,
{
    lemma_provider_by_ids(nodes@, nodes@.len() as int);
    if by_labels is Some || by_instance is Some {
        assert forall|j: int| 0 <= j < i implies provider_of_node(
            #[trigger] nodes@[j],
        ) is None by {
            assert(nodes@[j].labels is None);
        }
        lemma_provider_by_nodes(nodes@, i);
    }
}

/// The region of a cluster is that of the first node with a label of its
/// region, and the newer label goes before the older one; without any such
/// label there is none.
pub proof fn law_labels_show_the_region(
    nodes: Vec<NodeInfo>,
    r: (Option<Provider>, Option<String>),
    i: int,
)
    requires
        call_ensures(detect_provider_and_region, (&nodes,), r),
        0 <= i <= nodes@.len(),
        forall|j: int|
            0 <= j < i ==> !((#[trigger] nodes@[j]).labels matches Some(m) && (
            m.texts().contains_key("topology.kubernetes.io/region"@) || m.texts().contains_key(
                "failure-domain.beta.kubernetes.io/region"@,
            ))),
        i < nodes@.len() ==> (nodes@[i].labels matches Some(m) && (m.texts().contains_key(
            "topology.kubernetes.io/region"@,
        ) || m.texts().contains_key("failure-domain.beta.kubernetes.io/region"@))),
    ensures
        i == nodes@.len() ==> r.1 is None,
        i < nodes@.len() ==> {
            let texts = nodes@[i].labels->0.texts();
            opt_text(r.1) == Some(
                if texts.contains_key("topology.kubernetes.io/region"@) {
                    texts["topology.kubernetes.io/region"@]
                } else {
                    texts["failure-domain.beta.kubernetes.io/region"@]
                },
            )
        },
{
    assert forall|j: int| 0 <= j < i implies region_of_node(#[trigger] nodes@[j]) is None by {}
    lemma_region_by_nodes(nodes@, i);
}

/// A report of a cluster has its version, the number of its nodes, what they
/// add up to, and the provider and the region that they show; what is
/// configured counts just where they show none.
pub proof fn law_report_of_a_cluster(
    major: &str,
    minor: &str,
    nodes: Vec<NodeInfo>,
    provider: Option<String>,
    region: Option<String>,
    namespace: Option<String>,
    r: KubeClusterInfo,
    sums: (i64, i64),
    shown: (Option<Provider>, Option<String>),
)
    requires
        sums_fit(nodes@),
        call_ensures(cluster_info, (major, minor, &nodes, provider, region, namespace), r),
        call_ensures(calculate_cluster_resources, (&nodes,), sums),
        call_ensures(detect_provider_and_region, (&nodes,), shown),
    ensures
        r.cluster_version@ == major@ + "."@ + minor@,
        nodes@.len() < 0x1_0000_0000 ==> r.node_count == nodes@.len(),
        r.available_cpu@ == signed_decimal(sums.0 as int) + "m"@,
        r.available_memory@ == signed_decimal(sums.1 as int) + "bytes"@,
        shown.0 is None ==> opt_text(r.provider) == opt_text(provider),
        shown.0 == Some(Provider::Aws) ==> opt_text(r.provider) == Some("AWS"@),
        shown.0 == Some(Provider::Gcp) ==> opt_text(r.provider) == Some("GCP"@),
        shown.0 == Some(Provider::Azure) ==> opt_text(r.provider) == Some("Azure"@),
        shown.1 is None ==> opt_text(r.region) == opt_text(region),
        shown.1 is Some ==> opt_text(r.region) == opt_text(shown.1),
        r.manager_namespace == namespace,
{
}

/// The namespace of a manager is what its variable says, without white space
/// around it; where that says nothing, what the file of its account says.
pub proof fn law_manager_namespace(variable: Option<&str>, file: Option<&str>, r: Option<String>)
    requires
        call_ensures(detect_manager_namespace, (variable, file), r),
    ensures
        ({
            let said = |t: Option<&str>| t matches Some(s) && trim(s@).len() > 0;
            if said(variable) {
                opt_text(r) == Some(trim(variable->0@))
            } else if said(file) {
                opt_text(r) == Some(trim(file->0@))
            } else {
                r is None
            }
        }),
{
}

/// Sorted namespaces are all that there were, in the order of their names.
pub proof fn law_namespaces_are_sorted(
    list: Vec<KubeNamespaceInfo>,
    r: Vec<KubeNamespaceInfo>,
)
    requires
        call_ensures(sort_namespaces, (list,), r),
    ensures
        r@.to_multiset() == list@.to_multiset(),
        forall|i: int, j: int|
            0 <= i < j < r@.len() ==> text_le((#[trigger] r@[i]).name@, (#[trigger] r@[j]).name@),
{
    law_by_name_sorts(list@);
}

/// A prepared manifest is in its namespace whatever it said itself, has its own
/// labels and the added ones, of which the added ones go first, and is left as
/// it was in everything else.
pub proof fn law_manifest_is_prepared(
    doc: Json,
    namespace: &str,
    labels: TextMap<String>,
    r: Json,
    key: Seq<char>,
)
    requires
        call_ensures(prepare_manifest, (&doc, namespace, &labels), r),
    ensures
        key != "metadata"@ ==> member(r@, key) == member(doc@, key),
        key != "labels"@ && key != "namespace"@ ==> member_of(member(r@, "metadata"@), key)
            == member_of(member(doc@, "metadata"@), key),
        text_of(member_of(member(r@, "metadata"@), "namespace"@)) == Some(namespace@),
        ({
            let before = texts_of(member_of(member(doc@, "metadata"@), "labels"@));
            let after = texts_of(member_of(member(r@, "metadata"@), "labels"@));
            let added = labels.texts();
            &&& after.contains_key(key) == (before.contains_key(key) || added.contains_key(key))
            &&& added.contains_key(key) ==> after[key] == added[key]
            &&& before.contains_key(key) && !added.contains_key(key) ==> after[key] == before[key]
        }),
{
}

proof fn lemma_gathered(manifests: Seq<(String, Option<String>)>, i: int, name: Seq<char>)
    requires
        0 <= i <= manifests.len(),
        forall|j: int|
            i <= j < manifests.len() ==> (#[trigger] manifests[j]).0@ != name || manifests[j].1
                is None,
        i > 0 ==> manifests[i - 1].0@ == name && manifests[i - 1].1 is Some,
    ensures
        gathered(manifests).contains_key(name) == (i > 0),
        i > 0 ==> gathered(manifests)[name] == manifests[i - 1].1->0@,
    decreases manifests.len(),
{
    if manifests.len() > 0 {
        let shorter = manifests.drop_last();
        let n = manifests.len() - 1;
        if i <= n {
            assert(manifests[n].0@ != name || manifests[n].1 is None);
            assert forall|j: int| i <= j < shorter.len() implies (#[trigger] shorter[j]).0@ != name
                || shorter[j].1 is None by {
                assert(shorter[j] == manifests[j]);
            }
            if i > 0 {
                assert(shorter[i - 1] == manifests[i - 1]);
            }
            lemma_gathered(shorter, i, name);
        }
    }
}

/// The resources of a namespace are all that could be read, each under its
/// name; of two of the same name the later one counts. `i` stands behind the
/// last one of a name that could be read, and is zero where there is none.
pub proof fn law_resources_are_gathered(
    namespace: String,
    configmaps: Vec<(String, Option<String>)>,
    secrets: Vec<(String, Option<String>)>,
    r: NamespacedResourceResponse,
    name: Seq<char>,
    i: int,
    k: int,
)
    requires
        call_ensures(namespaced_resources, (namespace, configmaps, secrets), r),
        0 <= i <= configmaps@.len(),
        forall|j: int|
            i <= j < configmaps@.len() ==> (#[trigger] configmaps@[j]).0@ != name
                || configmaps@[j].1 is None,
        i > 0 ==> configmaps@[i - 1].0@ == name && configmaps@[i - 1].1 is Some,
        0 <= k <= secrets@.len(),
        forall|j: int|
            k <= j < secrets@.len() ==> (#[trigger] secrets@[j]).0@ != name || secrets@[j].1
                is None,
        k > 0 ==> secrets@[k - 1].0@ == name && secrets@[k - 1].1 is Some,
    ensures
        r.namespace@ == namespace@,
        r.configmaps.texts().contains_key(name) == (i > 0),
        i > 0 ==> r.configmaps.texts()[name] == configmaps@[i - 1].1->0@,
        r.secrets.texts().contains_key(name) == (k > 0),
        k > 0 ==> r.secrets.texts()[name] == secrets@[k - 1].1->0@,
{
    lemma_gathered(configmaps@, i, name);
    lemma_gathered(secrets@, k, name);
}

/// What is there is replaced, and what is not is created.
pub proof fn law_resources_are_applied(there: bool, r: ApplyAction)
    requires
        call_ensures(apply_action, (there,), r),
    ensures
        (r == ApplyAction::Replace) == there,
        (r == ApplyAction::Create) == !there,
{
}

/// A namespace that is gone is done with. One that is still there is waited
/// for, a minute at most.
pub proof fn law_deletion_is_waited_for(there: bool, seconds: u64, r: DeletionStep)
    requires
        call_ensures(deletion_step, (there, seconds), r),
    ensures
        (r == DeletionStep::Done) == !there,
        (r == DeletionStep::Wait) == (there && seconds < 60),
        (r == DeletionStep::TimedOut) == (there && seconds >= 60),
{
}

/// A namespace is waited for just where its deletion was accepted; one that is
/// not found is gone, and any other refusal is a failure.
pub proof fn law_deletion_is_answered(
    namespace: &str,
    outcome: DeleteOutcome,
    r: Result<bool, String>,
)
    requires
        call_ensures(after_delete, (namespace, &outcome), r),
    ensures
        (r matches Ok(wait) && wait) == (outcome is Accepted),
        (r matches Ok(wait) && !wait) == (outcome matches DeleteOutcome::Refused { code, text: _ }
            && code == 404),
{
}

} // verus!
