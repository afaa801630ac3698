//! Decisions of the agent's discovery: naming discovered devices, tracking
//! whether their Instances are still visible, reading discovery properties and
//! stopping discovery.
use vstd::prelude::*;
use blake2::digest::{Update, VariableOutput};
use vstd::string::StrSliceExecFns;
use vstd::utf8::encode_utf8;
use crate::config::{DiscoveryProperty, DiscoveryPropertyKeySelector, DiscoveryPropertySource};
use crate::device_plugin::get_device_instance_name;
use crate::keyed::KeyedMap;
use crate::props::PropMap;
use crate::registration::{listed, DiscoveryHandlerEndpoint, DiscoveryHandlerRegistry, EndpointView};
use crate::text::{concat2, contains_string, dashed, string_from_chars, strings_view};

verus! {

/// Milliseconds a shared Instance may stay invisible before it is removed.
pub const SHARED_INSTANCE_OFFLINE_GRACE_PERIOD_MS: u64 = 300_000;

/// The BLAKE2b digest (blake2 `VarBlake2b`) with an output of `size` bytes of
/// the UTF-8 encoding of a text.
pub uninterp spec fn blake2b(text: Seq<char>, size: nat) -> Seq<u8>;

/// Computes the variable-output BLAKE2b digest of `text`'s UTF-8 bytes with
/// blake2's `VarBlake2b` (`new(size)`, `update`, `finalize_boxed`). `new` accepts
/// output sizes from 1 to 64 bytes. The contract claims the result is the digest
/// of the text at that size (named, not stated) and has `size` bytes:
/// `finalize_boxed` fills a buffer of the output size given to `new`.
#[verifier::external_body]
fn blake2b_digest(text: &str, size: usize) -> (r: Vec<u8>)
    requires
        1 <= size <= 64,
    ensures
        r@ == blake2b(text@, size as nat),
        r@.len() == size,
{
    let mut hasher = blake2::VarBlake2b::new(size).unwrap();
    hasher.update(text);
    hasher.finalize_boxed().into_vec()
}

/// Bytes of digest that name an Instance: three, so six hexadecimal digits.
pub const INSTANCE_DIGEST_BYTES: usize = 3;

/// The lower-case hexadecimal digit for `d < 16`.
pub open spec fn hex_digit(d: u8) -> char {
    if d == 0 { '0' } else if d == 1 { '1' } else if d == 2 { '2' } else if d == 3 { '3' } else if d == 4 { '4' } else if d == 5 { '5' } else if d == 6 { '6' } else if d == 7 { '7' } else if d == 8 { '8' } else if d == 9 { '9' } else if d == 10 { 'a' } else if d == 11 { 'b' } else if d == 12 { 'c' } else if d == 13 { 'd' } else if d == 14 { 'e' } else { 'f' }
}

/// Two lower-case hexadecimal digits per byte, most significant first.
pub open spec fn hex_string(bytes: Seq<u8>) -> Seq<char>
    decreases bytes.len(),
{
    if bytes.len() == 0 {
        Seq::empty()
    } else {
        hex_string(bytes.drop_last()) + seq![hex_digit(bytes.last() / 16), hex_digit(bytes.last() % 16)]
    }
}

/// A lower-case hexadecimal digit.
pub open spec fn is_lower_hex(c: char) -> bool {
    ('0' <= c && c <= '9') || ('a' <= c && c <= 'f')
}

/// The hexadecimal rendering has two lower-case hexadecimal digits per byte.
pub proof fn lemma_hex_string_shape(bytes: Seq<u8>)
    ensures
        hex_string(bytes).len() == 2 * bytes.len(),
        forall|i: int| 0 <= i < hex_string(bytes).len() ==> is_lower_hex(#[trigger] hex_string(bytes)[i]),
    decreases bytes.len(),
{
    if bytes.len() > 0 {
        lemma_hex_string_shape(bytes.drop_last());
        let prev = hex_string(bytes.drop_last());
        let hi = hex_digit(bytes.last() / 16);
        let lo = hex_digit(bytes.last() % 16);
        assert(is_lower_hex(hi) && is_lower_hex(lo));
        assert forall|i: int| 0 <= i < hex_string(bytes).len() implies is_lower_hex(#[trigger] hex_string(bytes)[i]) by {
            if i < prev.len() {
                assert(hex_string(bytes)[i] == prev[i]);
            }
        }
    }
}

/// The number a lower-case hexadecimal digit stands for ('0'..'9' are 0..9,
/// 'a'..'f' are 10..15).
pub open spec fn lower_hex_value(c: char) -> int {
    if '0' <= c && c <= '9' { c as int - '0' as int } else { c as int - 'a' as int + 10 }
}

proof fn lemma_hex_digit_value(d: u8)
    requires
        d < 16,
    ensures
        is_lower_hex(hex_digit(d)),
        lower_hex_value(hex_digit(d)) == d,
{
}

/// Reading the hexadecimal rendering of `bytes` back, two lower-case digits at
/// a time, most significant first, gives the bytes again.
pub proof fn lemma_hex_string_decodes(bytes: Seq<u8>)
    ensures
        hex_string(bytes).len() == 2 * bytes.len(),
        forall|i: int| 0 <= i < hex_string(bytes).len() ==> is_lower_hex(#[trigger] hex_string(bytes)[i]),
        forall|i: int| 0 <= i < bytes.len() ==>
            16 * lower_hex_value(hex_string(bytes)[2 * i]) + lower_hex_value(hex_string(bytes)[2 * i + 1]) == #[trigger] bytes[i],
    decreases bytes.len(),
{
    lemma_hex_string_shape(bytes);
    if bytes.len() > 0 {
        let prev = bytes.drop_last();
        lemma_hex_string_decodes(prev);
        let b = bytes.last();
        lemma_hex_digit_value(b / 16);
        lemma_hex_digit_value(b % 16);
        let h = hex_string(bytes);
        assert forall|i: int| 0 <= i < bytes.len() implies
            16 * lower_hex_value(h[2 * i]) + lower_hex_value(h[2 * i + 1]) == #[trigger] bytes[i] by {
            if i < prev.len() {
                assert(h[2 * i] == hex_string(prev)[2 * i]);
                assert(h[2 * i + 1] == hex_string(prev)[2 * i + 1]);
                assert(bytes[i] == prev[i]);
            } else {
                assert(h[2 * i] == hex_digit(b / 16));
                assert(h[2 * i + 1] == hex_digit(b % 16));
            }
        }
    }
}

fn hex_char(d: u8) -> (c: char)
    requires
        d < 16,
    ensures
        c == hex_digit(d),
{
    if d == 0 { '0' } else if d == 1 { '1' } else if d == 2 { '2' } else if d == 3 { '3' } else if d == 4 { '4' } else if d == 5 { '5' } else if d == 6 { '6' } else if d == 7 { '7' } else if d == 8 { '8' } else if d == 9 { '9' } else if d == 10 { 'a' } else if d == 11 { 'b' } else if d == 12 { 'c' } else if d == 13 { 'd' } else if d == 14 { 'e' } else { 'f' }
}

/// Renders bytes as lower-case hexadecimal, two digits per byte.
pub fn hex_encode(bytes: &Vec<u8>) -> (s: String)
    ensures
        s@ == hex_string(bytes@),
        s@.len() == 2 * bytes@.len(),
        forall|i: int| 0 <= i < s@.len() ==> is_lower_hex(#[trigger] s@[i]),
        forall|i: int| 0 <= i < bytes@.len() ==>
            16 * lower_hex_value(s@[2 * i]) + lower_hex_value(s@[2 * i + 1]) == #[trigger] bytes@[i],
{
    proof {
        lemma_hex_string_decodes(bytes@);
    }
    let mut out: Vec<char> = Vec::new();
    let mut i: usize = 0;
    while i < bytes.len()
        invariant
            i <= bytes@.len(),
            out@ == hex_string(bytes@.subrange(0, i as int)),
        decreases bytes.len() - i,
    {
        let b = bytes[i];
        out.push(hex_char(b / 16));
        out.push(hex_char(b % 16));
        proof {
            assert(bytes@.subrange(0, i as int + 1).drop_last() =~= bytes@.subrange(0, i as int));
        }
        i = i + 1;
        assert(out@ =~= hex_string(bytes@.subrange(0, i as int)));
    }
    assert(bytes@.subrange(0, bytes@.len() as int) =~= bytes@);
    string_from_chars(&out)
}

/// The text digested for a device: its id, followed by the node's name for a
/// device that only this node sees, so that such Instances get distinct names.
pub open spec fn digest_input(id: Seq<char>, shared: bool, node_name: Seq<char>) -> Seq<char> {
    if shared { id } else { id + node_name }
}

/// The digest that names the Instance of a discovered device.
pub fn generate_instance_digest(id_to_digest: &str, shared: bool, node_name: &str) -> (digest: String)
    ensures
        digest@ == hex_string(blake2b(digest_input(id_to_digest@, shared, node_name@), INSTANCE_DIGEST_BYTES as nat)),
        digest@.len() == 6,
        forall|i: int| 0 <= i < digest@.len() ==> is_lower_hex(#[trigger] digest@[i]),
        forall|i: int| 0 <= i < 3 ==> 16 * lower_hex_value(digest@[2 * i]) + lower_hex_value(digest@[2 * i + 1])
            == #[trigger] blake2b(digest_input(id_to_digest@, shared, node_name@), INSTANCE_DIGEST_BYTES as nat)[i],
{
    let input = if !shared {
        concat2(id_to_digest, node_name)
    } else {
        crate::text::owned(id_to_digest)
    };
    let bytes = blake2b_digest(input.as_str(), INSTANCE_DIGEST_BYTES);
    proof {
        lemma_hex_string_shape(bytes@);
    }
    hex_encode(&bytes)
}

/// The name of the Instance of a discovered device.
pub open spec fn instance_name_for(device_id: Seq<char>, shared: bool, node_name: Seq<char>, config_name: Seq<char>) -> Seq<char> {
    dashed(config_name + seq!['-'] + hex_string(blake2b(digest_input(device_id, shared, node_name), INSTANCE_DIGEST_BYTES as nat)))
}

/// A device that several nodes can see gets the same Instance name on every
/// node; one that only a node sees is named from its id and that node's name.
pub proof fn lemma_shared_instance_names_agree(id: Seq<char>, node_a: Seq<char>, node_b: Seq<char>, config_name: Seq<char>)
    ensures
        instance_name_for(id, true, node_a, config_name) == instance_name_for(id, true, node_b, config_name),
        digest_input(id, false, node_a) == id + node_a,
{
}

/// Names the Instance of each discovered device (by id), keeping for each name
/// the last device that gives it.
pub fn visible_instances(device_ids: &Vec<String>, shared: bool, node_name: &str, config_name: &str) -> (names: KeyedMap<usize>)
    ensures
        forall|k: Seq<char>| names@.dom().contains(k) <==> exists|i: int| 0 <= i < device_ids@.len()
            && k == instance_name_for(device_ids@[i]@, shared, node_name@, config_name@),
        forall|k: Seq<char>| #[trigger] names@.dom().contains(k) ==> names@[k] < device_ids@.len()
            && k == instance_name_for(device_ids@[names@[k] as int]@, shared, node_name@, config_name@),
        forall|k: Seq<char>, j: int| #[trigger] names@.dom().contains(k) && names@[k] < j < device_ids@.len()
            ==> k != instance_name_for(#[trigger] device_ids@[j]@, shared, node_name@, config_name@),
{
    let mut names: KeyedMap<usize> = KeyedMap::new();
    let mut i: usize = 0;
    while i < device_ids.len()
        invariant
            i <= device_ids@.len(),
            forall|k: Seq<char>| names@.dom().contains(k) <==> exists|j: int| 0 <= j < i
                && k == instance_name_for(device_ids@[j]@, shared, node_name@, config_name@),
            forall|k: Seq<char>| #[trigger] names@.dom().contains(k) ==> names@[k] < i
                && k == instance_name_for(device_ids@[names@[k] as int]@, shared, node_name@, config_name@),
            forall|k: Seq<char>, j: int| #[trigger] names@.dom().contains(k) && names@[k] < j < i
                ==> k != instance_name_for(#[trigger] device_ids@[j]@, shared, node_name@, config_name@),
        decreases device_ids.len() - i,
    {
        let digest = generate_instance_digest(device_ids[i].as_str(), shared, node_name);
        let name = get_device_instance_name(digest.as_str(), config_name);
        let ghost k_new = name@;
        names.insert(name, i);
        proof {
            assert(k_new == instance_name_for(device_ids@[i as int]@, shared, node_name@, config_name@));
            assert forall|k: Seq<char>| names@.dom().contains(k) <==> exists|j: int| 0 <= j < i + 1
                && k == instance_name_for(device_ids@[j]@, shared, node_name@, config_name@) by {
                if k == k_new {
                    assert(k == instance_name_for(device_ids@[i as int]@, shared, node_name@, config_name@));
                }
                if exists|j: int| 0 <= j < i + 1 && k == instance_name_for(device_ids@[j]@, shared, node_name@, config_name@) {
                    let j = choose|j: int| 0 <= j < i + 1 && k == instance_name_for(device_ids@[j]@, shared, node_name@, config_name@);
                    if j < i {
                        assert(exists|jj: int| 0 <= jj < i && k == instance_name_for(device_ids@[jj]@, shared, node_name@, config_name@));
                    }
                }
            }
        }
        i = i + 1;
    }
    names
}

/// Pairs of a text and an index.
pub open spec fn pairs_view(r: Seq<(String, usize)>) -> Seq<(Seq<char>, usize)> {
    r.map_values(|e: (String, usize)| (e.0@, e.1))
}

/// The visible Instances that the agent does not know yet, each with the
/// index of the device that names it.
pub fn new_instances(visible: &KeyedMap<usize>, known: &Vec<String>) -> (r: Vec<(String, usize)>)
    ensures
        forall|k: Seq<char>, idx: usize| #[trigger] pairs_view(r@).contains((k, idx))
            <==> visible@.dom().contains(k) && visible@[k] == idx && !strings_view(known@).contains(k),
        r@.map_values(|e: (String, usize)| e.0@).no_duplicates(),
{
    visible.entries_denote_map();
    let ghost es = visible.entry_seq();
    let mut r: Vec<(String, usize)> = Vec::new();
    let mut i: usize = 0;
    while i < visible.len()
        invariant
            es == visible.entry_seq(),
            crate::keyed::distinct_keys(es),
            visible@ == crate::keyed::keyed_map(es),
            i <= es.len(),
            forall|k: Seq<char>, idx: usize| #[trigger] pairs_view(r@).contains((k, idx))
                <==> exists|j: int| 0 <= j < i && (#[trigger] es[j]).0@ == k && es[j].1 == idx && !strings_view(known@).contains(k),
            forall|a: int| 0 <= a < r@.len() ==> exists|j: int| 0 <= j < i && (#[trigger] es[j]).0@ == (#[trigger] r@[a]).0@,
            r@.map_values(|e: (String, usize)| e.0@).no_duplicates(),
        decreases es.len() - i,
    {
        let (name, idx) = visible.entry(i);
        let ghost before = r@;
        if !contains_string(known, name.as_str()) {
            r.push((name.clone(), *idx));
            proof {
                let bv = pairs_view(before);
                assert(pairs_view(r@) =~= bv.push((name@, *idx)));
                assert forall|k: Seq<char>, x: usize| #[trigger] pairs_view(r@).contains((k, x))
                    <==> exists|j: int| 0 <= j < i + 1 && (#[trigger] es[j]).0@ == k && es[j].1 == x && !strings_view(known@).contains(k) by {
                    vstd::seq_lib::lemma_seq_contains_after_push(bv, (name@, *idx), (k, x));
                    if (k, x) == (name@, *idx) {
                        assert(es[i as int].0@ == k && es[i as int].1 == x);
                    }
                    if exists|j: int| 0 <= j < i + 1 && (#[trigger] es[j]).0@ == k && es[j].1 == x && !strings_view(known@).contains(k) {
                        let j = choose|j: int| 0 <= j < i + 1 && (#[trigger] es[j]).0@ == k && es[j].1 == x && !strings_view(known@).contains(k);
                        if j < i {
                            assert(bv.contains((k, x)));
                        }
                    }
                }
                let nb = before.map_values(|e: (String, usize)| e.0@);
                let na = r@.map_values(|e: (String, usize)| e.0@);
                assert(na =~= nb.push(name@));
                assert forall|a: int| 0 <= a < before.len() implies nb[a] != name@ by {
                    let j = choose|j: int| 0 <= j < i && (#[trigger] es[j]).0@ == before[a].0@;
                    assert(es[j].0@ != es[i as int].0@);
                }
                assert forall|a: int, b: int| 0 <= a < na.len() && 0 <= b < na.len() && a != b implies na[a] != na[b] by {
                    if a < nb.len() && b < nb.len() {
                        assert(nb[a] != nb[b]);
                    }
                }
                assert forall|a: int| 0 <= a < r@.len() implies exists|j: int| 0 <= j < i + 1 && (#[trigger] es[j]).0@ == (#[trigger] r@[a]).0@ by {
                    if a < before.len() {
                        let j = choose|j: int| 0 <= j < i && (#[trigger] es[j]).0@ == before[a].0@;
                        assert(r@[a] == before[a]);
                        assert(0 <= j < i + 1);
                    } else {
                        assert(es[i as int].0@ == r@[a].0@);
                    }
                }
            }
        } else {
            proof {
                assert forall|k: Seq<char>, x: usize| #[trigger] pairs_view(r@).contains((k, x))
                    <==> exists|j: int| 0 <= j < i + 1 && (#[trigger] es[j]).0@ == k && es[j].1 == x && !strings_view(known@).contains(k) by {
                    if exists|j: int| 0 <= j < i + 1 && (#[trigger] es[j]).0@ == k && es[j].1 == x && !strings_view(known@).contains(k) {
                        let j = choose|j: int| 0 <= j < i + 1 && (#[trigger] es[j]).0@ == k && es[j].1 == x && !strings_view(known@).contains(k);
                        assert(j != i);
                    }
                }
                assert forall|a: int| 0 <= a < r@.len() implies exists|j: int| 0 <= j < i + 1 && (#[trigger] es[j]).0@ == (#[trigger] r@[a]).0@ by {
                    let j = choose|j: int| 0 <= j < i && (#[trigger] es[j]).0@ == (#[trigger] r@[a]).0@;
                    assert(0 <= j < i + 1);
                }
            }
        }
        i = i + 1;
    }
    proof {
        assert forall|k: Seq<char>, idx: usize| #[trigger] pairs_view(r@).contains((k, idx))
            <==> visible@.dom().contains(k) && visible@[k] == idx && !strings_view(known@).contains(k) by {
            crate::keyed::lemma_keyed_dom(es, k);
            if exists|j: int| 0 <= j < es.len() && (#[trigger] es[j]).0@ == k && es[j].1 == idx {
                let j = choose|j: int| 0 <= j < es.len() && (#[trigger] es[j]).0@ == k && es[j].1 == idx;
                crate::keyed::lemma_keyed_value(es, j);
            }
            if visible@.dom().contains(k) {
                let j = choose|j: int| 0 <= j < es.len() && es[j].0@ == k;
                crate::keyed::lemma_keyed_value(es, j);
            }
        }
    }
    r
}

/// Checks whether a discovery handler is registered for `protocol` and, if
/// one is, returns its endpoint (the first registered, where there are several).
pub fn get_discovery_handler_endpoint(registry: &DiscoveryHandlerRegistry, protocol: &str) -> (r: Option<DiscoveryHandlerEndpoint>)
    ensures
        r matches Some(e) ==> registry@.dom().contains((protocol@, e@)),
        r is None <==> !exists|ep: EndpointView| registry@.dom().contains((protocol@, ep)),
{
    let handlers = registry.handlers_named(protocol);
    if handlers.len() > 0 {
        proof {
            let b = handlers@[0].1;
            assert(registry@.dom().contains((protocol@, handlers@[0].0@)));
        }
        Some(handlers[0].0.copy())
    } else {
        proof {
            assert forall|ep: EndpointView| !registry@.dom().contains((protocol@, ep)) by {
                if registry@.dom().contains((protocol@, ep)) {
                    assert(listed(handlers@, ep));
                    let k = choose|k: int| 0 <= k < handlers@.len() && #[trigger] handlers@[k].0@ == ep;
                    assert(false);
                }
            }
        }
        None
    }
}

/// Whether an Instance is visible, or since when (milliseconds of a monotonic clock) it is not.
#[derive(PartialEq, Eq, Structural, Clone, Copy, Debug)]
pub enum InstanceConnectivityStatus {
    /// The device was discovered.
    Online,
    /// The device was no longer discovered from this time on.
    Offline(u64),
}

/// What to do with a known Instance after a round of discovery.
#[derive(PartialEq, Eq, Structural, Clone, Copy, Debug)]
pub enum ConnectivityAction {
    /// Nothing changes.
    Keep,
    /// The Instance is visible again: mark it online and tell its device plugin.
    MarkOnline,
    /// The shared Instance is no longer visible: mark it offline now and tell its device plugin.
    MarkOffline,
    /// Terminate the Instance's device plugin and remove this node from the Instance.
    Remove,
}

/// Whether an Instance offline since `since` has been so for the grace period at time `now`.
pub open spec fn offline_expired(since: u64, now: u64) -> bool {
    now >= since && now - since >= SHARED_INSTANCE_OFFLINE_GRACE_PERIOD_MS
}

/// The action for a known Instance: a visible one is (marked) online; an
/// invisible one that was online is removed when only this node sees it and
/// marked offline otherwise; an invisible one that was offline is removed once
/// the grace period has passed.
pub open spec fn connectivity_decision(visible: bool, status: InstanceConnectivityStatus, shared: bool, now: u64) -> ConnectivityAction {
    if visible {
        match status {
            InstanceConnectivityStatus::Offline(_) => ConnectivityAction::MarkOnline,
            InstanceConnectivityStatus::Online => ConnectivityAction::Keep,
        }
    } else {
        match status {
            InstanceConnectivityStatus::Online => if !shared {
                ConnectivityAction::Remove
            } else {
                ConnectivityAction::MarkOffline
            },
            InstanceConnectivityStatus::Offline(since) => if offline_expired(since, now) {
                ConnectivityAction::Remove
            } else {
                ConnectivityAction::Keep
            },
        }
    }
}

/// Decides what to do with a known Instance after a round of discovery.
pub fn connectivity_action(visible: bool, status: InstanceConnectivityStatus, shared: bool, now: u64) -> (a: ConnectivityAction)
    ensures
        a == connectivity_decision(visible, status, shared, now),
{
    if visible {
        match status {
            InstanceConnectivityStatus::Offline(_) => ConnectivityAction::MarkOnline,
            InstanceConnectivityStatus::Online => ConnectivityAction::Keep,
        }
    } else {
        match status {
            InstanceConnectivityStatus::Online => {
                if !shared {
                    ConnectivityAction::Remove
                } else {
                    ConnectivityAction::MarkOffline
                }
            },
            InstanceConnectivityStatus::Offline(since) => {
                if now >= since && now - since >= SHARED_INSTANCE_OFFLINE_GRACE_PERIOD_MS {
                    ConnectivityAction::Remove
                } else {
                    ConnectivityAction::Keep
                }
            },
        }
    }
}

/// The status an Instance has after `action` is taken at time `now`.
pub open spec fn status_after(action: ConnectivityAction, status: InstanceConnectivityStatus, now: u64) -> InstanceConnectivityStatus {
    match action {
        ConnectivityAction::MarkOnline => InstanceConnectivityStatus::Online,
        ConnectivityAction::MarkOffline => InstanceConnectivityStatus::Offline(now),
        _ => status,
    }
}

/// A shared Instance that goes out of sight is not removed before the grace
/// period has passed, however often discovery runs in between; and an Instance
/// seen again is online.
pub proof fn lemma_shared_instances_survive_grace(status: InstanceConnectivityStatus, now: u64, later: u64)
    requires
        now <= later,
        later - now < SHARED_INSTANCE_OFFLINE_GRACE_PERIOD_MS,
    ensures
        ({
            let first = connectivity_decision(false, status, true, now);
            let next = status_after(first, status, now);
            &&& status is Online ==> first == ConnectivityAction::MarkOffline
            &&& status is Online ==> connectivity_decision(false, next, true, later) == ConnectivityAction::Keep
        }),
        status_after(connectivity_decision(true, status, true, now), status, now) == InstanceConnectivityStatus::Online,
        status_after(connectivity_decision(true, status, false, now), status, now) == InstanceConnectivityStatus::Online,
{
}

/// What a round of discovery does with a known Instance, in plain terms: a
/// visible one is never removed nor marked offline; an invisible one that only
/// this node sees is removed at once; an invisible shared one goes offline and
/// is removed once it has been offline for five minutes (300,000 ms), not before.
pub proof fn lemma_connectivity_rules(visible: bool, status: InstanceConnectivityStatus, shared: bool, now: u64)
    ensures
        visible ==> connectivity_decision(visible, status, shared, now) == (if status is Online {
            ConnectivityAction::Keep
        } else {
            ConnectivityAction::MarkOnline
        }),
        !visible && status is Online && !shared ==> connectivity_decision(visible, status, shared, now) == ConnectivityAction::Remove,
        !visible && status is Online && shared ==> connectivity_decision(visible, status, shared, now) == ConnectivityAction::MarkOffline,
        status matches InstanceConnectivityStatus::Offline(since) ==> (!visible ==> connectivity_decision(visible, status, shared, now)
            == (if now >= since + 300_000 { ConnectivityAction::Remove } else { ConnectivityAction::Keep })),
{
}

/// Whether an Instance with this status is removed by the periodic check for
/// Instances that have been offline too long.
pub fn offline_too_long(status: InstanceConnectivityStatus, now: u64) -> (r: bool)
    ensures
        r == (status matches InstanceConnectivityStatus::Offline(since) && offline_expired(since, now)),
{
    match status {
        InstanceConnectivityStatus::Offline(since) => now >= since && now - since >= SHARED_INSTANCE_OFFLINE_GRACE_PERIOD_MS,
        InstanceConnectivityStatus::Online => false,
    }
}

/// What becomes of an Instance when this node stops seeing it.
#[derive(PartialEq, Eq, Clone, Debug)]
pub enum InstanceRemoval {
    /// No node lists the Instance any more: delete it.
    Delete,
    /// Other nodes still list it: keep only them.
    Update(Vec<String>),
}

/// The Instance's nodes without `node_name`: the Instance is deleted when none is left.
pub fn instance_removal(nodes: &Vec<String>, node_name: &str) -> (r: InstanceRemoval)
    ensures
        ({
            let kept = nodes@.filter(|n: String| n@ != node_name@);
            match r {
                InstanceRemoval::Delete => kept.len() == 0,
                InstanceRemoval::Update(v) => kept.len() > 0 && v@ == kept,
            }
        }),
{
    let mut kept: Vec<String> = Vec::new();
    let mut i: usize = 0;
    while i < nodes.len()
        invariant
            i <= nodes@.len(),
            kept@ == nodes@.subrange(0, i as int).filter(|n: String| n@ != node_name@),
        decreases nodes.len() - i,
    {
        proof {
            assert(nodes@.subrange(0, i as int + 1).drop_last() =~= nodes@.subrange(0, i as int));
            reveal(Seq::filter);
        }
        if !crate::text::str_eq(nodes[i].as_str(), node_name) {
            kept.push(nodes[i].clone());
        }
        i = i + 1;
    }
    assert(nodes@.subrange(0, nodes@.len() as int) =~= nodes@);
    if kept.len() == 0 {
        InstanceRemoval::Delete
    } else {
        InstanceRemoval::Update(kept)
    }
}

/// A message telling discovery tasks to stop.
pub enum StopMessage {
    /// Stop all tasks of the discovery handler.
    All,
    /// Stop the tasks of the Configuration with this namespace and name.
    Config(String, String),
    /// The channel failed (lagged or closed).
    ChannelError,
}

/// Whether the discovery task of the Configuration `(namespace, name)` stops on
/// `message`: it does unless the message names another Configuration.
pub fn should_stop_discovery(message: &StopMessage, namespace: &str, name: &str) -> (r: bool)
    ensures
        r == !(message matches StopMessage::Config(ns, n) && !(ns@ == namespace@ && n@ == name@)),
{
    match message {
        StopMessage::Config(ns, n) => crate::text::str_eq(ns.as_str(), namespace) && crate::text::str_eq(n.as_str(), name),
        _ => true,
    }
}

/// How a round of discovery with a discovery handler ended.
#[derive(PartialEq, Eq, Structural, Clone, Copy, Debug)]
pub enum StreamOutcome {
    /// No stream could be opened with the handler.
    NoStream,
    /// The stream ended because discovery was told to stop.
    Finished,
    /// The handler answered with an error status (such as a dropped connection).
    StatusError,
    /// Reading the stream failed otherwise.
    OtherError,
}

/// What discovery does next with a discovery handler.
#[derive(PartialEq, Eq, Structural, Clone, Copy, Debug)]
pub enum DiscoveryStep {
    /// Stop discovering with this handler.
    Stop,
    /// Mark every Instance of the Configuration as no longer visible, then wait and retry.
    MarkOfflineAndRetry,
    /// Wait and retry.
    Retry,
    /// Give up with the error.
    Fail,
}

/// The next step after a round of discovery: a stream that finished stops
/// discovery; without a stream, discovery waits and retries; an error status
/// from an external handler marks its Instances offline before retrying; any
/// other error, and any error of an embedded handler, is returned.
pub fn discovery_step(outcome: StreamOutcome, embedded: bool) -> (s: DiscoveryStep)
    ensures
        s == (match outcome {
            StreamOutcome::NoStream => DiscoveryStep::Retry,
            StreamOutcome::Finished => DiscoveryStep::Stop,
            StreamOutcome::StatusError => if embedded { DiscoveryStep::Fail } else { DiscoveryStep::MarkOfflineAndRetry },
            StreamOutcome::OtherError => DiscoveryStep::Fail,
        }),
{
    match outcome {
        StreamOutcome::NoStream => DiscoveryStep::Retry,
        StreamOutcome::Finished => DiscoveryStep::Stop,
        StreamOutcome::StatusError => if embedded {
            DiscoveryStep::Fail
        } else {
            DiscoveryStep::MarkOfflineAndRetry
        },
        StreamOutcome::OtherError => DiscoveryStep::Fail,
    }
}

/// The data of a Secret, as read from the cluster.
pub struct SecretData {
    /// `data`: key to bytes.
    pub data: Option<KeyedMap<Vec<u8>>>,
}

/// The data of a ConfigMap, as read from the cluster.
pub struct ConfigMapData {
    /// `data`: key to text.
    pub data: Option<PropMap>,
    /// `binaryData`: key to bytes.
    pub binary_data: Option<KeyedMap<Vec<u8>>>,
}

/// Why a discovery property could not be read.
#[derive(PartialEq, Eq, Structural, Clone, Copy, Debug)]
pub enum PropertyError {
    /// The referenced Secret does not exist.
    SecretNotFound,
    /// The referenced Secret has no such key.
    SecretDataNotFound,
    /// The referenced ConfigMap does not exist.
    ConfigMapNotFound,
    /// The referenced ConfigMap has no such key.
    ConfigMapDataNotFound,
}

/// The bytes a Secret holds under `key`, if any.
pub open spec fn secret_value(s: SecretData, key: Seq<char>) -> Option<Seq<u8>> {
    match s.data {
        Some(d) => if d@.dom().contains(key) { Some(d@[key]@) } else { None },
        None => None,
    }
}

/// The value a discovery property reads from a Secret: the bytes under its key;
/// when the Secret or the key is missing, nothing if the reference is optional
/// and an error otherwise.
pub fn discovery_property_value_from_secret(secret: Option<&SecretData>, selector: &DiscoveryPropertyKeySelector) -> (r: Result<Option<Vec<u8>>, PropertyError>)
    ensures
        ({
            let optional = selector.optional == Some(true);
            match secret {
                None => r == (if optional { Ok(None) } else { Err::<Option<Vec<u8>>, PropertyError>(PropertyError::SecretNotFound) }),
                Some(s) => match secret_value(*s, selector.key@) {
                    Some(v) => r matches Ok(Some(b)) && b@ == v,
                    None => r == (if optional { Ok(None) } else { Err::<Option<Vec<u8>>, PropertyError>(PropertyError::SecretDataNotFound) }),
                },
            }
        }),
{
    let optional = match selector.optional {
        Some(o) => o,
        None => false,
    };
    let secret = match secret {
        None => {
            if optional {
                return Ok(None);
            } else {
                return Err(PropertyError::SecretNotFound);
            }
        },
        Some(s) => s,
    };
    if let Some(data) = &secret.data {
        if let Some(v) = data.get(selector.key.as_str()) {
            return Ok(Some(v.clone()));
        }
    }
    if optional {
        Ok(None)
    } else {
        Err(PropertyError::SecretDataNotFound)
    }
}

/// The bytes a ConfigMap holds under `key`: its text data first, then its binary data.
pub open spec fn config_map_value(c: ConfigMapData, key: Seq<char>) -> Option<Seq<u8>> {
    let text = match c.data {
        Some(d) => if d@.dom().contains(key) { Some(encode_utf8(d@[key])) } else { None },
        None => None,
    };
    match text {
        Some(t) => Some(t),
        None => match c.binary_data {
            Some(b) => if b@.dom().contains(key) { Some(b@[key]@) } else { None },
            None => None,
        },
    }
}

/// The value a discovery property reads from a ConfigMap: the text under its
/// key as bytes, else the binary data under its key; when the ConfigMap or the
/// key is missing, nothing if the reference is optional and an error otherwise.
pub fn discovery_property_value_from_config_map(config_map: Option<&ConfigMapData>, selector: &DiscoveryPropertyKeySelector) -> (r: Result<Option<Vec<u8>>, PropertyError>)
    ensures
        ({
            let optional = selector.optional == Some(true);
            match config_map {
                None => r == (if optional { Ok(None) } else { Err::<Option<Vec<u8>>, PropertyError>(PropertyError::ConfigMapNotFound) }),
                Some(c) => match config_map_value(*c, selector.key@) {
                    Some(v) => r matches Ok(Some(b)) && b@ == v,
                    None => r == (if optional { Ok(None) } else { Err::<Option<Vec<u8>>, PropertyError>(PropertyError::ConfigMapDataNotFound) }),
                },
            }
        }),
{
    let optional = match selector.optional {
        Some(o) => o,
        None => false,
    };
    let config_map = match config_map {
        None => {
            if optional {
                return Ok(None);
            } else {
                return Err(PropertyError::ConfigMapNotFound);
            }
        },
        Some(c) => c,
    };
    if let Some(data) = &config_map.data {
        if let Some(v) = data.get(selector.key.as_str()) {
            return Ok(Some(v.as_str().as_bytes_vec()));
        }
    }
    if let Some(binary_data) = &config_map.binary_data {
        if let Some(v) = binary_data.get(selector.key.as_str()) {
            return Ok(Some(v.clone()));
        }
    }
    if optional {
        Ok(None)
    } else {
        Err(PropertyError::ConfigMapDataNotFound)
    }
}

/// The Secret or ConfigMap that a property's `value_from` refers to, as read from the cluster.
pub enum PropertySourceData {
    /// The referenced Secret, if it exists.
    Secret(Option<SecretData>),
    /// The referenced ConfigMap, if it exists.
    ConfigMap(Option<ConfigMapData>),
}

/// What reading a discovery property gives, as plain values.
pub open spec fn property_outcome(p: DiscoveryProperty, source: Option<PropertySourceData>) -> Result<Option<(Seq<char>, Option<Seq<u8>>)>, PropertyError> {
    match p.value {
        Some(v) => Ok(Some((p.name@, Some(encode_utf8(v@))))),
        None => match p.value_from {
            None => Ok(Some((p.name@, None))),
            Some(DiscoveryPropertySource::SecretKeyRef(sel)) => {
                let optional = sel.optional == Some(true);
                match source {
                    Some(PropertySourceData::Secret(Some(s))) => match secret_value(s, sel.key@) {
                        Some(v) => Ok(Some((p.name@, Some(v)))),
                        None => if optional { Ok(None) } else { Err(PropertyError::SecretDataNotFound) },
                    },
                    _ => if optional { Ok(None) } else { Err(PropertyError::SecretNotFound) },
                }
            },
            Some(DiscoveryPropertySource::ConfigMapKeyRef(sel)) => {
                let optional = sel.optional == Some(true);
                match source {
                    Some(PropertySourceData::ConfigMap(Some(c))) => match config_map_value(c, sel.key@) {
                        Some(v) => Ok(Some((p.name@, Some(v)))),
                        None => if optional { Ok(None) } else { Err(PropertyError::ConfigMapDataNotFound) },
                    },
                    _ => if optional { Ok(None) } else { Err(PropertyError::ConfigMapNotFound) },
                }
            },
        },
    }
}

/// The plain value of what reading a discovery property returned.
pub open spec fn property_result_view(r: Result<Option<(String, Option<Vec<u8>>)>, PropertyError>) -> Result<Option<(Seq<char>, Option<Seq<u8>>)>, PropertyError> {
    match r {
        Ok(Some((n, Some(b)))) => Ok(Some((n@, Some(b@)))),
        Ok(Some((n, None))) => Ok(Some((n@, None))),
        Ok(None) => Ok(None),
        Err(e) => Err(e),
    }
}

/// Whether `source` is of the kind `property` reads from, when it reads from one.
pub open spec fn source_fits(property: DiscoveryProperty, source: Option<PropertySourceData>) -> bool {
    &&& property.value is None && property.value_from is Some ==> source is Some
    &&& property.value is None ==> (property.value_from matches Some(DiscoveryPropertySource::SecretKeyRef(_)) ==> source matches Some(PropertySourceData::Secret(_)))
    &&& property.value is None ==> (property.value_from matches Some(DiscoveryPropertySource::ConfigMapKeyRef(_)) ==> source matches Some(PropertySourceData::ConfigMap(_)))
}

/// The discovery properties gathered from `properties`, reading each from its
/// source in `sources`: the first one that fails gives its error; otherwise
/// each property read is stored under its name (a later one replacing an
/// earlier one of the same name), and an optional one whose value is missing
/// is left out.
pub open spec fn gathered_properties(properties: Seq<DiscoveryProperty>, sources: Seq<Option<PropertySourceData>>) -> Result<Map<Seq<char>, Option<Seq<u8>>>, PropertyError>
    decreases properties.len(),
{
    if properties.len() == 0 {
        Ok(Map::empty())
    } else {
        match gathered_properties(properties.drop_last(), sources) {
            Err(e) => Err(e),
            Ok(m) => match property_outcome(properties.last(), sources[properties.len() - 1]) {
                Err(e) => Err(e),
                Ok(None) => Ok(m),
                Ok(Some((k, v))) => Ok(m.insert(k, v)),
            },
        }
    }
}

/// The bytes of an optional value, as plain values.
pub open spec fn optional_bytes_view(v: Option<Vec<u8>>) -> Option<Seq<u8>> {
    match v {
        Some(b) => Some(b@),
        None => None,
    }
}

/// Gathers the discovery properties of a Configuration into a map from name to
/// value, reading each from the Secret or ConfigMap in `sources` at its position
/// (see `gathered_properties`).
pub fn get_discovery_properties(properties: &Vec<DiscoveryProperty>, sources: &Vec<Option<PropertySourceData>>) -> (r: Result<KeyedMap<Option<Vec<u8>>>, PropertyError>)
    requires
        sources@.len() == properties@.len(),
        forall|i: int| 0 <= i < properties@.len() ==> source_fits(properties@[i], #[trigger] sources@[i]),
    ensures
        match r {
            Ok(m) => gathered_properties(properties@, sources@) == Ok::<Map<Seq<char>, Option<Seq<u8>>>, PropertyError>(
                m@.map_values(|v: Option<Vec<u8>>| optional_bytes_view(v))),
            Err(e) => gathered_properties(properties@, sources@) == Err::<Map<Seq<char>, Option<Seq<u8>>>, PropertyError>(e),
        },
{
    let mut gathered: KeyedMap<Option<Vec<u8>>> = KeyedMap::new();
    let mut i: usize = 0;
    assert(gathered@.map_values(|v: Option<Vec<u8>>| optional_bytes_view(v)) =~= Map::empty());
    while i < properties.len()
        invariant
            sources@.len() == properties@.len(),
            forall|j: int| 0 <= j < properties@.len() ==> source_fits(properties@[j], #[trigger] sources@[j]),
            i <= properties@.len(),
            gathered_properties(properties@.take(i as int), sources@) == Ok::<Map<Seq<char>, Option<Seq<u8>>>, PropertyError>(
                gathered@.map_values(|v: Option<Vec<u8>>| optional_bytes_view(v))),
        decreases properties.len() - i,
    {
        let source = match &sources[i] {
            Some(s) => Some(s),
            None => None,
        };
        assert(source_fits(properties@[i as int], sources@[i as int]));
        let read = get_discovery_property(&properties[i], source);
        let ghost prev = gathered@;
        proof {
            assert(properties@.take(i as int + 1).drop_last() =~= properties@.take(i as int));
        }
        match read {
            Err(e) => {
                proof {
                    lemma_gathered_stays_failed(properties@, sources@, i as int + 1, e);
                }
                return Err(e);
            },
            Ok(None) => {},
            Ok(Some((name, value))) => {
                gathered.insert(name, value);
                assert(gathered@.map_values(|v: Option<Vec<u8>>| optional_bytes_view(v)) =~= prev.map_values(|v: Option<Vec<u8>>| optional_bytes_view(v)).insert(
                    properties@[i as int].name@, property_outcome(properties@[i as int], sources@[i as int])->Ok_0->Some_0.1));
            },
        }
        i = i + 1;
    }
    assert(properties@.take(properties@.len() as int) =~= properties@);
    Ok(gathered)
}

/// Once gathering fails at some property, it fails with that error whatever follows.
proof fn lemma_gathered_stays_failed(properties: Seq<DiscoveryProperty>, sources: Seq<Option<PropertySourceData>>, n: int, e: PropertyError)
    requires
        0 <= n <= properties.len(),
        gathered_properties(properties.take(n), sources) == Err::<Map<Seq<char>, Option<Seq<u8>>>, PropertyError>(e),
    ensures
        gathered_properties(properties, sources) == Err::<Map<Seq<char>, Option<Seq<u8>>>, PropertyError>(e),
    decreases properties.len() - n,
{
    if n < properties.len() {
        assert(properties.take(n + 1).drop_last() =~= properties.take(n));
        lemma_gathered_stays_failed(properties, sources, n + 1, e);
    } else {
        assert(properties.take(n) =~= properties);
    }
}

/// Reads one discovery property: a literal value as bytes; a value from a
/// Secret or ConfigMap (read from `source`, which must be the kind the property
/// refers to), where an optional missing value leaves the property out; or,
/// without either, the property with no value.
pub fn get_discovery_property(property: &DiscoveryProperty, source: Option<&PropertySourceData>) -> (r: Result<Option<(String, Option<Vec<u8>>)>, PropertyError>)
    requires
        property.value is None && property.value_from is Some ==> source is Some,
        property.value is None ==> (property.value_from matches Some(DiscoveryPropertySource::SecretKeyRef(_)) ==> source matches Some(PropertySourceData::Secret(_))),
        property.value is None ==> (property.value_from matches Some(DiscoveryPropertySource::ConfigMapKeyRef(_)) ==> source matches Some(PropertySourceData::ConfigMap(_))),
    ensures
        property_result_view(r) == property_outcome(*property, match source { Some(s) => Some(*s), None => None }),
        match property.value {
            Some(v) => r matches Ok(Some((n, Some(b)))) && n@ == property.name@ && b@ == encode_utf8(v@),
            None => match property.value_from {
                None => r matches Ok(Some((n, None))) && n@ == property.name@,
                Some(DiscoveryPropertySource::SecretKeyRef(sel)) => {
                    let optional = sel.optional == Some(true);
                    match source {
                        Some(PropertySourceData::Secret(secret)) => match secret {
                            None => r == (if optional { Ok(None) } else { Err::<Option<(String, Option<Vec<u8>>)>, PropertyError>(PropertyError::SecretNotFound) }),
                            Some(s) => match secret_value(*s, sel.key@) {
                                Some(v) => r matches Ok(Some((n, Some(b)))) && n@ == property.name@ && b@ == v,
                                None => r == (if optional { Ok(None) } else { Err::<Option<(String, Option<Vec<u8>>)>, PropertyError>(PropertyError::SecretDataNotFound) }),
                            },
                        },
                        _ => false,
                    }
                },
                Some(DiscoveryPropertySource::ConfigMapKeyRef(sel)) => {
                    let optional = sel.optional == Some(true);
                    match source {
                        Some(PropertySourceData::ConfigMap(config_map)) => match config_map {
                            None => r == (if optional { Ok(None) } else { Err::<Option<(String, Option<Vec<u8>>)>, PropertyError>(PropertyError::ConfigMapNotFound) }),
                            Some(c) => match config_map_value(*c, sel.key@) {
                                Some(v) => r matches Ok(Some((n, Some(b)))) && n@ == property.name@ && b@ == v,
                                None => r == (if optional { Ok(None) } else { Err::<Option<(String, Option<Vec<u8>>)>, PropertyError>(PropertyError::ConfigMapDataNotFound) }),
                            },
                        },
                        _ => false,
                    }
                },
            },
        },
{
    let value = if let Some(v) = &property.value {
        Some(v.as_str().as_bytes_vec())
    } else if let Some(value_from) = &property.value_from {
        let looked_up = match (value_from, source) {
            (DiscoveryPropertySource::SecretKeyRef(sel), Some(PropertySourceData::Secret(secret))) => {
                discovery_property_value_from_secret(secret.as_ref(), sel)
            },
            (DiscoveryPropertySource::ConfigMapKeyRef(sel), Some(PropertySourceData::ConfigMap(config_map))) => {
                discovery_property_value_from_config_map(config_map.as_ref(), sel)
            },
            _ => {
                assert(false);
                return Ok(None);
            },
        };
        match looked_up {
            Ok(Some(bytes)) => Some(bytes),
            Ok(None) => return Ok(None),
            Err(e) => return Err(e),
        }
    } else {
        None
    };
    Ok(Some((property.name.clone(), value)))
}

} // verus!
