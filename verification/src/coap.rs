//! CoAP discovery: which resources a device's CoRE link-format answer offers,
//! which of them a query filter keeps, and the device that results.
use vstd::prelude::*;
use crate::device::Device;
use crate::props::PropMap;
use crate::text::{decimal, owned, push_str, str_eq, string_from_chars, u64_to_string};

verus! {

/// Seconds between two rounds of discovery.
pub const DISCOVERY_INTERVAL_SECS: u64 = 10;

/// Property under which a device lists the types of its resources.
pub const COAP_RESOURCE_TYPES_LABEL_ID: &'static str = "COAP_RESOURCE_TYPES";

/// Property under which a device records its IP address.
pub const COAP_IP_LABEL_ID: &'static str = "COAP_IP";

/// Scheme prefix of CoAP URLs.
pub const COAP_PREFIX: &'static str = "coap://";

/// The CoAP port.
pub const COAP_PORT: u16 = 5683;

/// A query filter; RFC 7252 allows a single filter element.
pub struct QueryFilter {
    pub name: String,
    pub value: String,
}

/// How the CoAP discovery handler is asked to discover.
pub struct CoAPDiscoveryDetails {
    pub multicast: bool,
    pub multicast_ip_address: String,
    pub static_ip_addresses: Vec<String>,
    pub query_filter: Option<QueryFilter>,
    pub discovery_timeout_seconds: u32,
}

/// Attributes by their text.
pub open spec fn attrs_view(a: Seq<(String, String)>) -> Seq<(Seq<char>, Seq<char>)> {
    a.map_values(|p: (String, String)| (p.0@, p.1@))
}

/// Links by their text.
pub open spec fn links_view(l: Seq<(String, Vec<(String, String)>)>) -> Seq<(Seq<char>, Seq<(Seq<char>, Seq<char>)>)> {
    l.map_values(|p: (String, Vec<(String, String)>)| (p.0@, attrs_view(p.1@)))
}

/// The links that CoAP link-format `text` holds, as the outside parser reads
/// them: each URI with its attributes (key and unquoted value) in order, up to
/// the first malformed link.
pub uninterp spec fn link_format_links(text: Seq<char>) -> Seq<(Seq<char>, Seq<(Seq<char>, Seq<char>)>)>;

/// Reads CoAP link-format with `coap_lite::link_format::LinkFormatParser`,
/// stopping at the first link it cannot parse. Its result is given a name
/// only: how the parser reads the text is not restated here.
#[verifier::external_body]
fn parse_link_format(text: &str) -> (links: Vec<(String, Vec<(String, String)>)>)
    ensures
        links_view(links@) == link_format_links(text@),
{
    let mut links = Vec::new();
    let mut parser = coap_lite::link_format::LinkFormatParser::new(text);
    while let Some(Ok((uri, attributes))) = parser.next() {
        let mut attrs = Vec::new();
        for (key, value) in attributes {
            attrs.push((key.to_string(), value.to_string()));
        }
        links.push((uri.to_string(), attrs));
    }
    links
}

/// The value of the last `rt` attribute.
pub open spec fn last_resource_type(attrs: Seq<(Seq<char>, Seq<char>)>) -> Option<Seq<char>>
    decreases attrs.len(),
{
    if attrs.len() == 0 {
        None
    } else if attrs.last().0 == "rt"@ {
        Some(attrs.last().1)
    } else {
        last_resource_type(attrs.drop_last())
    }
}

/// Some attribute says `if="sensor"`, the only interface supported.
pub open spec fn has_sensor_interface(attrs: Seq<(Seq<char>, Seq<char>)>) -> bool
    decreases attrs.len(),
{
    attrs.len() > 0 && (attrs.last() == ("if"@, "sensor"@) || has_sensor_interface(attrs.drop_last()))
}

/// The resource (URI, resource type) a link offers: only a sensor with a resource type.
pub open spec fn link_resource(link: (Seq<char>, Seq<(Seq<char>, Seq<char>)>)) -> Option<(Seq<char>, Seq<char>)> {
    if has_sensor_interface(link.1) {
        match last_resource_type(link.1) {
            Some(rt) => Some((link.0, rt)),
            None => None,
        }
    } else {
        None
    }
}

proof fn lemma_sensor_interface_any(attrs: Seq<(Seq<char>, Seq<char>)>)
    ensures
        has_sensor_interface(attrs) <==> exists|i: int| 0 <= i < attrs.len() && attrs[i] == ("if"@, "sensor"@),
    decreases attrs.len(),
{
    if attrs.len() > 0 {
        let d = attrs.drop_last();
        lemma_sensor_interface_any(d);
        if exists|i: int| 0 <= i < d.len() && d[i] == ("if"@, "sensor"@) {
            let i = choose|i: int| 0 <= i < d.len() && d[i] == ("if"@, "sensor"@);
            assert(attrs[i] == d[i]);
        }
        if exists|i: int| 0 <= i < attrs.len() && attrs[i] == ("if"@, "sensor"@) {
            let i = choose|i: int| 0 <= i < attrs.len() && attrs[i] == ("if"@, "sensor"@);
            if i < d.len() {
                assert(d[i] == attrs[i]);
            }
        }
    }
}

proof fn lemma_last_resource_type_is_last(attrs: Seq<(Seq<char>, Seq<char>)>)
    ensures
        last_resource_type(attrs) is None <==> forall|i: int| 0 <= i < attrs.len() ==> attrs[i].0 != "rt"@,
        last_resource_type(attrs) matches Some(v) ==> exists|j: int| 0 <= j < attrs.len() && attrs[j] == ("rt"@, v)
            && forall|k: int| j < k < attrs.len() ==> attrs[k].0 != "rt"@,
    decreases attrs.len(),
{
    if attrs.len() > 0 {
        let d = attrs.drop_last();
        lemma_last_resource_type_is_last(d);
        if attrs.last().0 == "rt"@ {
            let j = attrs.len() - 1;
            assert(attrs[j] == ("rt"@, attrs.last().1));
        } else {
            assert forall|i: int| 0 <= i < d.len() implies d[i] == attrs[i] by {}
            if last_resource_type(d) is Some {
                let v = last_resource_type(d)->0;
                let j = choose|j: int| 0 <= j < d.len() && d[j] == ("rt"@, v)
                    && forall|k: int| j < k < d.len() ==> d[k].0 != "rt"@;
                assert(attrs[j] == ("rt"@, v));
                assert forall|k: int| j < k < attrs.len() implies attrs[k].0 != "rt"@ by {
                    if k < d.len() {
                        assert(d[k] == attrs[k]);
                    }
                }
            }
        }
    }
}

/// A link offers a resource exactly when one of its attributes says
/// `if="sensor"` and one gives a resource type `rt`; the resource is the link's
/// URI with the value of its last `rt` attribute.
pub proof fn lemma_link_resource_rules(link: (Seq<char>, Seq<(Seq<char>, Seq<char>)>))
    ensures
        link_resource(link) is Some <==> (exists|i: int| 0 <= i < link.1.len() && link.1[i] == ("if"@, "sensor"@))
            && (exists|j: int| 0 <= j < link.1.len() && link.1[j].0 == "rt"@),
        link_resource(link) matches Some(r) ==> r.0 == link.0 && exists|j: int| 0 <= j < link.1.len()
            && link.1[j] == ("rt"@, r.1) && forall|k: int| j < k < link.1.len() ==> link.1[k].0 != "rt"@,
{
    lemma_sensor_interface_any(link.1);
    lemma_last_resource_type_is_last(link.1);
}

/// The resources the links offer, in order.
pub open spec fn resources_of(links: Seq<(Seq<char>, Seq<(Seq<char>, Seq<char>)>)>) -> Seq<(Seq<char>, Seq<char>)>
    decreases links.len(),
{
    if links.len() == 0 {
        Seq::empty()
    } else {
        let rest = resources_of(links.drop_last());
        match link_resource(links.last()) {
            Some(r) => rest.push(r),
            None => rest,
        }
    }
}

/// The sensor resources, with their resource type, that parsed links offer.
pub fn select_resources(links: &Vec<(String, Vec<(String, String)>)>) -> (r: Vec<(String, String)>)
    ensures
        attrs_view(r@) == resources_of(links_view(links@)),
{
    let ghost lv = links_view(links@);
    let mut r: Vec<(String, String)> = Vec::new();
    let mut i: usize = 0;
    while i < links.len()
        invariant
            lv == links_view(links@),
            i <= links@.len(),
            attrs_view(r@) == resources_of(lv.take(i as int)),
        decreases links.len() - i,
    {
        let attrs = &links[i].1;
        let ghost av = attrs_view(attrs@);
        let mut rtype: Option<String> = None;
        let mut sensor = false;
        let mut j: usize = 0;
        while j < attrs.len()
            invariant
                av == attrs_view(attrs@),
                j <= attrs@.len(),
                sensor == has_sensor_interface(av.take(j as int)),
                match rtype {
                    Some(t) => last_resource_type(av.take(j as int)) == Some(t@),
                    None => last_resource_type(av.take(j as int)) is None,
                },
            decreases attrs.len() - j,
        {
            let key = attrs[j].0.as_str();
            let value = attrs[j].1.as_str();
            assert(av.take(j + 1).drop_last() =~= av.take(j as int));
            assert(av.take(j + 1).last() == av[j as int]);
            if str_eq(key, "rt") {
                rtype = Some(owned(value));
            }
            if str_eq(key, "if") && str_eq(value, "sensor") {
                sensor = true;
            }
            j = j + 1;
        }
        assert(av.take(attrs@.len() as int) =~= av);
        assert(lv.take(i + 1).drop_last() =~= lv.take(i as int));
        assert(lv.take(i + 1).last() == lv[i as int]);
        if sensor {
            match rtype {
                Some(t) => {
                    let ghost before = r@;
                    r.push((links[i].0.clone(), t));
                    assert(attrs_view(r@) =~= attrs_view(before).push(r@.last()@));
                },
                None => {},
            }
        }
        i = i + 1;
    }
    assert(lv.take(links@.len() as int) =~= lv);
    r
}

/// The sensor resources (URI, resource type) that CoAP link-format `link_value` offers.
pub fn parse_link_value(link_value: &str) -> (r: Vec<(String, String)>)
    ensures
        attrs_view(r@) == resources_of(link_format_links(link_value@)),
{
    let links = parse_link_format(link_value);
    select_resources(&links)
}

/// A query filter by its text.
pub open spec fn filter_view(query_filter: Option<&QueryFilter>) -> Option<(Seq<char>, Seq<char>)> {
    match query_filter {
        Some(q) => Some((q.name@, q.value@)),
        None => None,
    }
}

/// A resource passes the filter `name=value`: an `href` filter asks for its URI,
/// an `rt` filter for its resource type, any other filter for nothing.
pub open spec fn passes_filter(name: Seq<char>, value: Seq<char>, resource: (Seq<char>, Seq<char>)) -> bool {
    (name != "href"@ || resource.0 == value) && (name != "rt"@ || resource.1 == value)
}

/// The resources that pass the filter, in order; all of them without one.
pub open spec fn filter_resources(rs: Seq<(Seq<char>, Seq<char>)>, filter: Option<(Seq<char>, Seq<char>)>) -> Seq<(Seq<char>, Seq<char>)>
    decreases rs.len(),
{
    match filter {
        None => rs,
        Some(q) => if rs.len() == 0 {
            rs
        } else {
            let rest = filter_resources(rs.drop_last(), filter);
            if passes_filter(q.0, q.1, rs.last()) {
                rest.push(rs.last())
            } else {
                rest
            }
        },
    }
}

/// Devices may ignore a query filter: whatever they answer, every resource kept
/// passes the filter, and a resource that passes it is kept.
pub proof fn lemma_filtered_resources_pass(rs: Seq<(Seq<char>, Seq<char>)>, name: Seq<char>, value: Seq<char>)
    ensures
        forall|i: int| 0 <= i < filter_resources(rs, Some((name, value))).len()
            ==> passes_filter(name, value, #[trigger] filter_resources(rs, Some((name, value)))[i]),
        forall|r: (Seq<char>, Seq<char>)| rs.contains(r) && passes_filter(name, value, r)
            ==> #[trigger] filter_resources(rs, Some((name, value))).contains(r),
    decreases rs.len(),
{
    if rs.len() > 0 {
        let d = rs.drop_last();
        lemma_filtered_resources_pass(d, name, value);
        let f = filter_resources(rs, Some((name, value)));
        let fd = filter_resources(d, Some((name, value)));
        assert forall|r: (Seq<char>, Seq<char>)| rs.contains(r) && passes_filter(name, value, r) implies #[trigger] f.contains(r) by {
            let i = choose|i: int| 0 <= i < rs.len() && rs[i] == r;
            if i < rs.len() - 1 {
                assert(d[i] == r);
                assert(fd.contains(r));
                if passes_filter(name, value, rs.last()) {
                    vstd::seq_lib::lemma_seq_contains_after_push(fd, rs.last(), r);
                }
            } else {
                vstd::seq_lib::lemma_seq_contains_after_push(fd, rs.last(), r);
            }
        }
    }
}

/// The texts of `s` separated by commas.
pub open spec fn join_comma(s: Seq<Seq<char>>) -> Seq<char>
    decreases s.len(),
{
    if s.len() == 0 {
        Seq::empty()
    } else if s.len() == 1 {
        s[0]
    } else {
        join_comma(s.drop_last()) + seq![','] + s.last()
    }
}

/// `m` with each resource's URI stored under its resource type, in order.
pub open spec fn insert_resources(m: Map<Seq<char>, Seq<char>>, rs: Seq<(Seq<char>, Seq<char>)>) -> Map<Seq<char>, Seq<char>>
    decreases rs.len(),
{
    if rs.len() == 0 {
        m
    } else {
        insert_resources(m, rs.drop_last()).insert(rs.last().1, rs.last().0)
    }
}

/// The properties of a device at `ip` offering `rs`: its address, the list of
/// its resource types, then each resource's URI under its type.
pub open spec fn device_properties(ip: Seq<char>, rs: Seq<(Seq<char>, Seq<char>)>) -> Map<Seq<char>, Seq<char>> {
    insert_resources(
        Map::empty().insert(COAP_IP_LABEL_ID@, ip).insert(
            COAP_RESOURCE_TYPES_LABEL_ID@,
            join_comma(rs.map_values(|r: (Seq<char>, Seq<char>)| r.1)),
        ),
        rs,
    )
}

/// The device at `ip_address` that offers `resources`, keeping those that pass
/// the query filter (devices may ignore it); none when no resource is left.
pub fn device_from_resources(ip_address: &str, query_filter: Option<&QueryFilter>, resources: &Vec<(String, String)>) -> (r: Option<Device>)
    ensures
        r is None <==> filter_resources(attrs_view(resources@), filter_view(query_filter)).len() == 0,
        r matches Some(d) ==> d.id@ == ip_address@ && d.properties@ == device_properties(
            ip_address@,
            filter_resources(attrs_view(resources@), filter_view(query_filter)),
        ) && d.mounts@.len() == 0 && d.device_specs@.len() == 0,
{
    let ghost rv = attrs_view(resources@);
    let ghost fv = filter_view(query_filter);
    let mut kept: Vec<(String, String)> = Vec::new();
    let mut i: usize = 0;
    while i < resources.len()
        invariant
            rv == attrs_view(resources@),
            fv == filter_view(query_filter),
            i <= resources@.len(),
            attrs_view(kept@) == filter_resources(rv.take(i as int), fv),
        decreases resources.len() - i,
    {
        assert(rv.take(i + 1).drop_last() =~= rv.take(i as int));
        assert(rv.take(i + 1).last() == rv[i as int]);
        let uri = resources[i].0.as_str();
        let rtype = resources[i].1.as_str();
        let keep = match query_filter {
            Some(q) => (!str_eq(q.name.as_str(), "href") || str_eq(uri, q.value.as_str()))
                && (!str_eq(q.name.as_str(), "rt") || str_eq(rtype, q.value.as_str())),
            None => true,
        };
        proof {
            assert(rv[i as int] == (uri@, rtype@));
            match fv {
                Some(q) => {
                    assert(keep == passes_filter(q.0, q.1, rv[i as int]));
                },
                None => {
                    assert(keep);
                    assert(rv.take(i + 1) =~= rv.take(i as int).push(rv[i as int]));
                },
            }
        }
        if keep {
            let ghost before = kept@;
            kept.push((owned(uri), owned(rtype)));
            assert(attrs_view(kept@) =~= attrs_view(before).push(rv[i as int]));
        }
        i = i + 1;
    }
    assert(rv.take(resources@.len() as int) =~= rv);
    let ghost kv = attrs_view(kept@);
    if kept.len() == 0 {
        return None;
    }
    let mut types: Vec<char> = Vec::new();
    let ghost tv = kv.map_values(|r: (Seq<char>, Seq<char>)| r.1);
    let mut k: usize = 0;
    while k < kept.len()
        invariant
            kv == attrs_view(kept@),
            tv == kv.map_values(|r: (Seq<char>, Seq<char>)| r.1),
            k <= kept@.len(),
            types@ == join_comma(tv.take(k as int)),
        decreases kept.len() - k,
    {
        assert(tv.take(k + 1).drop_last() =~= tv.take(k as int));
        assert(tv.take(k + 1).last() == kept@[k as int].1@);
        if k > 0 {
            types.push(',');
        }
        push_str(&mut types, kept[k].1.as_str());
        assert(k == 0 ==> tv.take(k + 1)[0] == tv.take(k + 1).last());
        k = k + 1;
    }
    assert(tv.take(kept@.len() as int) =~= tv);
    let mut properties = PropMap::new();
    properties.insert(owned(COAP_IP_LABEL_ID), owned(ip_address));
    properties.insert(owned(COAP_RESOURCE_TYPES_LABEL_ID), string_from_chars(&types));
    let ghost base = properties@;
    let mut m: usize = 0;
    while m < kept.len()
        invariant
            kv == attrs_view(kept@),
            m <= kept@.len(),
            properties@ == insert_resources(base, kv.take(m as int)),
        decreases kept.len() - m,
    {
        assert(kv.take(m + 1).drop_last() =~= kv.take(m as int));
        assert(kv.take(m + 1).last() == kv[m as int]);
        properties.insert(kept[m].1.clone(), kept[m].0.clone());
        m = m + 1;
    }
    assert(kv.take(kept@.len() as int) =~= kv);
    Some(Device { id: owned(ip_address), properties, mounts: Vec::new(), device_specs: Vec::new() })
}

/// The device at `ip_address` that CoAP link-format `payload` describes, with
/// the resources that pass the query filter; none when no resource is left.
pub fn parse_payload(ip_address: &str, query_filter: Option<&QueryFilter>, payload: &str) -> (r: Option<Device>)
    ensures
        r is None <==> filter_resources(resources_of(link_format_links(payload@)), filter_view(query_filter)).len() == 0,
        r matches Some(d) ==> d.id@ == ip_address@ && d.properties@ == device_properties(
            ip_address@,
            filter_resources(resources_of(link_format_links(payload@)), filter_view(query_filter)),
        ) && d.mounts@.len() == 0 && d.device_specs@.len() == 0,
{
    let resources = parse_link_value(payload);
    device_from_resources(ip_address, query_filter, &resources)
}

/// The path that asks a device for its resources, with the query filter if any.
pub open spec fn discovery_path(filter: Option<(Seq<char>, Seq<char>)>) -> Seq<char> {
    match filter {
        Some(q) => "/well-known/core?"@ + q.0 + "="@ + q.1,
        None => "/well-known/core"@,
    }
}

/// The path that asks a device for its resources, with the query filter if any.
pub fn build_path(query_filter: Option<&QueryFilter>) -> (r: String)
    ensures
        r@ == discovery_path(filter_view(query_filter)),
{
    match query_filter {
        Some(q) => {
            let mut v: Vec<char> = Vec::new();
            push_str(&mut v, "/well-known/core?");
            push_str(&mut v, q.name.as_str());
            push_str(&mut v, "=");
            push_str(&mut v, q.value.as_str());
            string_from_chars(&v)
        },
        None => owned("/well-known/core"),
    }
}

/// The URL that asks the device at `ip_address` for its resources.
pub fn endpoint_url(ip_address: &str, query_filter: Option<&QueryFilter>) -> (r: String)
    ensures
        r@ == COAP_PREFIX@ + ip_address@ + ":"@ + decimal(COAP_PORT as nat) + discovery_path(filter_view(query_filter)),
{
    let mut v: Vec<char> = Vec::new();
    push_str(&mut v, COAP_PREFIX);
    push_str(&mut v, ip_address);
    push_str(&mut v, ":");
    let port = u64_to_string(COAP_PORT as u64);
    push_str(&mut v, port.as_str());
    let path = build_path(query_filter);
    push_str(&mut v, path.as_str());
    string_from_chars(&v)
}

/// What the device at `ip` answering `payload` contributes to a multicast round.
pub open spec fn answer_device(ip: Seq<char>, payload: Seq<char>, filter: Option<(Seq<char>, Seq<char>)>) -> Option<(Seq<char>, Map<Seq<char>, Seq<char>>)> {
    let rs = filter_resources(resources_of(link_format_links(payload)), filter);
    if rs.len() == 0 {
        None
    } else {
        Some((ip, device_properties(ip, rs)))
    }
}

/// The devices, in order, that the answers (source address, payload) of a multicast round describe.
pub open spec fn answered_devices(answers: Seq<(Seq<char>, Seq<char>)>, filter: Option<(Seq<char>, Seq<char>)>) -> Seq<(Seq<char>, Map<Seq<char>, Seq<char>>)>
    decreases answers.len(),
{
    if answers.len() == 0 {
        Seq::empty()
    } else {
        let rest = answered_devices(answers.drop_last(), filter);
        match answer_device(answers.last().0, answers.last().1, filter) {
            Some(d) => rest.push(d),
            None => rest,
        }
    }
}

/// Devices by id and properties.
pub open spec fn devices_view(d: Seq<Device>) -> Seq<(Seq<char>, Map<Seq<char>, Seq<char>>)> {
    d.map_values(|x: Device| (x.id@, x.properties@))
}

/// The devices that the answers (source address, payload) to a multicast request describe.
pub fn devices_from_answers(query_filter: Option<&QueryFilter>, answers: &Vec<(String, String)>) -> (r: Vec<Device>)
    ensures
        devices_view(r@) == answered_devices(attrs_view(answers@), filter_view(query_filter)),
        forall|i: int| 0 <= i < r@.len() ==> (#[trigger] r@[i]).mounts@.len() == 0 && r@[i].device_specs@.len() == 0,
{
    let ghost av = attrs_view(answers@);
    let mut r: Vec<Device> = Vec::new();
    let mut i: usize = 0;
    while i < answers.len()
        invariant
            av == attrs_view(answers@),
            i <= answers@.len(),
            devices_view(r@) == answered_devices(av.take(i as int), filter_view(query_filter)),
            forall|j: int| 0 <= j < r@.len() ==> (#[trigger] r@[j]).mounts@.len() == 0 && r@[j].device_specs@.len() == 0,
        decreases answers.len() - i,
    {
        assert(av.take(i + 1).drop_last() =~= av.take(i as int));
        assert(av.take(i + 1).last() == av[i as int]);
        match parse_payload(answers[i].0.as_str(), query_filter, answers[i].1.as_str()) {
            Some(d) => {
                let ghost before = r@;
                r.push(d);
                assert(devices_view(r@) =~= devices_view(before).push(devices_view(r@).last()));
            },
            None => {},
        }
        i = i + 1;
    }
    assert(av.take(answers@.len() as int) =~= av);
    r
}

} // verus!
