//! Usage of one slot of an Instance: who reserved it, and how.
//!
//! A slot's usage is stored in an Instance's `device_usage` as a string:
//! `""` for a free slot, `"<node>"` for a slot reserved by an Instance device
//! plugin on `<node>`, and `"C:<vdev>:<node>"` for a slot reserved by the
//! Configuration device plugin on `<node>` under the virtual device id `<vdev>`.
use vstd::prelude::*;
use crate::text::{push_str, str_eq, string_from_chars, to_chars};

verus! {

/// Who reserved a slot.
#[derive(Clone, Debug, PartialEq, Eq)]
pub enum DeviceUsageKind {
    /// Nobody: the slot is free.
    Free,
    /// The Configuration device plugin, under a virtual device id.
    Configuration(String),
    /// An Instance device plugin.
    Instance,
}

/// Abstract value of a `DeviceUsageKind`.
pub enum UsageKindView {
    Free,
    Configuration(Seq<char>),
    Instance,
}

impl View for DeviceUsageKind {
    type V = UsageKindView;

    open spec fn view(&self) -> UsageKindView {
        match self {
            DeviceUsageKind::Free => UsageKindView::Free,
            DeviceUsageKind::Configuration(v) => UsageKindView::Configuration(v@),
            DeviceUsageKind::Instance => UsageKindView::Instance,
        }
    }
}

/// The usage of a slot: its kind and the node that holds it.
#[derive(Clone, Debug, PartialEq, Eq)]
pub struct NodeUsage {
    kind: DeviceUsageKind,
    node_name: String,
}

/// Abstract value of a `NodeUsage`.
pub struct UsageView {
    pub kind: UsageKindView,
    pub node: Seq<char>,
}

impl View for NodeUsage {
    type V = UsageView;

    closed spec fn view(&self) -> UsageView {
        UsageView { kind: self.kind@, node: self.node_name@ }
    }
}

/// The characters `C:` that start a Configuration reservation.
pub open spec fn config_tag() -> Seq<char> {
    seq!['C', ':']
}

/// A usage string is written this way.
pub open spec fn format_usage(u: UsageView) -> Seq<char> {
    match u.kind {
        UsageKindView::Free => Seq::empty(),
        UsageKindView::Configuration(v) => config_tag() + v + seq![':'] + u.node,
        UsageKindView::Instance => u.node,
    }
}

/// Position of the first ':' in `s` (meaningful when `s` holds one).
pub open spec fn first_colon(s: Seq<char>) -> int {
    choose|i: int| 0 <= i < s.len() && s[i] == ':' && forall|j: int| 0 <= j < i ==> s[j] != ':'
}

/// Whether `s` has the shape `C:<vdev>:<rest>`.
pub open spec fn has_config_shape(s: Seq<char>) -> bool {
    s.len() >= 2 && s[0] == 'C' && s[1] == ':' && s.subrange(2, s.len() as int).contains(':')
}

/// How a usage string is read; `None` when it cannot be read.
pub open spec fn parse_usage(s: Seq<char>) -> Option<UsageView> {
    if s.len() == 0 {
        Some(UsageView { kind: UsageKindView::Free, node: Seq::empty() })
    } else if has_config_shape(s) {
        let rest = s.subrange(2, s.len() as int);
        let i = first_colon(rest);
        let node = rest.subrange(i + 1, rest.len() as int);
        if node.len() == 0 {
            None
        } else {
            Some(UsageView { kind: UsageKindView::Configuration(rest.subrange(0, i)), node })
        }
    } else {
        Some(UsageView { kind: UsageKindView::Instance, node: s })
    }
}

/// A usage that can be written and read back: a free slot names no node, a
/// reserved slot names one, a virtual device id holds no ':', and an Instance
/// reservation's node name does not itself look like a Configuration reservation.
pub open spec fn usage_well_formed(u: UsageView) -> bool {
    match u.kind {
        UsageKindView::Free => u.node.len() == 0,
        UsageKindView::Configuration(v) => u.node.len() > 0 && !v.contains(':'),
        UsageKindView::Instance => u.node.len() > 0 && !has_config_shape(u.node),
    }
}

/// Why a `NodeUsage` could not be made or read.
#[derive(Clone, Debug, PartialEq, Eq)]
pub enum NodeUsageError {
    /// A free usage was given a node name.
    NodeNameForFree,
    /// A reservation was given no node name.
    MissingNodeName,
    /// The usage string names a Configuration reservation without a node.
    Unparsable,
}

proof fn lemma_first_colon(s: Seq<char>, i: int)
    requires
        0 <= i < s.len(),
        s[i] == ':',
        forall|j: int| 0 <= j < i ==> s[j] != ':',
    ensures
        first_colon(s) == i,
        s.contains(':'),
{
    let k = first_colon(s);
    assert(s[i] == ':' && forall|j: int| 0 <= j < i ==> s[j] != ':');
    if k < i {
        assert(s[k] == ':');
    } else if k > i {
        assert(s[i] != ':');
    }
}

impl DeviceUsageKind {
    /// A copy of the kind.
    pub fn copy(&self) -> (k: DeviceUsageKind)
        ensures
            k@ == self@,
    {
        match self {
            DeviceUsageKind::Free => DeviceUsageKind::Free,
            DeviceUsageKind::Configuration(v) => DeviceUsageKind::Configuration(v.clone()),
            DeviceUsageKind::Instance => DeviceUsageKind::Instance,
        }
    }
}

impl NodeUsage {
    /// A copy of the usage.
    pub fn copy(&self) -> (u: NodeUsage)
        ensures
            u@ == self@,
    {
        NodeUsage { kind: self.kind.copy(), node_name: self.node_name.clone() }
    }

    /// The kind of the usage.
    pub fn get_kind(&self) -> (k: DeviceUsageKind)
        ensures
            k@ == self@.kind,
    {
        self.kind.copy()
    }

    /// The node that holds the slot (empty for a free slot).
    pub fn get_node_name(&self) -> (n: String)
        ensures
            n@ == self@.node,
    {
        self.node_name.clone()
    }

    /// Whether the slot is held by `node_name`.
    pub fn is_same_node(&self, node_name: &str) -> (r: bool)
        ensures
            r == (self@.node == node_name@),
    {
        str_eq(self.node_name.as_str(), node_name)
    }

    /// The usage of a free slot.
    pub fn free() -> (u: NodeUsage)
        ensures
            u@.kind == UsageKindView::Free,
            u@.node == Seq::<char>::empty(),
    {
        NodeUsage { kind: DeviceUsageKind::Free, node_name: String::new() }
    }

    /// A usage of the given kind by `node_name`: a free usage must name no
    /// node and a reservation must name one.
    pub fn create(kind: &DeviceUsageKind, node_name: &str) -> (r: Result<NodeUsage, NodeUsageError>)
        ensures
            kind@ is Free && node_name@.len() > 0 <==> r == Err::<NodeUsage, NodeUsageError>(NodeUsageError::NodeNameForFree),
            !(kind@ is Free) && node_name@.len() == 0 <==> r == Err::<NodeUsage, NodeUsageError>(NodeUsageError::MissingNodeName),
            r is Ok <==> !((kind@ is Free && node_name@.len() > 0) || (!(kind@ is Free) && node_name@.len() == 0)),
            r matches Ok(u) ==> u@.kind == kind@ && u@.node == node_name@,
    {
        let n = to_chars(node_name);
        match kind {
            DeviceUsageKind::Free => {
                if n.len() > 0 {
                    return Err(NodeUsageError::NodeNameForFree);
                }
            },
            _ => {
                if n.len() == 0 {
                    return Err(NodeUsageError::MissingNodeName);
                }
            },
        }
        Ok(NodeUsage { kind: kind.copy(), node_name: string_from_chars(&n) })
    }

    /// Writes the usage as it is stored in an Instance.
    pub fn to_usage_string(&self) -> (s: String)
        ensures
            s@ == format_usage(self@),
    {
        match &self.kind {
            DeviceUsageKind::Free => String::new(),
            DeviceUsageKind::Configuration(v) => {
                let mut out: Vec<char> = Vec::new();
                out.push('C');
                out.push(':');
                push_str(&mut out, v.as_str());
                out.push(':');
                push_str(&mut out, self.node_name.as_str());
                assert(out@ =~= config_tag() + v@ + seq![':'] + self.node_name@);
                string_from_chars(&out)
            },
            DeviceUsageKind::Instance => self.node_name.clone(),
        }
    }

    /// Reads a usage string as it is stored in an Instance.
    pub fn parse(s: &str) -> (r: Result<NodeUsage, NodeUsageError>)
        ensures
            r is Ok <==> parse_usage(s@) is Some,
            r matches Ok(u) ==> Some(u@) == parse_usage(s@),
            r is Err ==> r == Err::<NodeUsage, NodeUsageError>(NodeUsageError::Unparsable),
    {
        let cs = to_chars(s);
        if cs.len() == 0 {
            return Ok(NodeUsage::free());
        }
        if cs.len() >= 2 && cs[0] == 'C' && cs[1] == ':' {
            let ghost rest = s@.subrange(2, s@.len() as int);
            let mut i: usize = 2;
            while i < cs.len() && cs[i] != ':'
                invariant
                    cs@ == s@,
                    2 <= i <= cs@.len(),
                    rest == s@.subrange(2, s@.len() as int),
                    forall|j: int| 2 <= j < i ==> cs@[j] != ':',
                decreases cs.len() - i,
            {
                i = i + 1;
            }
            if i < cs.len() {
                proof {
                    assert(rest[i - 2] == ':');
                    assert forall|j: int| 0 <= j < i - 2 implies rest[j] != ':' by {
                        assert(rest[j] == cs@[j + 2]);
                    }
                    lemma_first_colon(rest, i - 2);
                    assert(has_config_shape(s@));
                }
                let mut vdev: Vec<char> = Vec::new();
                let mut k: usize = 2;
                while k < i
                    invariant
                        cs@ == s@,
                        2 <= k <= i < cs@.len(),
                        vdev@ == cs@.subrange(2, k as int),
                    decreases i - k,
                {
                    vdev.push(cs[k]);
                    k = k + 1;
                    assert(vdev@ =~= cs@.subrange(2, k as int));
                }
                let mut node: Vec<char> = Vec::new();
                let mut m: usize = i + 1;
                while m < cs.len()
                    invariant
                        cs@ == s@,
                        i + 1 <= m <= cs@.len(),
                        node@ == cs@.subrange(i + 1, m as int),
                    decreases cs.len() - m,
                {
                    node.push(cs[m]);
                    m = m + 1;
                    assert(node@ =~= cs@.subrange(i + 1, m as int));
                }
                proof {
                    assert(vdev@ =~= rest.subrange(0, i - 2));
                    assert(node@ =~= rest.subrange(i - 2 + 1, rest.len() as int));
                }
                if node.len() == 0 {
                    return Err(NodeUsageError::Unparsable);
                }
                return Ok(
                    NodeUsage {
                        kind: DeviceUsageKind::Configuration(string_from_chars(&vdev)),
                        node_name: string_from_chars(&node),
                    },
                );
            } else {
                proof {
                    if rest.contains(':') {
                        let j = choose|j: int| 0 <= j < rest.len() && rest[j] == ':';
                        assert(cs@[j + 2] == ':');
                    }
                }
            }
        }
        Ok(NodeUsage { kind: DeviceUsageKind::Instance, node_name: string_from_chars(&cs) })
    }
}

proof fn lemma_config_round_trip(u: UsageView, v: Seq<char>)
    requires
        u.kind == UsageKindView::Configuration(v),
        u.node.len() > 0,
        !v.contains(':'),
    ensures
        parse_usage(format_usage(u)) == Some(u),
{
    let s = config_tag() + v + seq![':'] + u.node;
    assert(format_usage(u) == s);
    let rest = s.subrange(2, s.len() as int);
    assert(rest =~= v + seq![':'] + u.node);
    assert(rest[v.len() as int] == ':');
    assert forall|j: int| 0 <= j < v.len() implies rest[j] != ':' by {
        assert(rest[j] == v[j]);
    }
    lemma_first_colon(rest, v.len() as int);
    assert(has_config_shape(s));
    assert(rest.subrange(0, v.len() as int) =~= v);
    assert(rest.subrange(v.len() as int + 1, rest.len() as int) =~= u.node);
}

/// Writing a well-formed usage and reading it back gives the same usage.
pub proof fn lemma_usage_round_trip(u: UsageView)
    requires
        usage_well_formed(u),
    ensures
        parse_usage(format_usage(u)) == Some(u),
{
    match u.kind {
        UsageKindView::Free => {
            assert(u.node =~= Seq::<char>::empty());
        },
        UsageKindView::Configuration(v) => {
            lemma_config_round_trip(u, v);
        },
        UsageKindView::Instance => {},
    }
}

/// Reading a usage string and writing the result back gives the same string.
pub proof fn lemma_usage_string_round_trip(s: Seq<char>)
    requires
        parse_usage(s) is Some,
    ensures
        format_usage(parse_usage(s)->0) == s,
{
    if s.len() > 0 && has_config_shape(s) {
        let rest = s.subrange(2, s.len() as int);
        let i = first_colon(rest);
        let j = choose|j: int| 0 <= j < rest.len() && rest[j] == ':';
        assert(exists|k: int| 0 <= k < rest.len() && rest[k] == ':' && forall|m: int| 0 <= m < k ==> rest[m] != ':') by {
            lemma_exists_first(rest, j);
        }
        assert(config_tag() + rest.subrange(0, i) + seq![':'] + rest.subrange(i + 1, rest.len() as int) =~= s);
    }
}

proof fn lemma_exists_first(s: Seq<char>, j: int)
    requires
        0 <= j < s.len(),
        s[j] == ':',
    ensures
        exists|k: int| 0 <= k < s.len() && s[k] == ':' && forall|m: int| 0 <= m < k ==> s[m] != ':',
    decreases j,
{
    if exists|m: int| 0 <= m < j && s[m] == ':' {
        let m = choose|m: int| 0 <= m < j && s[m] == ':';
        lemma_exists_first(s, m);
    } else {
        assert(forall|m: int| 0 <= m < j ==> s[m] != ':');
    }
}

} // verus!
