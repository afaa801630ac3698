//! Slots used by the containers of this node, read from their annotations.
use vstd::prelude::*;
use crate::device_plugin::AKRI_SLOT_ANNOTATION_NAME_PREFIX;
use crate::keyed::KeyedMap;
use crate::node_usage::{parse_usage, NodeUsage, UsageView};
use crate::text::{is_prefix, strip_prefix};

verus! {

/// The slot usages recorded by a sequence of container annotations, read in
/// order (a later annotation for a slot wins): an annotation counts when its key
/// starts with the slot prefix and its value is a readable usage string.
pub open spec fn annotation_slots(annotations: Seq<(Seq<char>, Seq<char>)>) -> Map<Seq<char>, UsageView>
    decreases annotations.len(),
{
    if annotations.len() == 0 {
        Map::empty()
    } else {
        let rest = annotation_slots(annotations.drop_last());
        let (key, value) = annotations.last();
        let prefix = AKRI_SLOT_ANNOTATION_NAME_PREFIX@;
        if is_prefix(prefix, key) && parse_usage(value) is Some {
            rest.insert(key.subrange(prefix.len() as int, key.len() as int), parse_usage(value)->0)
        } else {
            rest
        }
    }
}

/// How one more annotation changes the slots read: one whose key is the slot
/// prefix followed by a slot name, with a readable usage, records that usage
/// for the slot (replacing an earlier one); any other leaves the slots as they were.
pub proof fn lemma_annotation_rules(annotations: Seq<(Seq<char>, Seq<char>)>, slot: Seq<char>, key: Seq<char>, value: Seq<char>)
    ensures
        parse_usage(value) matches Some(u) ==> annotation_slots(annotations.push((AKRI_SLOT_ANNOTATION_NAME_PREFIX@ + slot, value)))
            == annotation_slots(annotations).insert(slot, u),
        !is_prefix(AKRI_SLOT_ANNOTATION_NAME_PREFIX@, key) || parse_usage(value) is None
            ==> annotation_slots(annotations.push((key, value))) == annotation_slots(annotations),
{
    let prefix = AKRI_SLOT_ANNOTATION_NAME_PREFIX@;
    let k = prefix + slot;
    assert(annotations.push((k, value)).drop_last() =~= annotations);
    assert(annotations.push((key, value)).drop_last() =~= annotations);
    assert(k.subrange(0, prefix.len() as int) =~= prefix);
    assert(k.subrange(prefix.len() as int, k.len() as int) =~= slot);
}

/// All annotations of all containers, in order.
pub open spec fn flat_annotations(containers: Seq<Vec<(String, String)>>) -> Seq<(Seq<char>, Seq<char>)>
    decreases containers.len(),
{
    if containers.len() == 0 {
        Seq::empty()
    } else {
        flat_annotations(containers.drop_last()) + containers.last()@.map_values(|a: (String, String)| (a.0@, a.1@))
    }
}

/// The slots in use on this node, from the annotations of its containers
/// (`None` when the container runtime's output could not be read, giving no slots).
pub fn container_slot_usage(containers: Option<&Vec<Vec<(String, String)>>>) -> (r: KeyedMap<NodeUsage>)
    ensures
        match containers {
            None => r@ == Map::<Seq<char>, NodeUsage>::empty(),
            Some(cs) => {
                let expected = annotation_slots(flat_annotations(cs@));
                &&& r@.dom() == expected.dom()
                &&& forall|k: Seq<char>| #[trigger] r@.dom().contains(k) ==> r@[k]@ == expected[k]
            },
        },
{
    let mut result: KeyedMap<NodeUsage> = KeyedMap::new();
    let cs = match containers {
        None => return result,
        Some(cs) => cs,
    };
    let ghost prefix = AKRI_SLOT_ANNOTATION_NAME_PREFIX@;
    let mut i: usize = 0;
    while i < cs.len()
        invariant
            i <= cs@.len(),
            prefix == AKRI_SLOT_ANNOTATION_NAME_PREFIX@,
            result@.dom() == annotation_slots(flat_annotations(cs@.subrange(0, i as int))).dom(),
            forall|k: Seq<char>| #[trigger] result@.dom().contains(k) ==> result@[k]@ == annotation_slots(flat_annotations(cs@.subrange(0, i as int)))[k],
        decreases cs.len() - i,
    {
        let annotations = &cs[i];
        let ghost before = flat_annotations(cs@.subrange(0, i as int));
        proof {
            assert(cs@.subrange(0, i as int + 1).drop_last() =~= cs@.subrange(0, i as int));
        }
        let mut j: usize = 0;
        while j < annotations.len()
            invariant
                i < cs@.len(),
                annotations == cs@[i as int],
                j <= annotations@.len(),
                prefix == AKRI_SLOT_ANNOTATION_NAME_PREFIX@,
                result@.dom() == annotation_slots(before + annotations@.subrange(0, j as int).map_values(|a: (String, String)| (a.0@, a.1@))).dom(),
                forall|k: Seq<char>| #[trigger] result@.dom().contains(k) ==> result@[k]@
                    == annotation_slots(before + annotations@.subrange(0, j as int).map_values(|a: (String, String)| (a.0@, a.1@)))[k],
            decreases annotations.len() - j,
        {
            let ghost seq_j = before + annotations@.subrange(0, j as int).map_values(|a: (String, String)| (a.0@, a.1@));
            let ghost seq_j1 = before + annotations@.subrange(0, j as int + 1).map_values(|a: (String, String)| (a.0@, a.1@));
            proof {
                assert(seq_j1.drop_last() =~= seq_j);
                assert(seq_j1.last() == (annotations@[j as int].0@, annotations@[j as int].1@));
            }
            let (key, value) = (&annotations[j].0, &annotations[j].1);
            match strip_prefix(key.as_str(), AKRI_SLOT_ANNOTATION_NAME_PREFIX) {
                Some(slot) => {
                    match NodeUsage::parse(value.as_str()) {
                        Ok(u) => {
                            result.insert(slot, u);
                        },
                        Err(_) => {},
                    }
                },
                None => {},
            }
            proof {
                assert(result@.dom() =~= annotation_slots(seq_j1).dom());
            }
            j = j + 1;
        }
        proof {
            assert(annotations@.subrange(0, annotations@.len() as int) =~= annotations@);
            assert(flat_annotations(cs@.subrange(0, i as int + 1)) =~= before + annotations@.map_values(|a: (String, String)| (a.0@, a.1@)));
        }
        i = i + 1;
    }
    proof {
        assert(cs@.subrange(0, cs@.len() as int) =~= cs@);
    }
    result
}

} // verus!
