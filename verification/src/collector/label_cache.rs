//! Shared label sets.
use std::sync::Arc;
use vstd::prelude::*;

use crate::labels::{self, Label, Labels};
use crate::ordered::{self, OrderedMap};

verus! {

/// The label sets of a collector, each kept once.
///
/// A collector builds a raw label set for each measurement; `intern` lays the base
/// labels on top of it and hands out the shared set with these labels. Where both have a
/// label the base wins: base labels identify the origin of a measurement, and nothing
/// that was collected overrides them.
pub struct LabelCache {
    base: Labels,
    sets: OrderedMap<Labels, Arc<Labels>>,
}

impl LabelCache {
    #[verifier::type_invariant]
    spec fn sets_stand_for_themselves(self) -> bool {
        forall|k: Seq<Label>| #[trigger]
            self.sets@.dom().contains(k) ==> self.sets@[k] == ordered::as_map(k)
    }

    /// The base labels.
    pub closed spec fn base(&self) -> Map<Seq<char>, Seq<char>> {
        self.base@
    }

    /// The label sets that are kept.
    pub closed spec fn kept(&self) -> Set<Seq<Label>> {
        self.sets@.dom()
    }

    /// A cache with no label sets yet.
    pub fn new(base: Labels) -> (c: LabelCache)
        ensures
            c.base() == base@,
            c.kept() == Set::<Seq<Label>>::empty(),
    {
        let c = LabelCache { base, sets: OrderedMap::new() };
        assert(c.kept() =~= Set::empty());
        c
    }

    /// The shared set of some labels with the base labels on top of them. It is kept
    /// afterwards, and was the one handed out before if it was kept already.
    pub fn intern(&mut self, labels: Labels) -> (r: Arc<Labels>)
        ensures
            r@ == labels::overlaid(labels@, old(self).base()),
            final(self).base() == old(self).base(),
            final(self).kept() == old(self).kept().insert(r.listing()),
    {
        proof {
            use_type_invariant(&*self);
        }
        let mut merged = labels;
        labels::overlay(&mut merged, &self.base);
        match self.sets.get(&merged) {
            Some(known) => {
                let r = known.clone();
                let n: usize = r.len();
                let m: usize = merged.len();
                proof {
                    labels::labels_listed_once(r.listing(), merged.listing());
                    assert(old(self).kept().insert(r.listing()) =~= old(self).kept());
                }
                return r;
            },
            None => {},
        }
        let key = labels::copied(&merged);
        let r = Arc::new(merged);
        let mut sets: OrderedMap<Labels, Arc<Labels>> = OrderedMap::new();
        std::mem::swap(&mut sets, &mut self.sets);
        sets.insert(key, r.clone());
        self.sets = sets;
        assert(self.kept() =~= old(self).kept().insert(r.listing()));
        r
    }
}

/// Base labels are never overridden, and every other label is kept as it was collected.
pub proof fn base_labels_win(
    collected: Map<Seq<char>, Seq<char>>,
    base: Map<Seq<char>, Seq<char>>,
    name: Seq<char>,
)
    ensures
        base.dom().contains(name) ==> labels::overlaid(collected, base).dom().contains(name)
            && labels::overlaid(collected, base)[name] == base[name],
        !base.dom().contains(name) ==> (labels::overlaid(collected, base).dom().contains(name)
            <==> collected.dom().contains(name)),
        !base.dom().contains(name) && collected.dom().contains(name) ==> labels::overlaid(
            collected,
            base,
        )[name] == collected[name],
{
}

} // verus!
