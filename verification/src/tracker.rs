//! The signature that each callable was first seen with.

use crate::signature::{FunctionSignature, SignatureView};
use crate::sites::{
    clash, conflicts_at, consistent, is_first_conflict, lemma_first_conflict_extends, CallSite,
    Callable,
};
use crate::violation::ViolationView;
use vstd::hash_map::StringHashMap;
use vstd::prelude::*;

verus! {

/// For each callable met so far, the signature of its first use.
pub struct SignatureTracker<'a> {
    seen: StringHashMap<FunctionSignature<'a>>,
}

impl<'a> View for SignatureTracker<'a> {
    type V = Map<Seq<char>, SignatureView>;

    /// From the name of each callable met so far to its first signature.
    closed spec fn view(&self) -> Map<Seq<char>, SignatureView> {
        self.seen@.map_values(|signature: FunctionSignature| signature@)
    }
}

impl<'a> SignatureTracker<'a> {
    /// A tracker that has met no callable.
    pub fn new() -> (tracker: Self)
        ensures
            tracker@ == Map::<Seq<char>, SignatureView>::empty(),
    {
        let tracker = SignatureTracker { seen: StringHashMap::new() };
        tracker
    }

    /// Meets a use of the callable `name` with the signature `signature`.
    /// The first use of a name is kept and agrees; a later use agrees when
    /// its signature equals the one that was kept.
    pub fn check(&mut self, name: &str, signature: FunctionSignature<'a>) -> (agrees: bool)
        ensures
            match old(self)@.get(name@) {
                Some(first) => agrees == (first == signature@) && final(self)@ == old(self)@,
                None => agrees && final(self)@ == old(self)@.insert(name@, signature@),
            },
    {
        match self.seen.get(name) {
            Some(first) => *first == signature,
            None => {
                self.seen.insert(String::from_str(name), signature);
                true
            },
        }
    }
}

/// `seen` holds, for exactly the callables used in `done`, the signature of
/// every use of the callable in `done`.
pub open spec fn tracks(seen: Map<Seq<char>, SignatureView>, done: Seq<CallSite>) -> bool {
    &&& forall|i: int|
        0 <= i < done.len() ==> seen.get((#[trigger] done[i]).name) == Some(done[i].signature)
    &&& forall|name: Seq<char>| #[trigger]
        seen.contains_key(name) ==> exists|i: int|
            0 <= i < done.len() && (#[trigger] done[i]).name == name
}

/// What holds after the uses `block` were checked, one by one, by a tracker
/// that tracked `done` before: either all were kept, or the check stopped at
/// the first use that clashes with an earlier one.
pub open spec fn checked(
    kind: Callable,
    done: Seq<CallSite>,
    block: Seq<CallSite>,
    seen: Map<Seq<char>, SignatureView>,
    outcome: Option<ViolationView>,
) -> bool {
    match outcome {
        None => tracks(seen, done + block),
        Some(violation) => exists|k: int|
            is_first_conflict(done + block, k) && violation == kind.inconsistent(
                (#[trigger] (done + block)[k]).name,
            ),
    }
}

/// Uses that a tracker tracks agree with each other.
pub(crate) proof fn lemma_tracked_is_consistent(
    seen: Map<Seq<char>, SignatureView>,
    done: Seq<CallSite>,
)
    requires
        tracks(seen, done),
    ensures
        consistent(done),
        forall|k: int| 0 <= k < done.len() ==> !conflicts_at(done, k),
{
}

/// What one more use does to a tracker, in terms of the uses tracked.
pub(crate) proof fn lemma_track_one(
    kind: Callable,
    seen: Map<Seq<char>, SignatureView>,
    done: Seq<CallSite>,
    site: CallSite,
)
    requires
        tracks(seen, done),
    ensures
        match seen.get(site.name) {
            Some(first) => if first == site.signature {
                checked(kind, done, seq![site], seen, None)
            } else {
                checked(kind, done, seq![site], seen, Some(kind.inconsistent(site.name)))
            },
            None => checked(kind, done, seq![site], seen.insert(site.name, site.signature), None),
        },
{
    let after = done + seq![site];
    let k = done.len() as int;
    assert forall|i: int| 0 <= i < done.len() implies after[i] == done[i] by {}
    match seen.get(site.name) {
        Some(first) => {
            if first == site.signature {
                assert forall|name: Seq<char>| #[trigger] seen.contains_key(name) implies exists|
                    i: int,
                | 0 <= i < after.len() && (#[trigger] after[i]).name == name by {
                    let i = choose|i: int| 0 <= i < done.len() && (#[trigger] done[i]).name == name;
                    assert(after[i].name == name);
                }
            } else {
                lemma_tracked_is_consistent(seen, done);
                assert(is_first_conflict(after, k));
            }
        },
        None => {
            let next = seen.insert(site.name, site.signature);
            assert forall|name: Seq<char>| #[trigger] next.contains_key(name) implies exists|
                i: int,
            | 0 <= i < after.len() && (#[trigger] after[i]).name == name by {
                if name == site.name {
                    assert(after[k].name == name);
                } else {
                    let i = choose|i: int| 0 <= i < done.len() && (#[trigger] done[i]).name == name;
                    assert(after[i].name == name);
                }
            }
        },
    }
}

/// A check of one block among others: what it found holds of the blocks
/// joined, whatever follows the block.
pub(crate) proof fn lemma_checked_within(
    kind: Callable,
    done: Seq<CallSite>,
    before: Seq<CallSite>,
    block: Seq<CallSite>,
    after: Seq<CallSite>,
    seen: Map<Seq<char>, SignatureView>,
    outcome: Option<ViolationView>,
)
    requires
        checked(kind, done + before, block, seen, outcome),
    ensures
        outcome is Some ==> checked(kind, done, before + block + after, seen, outcome),
        outcome is None ==> checked(kind, done, before + block, seen, outcome),
{
    assert((done + before) + block =~= done + (before + block));
    if outcome is Some {
        let part = (done + before) + block;
        let k = choose|k: int|
            is_first_conflict(part, k) && outcome->0 == kind.inconsistent(
                (#[trigger] part[k]).name,
            );
        lemma_first_conflict_extends(part, after, k);
        assert(part + after =~= done + (before + block + after));
    }
}

} // verus!
