use vstd::prelude::*;

use crate::pallet::{swap_removed, Pallet};
use crate::types::{AccountId, Dna};

verus! {

/// Every record stands in exactly one ownership list, that of its owner, and
/// the lists hold nothing else: the (owner, identifier) memberships of all
/// lists are the records' (owner, identifier) pairs, and there are as many of
/// them as the counter says.
pub proof fn lemma_memberships_match_records(p: Pallet)
    requires
        p.wf(),
    ensures
        forall|a: AccountId, d: Dna| #[trigger]
            p.memberships().contains((a, d)) <==> p.registry().contains_key(d)
                && p.registry()[d].owner == a,
        p.memberships().finite(),
        p.memberships().len() == p.count_spec(),
{
    let dom = p.registry().dom();
    let f = |d: Dna| (p.registry()[d].owner, d);
    assert forall|a: AccountId, d: Dna| #[trigger]
        p.memberships().contains((a, d)) <==> p.registry().contains_key(d)
            && p.registry()[d].owner == a by {
        if p.memberships().contains((a, d)) {
            let k = choose|k: int| 0 <= k < p.owned_of(a).len() && p.owned_of(a)[k] == d;
            assert(p.registry().contains_key(p.owned_of(a)[k]));
        }
        if p.registry().contains_key(d) && p.registry()[d].owner == a {
            assert(p.owned_of(p.registry()[d].owner).contains(d));
        }
    }
    assert(dom.map(f) =~= p.memberships()) by {
        assert forall|m: (AccountId, Dna)| #[trigger] p.memberships().contains(m) implies dom.map(
            f,
        ).contains(m) by {
            assert(p.memberships().contains((m.0, m.1)));
            assert(f(m.1) == m);
        }
    }
    vstd::set_lib::lemma_map_size(dom, p.memberships(), f);
}

/// A transfer of `kitty_id` from `from` to `to` replaces the one membership
/// (`from`, `kitty_id`) by (`to`, `kitty_id`) and changes no other, so the
/// total number of memberships stays the same.
pub proof fn lemma_transfer_keeps_memberships(
    pre: Pallet,
    post: Pallet,
    from: AccountId,
    to: AccountId,
    kitty_id: Dna,
)
    requires
        pre.wf(),
        post.wf(),
        pre.transfer_error(from, to, kitty_id) is None,
        Pallet::transferred(pre, post, from, to, kitty_id),
    ensures
        post.memberships() == pre.memberships().remove((from, kitty_id)).insert((to, kitty_id)),
        pre.memberships().contains((from, kitty_id)),
        !pre.memberships().contains((to, kitty_id)),
        post.memberships().len() == pre.memberships().len(),
{
    lemma_memberships_match_records(pre);
    lemma_memberships_match_records(post);
    assert(pre.memberships().contains((from, kitty_id)));
    assert(post.memberships() =~= pre.memberships().remove((from, kitty_id)).insert(
        (to, kitty_id),
    ));
}

} // verus!
