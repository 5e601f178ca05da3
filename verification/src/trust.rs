//! The devices that this one is paired with.
use crate::text;
use vstd::prelude::*;

verus! {

/// A paired device, and whether it may start sessions on this one.
pub struct Trust {
    pub peer_id: String,
    pub name: String,
    pub allow_remote: bool,
}

/// A paired device, by its contents.
#[verifier::ext_equal]
pub struct TrustView {
    pub peer_id: Seq<char>,
    pub name: Seq<char>,
    pub allow_remote: bool,
}

impl View for Trust {
    type V = TrustView;

    open spec fn view(&self) -> TrustView {
        TrustView { peer_id: self.peer_id@, name: self.name@, allow_remote: self.allow_remote }
    }
}

impl Clone for Trust {
    /// A copy.
    fn clone(&self) -> (t: Self)
        ensures
            t@ == self@,
    {
        Trust { peer_id: text::copy(&self.peer_id), name: text::copy(&self.name), allow_remote: self.allow_remote }
    }
}

/// What a list of paired devices holds.
pub open spec fn trusts_view(v: Seq<Trust>) -> Seq<TrustView> {
    Seq::new(v.len(), |i: int| v[i]@)
}

/// Whether a list is in the order of the identifiers, each once.
pub open spec fn sorted(list: Seq<TrustView>) -> bool {
    forall|i: int, j: int|
        0 <= i < j < list.len() ==> text::before((#[trigger] list[i]).peer_id, (#[trigger] list[j]).peer_id)
}

/// The place of an identifier in a list.
pub open spec fn spot(list: Seq<TrustView>, peer: Seq<char>) -> nat
    decreases list.len(),
{
    if list.len() == 0 || !text::before(list[0].peer_id, peer) {
        0
    } else {
        1 + spot(list.drop_first(), peer)
    }
}

/// Whether a device is on a list.
pub open spec fn is_paired(list: Seq<TrustView>, peer: Seq<char>) -> bool {
    spot(list, peer) < list.len() && list[spot(list, peer) as int].peer_id == peer
}

/// What a list says of a device that is on it.
pub open spec fn entry_of(list: Seq<TrustView>, peer: Seq<char>) -> TrustView {
    list[spot(list, peer) as int]
}

/// Whether a device is on a list and may start sessions.
pub open spec fn may_start(list: Seq<TrustView>, peer: Seq<char>) -> bool {
    is_paired(list, peer) && entry_of(list, peer).allow_remote
}

/// The list with a device, in its place, or instead of what it said of it.
pub open spec fn with_peer(list: Seq<TrustView>, t: TrustView) -> Seq<TrustView> {
    let i = spot(list, t.peer_id) as int;
    if is_paired(list, t.peer_id) {
        list.update(i, t)
    } else {
        list.insert(i, t)
    }
}

/// The list without a device.
pub open spec fn without_peer(list: Seq<TrustView>, peer: Seq<char>) -> Seq<TrustView> {
    if is_paired(list, peer) {
        list.remove(spot(list, peer) as int)
    } else {
        list
    }
}

/// The list that devices make one after the other.
pub open spec fn gathered(peers: Seq<TrustView>) -> Seq<TrustView>
    decreases peers.len(),
{
    if peers.len() == 0 {
        seq![]
    } else {
        with_peer(gathered(peers.drop_last()), peers.last())
    }
}

/// The place of an identifier parts those before it from the others.
pub proof fn lemma_spot(list: Seq<TrustView>, peer: Seq<char>)
    ensures
        spot(list, peer) <= list.len(),
        forall|i: int| 0 <= i < spot(list, peer) ==> text::before((#[trigger] list[i]).peer_id, peer),
        spot(list, peer) < list.len() ==> !text::before(list[spot(list, peer) as int].peer_id, peer),
    decreases list.len(),
{
    if list.len() > 0 && text::before(list[0].peer_id, peer) {
        lemma_spot(list.drop_first(), peer);
        assert forall|i: int| 0 <= i < spot(list, peer) implies text::before((#[trigger] list[i]).peer_id, peer) by {
            if i > 0 {
                assert(list.drop_first()[i - 1] == list[i]);
            }
        }
    }
}

/// A device is on a list in order just when some entry is of it.
pub proof fn law_paired_means_listed(list: Seq<TrustView>, peer: Seq<char>)
    requires
        sorted(list),
    ensures
        is_paired(list, peer) <==> exists|i: int| 0 <= i < list.len() && (#[trigger] list[i]).peer_id == peer,
{
    lemma_spot(list, peer);
    let s = spot(list, peer) as int;
    if exists|i: int| 0 <= i < list.len() && (#[trigger] list[i]).peer_id == peer {
        let i = choose|i: int| 0 <= i < list.len() && (#[trigger] list[i]).peer_id == peer;
        text::lemma_before_irreflexive(peer);
        if s < i {
            assert(text::before(list[s].peer_id, list[i].peer_id));
        }
    }
}

/// A list stays in order with a device, and the device is on it as it was put there.
pub proof fn law_a_paired_device_is_on_the_list(list: Seq<TrustView>, t: TrustView)
    requires
        sorted(list),
    ensures
        sorted(with_peer(list, t)),
        is_paired(with_peer(list, t), t.peer_id),
        entry_of(with_peer(list, t), t.peer_id) == t,
{
    let s = spot(list, t.peer_id) as int;
    let out = with_peer(list, t);
    lemma_spot(list, t.peer_id);
    if is_paired(list, t.peer_id) {
        assert forall|a: int, b: int| 0 <= a < b < out.len() implies text::before(
            (#[trigger] out[a]).peer_id,
            (#[trigger] out[b]).peer_id,
        ) by {
            assert(text::before(list[a].peer_id, list[b].peer_id));
        }
    } else {
        assert forall|a: int, b: int| 0 <= a < b < out.len() implies text::before(
            (#[trigger] out[a]).peer_id,
            (#[trigger] out[b]).peer_id,
        ) by {
            let x = if a < s { a } else { a - 1 };
            let y = if b < s { b } else { b - 1 };
            if a != s && b != s {
                assert(text::before(list[x].peer_id, list[y].peer_id));
            } else if a == s {
                if !text::before(t.peer_id, list[s].peer_id) {
                    text::lemma_before_total(t.peer_id, list[s].peer_id);
                }
                if y > s {
                    assert(text::before(list[s].peer_id, list[y].peer_id));
                    text::lemma_before_transitive(t.peer_id, list[s].peer_id, list[y].peer_id);
                }
            }
        }
    }
    lemma_spot(out, t.peer_id);
    let o = spot(out, t.peer_id) as int;
    text::lemma_before_irreflexive(t.peer_id);
    assert(out[s] == t);
    if o < s {
        assert(text::before(out[o].peer_id, out[s].peer_id));
    } else if o > s {
        assert(text::before(out[s].peer_id, t.peer_id));
    }
}

/// A list stays in order without a device, and the device is not on it any more.
pub proof fn law_a_revoked_device_is_off_the_list(list: Seq<TrustView>, peer: Seq<char>)
    requires
        sorted(list),
    ensures
        sorted(without_peer(list, peer)),
        !is_paired(without_peer(list, peer), peer),
{
    let s = spot(list, peer) as int;
    let out = without_peer(list, peer);
    lemma_spot(list, peer);
    assert forall|a: int, b: int| 0 <= a < b < out.len() implies text::before(
        (#[trigger] out[a]).peer_id,
        (#[trigger] out[b]).peer_id,
    ) by {
        if is_paired(list, peer) {
            let x = if a < s { a } else { a + 1 };
            let y = if b < s { b } else { b + 1 };
            assert(text::before(list[x].peer_id, list[y].peer_id));
        } else {
            assert(text::before(list[a].peer_id, list[b].peer_id));
        }
    }
    law_paired_means_listed(out, peer);
    law_paired_means_listed(list, peer);
    text::lemma_before_irreflexive(peer);
    if exists|i: int| 0 <= i < out.len() && (#[trigger] out[i]).peer_id == peer {
        let i = choose|i: int| 0 <= i < out.len() && (#[trigger] out[i]).peer_id == peer;
        if is_paired(list, peer) {
            if i < s {
                assert(text::before(list[i].peer_id, list[s].peer_id));
            } else {
                assert(text::before(list[s].peer_id, list[i + 1].peer_id));
            }
        } else {
            assert(list[i].peer_id == peer);
        }
    }
}

/// To put a device on a list, or to take it off, leaves what the list says of every other.
pub proof fn law_other_devices_stay(list: Seq<TrustView>, t: TrustView, x: TrustView)
    requires
        sorted(list),
    ensures
        with_peer(list, t).contains(x) <==> x == t || (list.contains(x) && x.peer_id != t.peer_id),
        without_peer(list, t.peer_id).contains(x) <==> list.contains(x) && x.peer_id != t.peer_id,
{
    let s = spot(list, t.peer_id) as int;
    lemma_spot(list, t.peer_id);
    law_paired_means_listed(list, t.peer_id);
    text::lemma_before_irreflexive(t.peer_id);
    let here = is_paired(list, t.peer_id);
    let put = with_peer(list, t);
    let off = without_peer(list, t.peer_id);
    let shift: int = if here { 0 } else { 1 };
    assert(put[s] == t);
    if list.contains(x) {
        let k = choose|k: int| 0 <= k < list.len() && list[k] == x;
        if x.peer_id != t.peer_id {
            if k < s {
                assert(put[k] == x && off[k] == x);
            } else {
                assert(put[k + shift] == x);
                assert(off[k - (1 - shift)] == x);
            }
        }
    }
    if put.contains(x) && x != t {
        let k = choose|k: int| 0 <= k < put.len() && put[k] == x;
        let j = if k < s { k } else { k - shift };
        assert(list[j] == x);
        if here && x.peer_id == t.peer_id {
            if j < s {
                assert(text::before(list[j].peer_id, list[s].peer_id));
            } else if j > s {
                assert(text::before(list[s].peer_id, list[j].peer_id));
            }
        }
    }
    if off.contains(x) {
        let k = choose|k: int| 0 <= k < off.len() && off[k] == x;
        let j = if k < s { k } else { k + (1 - shift) };
        assert(list[j] == x);
        if here && x.peer_id == t.peer_id {
            if j < s {
                assert(text::before(list[j].peer_id, list[s].peer_id));
            } else if j > s {
                assert(text::before(list[s].peer_id, list[j].peer_id));
            }
        }
    }
}

/// What a list says of a device is what its one entry says, and a device may start sessions just
/// when that says so.
pub proof fn law_a_list_says_what_it_holds(list: Seq<TrustView>, x: TrustView)
    requires
        sorted(list),
        list.contains(x),
    ensures
        is_paired(list, x.peer_id),
        entry_of(list, x.peer_id) == x,
        may_start(list, x.peer_id) == x.allow_remote,
{
    let k = choose|k: int| 0 <= k < list.len() && list[k] == x;
    law_paired_means_listed(list, x.peer_id);
    lemma_spot(list, x.peer_id);
    text::lemma_before_irreflexive(x.peer_id);
    let s = spot(list, x.peer_id) as int;
    if s < k {
        assert(text::before(list[s].peer_id, list[k].peer_id));
    } else if k < s {
        assert(text::before(list[k].peer_id, list[s].peer_id));
    }
}

/// Of devices that make a list one after the other, it says of each what was said last.
pub proof fn law_the_last_word_counts(peers: Seq<TrustView>, x: TrustView)
    ensures
        gathered(peers).contains(x) <==> exists|i: int| #[trigger] says_last(peers, i, x),
    decreases peers.len(),
{
    if peers.len() > 0 {
        let rest = peers.drop_last();
        let n = peers.len() - 1;
        lemma_gathered(rest);
        law_the_last_word_counts(rest, x);
        law_other_devices_stay(gathered(rest), peers.last(), x);
        if exists|i: int| #[trigger] says_last(peers, i, x) {
            let i = choose|i: int| #[trigger] says_last(peers, i, x);
            if i < n {
                assert(says_last(rest, i, x));
                assert(peers[n].peer_id != x.peer_id);
            }
        }
        if gathered(peers).contains(x) {
            if x == peers.last() {
                assert(says_last(peers, n, x));
            } else {
                let i = choose|i: int| #[trigger] says_last(rest, i, x);
                assert forall|j: int| i < j < peers.len() implies (#[trigger] peers[j]).peer_id != x.peer_id by {
                    if j < n {
                        assert(rest[j].peer_id != x.peer_id);
                    }
                }
                assert(says_last(peers, i, x));
            }
        }
    } else {
        assert(gathered(peers) =~= seq![]);
    }
}

/// Whether the entry at an index says this of a device, and no later one says anything of it.
pub open spec fn says_last(peers: Seq<TrustView>, i: int, x: TrustView) -> bool {
    &&& 0 <= i < peers.len()
    &&& peers[i] == x
    &&& forall|j: int| i < j < peers.len() ==> (#[trigger] peers[j]).peer_id != x.peer_id
}

/// Devices one after the other make a list in order.
pub proof fn lemma_gathered(peers: Seq<TrustView>)
    ensures
        sorted(gathered(peers)),
    decreases peers.len(),
{
    if peers.len() > 0 {
        lemma_gathered(peers.drop_last());
        law_a_paired_device_is_on_the_list(gathered(peers.drop_last()), peers.last());
    }
}

/// The place of an identifier in a list.
fn find_spot(list: &Vec<Trust>, peer: &str) -> (i: usize)
    ensures
        i == spot(trusts_view(list@), peer@),
        i <= list@.len(),
{
    let ghost all = trusts_view(list@);
    let mut i: usize = 0;
    assert(all.skip(0) =~= all);
    while i < list.len() && text::comes_before(list[i].peer_id.as_str(), peer)
        invariant
            all == trusts_view(list@),
            i <= list@.len(),
            spot(all, peer@) == i + spot(all.skip(i as int), peer@),
        decreases list.len() - i,
    {
        assert(all.skip(i as int)[0] == all[i as int]);
        assert(all.skip(i as int).drop_first() =~= all.skip(i + 1));
        i = i + 1;
    }
    if i < list.len() {
        assert(all.skip(i as int)[0] == all[i as int]);
    }
    i
}

/// The index of a device on a list.
pub fn find(list: &Vec<Trust>, peer: &str) -> (r: Option<usize>)
    ensures
        match r {
            Some(i) => is_paired(trusts_view(list@), peer@) && i == spot(trusts_view(list@), peer@) && i < list@.len(),
            None => !is_paired(trusts_view(list@), peer@),
        },
{
    let i = find_spot(list, peer);
    if i < list.len() && text::same(list[i].peer_id.as_str(), peer) {
        Some(i)
    } else {
        None
    }
}

/// Puts a device on a list.
pub fn put(list: &mut Vec<Trust>, t: Trust)
    ensures
        trusts_view(final(list)@) == with_peer(trusts_view(old(list)@), t@),
{
    let ghost all = trusts_view(list@);
    let i = find_spot(list, t.peer_id.as_str());
    if i < list.len() && text::same(list[i].peer_id.as_str(), t.peer_id.as_str()) {
        list[i] = t;
    } else {
        list.insert(i, t);
    }
    assert(trusts_view(list@) =~= with_peer(all, t@));
}

/// Takes a device off a list.
pub fn take(list: &mut Vec<Trust>, peer: &str)
    ensures
        trusts_view(final(list)@) == without_peer(trusts_view(old(list)@), peer@),
{
    let ghost all = trusts_view(list@);
    match find(list, peer) {
        Some(i) => {
            list.remove(i);
        },
        None => {},
    }
    assert(trusts_view(list@) =~= without_peer(all, peer@));
}

/// Whether a device is on a list.
pub fn contains(list: &Vec<Trust>, peer: &str) -> (r: bool)
    ensures
        r == is_paired(trusts_view(list@), peer@),
{
    find(list, peer).is_some()
}

/// Whether a device is on a list and may start sessions.
pub fn allows(list: &Vec<Trust>, peer: &str) -> (r: bool)
    ensures
        r == may_start(trusts_view(list@), peer@),
{
    match find(list, peer) {
        Some(i) => list[i].allow_remote,
        None => false,
    }
}

/// A copy of a list.
pub fn copy(list: &Vec<Trust>) -> (r: Vec<Trust>)
    ensures
        trusts_view(r@) == trusts_view(list@),
{
    let mut r: Vec<Trust> = Vec::new();
    let mut i: usize = 0;
    while i < list.len()
        invariant
            i <= list@.len(),
            r@.len() == i,
            forall|j: int| 0 <= j < i ==> (#[trigger] r@[j])@ == list@[j]@,
        decreases list.len() - i,
    {
        r.push(list[i].clone());
        i = i + 1;
    }
    assert(trusts_view(r@) =~= trusts_view(list@));
    r
}

} // verus!
