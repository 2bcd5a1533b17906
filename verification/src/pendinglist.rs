//! Pending-mutation registry.
//!
//! An ordered collection whose structural changes are staged: `add` and
//! `remove` only append to pending queues, and `handlePending` applies both
//! queues to the live sequence at an explicit commit point.  This keeps the
//! live sequence stable while a frame iterates it; commits happen between
//! frames.
//!
//! Additions commit in arrival order.  Each staged removal, in arrival
//! order, takes out the first identical live element and is a silent no-op
//! when no element matches.

use vstd::laws_eq::obeys_concrete_eq;
use vstd::prelude::*;

verus! {

#[allow(non_snake_case)]
pub struct PendingList<T> {
    objects: Vec<T>,
    pendingAdd: Vec<T>,
    pendingRemove: Vec<T>,
}

/// Mathematical view of a registry: the live sequence and the two staging
/// queues.
#[verifier::ext_equal]
#[allow(non_snake_case)]
pub ghost struct PendingListV<T> {
    pub objects: Seq<T>,
    pub pendingAdd: Seq<T>,
    pub pendingRemove: Seq<T>,
}

impl<T> View for PendingList<T> {
    type V = PendingListV<T>;

    closed spec fn view(&self) -> PendingListV<T> {
        PendingListV {
            objects: self.objects@,
            pendingAdd: self.pendingAdd@,
            pendingRemove: self.pendingRemove@,
        }
    }
}

/// `s` without its first element equal to `x`; `s` itself when none is.
pub open spec fn remove_first<T>(s: Seq<T>, x: T) -> Seq<T>
    decreases s.len(),
{
    if s.len() == 0 {
        s
    } else if s[0] == x {
        s.drop_first()
    } else {
        seq![s[0]] + remove_first(s.drop_first(), x)
    }
}

/// Each staged removal applied in arrival order.
pub open spec fn apply_removes<T>(s: Seq<T>, rem: Seq<T>) -> Seq<T>
    decreases rem.len(),
{
    if rem.len() == 0 {
        s
    } else {
        apply_removes(remove_first(s, rem[0]), rem.drop_first())
    }
}

/// What `add` stages.
pub open spec fn add_spec<T>(l: PendingListV<T>, x: T) -> PendingListV<T> {
    PendingListV { pendingAdd: l.pendingAdd.push(x), ..l }
}

/// What `remove` stages.
pub open spec fn remove_spec<T>(l: PendingListV<T>, x: T) -> PendingListV<T> {
    PendingListV { pendingRemove: l.pendingRemove.push(x), ..l }
}

/// What `handlePending` commits: additions drain into the live sequence in
/// arrival order, then the staged removals apply in arrival order.
pub open spec fn commit_spec<T>(l: PendingListV<T>) -> PendingListV<T> {
    PendingListV {
        objects: apply_removes(l.objects + l.pendingAdd, l.pendingRemove),
        pendingAdd: Seq::empty(),
        pendingRemove: Seq::empty(),
    }
}

/// Removes the first element of `v` equal to `x`, returning its index, or
/// `None` (and leaving `v` unchanged) when no element is equal.
pub fn remove_elem<T: PartialEq>(v: &mut Vec<T>, x: T) -> (r: Option<usize>)
    requires
        obeys_concrete_eq::<T>(),
    ensures
        final(v)@ == remove_first(old(v)@, x),
        match r {
            Some(i) => {
                &&& 0 <= i < old(v)@.len()
                &&& old(v)@[i as int] == x
                &&& forall|j: int| 0 <= j < i ==> old(v)@[j] != x
                &&& final(v)@ == old(v)@.remove(i as int)
            },
            None => {
                &&& forall|j: int| 0 <= j < old(v)@.len() ==> old(v)@[j] != x
                &&& final(v)@ == old(v)@
            },
        },
{
    proof {
        reveal(vstd::laws_eq::obeys_concrete_eq);
    }
    let n = v.len();
    let mut i: usize = 0;
    while i < n
        invariant
            obeys_concrete_eq::<T>(),
            v@ == old(v)@,
            n == v@.len(),
            0 <= i <= n,
            forall|j: int| 0 <= j < i ==> v@[j] != x,
        decreases n - i,
    {
        proof {
            reveal(vstd::laws_eq::obeys_concrete_eq);
        }
        if v[i] == x {
            let ghost prefix = v@;
            v.remove(i);
            proof {
                lemma_remove_first_at(prefix, x, i as int);
            }
            return Some(i);
        }
        i += 1;
    }
    proof {
        lemma_remove_first_absent(v@, x);
    }
    None
}

/// When no element equals `x`, removing the first match changes nothing.
proof fn lemma_remove_first_absent<T>(s: Seq<T>, x: T)
    requires
        forall|j: int| 0 <= j < s.len() ==> s[j] != x,
    ensures
        remove_first(s, x) == s,
    decreases s.len(),
{
    if s.len() == 0 {
    } else {
        assert(s[0] != x);
        lemma_remove_first_absent(s.drop_first(), x);
        assert(seq![s[0]] + s.drop_first() =~= s);
    }
}

/// When the first match sits at index `i`, removing the first match is
/// removal at `i`.
proof fn lemma_remove_first_at<T>(s: Seq<T>, x: T, i: int)
    requires
        0 <= i < s.len(),
        s[i] == x,
        forall|j: int| 0 <= j < i ==> s[j] != x,
    ensures
        remove_first(s, x) == s.remove(i),
    decreases i,
{
    if i == 0 {
        assert(s.drop_first() =~= s.remove(0));
    } else {
        assert(s[0] != x);
        lemma_remove_first_at(s.drop_first(), x, i - 1);
        assert(seq![s[0]] + s.drop_first().remove(i - 1) =~= s.remove(i));
    }
}

/// An empty registry.
#[allow(non_snake_case)]
pub fn PendingList<T>() -> (r: PendingList<T>)
    ensures
        r@.objects == Seq::<T>::empty(),
        r@.pendingAdd == Seq::<T>::empty(),
        r@.pendingRemove == Seq::<T>::empty(),
{
    PendingList { objects: Vec::new(), pendingAdd: Vec::new(), pendingRemove: Vec::new() }
}

impl<T> PendingList<T> {
    /// Stages `object` for addition; the live sequence is untouched until
    /// the next commit.
    pub fn add(&mut self, object: T)
        ensures
            final(self)@ == add_spec(old(self)@, object),
    {
        self.pendingAdd.push(object);
    }

    /// Stages `object` for removal; the live sequence is untouched until
    /// the next commit.
    pub fn remove(&mut self, object: T)
        ensures
            final(self)@ == remove_spec(old(self)@, object),
    {
        self.pendingRemove.push(object);
    }

    /// The live elements, in registration order.
    pub fn each(&self) -> (r: &Vec<T>)
        ensures
            r@ == self@.objects,
    {
        &self.objects
    }

    /// How many live elements an iteration will visit.
    pub fn size_hint(&self) -> (r: Option<usize>)
        ensures
            r == Some((self@.objects.len() as usize)),
    {
        Some(self.objects.len())
    }

    /// Applies `f` to every live element in registration order, storing
    /// each result in the element's place.  The visitor must not touch
    /// registry structure, which holding `&mut self` here enforces.
    pub fn each_mut<F: Fn(&T) -> T>(&mut self, f: F)
        requires
            forall|i: int|
                #![trigger old(self)@.objects[i]]
                0 <= i < old(self)@.objects.len() ==> call_requires(f, (&old(self)@.objects[i],)),
        ensures
            final(self)@.objects.len() == old(self)@.objects.len(),
            forall|i: int|
                #![trigger final(self)@.objects[i]]
                0 <= i < final(self)@.objects.len() ==> call_ensures(
                    f,
                    (&old(self)@.objects[i],),
                    final(self)@.objects[i],
                ),
            final(self)@.pendingAdd == old(self)@.pendingAdd,
            final(self)@.pendingRemove == old(self)@.pendingRemove,
    {
        let n = self.objects.len();
        let mut updated: Vec<T> = Vec::new();
        let mut i: usize = 0;
        while i < n
            invariant
                n == self.objects.len(),
                self.objects@ == old(self)@.objects,
                0 <= i <= n,
                updated@.len() == i,
                forall|j: int|
                    #![trigger updated@[j]]
                    0 <= j < i ==> call_ensures(f, (&old(self)@.objects[j],), updated@[j]),
                forall|j: int|
                    #![trigger old(self)@.objects[j]]
                    0 <= j < n ==> call_requires(f, (&old(self)@.objects[j],)),
            decreases n - i,
        {
            updated.push(f(&self.objects[i]));
            i += 1;
        }
        self.objects = updated;
    }
}

impl<T: PartialEq> PendingList<T> {
    /// The commit point: drains the staged additions into the live
    /// sequence in arrival order, then applies the staged removals in
    /// arrival order, each taking out the first matching live element.
    #[allow(non_snake_case)]
    pub fn handlePending(&mut self)
        requires
            obeys_concrete_eq::<T>(),
        ensures
            final(self)@ == commit_spec(old(self)@),
    {
        self.objects.append(&mut self.pendingAdd);
        let ghost merged = self.objects@;
        let ghost removes = self.pendingRemove@;
        while self.pendingRemove.len() > 0
            invariant
                obeys_concrete_eq::<T>(),
                apply_removes(merged, removes) == apply_removes(
                    self.objects@,
                    self.pendingRemove@,
                ),
                self.pendingAdd@.len() == 0,
            decreases self.pendingRemove@.len(),
        {
            let x = self.pendingRemove.remove(0);
            remove_elem(&mut self.objects, x);
        }
        proof {
            assert(self@.objects =~= apply_removes(
                old(self)@.objects + old(self)@.pendingAdd,
                old(self)@.pendingRemove,
            ));
            assert(self@.pendingAdd =~= Seq::<T>::empty());
            assert(self@.pendingRemove =~= Seq::<T>::empty());
        }
    }
}

/// LAW — arrival order: committing a registry whose queues held nothing
/// before `add(a); add(b)` appends exactly `[a, b]` to the live sequence,
/// in arrival order.
pub proof fn lemma_commit_arrival_order<T>(l: PendingListV<T>, a: T, b: T)
    requires
        l.pendingAdd == Seq::<T>::empty(),
        l.pendingRemove == Seq::<T>::empty(),
    ensures
        commit_spec(add_spec(add_spec(l, a), b)).objects == l.objects + seq![a, b],
{
    let staged = add_spec(add_spec(l, a), b);
    assert(staged.pendingRemove.len() == 0);
    assert(commit_spec(staged).objects == staged.objects + staged.pendingAdd);
    assert(staged.objects + staged.pendingAdd =~= l.objects + seq![a, b]);
}

/// LAW — removal: committing a single staged removal takes out exactly the
/// first live element equal to `x`.
pub proof fn lemma_commit_remove_first<T>(l: PendingListV<T>, x: T)
    requires
        l.pendingAdd == Seq::<T>::empty(),
        l.pendingRemove == Seq::<T>::empty(),
    ensures
        commit_spec(remove_spec(l, x)).objects == remove_first(l.objects, x),
{
    let staged = remove_spec(l, x);
    assert(staged.objects + staged.pendingAdd =~= l.objects);
    assert(staged.pendingRemove.len() == 1);
    assert(staged.pendingRemove[0] == x);
    let s1 = remove_first(l.objects, x);
    assert(apply_removes(l.objects, staged.pendingRemove) == apply_removes(
        s1,
        staged.pendingRemove.drop_first(),
    ));
    assert(staged.pendingRemove.drop_first().len() == 0);
    assert(apply_removes(s1, staged.pendingRemove.drop_first()) == s1);
}

/// LAW — removing an element that is not live is a no-op: the live
/// sequence is unchanged after the commit.
pub proof fn lemma_commit_remove_absent<T>(l: PendingListV<T>, x: T)
    requires
        l.pendingAdd == Seq::<T>::empty(),
        l.pendingRemove == Seq::<T>::empty(),
        forall|j: int| 0 <= j < l.objects.len() ==> l.objects[j] != x,
    ensures
        commit_spec(remove_spec(l, x)).objects == l.objects,
{
    lemma_commit_remove_first(l, x);
    lemma_remove_first_absent(l.objects, x);
}

} // verus!
