//! Actuator commands and the registry of nodes that can carry them out.
use vstd::prelude::*;

verus! {

/// A command a node can carry out. Two commands that differ only in their
/// parameters address the same affector.
#[derive(Clone, Copy, Debug, PartialEq, Eq, Structural)]
pub enum Affector {
    Sps30FanClean,
    Mhz14Calibrate,
    Nau7802LeftCalibrate { known_weight_g: u32 },
    Nau7802RightCalibrate { known_weight_g: u32 },
}

impl Affector {
    /// The addressing part of the command, without its parameters.
    pub open spec fn target(self) -> u8 {
        match self {
            Affector::Sps30FanClean => 0,
            Affector::Mhz14Calibrate => 1,
            Affector::Nau7802LeftCalibrate { .. } => 2,
            Affector::Nau7802RightCalibrate { .. } => 3,
        }
    }

    pub open spec fn same(self, other: Affector) -> bool {
        self.target() == other.target()
    }

    pub fn is_same_as(&self, other: &Affector) -> (r: bool)
        ensures
            r == self.same(*other),
    {
        let a: u8 = match self {
            Affector::Sps30FanClean => 0,
            Affector::Mhz14Calibrate => 1,
            Affector::Nau7802LeftCalibrate { .. } => 2,
            Affector::Nau7802RightCalibrate { .. } => 3,
        };
        let b: u8 = match other {
            Affector::Sps30FanClean => 0,
            Affector::Mhz14Calibrate => 1,
            Affector::Nau7802LeftCalibrate { .. } => 2,
            Affector::Nau7802RightCalibrate { .. } => 3,
        };
        a == b
    }
}

/// No two entries of `controls` address the same affector.
pub open spec fn distinct_targets(controls: Seq<Affector>) -> bool {
    forall|i: int, j: int|
        0 <= i < controls.len() && 0 <= j < controls.len() && (#[trigger] controls[i]).same(
            #[trigger] controls[j],
        ) ==> i == j
}

/// `controls` with `new` put in place of the entry addressing the same
/// affector, or appended when there is none.
pub open spec fn updated(controls: Seq<Affector>, new: Affector) -> Seq<Affector> {
    if exists|i: int| 0 <= i < controls.len() && (#[trigger] controls[i]).same(new) {
        let i = choose|i: int| 0 <= i < controls.len() && (#[trigger] controls[i]).same(new);
        controls.update(i, new)
    } else {
        controls.push(new)
    }
}

/// A connected node and the affectors it announced.
pub struct Registration {
    pub key: u64,
    pub controls: Vec<Affector>,
}

impl Registration {
    fn update(&mut self, new: Affector)
        requires
            distinct_targets(old(self).controls@),
        ensures
            final(self).key == old(self).key,
            final(self).controls@ == updated(old(self).controls@, new),
            distinct_targets(final(self).controls@),
    {
        let mut i: usize = 0;
        while i < self.controls.len()
            invariant
                i <= self.controls@.len(),
                self.controls@ == old(self).controls@,
                self.key == old(self).key,
                distinct_targets(self.controls@),
                forall|j: int| 0 <= j < i ==> !(#[trigger] self.controls@[j]).same(new),
            decreases self.controls@.len() - i,
        {
            if self.controls[i].is_same_as(&new) {
                self.controls.set(i, new);
                proof {
                    let c = old(self).controls@;
                    let k = choose|k: int| 0 <= k < c.len() && (#[trigger] c[k]).same(new);
                    assert(c[k].same(c[i as int]));
                    assert(updated(c, new) == c.update(i as int, new));
                    assert forall|a: int, b: int|
                        0 <= a < self.controls@.len() && 0 <= b < self.controls@.len()
                            && (#[trigger] self.controls@[a]).same(
                            #[trigger] self.controls@[b],
                        ) implies a == b by {
                        if a != i && b != i {
                            assert(c[a].same(c[b]));
                        } else if a == i && b != i {
                            assert(c[i as int].same(c[b]));
                        } else if b == i && a != i {
                            assert(c[a].same(c[i as int]));
                        }
                    }
                }
                return;
            }
            i = i + 1;
        }
        self.controls.push(new);
        proof {
            let c = old(self).controls@;
            assert(!exists|k: int| 0 <= k < c.len() && (#[trigger] c[k]).same(new));
            assert forall|a: int, b: int|
                0 <= a < self.controls@.len() && 0 <= b < self.controls@.len()
                    && (#[trigger] self.controls@[a]).same(#[trigger] self.controls@[b]) implies a
                == b by {
                if a < c.len() && b < c.len() {
                    assert(c[a].same(c[b]));
                }
            }
        }
    }
}

/// No registered node accepted the order.
#[derive(Clone, Copy, Debug, PartialEq, Eq, Structural)]
pub struct Offline;

/// Which connected node controls which affectors. Each node is known by the
/// key it got when it registered.
pub struct Registar {
    registrations: Vec<Registration>,
    next_key: u64,
}

/// The keys, in registration order, of the registrations whose controls
/// hold `order` exactly.
pub open spec fn controllers(regs: Seq<Registration>, order: Affector) -> Seq<u64>
    decreases regs.len(),
{
    if regs.len() == 0 {
        Seq::empty()
    } else {
        let rest = controllers(regs.drop_last(), order);
        if regs.last().controls@.contains(order) {
            rest.push(regs.last().key)
        } else {
            rest
        }
    }
}

/// All controls of all registrations, one registration after the other.
pub open spec fn all_controls(regs: Seq<Registration>) -> Seq<Affector>
    decreases regs.len(),
{
    if regs.len() == 0 {
        Seq::empty()
    } else {
        all_controls(regs.drop_last()) + regs.last().controls@
    }
}

impl Registar {
    pub closed spec fn regs(&self) -> Seq<Registration> {
        self.registrations@
    }

    pub closed spec fn next(&self) -> u64 {
        self.next_key
    }

    /// The keys currently registered.
    pub open spec fn keys(&self) -> Seq<u64> {
        self.regs().map_values(|r: Registration| r.key)
    }

    pub open spec fn wf(&self) -> bool {
        &&& forall|i: int|
            0 <= i < self.regs().len() ==> (#[trigger] self.regs()[i]).key < self.next()
                && distinct_targets(self.regs()[i].controls@)
        &&& forall|i: int, j: int|
            0 <= i < j < self.regs().len() ==> (#[trigger] self.regs()[i]).key
                != (#[trigger] self.regs()[j]).key
    }

    /// The registration stored under `key`, if any.
    pub open spec fn index_of(&self, key: u64) -> Option<int> {
        if exists|i: int| 0 <= i < self.regs().len() && (#[trigger] self.regs()[i]).key == key {
            Some(choose|i: int| 0 <= i < self.regs().len() && (#[trigger] self.regs()[i]).key == key)
        } else {
            None
        }
    }

    pub fn new() -> (r: Registar)
        ensures
            r.wf(),
            r.regs().len() == 0,
            r.next() == 0,
    {
        Registar { registrations: Vec::new(), next_key: 0 }
    }

    /// Registers a newly connected node, which controls nothing yet, under a
    /// fresh key. `None` once every key was handed out.
    pub fn register(&mut self) -> (r: Option<u64>)
        requires
            old(self).wf(),
        ensures
            final(self).wf(),
            r.is_none() == (old(self).next() == u64::MAX),
            r.is_none() ==> final(self).regs() == old(self).regs() && final(self).next() == old(
                self,
            ).next(),
            r.is_some() ==> r.unwrap() == old(self).next() && final(self).next() == old(self).next()
                + 1,
            r.is_some() ==> {
                &&& !old(self).keys().contains(r.unwrap())
                &&& final(self).regs().len() == old(self).regs().len() + 1
                &&& final(self).regs().drop_last() == old(self).regs()
                &&& final(self).regs().last().key == r.unwrap()
                &&& final(self).regs().last().controls@.len() == 0
            },
    {
        if self.next_key == u64::MAX {
            return None;
        }
        let key = self.next_key;
        self.registrations.push(Registration { key, controls: Vec::new() });
        self.next_key = self.next_key + 1;
        proof {
            assert(self.regs().drop_last() =~= old(self).regs());
            if old(self).keys().contains(key) {
                let i = choose|i: int| 0 <= i < old(self).keys().len() && old(self).keys()[i] == key;
                assert(old(self).regs()[i].key < old(self).next());
            }
        }
        Some(key)
    }

    fn find(&self, key: u64) -> (r: Option<usize>)
        requires
            self.wf(),
        ensures
            r.is_some() == self.index_of(key).is_some(),
            r.is_some() ==> r.unwrap() < self.regs().len() && self.regs()[r.unwrap() as int].key == key
                && self.index_of(key) == Some(r.unwrap() as int),
    {
        let mut i: usize = 0;
        while i < self.registrations.len()
            invariant
                self.wf(),
                i <= self.regs().len(),
                forall|j: int| 0 <= j < i ==> (#[trigger] self.regs()[j]).key != key,
            decreases self.regs().len() - i,
        {
            if self.registrations[i].key == key {
                proof {
                    let k = choose|k: int|
                        0 <= k < self.regs().len() && (#[trigger] self.regs()[k]).key == key;
                    if k != i {
                        if k < i {
                            assert(self.regs()[k].key != self.regs()[i as int].key);
                        } else {
                            assert(self.regs()[i as int].key != self.regs()[k].key);
                        }
                    }
                }
                return Some(i);
            }
            i = i + 1;
        }
        None
    }

    /// Records that the node under `key` controls `affector`: it replaces the
    /// entry addressing the same affector, or is appended.
    pub fn update_affectors(&mut self, key: u64, affector: Affector)
        requires
            old(self).wf(),
            old(self).index_of(key).is_some(),
        ensures
            final(self).wf(),
            final(self).next() == old(self).next(),
            final(self).keys() == old(self).keys(),
            ({
                let i = old(self).index_of(key).unwrap();
                final(self).regs() == old(self).regs().update(
                    i,
                    Registration {
                        controls: final(self).regs()[i].controls,
                        ..old(self).regs()[i]
                    },
                ) && final(self).regs()[i].controls@ == updated(
                    old(self).regs()[i].controls@,
                    affector,
                )
            }),
    {
        let i = self.find(key).unwrap();
        let mut reg = self.registrations.remove(i);
        reg.update(affector);
        self.registrations.insert(i, reg);
        proof {
            assert(self.keys() =~= old(self).keys()) by {
                assert forall|j: int| 0 <= j < self.regs().len() implies self.regs()[j].key
                    == old(self).regs()[j].key by {
                    if j != i {
                        assert(self.regs()[j] == old(self).regs()[j]);
                    }
                }
            }
            assert(self.regs() =~= old(self).regs().update(
                i as int,
                Registration { controls: self.regs()[i as int].controls, ..old(self).regs()[i as int] },
            ));
        }
    }

    /// Forgets the node under `key`.
    pub fn remove(&mut self, key: u64)
        requires
            old(self).wf(),
            old(self).index_of(key).is_some(),
        ensures
            final(self).wf(),
            final(self).next() == old(self).next(),
            final(self).regs() == old(self).regs().remove(old(self).index_of(key).unwrap()),
            !final(self).keys().contains(key),
    {
        let i = self.find(key).unwrap();
        self.registrations.remove(i);
        proof {
            if self.keys().contains(key) {
                let j = choose|j: int| 0 <= j < self.keys().len() && self.keys()[j] == key;
                if j < i {
                    assert(old(self).regs()[j].key != old(self).regs()[i as int].key);
                } else {
                    assert(old(self).regs()[i as int].key != old(self).regs()[j + 1].key);
                }
            }
        }
    }

    /// The keys, in registration order, of the nodes that control `order`.
    pub fn controllers_of(&self, order: Affector) -> (r: Vec<u64>)
        ensures
            r@ == controllers(self.regs(), order),
    {
        let mut r: Vec<u64> = Vec::new();
        for i in 0..self.registrations.len()
            invariant
                r@ == controllers(self.regs().subrange(0, i as int), order),
        {
            let reg = &self.registrations[i];
            let mut found = false;
            for j in 0..reg.controls.len()
                invariant
                    found == exists|k: int| 0 <= k < j && reg.controls@[k] == order,
            {
                if reg.controls[j] == order {
                    found = true;
                }
            }
            proof {
                assert(self.regs().subrange(0, i + 1).drop_last() =~= self.regs().subrange(
                    0,
                    i as int,
                ));
                assert(found == reg.controls@.contains(order));
            }
            if found {
                r.push(reg.key);
            }
        }
        assert(self.regs().subrange(0, self.regs().len() as int) =~= self.regs());
        r
    }

    /// Settles an order: `accepted_by` is the key of the first node in
    /// [`Registar::controllers_of`] whose command channel took it, if any.
    /// That node's entry is updated with the order's parameters.
    pub fn activate(&mut self, order: Affector, accepted_by: Option<u64>) -> (r: Result<(), Offline>)
        requires
            old(self).wf(),
            accepted_by.is_some() ==> controllers(old(self).regs(), order).contains(
                accepted_by.unwrap(),
            ),
        ensures
            final(self).wf(),
            final(self).next() == old(self).next(),
            r.is_ok() == accepted_by.is_some(),
            accepted_by.is_none() ==> final(self).regs() == old(self).regs(),
            accepted_by.is_some() ==> ({
                let i = old(self).index_of(accepted_by.unwrap()).unwrap();
                &&& final(self).keys() == old(self).keys()
                &&& final(self).regs() == old(self).regs().update(
                    i,
                    Registration { controls: final(self).regs()[i].controls, ..old(self).regs()[i] },
                )
                &&& final(self).regs()[i].controls@ == updated(old(self).regs()[i].controls@, order)
            }),
    {
        match accepted_by {
            Some(key) => {
                proof {
                    lemma_controllers_registered(old(self).regs(), order, key);
                }
                self.update_affectors(key, order);
                Ok(())
            },
            None => Err(Offline),
        }
    }

    /// Every affector of every node, node after node.
    pub fn list(&self) -> (r: Vec<Affector>)
        ensures
            r@ == all_controls(self.regs()),
    {
        let mut r: Vec<Affector> = Vec::new();
        for i in 0..self.registrations.len()
            invariant
                r@ == all_controls(self.regs().subrange(0, i as int)),
        {
            let reg = &self.registrations[i];
            let ghost before = r@;
            for j in 0..reg.controls.len()
                invariant
                    r@ == before + reg.controls@.subrange(0, j as int),
            {
                r.push(reg.controls[j]);
                assert(reg.controls@.subrange(0, j + 1) =~= reg.controls@.subrange(0, j as int).push(
                    reg.controls@[j as int],
                ));
            }
            proof {
                assert(reg.controls@.subrange(0, reg.controls@.len() as int) =~= reg.controls@);
                assert(self.regs().subrange(0, i + 1).drop_last() =~= self.regs().subrange(
                    0,
                    i as int,
                ));
            }
        }
        assert(self.regs().subrange(0, self.regs().len() as int) =~= self.regs());
        r
    }
}

proof fn lemma_controllers_registered(regs: Seq<Registration>, order: Affector, key: u64)
    requires
        controllers(regs, order).contains(key),
    ensures
        exists|i: int| 0 <= i < regs.len() && (#[trigger] regs[i]).key == key,
    decreases regs.len(),
{
    if regs.len() > 0 {
        let rest = controllers(regs.drop_last(), order);
        if rest.contains(key) {
            lemma_controllers_registered(regs.drop_last(), order, key);
            let i = choose|i: int|
                0 <= i < regs.drop_last().len() && (#[trigger] regs.drop_last()[i]).key == key;
            assert(regs[i].key == key);
        } else {
            assert(regs[regs.len() - 1].key == key);
        }
    }
}

/// After `update_affectors(h, a)` the node `h` controls exactly one affector
/// addressing the same target as `a`, and that entry is `a` itself, however
/// often an affector with that target was announced before.
pub proof fn lemma_update_leaves_one(controls: Seq<Affector>, a: Affector)
    requires
        distinct_targets(controls),
    ensures
        distinct_targets(updated(controls, a)),
        updated(controls, a).contains(a),
        forall|i: int|
            0 <= i < updated(controls, a).len() && (#[trigger] updated(controls, a)[i]).same(a)
                ==> updated(controls, a)[i] == a,
{
    let u = updated(controls, a);
    if exists|i: int| 0 <= i < controls.len() && (#[trigger] controls[i]).same(a) {
        let k = choose|i: int| 0 <= i < controls.len() && (#[trigger] controls[i]).same(a);
        assert(u[k] == a);
        assert forall|i: int| 0 <= i < u.len() && (#[trigger] u[i]).same(a) implies u[i] == a by {
            if i != k {
                assert(controls[i].same(controls[k]));
            }
        }
        assert forall|x: int, y: int|
            0 <= x < u.len() && 0 <= y < u.len() && (#[trigger] u[x]).same(#[trigger] u[y])
                implies x == y by {
            if x != k && y != k {
                assert(controls[x].same(controls[y]));
            } else if x == k && y != k {
                assert(controls[k].same(controls[y]));
            } else if y == k && x != k {
                assert(controls[x].same(controls[k]));
            }
        }
    } else {
        assert(u[controls.len() as int] == a);
        assert forall|x: int, y: int|
            0 <= x < u.len() && 0 <= y < u.len() && (#[trigger] u[x]).same(#[trigger] u[y])
                implies x == y by {
            if x < controls.len() && y < controls.len() {
                assert(controls[x].same(controls[y]));
            }
        }
    }
}

/// A node that announced `a` is among the controllers of `a`, so an order
/// for `a` reaches its command channel.
pub proof fn lemma_announced_is_controller(regs: Seq<Registration>, i: int, a: Affector)
    requires
        0 <= i < regs.len(),
        regs[i].controls@.contains(a),
    ensures
        controllers(regs, a).contains(regs[i].key),
    decreases regs.len(),
{
    let rest = controllers(regs.drop_last(), a);
    if i == regs.len() - 1 {
        assert(controllers(regs, a).last() == regs[i].key);
    } else {
        assert(regs.drop_last()[i] == regs[i]);
        lemma_announced_is_controller(regs.drop_last(), i, a);
        let j = choose|j: int| 0 <= j < rest.len() && rest[j] == regs[i].key;
        if regs.last().controls@.contains(a) {
            assert(controllers(regs, a)[j] == regs[i].key);
        }
    }
}

/// How many entries of `s` address the same affector as `a`.
pub open spec fn count_same(s: Seq<Affector>, a: Affector) -> nat
    decreases s.len(),
{
    if s.len() == 0 {
        0
    } else {
        count_same(s.drop_last(), a) + if s.last().same(a) {
            1nat
        } else {
            0nat
        }
    }
}

proof fn lemma_count_concat(x: Seq<Affector>, y: Seq<Affector>, a: Affector)
    ensures
        count_same(x + y, a) == count_same(x, a) + count_same(y, a),
    decreases y.len(),
{
    if y.len() == 0 {
        assert(x + y =~= x);
    } else {
        lemma_count_concat(x, y.drop_last(), a);
        assert((x + y).drop_last() =~= x + y.drop_last());
    }
}

proof fn lemma_count_none(s: Seq<Affector>, a: Affector)
    requires
        forall|k: int| 0 <= k < s.len() ==> !(#[trigger] s[k]).same(a),
    ensures
        count_same(s, a) == 0,
    decreases s.len(),
{
    if s.len() > 0 {
        lemma_count_none(s.drop_last(), a);
    }
}

proof fn lemma_count_one(s: Seq<Affector>, a: Affector, i: int)
    requires
        0 <= i < s.len(),
        s[i].same(a),
        forall|k: int| 0 <= k < s.len() && k != i ==> !(#[trigger] s[k]).same(a),
    ensures
        count_same(s, a) == 1,
    decreases s.len(),
{
    if i == s.len() - 1 {
        lemma_count_none(s.drop_last(), a);
    } else {
        lemma_count_one(s.drop_last(), a, i);
    }
}

proof fn lemma_all_controls_source(regs: Seq<Registration>, k: int)
    requires
        0 <= k < all_controls(regs).len(),
    ensures
        exists|j: int, m: int|
            0 <= j < regs.len() && 0 <= m < regs[j].controls@.len() && regs[j].controls@[m]
                == all_controls(regs)[k],
    decreases regs.len(),
{
    let prev = all_controls(regs.drop_last());
    if k < prev.len() {
        lemma_all_controls_source(regs.drop_last(), k);
        let (j, m) = choose|j: int, m: int|
            0 <= j < regs.drop_last().len() && 0 <= m < regs.drop_last()[j].controls@.len()
                && regs.drop_last()[j].controls@[m] == prev[k];
        assert(regs[j] == regs.drop_last()[j]);
    } else {
        let j = regs.len() - 1;
        assert(all_controls(regs)[k] == regs[j].controls@[k - prev.len()]);
    }
}

proof fn lemma_count_all_controls(regs: Seq<Registration>, i: int, a: Affector)
    requires
        0 <= i < regs.len(),
        count_same(regs[i].controls@, a) == 1,
        forall|j: int| 0 <= j < regs.len() && j != i ==> count_same(#[trigger] regs[j].controls@, a) == 0,
    ensures
        count_same(all_controls(regs), a) == 1,
    decreases regs.len(),
{
    let last = regs.len() - 1;
    lemma_count_concat(all_controls(regs.drop_last()), regs[last].controls@, a);
    if i == last {
        lemma_count_zero_all(regs.drop_last(), a);
    } else {
        assert forall|j: int| 0 <= j < regs.drop_last().len() && j != i implies count_same(
            #[trigger] regs.drop_last()[j].controls@,
            a,
        ) == 0 by {
            assert(regs.drop_last()[j] == regs[j]);
        }
        assert(regs.drop_last()[i] == regs[i]);
        lemma_count_all_controls(regs.drop_last(), i, a);
    }
}

proof fn lemma_count_zero_all(regs: Seq<Registration>, a: Affector)
    requires
        forall|j: int| 0 <= j < regs.len() ==> count_same(#[trigger] regs[j].controls@, a) == 0,
    ensures
        count_same(all_controls(regs), a) == 0,
    decreases regs.len(),
{
    if regs.len() > 0 {
        let last = regs.len() - 1;
        assert forall|j: int| 0 <= j < regs.drop_last().len() implies count_same(
            #[trigger] regs.drop_last()[j].controls@,
            a,
        ) == 0 by {
            assert(regs.drop_last()[j] == regs[j]);
        }
        lemma_count_zero_all(regs.drop_last(), a);
        lemma_count_concat(all_controls(regs.drop_last()), regs[last].controls@, a);
    }
}

/// When node `i` announced `a` (so that, by [`lemma_update_leaves_one`], it
/// holds exactly one entry addressing `a`'s target, `a` itself) and no other
/// node controls that target, the list of all affectors holds that target
/// exactly once, as `a`.
pub proof fn lemma_list_holds_once(regs: Seq<Registration>, i: int, a: Affector)
    requires
        0 <= i < regs.len(),
        distinct_targets(regs[i].controls@),
        regs[i].controls@.contains(a),
        forall|k: int|
            0 <= k < regs[i].controls@.len() && (#[trigger] regs[i].controls@[k]).same(a)
                ==> regs[i].controls@[k] == a,
        forall|j: int, k: int|
            0 <= j < regs.len() && j != i && 0 <= k < regs[j].controls@.len() ==> !(
            #[trigger] regs[j].controls@[k]).same(a),
    ensures
        count_same(all_controls(regs), a) == 1,
        forall|k: int|
            0 <= k < all_controls(regs).len() && (#[trigger] all_controls(regs)[k]).same(a)
                ==> all_controls(regs)[k] == a,
{
    let c = regs[i].controls@;
    let p = choose|p: int| 0 <= p < c.len() && c[p] == a;
    assert forall|k: int| 0 <= k < c.len() && k != p implies !(#[trigger] c[k]).same(a) by {
        if c[k].same(a) {
            assert(c[k].same(c[p]));
        }
    }
    lemma_count_one(c, a, p);
    assert forall|j: int| 0 <= j < regs.len() && j != i implies count_same(
        #[trigger] regs[j].controls@,
        a,
    ) == 0 by {
        assert forall|k: int| 0 <= k < regs[j].controls@.len() implies !(
        #[trigger] regs[j].controls@[k]).same(a) by {
            assert(!regs[j].controls@[k].same(a));
        }
        lemma_count_none(regs[j].controls@, a);
    }
    lemma_count_all_controls(regs, i, a);
    assert forall|k: int|
        0 <= k < all_controls(regs).len() && (#[trigger] all_controls(regs)[k]).same(a)
            implies all_controls(regs)[k] == a by {
        lemma_all_controls_source(regs, k);
        let (j, m) = choose|j: int, m: int|
            0 <= j < regs.len() && 0 <= m < regs[j].controls@.len() && regs[j].controls@[m]
                == all_controls(regs)[k];
        if j != i {
            assert(!regs[j].controls@[m].same(a));
        }
    }
}

} // verus!
